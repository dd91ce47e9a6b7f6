//! Byte-level reading and writing primitives.
//!
//! Decoding never touches raw index arithmetic directly: it goes through the
//! primitives here, each of which advances an explicit cursor over the
//! datagram buffer and reports `TruncatedBuffer` when the bytes run out.
//! All multi-byte quantities on the wire are big-endian.

use crate::errors::DnsError;
use vstd::prelude::*;

verus! {

/// The 16-bit big-endian value formed by two bytes.
pub open spec fn spec_u16_be(hi: u8, lo: u8) -> int {
    hi * 256 + lo
}

/// The two big-endian bytes of a 16-bit value.
pub open spec fn spec_u16_bytes(x: u16) -> Seq<u8> {
    seq![(x / 256) as u8, (x % 256) as u8]
}

/// The 32-bit big-endian value formed by four bytes.
pub open spec fn spec_u32_be(b0: u8, b1: u8, b2: u8, b3: u8) -> int {
    b0 * 0x100_0000 + b1 * 0x1_0000 + b2 * 256 + b3
}

/// The four big-endian bytes of a 32-bit value.
pub open spec fn spec_u32_bytes(x: u32) -> Seq<u8> {
    seq![
        (x / 0x100_0000) as u8,
        ((x / 0x1_0000) % 256) as u8,
        ((x / 256) % 256) as u8,
        (x % 256) as u8,
    ]
}

/// A 16-bit value survives the trip through its big-endian bytes.
pub proof fn lemma_u16_bytes_round_trip(x: u16)
    ensures
        spec_u16_be(spec_u16_bytes(x)[0], spec_u16_bytes(x)[1]) == x,
{
}

/// A 32-bit value survives the trip through its big-endian bytes.
pub proof fn lemma_u32_bytes_round_trip(x: u32)
    ensures
        spec_u32_be(
            spec_u32_bytes(x)[0],
            spec_u32_bytes(x)[1],
            spec_u32_bytes(x)[2],
            spec_u32_bytes(x)[3],
        ) == x,
{
    assert(x / 0x100_0000 * 0x100_0000 + (x / 0x1_0000) % 256 * 0x1_0000 + (x / 256) % 256 * 256
        + x % 256 == x) by (bit_vector);
}

/// Reads one byte and advances the cursor past it.
pub fn read_u8(buffer: &[u8], cursor: &mut usize) -> (r: Result<u8, DnsError>)
    ensures
        match r {
            Ok(b) => {
                &&& *old(cursor) < buffer@.len()
                &&& b == buffer@[*old(cursor) as int]
                &&& *final(cursor) == *old(cursor) + 1
            },
            Err(e) => {
                &&& e == DnsError::TruncatedBuffer
                &&& *old(cursor) >= buffer@.len()
                &&& *final(cursor) == *old(cursor)
            },
        },
{
    if *cursor < buffer.len() {
        let b = buffer[*cursor];
        *cursor = *cursor + 1;
        Ok(b)
    } else {
        Err(DnsError::TruncatedBuffer)
    }
}

/// Reads a 16-bit big-endian value and advances the cursor past it.
pub fn read_u16(buffer: &[u8], cursor: &mut usize) -> (r: Result<u16, DnsError>)
    ensures
        match r {
            Ok(x) => {
                &&& *old(cursor) + 2 <= buffer@.len()
                &&& x == spec_u16_be(
                    buffer@[*old(cursor) as int],
                    buffer@[*old(cursor) + 1],
                )
                &&& *final(cursor) == *old(cursor) + 2
            },
            Err(e) => {
                &&& e == DnsError::TruncatedBuffer
                &&& *old(cursor) + 2 > buffer@.len()
                &&& *final(cursor) == *old(cursor)
            },
        },
{
    if *cursor < buffer.len() && buffer.len() - *cursor >= 2 {
        let hi = buffer[*cursor];
        let lo = buffer[*cursor + 1];
        *cursor = *cursor + 2;
        Ok((hi as u16) * 256 + (lo as u16))
    } else {
        Err(DnsError::TruncatedBuffer)
    }
}

/// Reads a 32-bit big-endian value and advances the cursor past it.
pub fn read_u32(buffer: &[u8], cursor: &mut usize) -> (r: Result<u32, DnsError>)
    ensures
        match r {
            Ok(x) => {
                &&& *old(cursor) + 4 <= buffer@.len()
                &&& x == spec_u32_be(
                    buffer@[*old(cursor) as int],
                    buffer@[*old(cursor) + 1],
                    buffer@[*old(cursor) + 2],
                    buffer@[*old(cursor) + 3],
                )
                &&& *final(cursor) == *old(cursor) + 4
            },
            Err(e) => {
                &&& e == DnsError::TruncatedBuffer
                &&& *old(cursor) + 4 > buffer@.len()
                &&& *final(cursor) == *old(cursor)
            },
        },
{
    if *cursor < buffer.len() && buffer.len() - *cursor >= 4 {
        let b0 = buffer[*cursor];
        let b1 = buffer[*cursor + 1];
        let b2 = buffer[*cursor + 2];
        let b3 = buffer[*cursor + 3];
        *cursor = *cursor + 4;
        Ok((b0 as u32) * 0x100_0000 + (b1 as u32) * 0x1_0000 + (b2 as u32) * 256 + (b3 as u32))
    } else {
        Err(DnsError::TruncatedBuffer)
    }
}

/// Reads exactly `n` bytes and advances the cursor past them.
pub fn read_bytes(buffer: &[u8], cursor: &mut usize, n: usize) -> (r: Result<Vec<u8>, DnsError>)
    ensures
        match r {
            Ok(v) => {
                &&& *old(cursor) + n <= buffer@.len()
                &&& v@ == buffer@.subrange(*old(cursor) as int, *old(cursor) + n)
                &&& *final(cursor) == *old(cursor) + n
            },
            Err(e) => {
                &&& e == DnsError::TruncatedBuffer
                &&& *old(cursor) + n > buffer@.len()
                &&& *final(cursor) == *old(cursor)
            },
        },
{
    if *cursor <= buffer.len() && buffer.len() - *cursor >= n {
        let mut v: Vec<u8> = Vec::new();
        let mut i: usize = 0;
        while i < n
            invariant
                *cursor + n <= buffer@.len(),
                buffer@.len() <= usize::MAX,
                i <= n,
                v@ =~= buffer@.subrange(*cursor as int, *cursor + i),
            decreases n - i,
        {
            v.push(buffer[*cursor + i]);
            i = i + 1;
        }
        *cursor = *cursor + n;
        Ok(v)
    } else {
        Err(DnsError::TruncatedBuffer)
    }
}

/// Appends the two big-endian bytes of a 16-bit value.
pub fn push_u16(out: &mut Vec<u8>, x: u16)
    ensures
        final(out)@ == old(out)@ + spec_u16_bytes(x),
{
    out.push((x / 256) as u8);
    out.push((x % 256) as u8);
    assert(out@ =~= old(out)@ + spec_u16_bytes(x));
}

/// Appends the four big-endian bytes of a 32-bit value.
pub fn push_u32(out: &mut Vec<u8>, x: u32)
    ensures
        final(out)@ == old(out)@ + spec_u32_bytes(x),
{
    out.push((x / 0x100_0000) as u8);
    out.push(((x / 0x1_0000) % 256) as u8);
    out.push(((x / 256) % 256) as u8);
    out.push((x % 256) as u8);
    assert(out@ =~= old(out)@ + spec_u32_bytes(x));
}

} // verus!
