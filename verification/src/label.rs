//! Labels and the domain-name codec.
//!
//! A domain name is a sequence of labels, each written as one length octet
//! (1 to 63) followed by that many content bytes, and closed by a single
//! zero octet.  On decode, an octet whose two high bits are set starts a
//! 2-byte compression pointer whose remaining 14 bits give the buffer
//! offset where the rest of the name is spelled out.  Pointers must point
//! strictly backward — before the start of the label run they occur in —
//! which is what every real encoder produces and what bounds the decoder
//! on adversarial input.  Encoding never produces pointers.

use crate::errors::DnsError;
use crate::traits::Encodable;
use vstd::prelude::*;

verus! {

/// One segment of a domain name: a length octet and that many content bytes.
pub struct Label {
    pub length: u8,
    pub content: Vec<u8>,
}

impl View for Label {
    type V = Seq<u8>;

    open spec fn view(&self) -> Seq<u8> {
        self.content@
    }
}

/// Label content is text: a single-byte (ASCII) character.
pub open spec fn is_text_byte(b: u8) -> bool {
    b < 0x80
}

/// A valid stretch of label content: 1 to 63 text bytes.  Zero length is
/// reserved for the name terminator and never holds content.
pub open spec fn label_wf(l: Seq<u8>) -> bool {
    &&& 1 <= l.len() <= 63
    &&& forall|i: int| 0 <= i < l.len() ==> is_text_byte(#[trigger] l[i])
}

/// The contents of a run of labels.
pub open spec fn labels_view(s: Seq<Label>) -> Seq<Seq<u8>> {
    s.map_values(|l: Label| l@)
}

/// The wire bytes of one label: its length octet followed by its content.
pub open spec fn spec_label_bytes(l: Seq<u8>) -> Seq<u8> {
    seq![l.len() as u8] + l
}

/// The wire bytes of a run of labels, without the terminator.
pub open spec fn spec_labels_bytes(name: Seq<Seq<u8>>) -> Seq<u8>
    decreases name.len(),
{
    if name.len() == 0 {
        seq![]
    } else {
        spec_label_bytes(name[0]) + spec_labels_bytes(name.drop_first())
    }
}

/// The full, uncompressed wire form of a domain name.
pub open spec fn spec_name_bytes(name: Seq<Seq<u8>>) -> Seq<u8> {
    spec_labels_bytes(name) + seq![0u8]
}

/// A valid domain name: every label is valid and the fully expanded wire
/// form fits in 255 bytes.
pub open spec fn name_wf(name: Seq<Seq<u8>>) -> bool {
    &&& forall|i: int| 0 <= i < name.len() ==> label_wf(#[trigger] name[i])
    &&& spec_name_bytes(name).len() <= 255
}

/// What reading a name at `pos` yields.  `bound` is the strict upper limit
/// for compression-pointer targets: names only compress backward, so each
/// pointer must lead strictly before the label run it occurs in, and the
/// limit tightens to the target on every hop.  That discipline is what any
/// conforming encoder emits, and it rules out pointer loops.
///
/// A pointer fixes the end position at two bytes past where it occurs: only
/// the first pointer moves the caller's cursor.
pub open spec fn spec_parse_name(buf: Seq<u8>, pos: int, bound: int) -> Result<
    (Seq<Seq<u8>>, int),
    DnsError,
>
    decreases bound, buf.len() - pos,
{
    if pos < 0 || pos >= buf.len() {
        Err(DnsError::MalformedName)
    } else if buf[pos] == 0 {
        Ok((seq![], pos + 1))
    } else if buf[pos] >= 0xc0 {
        if pos + 1 >= buf.len() {
            Err(DnsError::MalformedName)
        } else {
            let target = (buf[pos] - 0xc0) * 256 + buf[pos + 1];
            if target < bound {
                match spec_parse_name(buf, target, target) {
                    Ok((labels, _)) => Ok((labels, pos + 2)),
                    Err(e) => Err(e),
                }
            } else {
                Err(DnsError::MalformedName)
            }
        }
    } else if buf[pos] > 63 {
        Err(DnsError::MalformedName)
    } else {
        let len = buf[pos] as int;
        if pos + 1 + len > buf.len() {
            Err(DnsError::MalformedName)
        } else if !(forall|i: int|
            pos + 1 <= i < pos + 1 + len ==> is_text_byte(#[trigger] buf[i])) {
            Err(DnsError::MalformedName)
        } else {
            match spec_parse_name(buf, pos + 1 + len, bound) {
                Ok((labels, end)) => Ok((seq![buf.subrange(pos + 1, pos + 1 + len)] + labels, end)),
                Err(e) => Err(e),
            }
        }
    }
}

/// What decoding a whole name at `pos` yields: parsing starts with the
/// pointer limit at the name's own start.
pub open spec fn spec_decode_name(buf: Seq<u8>, pos: int) -> Result<(Seq<Seq<u8>>, int), DnsError> {
    spec_parse_name(buf, pos, pos)
}

impl Clone for Label {
    /// A clone keeps the length and the content bytes.
    fn clone(&self) -> (r: Self)
        ensures
            r@ == self@,
            r.length == self.length,
    {
        Label { length: self.length, content: vstd::slice::slice_to_vec(self.content.as_slice()) }
    }
}

impl Label {
    /// The length octet matches the content, and the content is a valid
    /// label stretch.
    pub open spec fn inv(&self) -> bool {
        &&& self.length == self.content@.len()
        &&& label_wf(self.content@)
    }

    /// Builds a label from an ASCII string of 1 to 63 characters.
    pub fn from_string(string: String) -> (l: Label)
        requires
            vstd::utf8::is_ascii_chars(string@),
            1 <= string@.len() <= 63,
        ensures
            l.inv(),
            l@ == Seq::new(string@.len(), |i: int| string@[i] as u8),
    {
        let s: &str = string.as_str();
        proof {
            vstd::utf8::is_ascii_chars_encode_utf8(s@);
        }
        let bytes: &[u8] = s.as_bytes();
        let content = vstd::slice::slice_to_vec(bytes);
        let length = content.len() as u8;
        let l = Label { length, content };
        proof {
            assert(l@ =~= Seq::new(string@.len(), |i: int| string@[i] as u8));
        }
        l
    }
}

impl Encodable for Label {
    open spec fn wf(&self) -> bool {
        self.inv()
    }

    open spec fn wire(&self) -> Seq<u8> {
        spec_label_bytes(self@)
    }

    /// One length octet, then the content bytes.
    fn encode(&self) -> (r: Vec<u8>)
        ensures
            r@ == self.wire(),
    {
        let mut r: Vec<u8> = Vec::new();
        r.push(self.length);
        let mut content = vstd::slice::slice_to_vec(self.content.as_slice());
        r.append(&mut content);
        proof {
            assert(self.wf());
            assert(self.length == self.content@.len() as u8);
            assert(r@ =~= spec_label_bytes(self@));
        }
        r
    }
}

/// Appending a label extends the wire bytes by that label's bytes.
pub proof fn lemma_labels_bytes_push(name: Seq<Seq<u8>>, l: Seq<u8>)
    ensures
        spec_labels_bytes(name.push(l)) == spec_labels_bytes(name) + spec_label_bytes(l),
    decreases name.len(),
{
    let p = name.push(l);
    if name.len() == 0 {
        assert(p.drop_first() =~= Seq::<Seq<u8>>::empty());
        assert(p[0] == l);
        assert(spec_labels_bytes(p) == spec_label_bytes(p[0]) + spec_labels_bytes(p.drop_first()));
        assert(spec_labels_bytes(p) =~= spec_labels_bytes(name) + spec_label_bytes(l));
    } else {
        assert(p.drop_first() =~= name.drop_first().push(l));
        lemma_labels_bytes_push(name.drop_first(), l);
        assert(p[0] == name[0]);
        assert(spec_labels_bytes(p) == spec_label_bytes(p[0]) + spec_labels_bytes(p.drop_first()));
        assert(spec_labels_bytes(name) == spec_label_bytes(name[0]) + spec_labels_bytes(
            name.drop_first(),
        ));
        assert(spec_labels_bytes(p) =~= spec_labels_bytes(name) + spec_label_bytes(l));
    }
}

/// Encodes a whole name: each label in order, then the zero terminator.
/// Compression is never produced.
pub fn encode_name(labels: &Vec<Label>, out: &mut Vec<u8>)
    requires
        forall|i: int| 0 <= i < labels@.len() ==> (#[trigger] labels@[i]).inv(),
    ensures
        final(out)@ == old(out)@ + spec_name_bytes(labels_view(labels@)),
{
    let ghost name = labels_view(labels@);
    let mut i: usize = 0;
    while i < labels.len()
        invariant
            i <= labels@.len(),
            forall|k: int| 0 <= k < labels@.len() ==> (#[trigger] labels@[k]).inv(),
            name == labels_view(labels@),
            out@ == old(out)@ + spec_labels_bytes(name.take(i as int)),
        decreases labels@.len() - i,
    {
        let bytes = labels[i].encode();
        let mut rest = bytes;
        out.append(&mut rest);
        proof {
            assert(name.take(i + 1) =~= name.take(i as int).push(name[i as int]));
            lemma_labels_bytes_push(name.take(i as int), name[i as int]);
            assert(out@ =~= old(out)@ + spec_labels_bytes(name.take(i + 1)));
        }
        i = i + 1;
    }
    out.push(0u8);
    proof {
        assert(name.take(labels@.len() as int) =~= name);
        assert(out@ =~= old(out)@ + spec_name_bytes(name));
    }
}

/// Reads the label run starting at `pos` under the pointer limit `bound`,
/// returning the labels and the position just past the name.
fn decode_name_rec(buffer: &[u8], pos: usize, bound: usize) -> (r: Result<
    (Vec<Label>, usize),
    DnsError,
>)
    ensures
        match r {
            Ok(p) => {
                &&& spec_parse_name(buffer@, pos as int, bound as int) == Ok::<
                    (Seq<Seq<u8>>, int),
                    DnsError,
                >((labels_view(p.0@), p.1 as int))
                &&& forall|i: int| 0 <= i < p.0@.len() ==> (#[trigger] p.0@[i]).inv()
            },
            Err(e) => spec_parse_name(buffer@, pos as int, bound as int) == Err::<
                (Seq<Seq<u8>>, int),
                DnsError,
            >(e),
        },
    decreases bound, buffer@.len() - pos,
{
    if pos >= buffer.len() {
        return Err(DnsError::MalformedName);
    }
    let tag = buffer[pos];
    if tag == 0 {
        let labels: Vec<Label> = Vec::new();
        proof {
            assert(labels_view(labels@) =~= Seq::<Seq<u8>>::empty());
        }
        return Ok((labels, pos + 1));
    }
    if tag >= 0xc0 {
        if pos + 1 >= buffer.len() {
            return Err(DnsError::MalformedName);
        }
        let target = (tag - 0xc0) as usize * 256 + buffer[pos + 1] as usize;
        if target < bound {
            match decode_name_rec(buffer, target, target) {
                Ok((labels, _)) => Ok((labels, pos + 2)),
                Err(e) => Err(e),
            }
        } else {
            Err(DnsError::MalformedName)
        }
    } else if tag > 63 {
        Err(DnsError::MalformedName)
    } else {
        let len = tag as usize;
        if len > buffer.len() - (pos + 1) {
            return Err(DnsError::MalformedName);
        }
        let mut content: Vec<u8> = Vec::new();
        let mut i: usize = 0;
        while i < len
            invariant
                pos + 1 + len <= buffer@.len(),
                buffer@.len() <= usize::MAX,
                i <= len,
                content@ =~= buffer@.subrange(pos + 1, pos + 1 + i),
                forall|k: int| 0 <= k < i ==> is_text_byte(#[trigger] buffer@[pos + 1 + k]),
            decreases len - i,
        {
            let b = buffer[pos + 1 + i];
            if b >= 0x80 {
                assert(!is_text_byte(buffer@[pos + 1 + i]));
                return Err(DnsError::MalformedName);
            }
            content.push(b);
            i = i + 1;
        }
        assert(content@ == buffer@.subrange(pos + 1, pos + 1 + len));
        assert forall|j: int| pos + 1 <= j < pos + 1 + len implies is_text_byte(
            #[trigger] buffer@[j],
        ) by {
            assert(is_text_byte(buffer@[pos + 1 + (j - pos - 1)]));
        }
        let label = Label { length: tag, content };
        match decode_name_rec(buffer, pos + 1 + len, bound) {
            Ok((rest, end)) => {
                let ghost rest0 = rest@;
                let mut labels = rest;
                labels.insert(0, label);
                proof {
                    assert(labels@ == rest0.insert(0, label));
                    assert(labels_view(labels@) =~= seq![buffer@.subrange(pos + 1, pos + 1 + len)]
                        + labels_view(rest0));
                }
                Ok((labels, end))
            },
            Err(e) => Err(e),
        }
    }
}

/// The uncompressed wire form of a name with valid labels parses back to
/// exactly that name wherever it sits in a buffer, under any pointer limit.
pub proof fn lemma_parse_name_of_encoding(buf: Seq<u8>, pos: int, bound: int, name: Seq<Seq<u8>>)
    requires
        forall|i: int| 0 <= i < name.len() ==> label_wf(#[trigger] name[i]),
        0 <= pos,
        pos + spec_name_bytes(name).len() <= buf.len(),
        buf.subrange(pos, pos + spec_name_bytes(name).len()) == spec_name_bytes(name),
    ensures
        spec_parse_name(buf, pos, bound) == Ok::<(Seq<Seq<u8>>, int), DnsError>(
            (name, pos + spec_name_bytes(name).len()),
        ),
    decreases name.len(),
{
    let bytes = spec_name_bytes(name);
    let total = bytes.len();
    assert(forall|k: int| 0 <= k < total ==> buf[pos + k] == #[trigger] bytes[k]) by {
        assert(forall|k: int|
            0 <= k < total ==> buf.subrange(pos, pos + total)[k] == #[trigger] bytes[k]);
    }
    if name.len() == 0 {
        assert(bytes =~= seq![0u8]);
        assert(bytes[0] == 0u8);
        assert(buf[pos + 0] == bytes[0]);
        assert(buf[pos] == 0);
        assert(name =~= Seq::<Seq<u8>>::empty());
    } else {
        let l = name[0];
        let len = l.len() as int;
        let rest = name.drop_first();
        assert(spec_labels_bytes(name) == spec_label_bytes(l) + spec_labels_bytes(rest));
        assert(bytes =~= spec_label_bytes(l) + spec_name_bytes(rest));
        assert(bytes[0] == l.len() as u8);
        assert(buf[pos] == l.len() as u8);
        assert(1 <= buf[pos] <= 63);
        assert(forall|j: int| 0 <= j < len ==> bytes[1 + j] == l[j]);
        assert(forall|j: int| pos + 1 <= j < pos + 1 + len ==> buf[j] == l[j - pos - 1]);
        assert(forall|j: int| pos + 1 <= j < pos + 1 + len ==> is_text_byte(#[trigger] buf[j]));
        assert(buf.subrange(pos + 1, pos + 1 + len) =~= l);
        let rest_bytes = spec_name_bytes(rest);
        assert(forall|k: int| 0 <= k < rest_bytes.len() ==> bytes[1 + len + k] == #[trigger]
            rest_bytes[k]);
        assert(buf.subrange(pos + 1 + len, pos + 1 + len + rest_bytes.len()) =~= rest_bytes);
        lemma_parse_name_of_encoding(buf, pos + 1 + len, bound, rest);
        assert(seq![l] + rest =~= name);
    }
}

/// Round trip for an uncompressed name: decoding what `encode_name` emits,
/// from the start of the buffer, yields the name back and consumes exactly
/// its wire bytes.
pub proof fn lemma_name_round_trip(name: Seq<Seq<u8>>)
    requires
        name_wf(name),
    ensures
        spec_decode_name(spec_name_bytes(name), 0) == Ok::<(Seq<Seq<u8>>, int), DnsError>(
            (name, spec_name_bytes(name).len() as int),
        ),
{
    let bytes = spec_name_bytes(name);
    assert(bytes.subrange(0, bytes.len() as int) =~= bytes);
    lemma_parse_name_of_encoding(bytes, 0, 0, name);
}

/// Whatever a name parse yields is a run of valid labels, and the end
/// position lies past the start and within the buffer.
pub proof fn lemma_parse_name_labels_wf(buf: Seq<u8>, pos: int, bound: int)
    ensures
        spec_parse_name(buf, pos, bound) matches Ok(p) ==> {
            &&& forall|i: int| 0 <= i < p.0.len() ==> label_wf(#[trigger] p.0[i])
            &&& pos < p.1 <= buf.len()
        },
    decreases bound, buf.len() - pos,
{
    if pos < 0 || pos >= buf.len() {
    } else if buf[pos] == 0 {
    } else if buf[pos] >= 0xc0 {
        if pos + 1 < buf.len() {
            let target = (buf[pos] - 0xc0) * 256 + buf[pos + 1];
            if target < bound {
                lemma_parse_name_labels_wf(buf, target, target);
            }
        }
    } else if buf[pos] > 63 {
    } else {
        let len = buf[pos] as int;
        if pos + 1 + len <= buf.len() && (forall|i: int|
            pos + 1 <= i < pos + 1 + len ==> is_text_byte(#[trigger] buf[i])) {
            lemma_parse_name_labels_wf(buf, pos + 1 + len, bound);
            match spec_parse_name(buf, pos + 1 + len, bound) {
                Ok((rest, end)) => {
                    let l = buf.subrange(pos + 1, pos + 1 + len);
                    assert(label_wf(l));
                    assert(forall|i: int|
                        0 <= i < rest.len() ==> (seq![l] + rest)[i + 1] == #[trigger] rest[i]);
                },
                Err(_) => {},
            }
        }
    }
}

/// Compression equivalence: a name that is just a pointer to an earlier
/// offset decodes to exactly the labels spelled out at that offset, and
/// the pointer itself takes two bytes.
pub proof fn lemma_pointer_equivalence(buf: Seq<u8>, q: int, bound: int, t: int)
    requires
        0 <= q,
        q + 1 < buf.len(),
        buf[q] >= 0xc0,
        t == (buf[q] - 0xc0) * 256 + buf[q + 1],
        t < bound,
    ensures
        match (spec_parse_name(buf, q, bound), spec_parse_name(buf, t, t)) {
            (Ok(p_ptr), Ok(p_direct)) => p_ptr.0 == p_direct.0 && p_ptr.1 == q + 2,
            (Err(e_ptr), Err(e_direct)) => e_ptr == e_direct,
            _ => false,
        },
{
}

/// A length octet of 64 or more that is not a pointer tag is rejected: the
/// format caps a label at 63 bytes, the two high bits being reserved for
/// the pointer tag.
pub proof fn lemma_overlong_label_rejected(buf: Seq<u8>, pos: int, bound: int)
    requires
        0 <= pos < buf.len(),
        63 < buf[pos] < 0xc0,
    ensures
        spec_parse_name(buf, pos, bound) == Err::<(Seq<Seq<u8>>, int), DnsError>(
            DnsError::MalformedName,
        ),
{
}

/// Decodes one domain name at `cursor`, advancing the cursor past the
/// name's wire representation (two bytes where the name starts with a
/// pointer).  On failure the cursor is left where it was.
pub fn decode_name(buffer: &[u8], cursor: &mut usize) -> (r: Result<Vec<Label>, DnsError>)
    ensures
        match r {
            Ok(labels) => {
                &&& spec_decode_name(buffer@, *old(cursor) as int) == Ok::<
                    (Seq<Seq<u8>>, int),
                    DnsError,
                >((labels_view(labels@), *final(cursor) as int))
                &&& forall|i: int| 0 <= i < labels@.len() ==> (#[trigger] labels@[i]).inv()
            },
            Err(e) => {
                &&& spec_decode_name(buffer@, *old(cursor) as int) == Err::<
                    (Seq<Seq<u8>>, int),
                    DnsError,
                >(e)
                &&& *final(cursor) == *old(cursor)
            },
        },
{
    match decode_name_rec(buffer, *cursor, *cursor) {
        Ok((labels, end)) => {
            *cursor = end;
            Ok(labels)
        },
        Err(e) => Err(e),
    }
}

} // verus!
