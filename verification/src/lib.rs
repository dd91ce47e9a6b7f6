//! Wire codec for DNS messages (RFC 1035): the fixed 12-byte header, the
//! length-prefixed label format for domain names with backward compression
//! pointers, question and resource-record sections, whole-message assembly,
//! and the splitting of a multi-question query into single-question queries
//! together with the merging of their replies.

#![verifier::loop_isolation(false)]

pub mod class;
pub mod dns_answer;
pub mod dns_header;
pub mod dns_packet;
pub mod dns_question;
pub mod errors;
pub mod label;
pub mod record_type;
pub mod traits;
pub mod wire;
