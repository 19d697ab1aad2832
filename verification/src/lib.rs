use vstd::prelude::*;

pub mod bytes;
pub mod header;
pub mod name;
pub mod packet;
pub mod query;
pub mod question;
pub mod record;

verus! {

/// The error taxonomy of this resolver library.
///
/// Parsing failures: `Truncated` (a read would pass the end of the buffer),
/// `UnknownRecordType` and `UnknownClass` (a numeric code outside the
/// registered set), `MalformedName` (a compression pointer that does not aim
/// strictly backwards and so could cycle, or a length byte that is neither a
/// label length, a terminator, nor a pointer tag).
/// Answer-extraction failures: `NoAnswers` (the packet holds no answer
/// record) and `BadAnswerData` (the first answer's data is not 4 bytes).
/// `LabelTooLong` is the one encoding failure: a label of more than 63 bytes.
#[derive(Clone, Copy, Debug, PartialEq, Eq, Structural)]
pub enum DnsError {
    Truncated,
    UnknownRecordType,
    UnknownClass,
    MalformedName,
    LabelTooLong,
    NoAnswers,
    BadAnswerData,
}

} // verus!
