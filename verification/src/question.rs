//! Record-type and class enumerations, and the question codec.

use vstd::prelude::*;

use crate::bytes::{be16, be16_hi, be16_lo, push_be16, read_be16};
use crate::name::{spec_decode_labels, spec_dotted};
use crate::DnsError;

verus! {

/// The record types this resolver knows. Decoding any other numeric code
/// fails rather than defaulting.
#[derive(Clone, Copy, Debug, PartialEq, Eq, Structural)]
pub enum RecordType {
    A,
}

/// The record classes this resolver knows.
#[derive(Clone, Copy, Debug, PartialEq, Eq, Structural)]
pub enum Class {
    In,
}

impl RecordType {
    /// The numeric code of the type on the wire.
    pub open spec fn spec_code(self) -> u16 {
        match self {
            RecordType::A => 1,
        }
    }

    /// Returns the numeric code of the type on the wire.
    pub fn code(self) -> (r: u16)
        ensures
            r == self.spec_code(),
    {
        match self {
            RecordType::A => 1,
        }
    }

    /// The type with the given numeric code, or `UnknownRecordType` when the
    /// code is not in the registered set.
    pub fn try_from_code(v: u16) -> (r: Result<RecordType, DnsError>)
        ensures
            v == 1 ==> r == Ok::<_, DnsError>(RecordType::A),
            v != 1 ==> r == Err::<RecordType, _>(DnsError::UnknownRecordType),
    {
        if v == 1 {
            Ok(RecordType::A)
        } else {
            Err(DnsError::UnknownRecordType)
        }
    }
}

impl Class {
    /// The numeric code of the class on the wire.
    pub open spec fn spec_code(self) -> u16 {
        match self {
            Class::In => 1,
        }
    }

    /// Returns the numeric code of the class on the wire.
    pub fn code(self) -> (r: u16)
        ensures
            r == self.spec_code(),
    {
        match self {
            Class::In => 1,
        }
    }

    /// The class with the given numeric code, or `UnknownClass` when the
    /// code is not in the registered set.
    pub fn try_from_code(v: u16) -> (r: Result<Class, DnsError>)
        ensures
            v == 1 ==> r == Ok::<_, DnsError>(Class::In),
            v != 1 ==> r == Err::<Class, _>(DnsError::UnknownClass),
    {
        if v == 1 {
            Ok(Class::In)
        } else {
            Err(DnsError::UnknownClass)
        }
    }
}

/// A single question. When built for an outgoing query, `name` holds the
/// wire-encoded label sequence; when read from a response, it holds the
/// dotted text of the decoded name.
#[derive(Clone, Debug, PartialEq, Eq)]
pub struct DnsQuestion {
    pub name: Vec<u8>,
    pub kind: RecordType,
    pub class: Class,
}

/// What a parsed question is at the specification level: the dotted name,
/// the type, and the class.
pub type SpecQuestion = (Seq<u8>, RecordType, Class);

/// The question read from `buf` at `pos`: a name, then the type and class
/// codes, each big-endian 16-bit. A code outside the registered sets fails,
/// the type checked first.
pub open spec fn spec_parse_question(buf: Seq<u8>, pos: int) -> Result<
    (SpecQuestion, int),
    DnsError,
> {
    match spec_decode_labels(buf, pos, pos) {
        Err(e) => Err(e),
        Ok((ls, p)) => {
            if p + 4 > buf.len() {
                Err(DnsError::Truncated)
            } else {
                let kind_code = be16(buf[p], buf[p + 1]);
                let class_code = be16(buf[p + 2], buf[p + 3]);
                if kind_code != 1 {
                    Err(DnsError::UnknownRecordType)
                } else if class_code != 1 {
                    Err(DnsError::UnknownClass)
                } else {
                    Ok(((spec_dotted(ls), RecordType::A, Class::In), p + 4))
                }
            }
        },
    }
}

impl DnsQuestion {
    /// Encodes the question: its name bytes, then the type code and the
    /// class code, each big-endian.
    pub fn to_bytes(&self) -> (r: Vec<u8>)
        ensures
            r@ == self.name@ + seq![
                be16_hi(self.kind.spec_code()),
                be16_lo(self.kind.spec_code()),
                be16_hi(self.class.spec_code()),
                be16_lo(self.class.spec_code()),
            ],
    {
        let mut out: Vec<u8> = Vec::new();
        out.extend_from_slice(self.name.as_slice());
        push_be16(&mut out, self.kind.code());
        push_be16(&mut out, self.class.code());
        assert(out@ =~= self.name@ + seq![
            be16_hi(self.kind.spec_code()),
            be16_lo(self.kind.spec_code()),
            be16_hi(self.class.spec_code()),
            be16_lo(self.class.spec_code()),
        ]);
        out
    }
}

/// Encodes a question as its wire bytes.
pub fn question_to_bytes(question: DnsQuestion) -> (r: Vec<u8>)
    ensures
        r@ == question.name@ + seq![
            be16_hi(question.kind.spec_code()),
            be16_lo(question.kind.spec_code()),
            be16_hi(question.class.spec_code()),
            be16_lo(question.class.spec_code()),
        ],
{
    question.to_bytes()
}

/// Decodes the question stored at `pos`, returning it with the position of
/// the first byte after it.
pub fn parse_question(buf: &Vec<u8>, pos: usize) -> (r: Result<(DnsQuestion, usize), DnsError>)
    ensures
        match r {
            Ok((q, np)) => spec_parse_question(buf@, pos as int) matches Ok((sq, snp)) && q.name@
                == sq.0 && q.kind == sq.1 && q.class == sq.2 && np == snp,
            Err(e) => spec_parse_question(buf@, pos as int) == Err::<(SpecQuestion, int), _>(e),
        },
{
    let (name, p) = match crate::name::decord_name(buf, pos) {
        Ok(v) => v,
        Err(e) => {
            return Err(e);
        },
    };
    let n: usize = buf.len();
    if n < 4 || p > n - 4 {
        return Err(DnsError::Truncated);
    }
    let kind = match RecordType::try_from_code(read_be16(buf, p)) {
        Ok(k) => k,
        Err(e) => {
            return Err(e);
        },
    };
    let class = match Class::try_from_code(read_be16(buf, p + 2)) {
        Ok(c) => c,
        Err(e) => {
            return Err(e);
        },
    };
    Ok((DnsQuestion { name, kind, class }, p + 4))
}

} // verus!
