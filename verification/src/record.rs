//! The resource-record decoder.

use vstd::prelude::*;

use crate::bytes::{be16, be32, read_be16, read_be32};
use crate::name::{spec_decode_labels, spec_dotted};
use crate::question::{Class, RecordType};
use crate::DnsError;

verus! {

/// One resource record: a name, a type, a class, a time to live, and its
/// data, an opaque byte sequence whose meaning depends on the type. No
/// type-specific validation of the data happens here; for a type `A` answer
/// the caller reads it as a 4-byte address.
#[derive(Clone, Debug, PartialEq, Eq)]
pub struct DnsRecord {
    pub name: Vec<u8>,
    pub kind: RecordType,
    pub class: Class,
    pub ttl: u32,
    pub data: Vec<u8>,
}

/// What a parsed record is at the specification level: the dotted name, the
/// type, the class, the time to live, and the data bytes.
pub type SpecRecord = (Seq<u8>, RecordType, Class, u32, Seq<u8>);

/// The record read from `buf` at `pos`: a name, a fixed 10-byte block of
/// type, class, ttl, and data length, then exactly that many data bytes.
/// The type and class codes are checked first; a data length that would
/// read past the end of the buffer fails with `Truncated` and nothing is
/// read out of bounds.
pub open spec fn spec_parse_record(buf: Seq<u8>, pos: int) -> Result<(SpecRecord, int), DnsError> {
    match spec_decode_labels(buf, pos, pos) {
        Err(e) => Err(e),
        Ok((ls, p)) => {
            if p + 10 > buf.len() {
                Err(DnsError::Truncated)
            } else {
                let kind_code = be16(buf[p], buf[p + 1]);
                let class_code = be16(buf[p + 2], buf[p + 3]);
                let ttl = be32(buf[p + 4], buf[p + 5], buf[p + 6], buf[p + 7]);
                let data_len = be16(buf[p + 8], buf[p + 9]);
                if kind_code != 1 {
                    Err(DnsError::UnknownRecordType)
                } else if class_code != 1 {
                    Err(DnsError::UnknownClass)
                } else if p + 10 + data_len > buf.len() {
                    Err(DnsError::Truncated)
                } else {
                    Ok(
                        (
                            (
                                spec_dotted(ls),
                                RecordType::A,
                                Class::In,
                                ttl,
                                buf.subrange(p + 10, p + 10 + data_len),
                            ),
                            p + 10 + data_len,
                        ),
                    )
                }
            }
        },
    }
}

/// Decodes the record stored at `pos`, returning it with the position of the
/// first byte after its data.
pub fn parse_record(buf: &Vec<u8>, pos: usize) -> (r: Result<(DnsRecord, usize), DnsError>)
    ensures
        match r {
            Ok((rec, np)) => spec_parse_record(buf@, pos as int) matches Ok((sr, snp)) && rec.name@
                == sr.0 && rec.kind == sr.1 && rec.class == sr.2 && rec.ttl == sr.3 && rec.data@
                == sr.4 && np == snp,
            Err(e) => spec_parse_record(buf@, pos as int) == Err::<(SpecRecord, int), _>(e),
        },
{
    let (name, p) = match crate::name::decord_name(buf, pos) {
        Ok(v) => v,
        Err(e) => {
            return Err(e);
        },
    };
    let n: usize = buf.len();
    if n < 10 || p > n - 10 {
        return Err(DnsError::Truncated);
    }
    let kind = match RecordType::try_from_code(read_be16(buf, p)) {
        Ok(k) => k,
        Err(e) => {
            return Err(e);
        },
    };
    let class = match Class::try_from_code(read_be16(buf, p + 2)) {
        Ok(c) => c,
        Err(e) => {
            return Err(e);
        },
    };
    let ttl = read_be32(buf, p + 4);
    let data_len = read_be16(buf, p + 8) as usize;
    if data_len > n - p - 10 {
        return Err(DnsError::Truncated);
    }
    let start: usize = p + 10;
    let end: usize = start + data_len;
    let mut data: Vec<u8> = Vec::new();
    let mut j: usize = start;
    while j < end
        invariant
            start <= j <= end,
            end <= buf@.len(),
            data@ == buf@.subrange(start as int, j as int),
        decreases end - j,
    {
        data.push(buf[j]);
        j = j + 1;
        assert(data@ =~= buf@.subrange(start as int, j as int));
    }
    Ok((DnsRecord { name, kind, class, ttl, data }, end))
}

} // verus!
