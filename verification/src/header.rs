//! The fixed 12-byte DNS message header.

use vstd::prelude::*;

use crate::bytes::{be16, be16_hi, be16_lo, lemma_be16_round_trip, push_be16, read_be16};
use crate::DnsError;

verus! {

/// A DNS header: an id, a 16-bit flag word, and the four section counts.
/// Only the recursion-desired bit of `flags` is ever set by this library on
/// encode; all other flag bits are read through unchanged on decode.
#[derive(Clone, Copy, Debug, Default, PartialEq, Eq, Structural)]
pub struct DnsHeader {
    pub id: u16,
    pub flags: u16,
    pub num_questions: u16,
    pub num_answers: u16,
    pub num_authorities: u16,
    pub num_additional: u16,
}

/// The 12 bytes of a header: the six fields in order, each big-endian.
pub open spec fn spec_header_bytes(h: DnsHeader) -> Seq<u8> {
    seq![
        be16_hi(h.id),
        be16_lo(h.id),
        be16_hi(h.flags),
        be16_lo(h.flags),
        be16_hi(h.num_questions),
        be16_lo(h.num_questions),
        be16_hi(h.num_answers),
        be16_lo(h.num_answers),
        be16_hi(h.num_authorities),
        be16_lo(h.num_authorities),
        be16_hi(h.num_additional),
        be16_lo(h.num_additional),
    ]
}

/// The header read from the 12 bytes starting at `pos`, or `Truncated` when
/// fewer than 12 bytes remain.
pub open spec fn spec_parse_header(buf: Seq<u8>, pos: int) -> Result<(DnsHeader, int), DnsError> {
    if pos < 0 || pos + 12 > buf.len() {
        Err(DnsError::Truncated)
    } else {
        Ok(
            (
                DnsHeader {
                    id: be16(buf[pos], buf[pos + 1]),
                    flags: be16(buf[pos + 2], buf[pos + 3]),
                    num_questions: be16(buf[pos + 4], buf[pos + 5]),
                    num_answers: be16(buf[pos + 6], buf[pos + 7]),
                    num_authorities: be16(buf[pos + 8], buf[pos + 9]),
                    num_additional: be16(buf[pos + 10], buf[pos + 11]),
                },
                pos + 12,
            ),
        )
    }
}

impl DnsHeader {
    /// Encodes the header as its 12 wire bytes.
    pub fn to_bytes(&self) -> (r: Vec<u8>)
        ensures
            r@ == spec_header_bytes(*self),
    {
        let mut out: Vec<u8> = Vec::new();
        push_be16(&mut out, self.id);
        push_be16(&mut out, self.flags);
        push_be16(&mut out, self.num_questions);
        push_be16(&mut out, self.num_answers);
        push_be16(&mut out, self.num_authorities);
        push_be16(&mut out, self.num_additional);
        assert(out@ =~= spec_header_bytes(*self));
        out
    }
}

/// Encodes a header as its 12 wire bytes.
pub fn header_to_bytes(header: DnsHeader) -> (r: Vec<u8>)
    ensures
        r@ == spec_header_bytes(header),
{
    header.to_bytes()
}

/// Decodes the header stored at `pos`, returning it with the position of the
/// first byte after it; fails with `Truncated` when fewer than 12 bytes
/// remain.
pub fn parse_header(buf: &Vec<u8>, pos: usize) -> (r: Result<(DnsHeader, usize), DnsError>)
    ensures
        match r {
            Ok((h, np)) => spec_parse_header(buf@, pos as int) == Ok::<_, DnsError>(
                (h, np as int),
            ),
            Err(e) => spec_parse_header(buf@, pos as int) == Err::<(DnsHeader, int), _>(e),
        },
{
    let n: usize = buf.len();
    if n < 12 || pos > n - 12 {
        return Err(DnsError::Truncated);
    }
    let header = DnsHeader {
        id: read_be16(buf, pos),
        flags: read_be16(buf, pos + 2),
        num_questions: read_be16(buf, pos + 4),
        num_answers: read_be16(buf, pos + 6),
        num_authorities: read_be16(buf, pos + 8),
        num_additional: read_be16(buf, pos + 10),
    };
    Ok((header, pos + 12))
}

/// Decoding the 12 bytes of an encoded header yields the header again,
/// whatever its six field values.
pub proof fn lemma_header_round_trip(h: DnsHeader)
    ensures
        spec_parse_header(spec_header_bytes(h), 0) == Ok::<_, DnsError>((h, 12int)),
{
    lemma_be16_round_trip(h.id);
    lemma_be16_round_trip(h.flags);
    lemma_be16_round_trip(h.num_questions);
    lemma_be16_round_trip(h.num_answers);
    lemma_be16_round_trip(h.num_authorities);
    lemma_be16_round_trip(h.num_additional);
}

} // verus!
