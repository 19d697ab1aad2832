//! The packet parser: a header, then exactly the numbers of questions and
//! records that its section counts announce, in order, over one cursor.

use vstd::prelude::*;

use crate::header::{spec_parse_header, DnsHeader};
use crate::question::{parse_question, spec_parse_question, DnsQuestion, SpecQuestion};
use crate::record::{parse_record, spec_parse_record, DnsRecord, SpecRecord};
use crate::DnsError;

verus! {

/// A parsed message: the header and the four sections. Only ever the result
/// of a parse, never built by hand for outgoing traffic.
#[derive(Clone, Debug, PartialEq, Eq)]
pub struct DnsPacket {
    pub header: DnsHeader,
    pub questions: Vec<DnsQuestion>,
    pub answers: Vec<DnsRecord>,
    pub authorities: Vec<DnsRecord>,
    pub additional: Vec<DnsRecord>,
}

/// Whether an in-memory question holds exactly a specification-level one.
pub open spec fn question_matches(q: DnsQuestion, sq: SpecQuestion) -> bool {
    q.name@ == sq.0 && q.kind == sq.1 && q.class == sq.2
}

/// Whether an in-memory record holds exactly a specification-level one.
pub open spec fn record_matches(rec: DnsRecord, sr: SpecRecord) -> bool {
    rec.name@ == sr.0 && rec.kind == sr.1 && rec.class == sr.2 && rec.ttl == sr.3 && rec.data@
        == sr.4
}

/// The `n` questions read one after the other from `pos`; the first failure
/// aborts the whole parse.
pub open spec fn spec_parse_questions(buf: Seq<u8>, pos: int, n: nat) -> Result<
    (Seq<SpecQuestion>, int),
    DnsError,
>
    decreases n,
{
    if n == 0 {
        Ok((Seq::empty(), pos))
    } else {
        match spec_parse_question(buf, pos) {
            Err(e) => Err(e),
            Ok((q, p)) => match spec_parse_questions(buf, p, (n - 1) as nat) {
                Err(e) => Err(e),
                Ok((qs, fp)) => Ok((seq![q] + qs, fp)),
            },
        }
    }
}

/// The `n` records read one after the other from `pos`; the first failure
/// aborts the whole parse.
pub open spec fn spec_parse_records(buf: Seq<u8>, pos: int, n: nat) -> Result<
    (Seq<SpecRecord>, int),
    DnsError,
>
    decreases n,
{
    if n == 0 {
        Ok((Seq::empty(), pos))
    } else {
        match spec_parse_record(buf, pos) {
            Err(e) => Err(e),
            Ok((rec, p)) => match spec_parse_records(buf, p, (n - 1) as nat) {
                Err(e) => Err(e),
                Ok((rs, fp)) => Ok((seq![rec] + rs, fp)),
            },
        }
    }
}

/// The whole message: the header, then exactly `num_questions` questions,
/// then `num_answers`, `num_authorities` and `num_additional` records, in
/// that order. Bytes after the last announced record are left unread.
pub open spec fn spec_parse_packet(buf: Seq<u8>) -> Result<
    (DnsHeader, Seq<SpecQuestion>, Seq<SpecRecord>, Seq<SpecRecord>, Seq<SpecRecord>, int),
    DnsError,
> {
    match spec_parse_header(buf, 0) {
        Err(e) => Err(e),
        Ok((h, p0)) => match spec_parse_questions(buf, p0, h.num_questions as nat) {
            Err(e) => Err(e),
            Ok((qs, p1)) => match spec_parse_records(buf, p1, h.num_answers as nat) {
                Err(e) => Err(e),
                Ok((ans, p2)) => match spec_parse_records(buf, p2, h.num_authorities as nat) {
                    Err(e) => Err(e),
                    Ok((auth, p3)) => match spec_parse_records(
                        buf,
                        p3,
                        h.num_additional as nat,
                    ) {
                        Err(e) => Err(e),
                        Ok((add, p4)) => Ok((h, qs, ans, auth, add, p4)),
                    },
                },
            },
        },
    }
}

/// Decodes `n` questions one after the other from `pos`.
fn parse_questions(buf: &Vec<u8>, pos: usize, n: u16) -> (r: Result<
    (Vec<DnsQuestion>, usize),
    DnsError,
>)
    ensures
        match r {
            Ok((qs, np)) => spec_parse_questions(buf@, pos as int, n as nat) matches Ok(
                (sqs, snp),
            ) && qs@.len() == sqs.len() && np == snp && forall|i: int|
                0 <= i < sqs.len() ==> #[trigger] question_matches(qs@[i], sqs[i]),
            Err(e) => spec_parse_questions(buf@, pos as int, n as nat) == Err::<
                (Seq<SpecQuestion>, int),
                _,
            >(e),
        },
    decreases n,
{
    if n == 0 {
        return Ok((Vec::new(), pos));
    }
    let (q, p) = match parse_question(buf, pos) {
        Ok(v) => v,
        Err(e) => {
            return Err(e);
        },
    };
    match parse_questions(buf, p, n - 1) {
        Ok((mut qs, fp)) => {
            let ghost rest = spec_parse_questions(buf@, p as int, (n - 1) as nat).unwrap().0;
            let ghost sq = spec_parse_question(buf@, pos as int).unwrap().0;
            let ghost tail = qs@;
            let mut out: Vec<DnsQuestion> = Vec::new();
            out.push(q);
            out.append(&mut qs);
            proof {
                assert(out@ =~= seq![q] + tail);
                assert forall|i: int| 0 <= i < (seq![sq] + rest).len() implies #[trigger]
                question_matches(out@[i], (seq![sq] + rest)[i]) by {
                    if i > 0 {
                        assert((seq![sq] + rest)[i] == rest[i - 1]);
                        assert(question_matches(tail[i - 1], rest[i - 1]));
                    }
                }
            }
            Ok((out, fp))
        },
        Err(e) => Err(e),
    }
}

/// Decodes `n` records one after the other from `pos`.
fn parse_records(buf: &Vec<u8>, pos: usize, n: u16) -> (r: Result<
    (Vec<DnsRecord>, usize),
    DnsError,
>)
    ensures
        match r {
            Ok((rs, np)) => spec_parse_records(buf@, pos as int, n as nat) matches Ok((srs, snp))
                && rs@.len() == srs.len() && np == snp && forall|i: int|
                0 <= i < srs.len() ==> #[trigger] record_matches(rs@[i], srs[i]),
            Err(e) => spec_parse_records(buf@, pos as int, n as nat) == Err::<
                (Seq<SpecRecord>, int),
                _,
            >(e),
        },
    decreases n,
{
    if n == 0 {
        return Ok((Vec::new(), pos));
    }
    let (rec, p) = match parse_record(buf, pos) {
        Ok(v) => v,
        Err(e) => {
            return Err(e);
        },
    };
    match parse_records(buf, p, n - 1) {
        Ok((mut rs, fp)) => {
            let ghost rest = spec_parse_records(buf@, p as int, (n - 1) as nat).unwrap().0;
            let ghost sr = spec_parse_record(buf@, pos as int).unwrap().0;
            let ghost tail = rs@;
            let mut out: Vec<DnsRecord> = Vec::new();
            out.push(rec);
            out.append(&mut rs);
            proof {
                assert(out@ =~= seq![rec] + tail);
                assert forall|i: int| 0 <= i < (seq![sr] + rest).len() implies #[trigger]
                record_matches(out@[i], (seq![sr] + rest)[i]) by {
                    if i > 0 {
                        assert((seq![sr] + rest)[i] == rest[i - 1]);
                        assert(record_matches(tail[i - 1], rest[i - 1]));
                    }
                }
            }
            Ok((out, fp))
        },
        Err(e) => Err(e),
    }
}

/// Parses a whole message: the header, then exactly the announced numbers of
/// questions, answers, authorities and additional records, in that order.
/// The first decode failure aborts the parse; bytes after the last announced
/// record are ignored.
pub fn parse_dns_packet(buf: &Vec<u8>) -> (r: Result<DnsPacket, DnsError>)
    ensures
        match r {
            Ok(pkt) => spec_parse_packet(buf@) matches Ok((h, qs, ans, auth, add, _)) && {
                &&& pkt.header == h
                &&& pkt.questions@.len() == qs.len()
                &&& forall|i: int|
                    0 <= i < qs.len() ==> #[trigger] question_matches(pkt.questions@[i], qs[i])
                &&& pkt.answers@.len() == ans.len()
                &&& forall|i: int|
                    0 <= i < ans.len() ==> #[trigger] record_matches(pkt.answers@[i], ans[i])
                &&& pkt.authorities@.len() == auth.len()
                &&& forall|i: int|
                    0 <= i < auth.len() ==> #[trigger] record_matches(pkt.authorities@[i], auth[i])
                &&& pkt.additional@.len() == add.len()
                &&& forall|i: int|
                    0 <= i < add.len() ==> #[trigger] record_matches(pkt.additional@[i], add[i])
            },
            Err(e) => spec_parse_packet(buf@) == Err::<
                (
                    DnsHeader,
                    Seq<SpecQuestion>,
                    Seq<SpecRecord>,
                    Seq<SpecRecord>,
                    Seq<SpecRecord>,
                    int,
                ),
                _,
            >(e),
        },
{
    let (header, p0) = match crate::header::parse_header(buf, 0) {
        Ok(v) => v,
        Err(e) => {
            return Err(e);
        },
    };
    let (questions, p1) = match parse_questions(buf, p0, header.num_questions) {
        Ok(v) => v,
        Err(e) => {
            return Err(e);
        },
    };
    let (answers, p2) = match parse_records(buf, p1, header.num_answers) {
        Ok(v) => v,
        Err(e) => {
            return Err(e);
        },
    };
    let (authorities, p3) = match parse_records(buf, p2, header.num_authorities) {
        Ok(v) => v,
        Err(e) => {
            return Err(e);
        },
    };
    let (additional, _p4) = match parse_records(buf, p3, header.num_additional) {
        Ok(v) => v,
        Err(e) => {
            return Err(e);
        },
    };
    Ok(DnsPacket { header, questions, answers, authorities, additional })
}

} // verus!
