//! Query construction and answer extraction: everything of the single-shot
//! resolve operation except the datagram exchange itself, which the caller
//! performs.

use vstd::prelude::*;

use rand::Rng;

use crate::bytes::{be16_hi, be16_lo};
use crate::header::{spec_header_bytes, DnsHeader};
use crate::name::{encode_dns_name, labels_encodable, spec_encode_labels, spec_split_labels};
use crate::packet::DnsPacket;
use crate::question::{Class, DnsQuestion, RecordType};
use crate::DnsError;

verus! {

/// An IPv4 address as its four octets in network order.
#[derive(Clone, Copy, Debug, PartialEq, Eq, Structural)]
pub struct Ipv4Address {
    pub o1: u8,
    pub o2: u8,
    pub o3: u8,
    pub o4: u8,
}

/// The header of an outgoing query with the given id: the recursion-desired
/// bit (bit 8 of the 16-bit flag word) set, one question, no records.
pub open spec fn spec_query_header(id: u16) -> DnsHeader {
    DnsHeader {
        id,
        flags: 0x0100,
        num_questions: 1,
        num_answers: 0,
        num_authorities: 0,
        num_additional: 0,
    }
}

/// The bytes of a whole query: the header, the encoded name, then the type
/// and class codes.
pub open spec fn spec_query_bytes(id: u16, name: Seq<u8>, record_type: RecordType) -> Seq<u8> {
    spec_header_bytes(spec_query_header(id)) + spec_encode_labels(spec_split_labels(name)) + seq![
        be16_hi(record_type.spec_code()),
        be16_lo(record_type.spec_code()),
        be16_hi(Class::In.spec_code()),
        be16_lo(Class::In.spec_code()),
    ]
}

/// Builds the wire bytes of a query with the given id: a header with the
/// recursion-desired bit set and one question of the given type, class `IN`,
/// for `domain_name`. Fails with `LabelTooLong` exactly when some label of
/// the name is more than 63 bytes.
pub fn build_query_with_id(domain_name: &Vec<u8>, record_type: RecordType, id: u16) -> (r: Result<
    Vec<u8>,
    DnsError,
>)
    ensures
        match r {
            Ok(q) => labels_encodable(spec_split_labels(domain_name@)) && q@ == spec_query_bytes(
                id,
                domain_name@,
                record_type,
            ),
            Err(e) => e == DnsError::LabelTooLong && !labels_encodable(
                spec_split_labels(domain_name@),
            ),
        },
{
    let name = match encode_dns_name(domain_name) {
        Ok(v) => v,
        Err(e) => {
            return Err(e);
        },
    };
    let header = DnsHeader {
        id,
        flags: 0x0100,
        num_questions: 1,
        num_answers: 0,
        num_authorities: 0,
        num_additional: 0,
    };
    let question = DnsQuestion { name, kind: record_type, class: Class::In };
    let mut out = crate::header::header_to_bytes(header);
    let mut qbytes = crate::question::question_to_bytes(question);
    out.append(&mut qbytes);
    proof {
        assert(out@ =~= spec_query_bytes(id, domain_name@, record_type));
    }
    Ok(out)
}

/// Relies on rand::thread_rng and Rng::gen_range to draw a query id
/// uniformly from the full 16-bit space; nothing is assumed of the value
/// drawn.
#[verifier::external_body]
fn random_query_id() -> u16 {
    let mut rng = rand::thread_rng();
    rng.gen_range(0u16..=65535u16)
}

/// Builds the wire bytes of a query for `domain_name`, with an id drawn
/// uniformly from the full 16-bit space.
pub fn build_query(domain_name: &Vec<u8>, record_type: RecordType) -> (r: Result<Vec<u8>, DnsError>)
    ensures
        match r {
            Ok(q) => labels_encodable(spec_split_labels(domain_name@)) && exists|id: u16| q@
                == spec_query_bytes(id, domain_name@, record_type),
            Err(e) => e == DnsError::LabelTooLong && !labels_encodable(
                spec_split_labels(domain_name@),
            ),
        },
{
    let id = random_query_id();
    let r = build_query_with_id(domain_name, record_type, id);
    proof {
        if r is Ok {
            assert(r->Ok_0@ == spec_query_bytes(id, domain_name@, record_type));
        }
    }
    r
}

/// Reads the first answer's data as an IPv4 address: fails with `NoAnswers`
/// when the packet holds no answer record, and with `BadAnswerData` when the
/// first answer's data is not exactly 4 bytes.
pub fn first_answer_ipv4(packet: &DnsPacket) -> (r: Result<Ipv4Address, DnsError>)
    ensures
        packet.answers@.len() == 0 ==> r == Err::<Ipv4Address, _>(DnsError::NoAnswers),
        packet.answers@.len() > 0 && packet.answers@[0].data@.len() != 4 ==> r == Err::<
            Ipv4Address,
            _,
        >(DnsError::BadAnswerData),
        packet.answers@.len() > 0 && packet.answers@[0].data@.len() == 4 ==> r == Ok::<
            _,
            DnsError,
        >(
            Ipv4Address {
                o1: packet.answers@[0].data@[0],
                o2: packet.answers@[0].data@[1],
                o3: packet.answers@[0].data@[2],
                o4: packet.answers@[0].data@[3],
            },
        ),
{
    if packet.answers.len() == 0 {
        return Err(DnsError::NoAnswers);
    }
    let data = &packet.answers[0].data;
    if data.len() != 4 {
        return Err(DnsError::BadAnswerData);
    }
    Ok(Ipv4Address { o1: data[0], o2: data[1], o3: data[2], o4: data[3] })
}

} // verus!
