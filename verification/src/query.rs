//! Building the query that asks one question.

use crate::error::DnsError;
use crate::header::{Header, RECURSION_DESIRED};
use crate::name::{bytes_result, encode_name_spec, split_labels, text_bytes, DomainName};
use crate::question::{question_wire, QuestionModel, CLASS_IN};
use crate::random::random_id;
use crate::wire::{push_bytes, push_u16};
use rand::rngs::StdRng;
use vstd::prelude::*;

verus! {

/// The flags of a query: the recursion bit if wanted, nothing else.
pub open spec fn query_flags(recursion_desired: bool) -> u16 {
    if recursion_desired {
        RECURSION_DESIRED
    } else {
        0
    }
}

/// The header of a query that asks one question.
pub open spec fn query_header(id: u16, recursion_desired: bool) -> Header {
    Header {
        id,
        flags: query_flags(recursion_desired),
        num_questions: 1,
        num_answers: 0,
        num_authorities: 0,
        num_additionals: 0,
    }
}

/// The question of a query: the name, the type, and the class of the Internet.
pub open spec fn query_question(name: Seq<Seq<u8>>, record_type: u16) -> QuestionModel {
    QuestionModel { name, type_: record_type, class: CLASS_IN }
}

/// The bytes of a query: its header, then its one question. Fails as
/// encoding the name does.
pub open spec fn query_wire(name: Seq<Seq<u8>>, record_type: u16, id: u16, recursion_desired: bool)
    -> Result<Seq<u8>, DnsError> {
    match question_wire(query_question(name, record_type)) {
        Ok(question) => Ok(query_header(id, recursion_desired).wire() + question),
        Err(e) => Err(e),
    }
}

/// Builds the query for `domain` and `record_type` under the id given by the
/// caller: a header with one question, no other entries and the recursion
/// bit set if `recursion_desired`, then the question in the class of the
/// Internet. Fails with `InvalidLabel` or `NameTooLong` where encoding the
/// name does.
pub fn encode_query(domain: &DomainName, record_type: u16, id: u16, recursion_desired: bool) -> (r:
    Result<Vec<u8>, DnsError>)
    ensures
        bytes_result(r) == query_wire(domain@, record_type, id, recursion_desired),
{
    let name = match domain.encode() {
        Err(e) => {
            return Err(e);
        },
        Ok(bytes) => bytes,
    };
    let flags: u16 = if recursion_desired {
        RECURSION_DESIRED
    } else {
        0
    };
    let header = Header::new(id, flags, 1, 0, 0, 0);
    let mut out = header.to_bytes();
    push_bytes(&mut out, &name);
    push_u16(&mut out, record_type);
    push_u16(&mut out, CLASS_IN);
    assert(out@ =~= query_header(id, recursion_desired).wire() + question_wire(
        query_question(domain@, record_type),
    )->Ok_0);
    Ok(out)
}

/// Builds a query for the dotted name `domain_name` and `record_type`, with
/// recursion desired, under an id drawn from `rng`, which moves on by one
/// draw. Whatever id is drawn, the bytes are those of `encode_query` for it;
/// the query fails exactly where encoding the name does.
pub fn build_query(domain_name: String, record_type: u16, rng: &mut StdRng) -> (r: Result<
    Vec<u8>,
    DnsError,
>)
    ensures
        match r {
            Ok(bytes) => exists|id: u16|
                query_wire(split_labels(text_bytes(domain_name@)), record_type, id, true) == Ok::<
                    Seq<u8>,
                    DnsError,
                >(bytes@),
            Err(e) => encode_name_spec(split_labels(text_bytes(domain_name@))) == Err::<
                Seq<u8>,
                DnsError,
            >(e),
        },
{
    let name = DomainName::from_text(domain_name.as_str());
    let id = random_id(rng);
    encode_query(&name, record_type, id, true)
}

} // verus!
