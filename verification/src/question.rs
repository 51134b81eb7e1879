//! The question section: which name, type and class a query asks about.

use crate::error::DnsError;
use crate::name::{bytes_result, decode_name, decode_name_spec, encode_name_spec, DomainName};
use crate::wire::{be16, push_u16, read_u16, u16_at};
use vstd::prelude::*;

verus! {

/// The record type of an IPv4 address.
pub const TYPE_A: u16 = 1;

/// The record type of a name server.
pub const TYPE_NS: u16 = 2;

/// The record type of an alias.
pub const TYPE_CNAME: u16 = 5;

/// The class of the Internet.
pub const CLASS_IN: u16 = 1;

/// One question: the name asked about, and the type and class wanted.
#[derive(Clone, Debug, PartialEq, Eq)]
pub struct Question {
    pub name: DomainName,
    pub type_: u16,
    pub class: u16,
}

/// A question as a value of the model.
pub struct QuestionModel {
    pub name: Seq<Seq<u8>>,
    pub type_: u16,
    pub class: u16,
}

impl View for Question {
    type V = QuestionModel;

    open spec fn view(&self) -> QuestionModel {
        QuestionModel { name: self.name@, type_: self.type_, class: self.class }
    }
}

/// The wire form of a question: the name, then type and class as two
/// big-endian bytes each. Fails as encoding the name does.
pub open spec fn question_wire(q: QuestionModel) -> Result<Seq<u8>, DnsError> {
    match encode_name_spec(q.name) {
        Ok(name) => Ok(name + be16(q.type_) + be16(q.class)),
        Err(e) => Err(e),
    }
}

/// The question that stands at `pos` of `buf`, and the offset behind it.
/// Fails as decoding the name does, and with `TruncatedMessage` if fewer
/// than four bytes follow the name.
pub open spec fn question_at(buf: Seq<u8>, pos: int) -> Result<(QuestionModel, int), DnsError> {
    match decode_name_spec(buf, pos) {
        Err(e) => Err(e),
        Ok((name, end)) => if end + 4 > buf.len() {
            Err(DnsError::TruncatedMessage)
        } else {
            Ok(
                (
                    QuestionModel { name, type_: u16_at(buf, end), class: u16_at(buf, end + 2) },
                    end + 4,
                ),
            )
        },
    }
}

impl Question {
    /// A question with the fields given.
    pub fn new(name: DomainName, type_: u16, class: u16) -> (q: Question)
        ensures
            q@ == (QuestionModel { name: name@, type_, class }),
    {
        Question { name, type_, class }
    }

    /// The wire form of the question. Fails with `InvalidLabel` or
    /// `NameTooLong` where encoding the name does.
    pub fn to_bytes(&self) -> (r: Result<Vec<u8>, DnsError>)
        ensures
            bytes_result(r) == question_wire(self@),
    {
        match self.name.encode() {
            Err(e) => Err(e),
            Ok(mut bytes) => {
                push_u16(&mut bytes, self.type_);
                push_u16(&mut bytes, self.class);
                Ok(bytes)
            },
        }
    }

    /// Reads the question at `pos` of `buf`; gives it with the number of
    /// bytes it takes there.
    pub fn decode(buf: &[u8], pos: usize) -> (r: Result<(Question, usize), DnsError>)
        ensures
            match r {
                Ok((q, consumed)) => question_at(buf@, pos as int) == Ok::<
                    (QuestionModel, int),
                    DnsError,
                >((q@, pos + consumed)) && 0 < consumed && pos + consumed <= buf@.len(),
                Err(e) => question_at(buf@, pos as int) == Err::<(QuestionModel, int), DnsError>(e),
            },
    {
        match decode_name(buf, pos) {
            Err(e) => Err(e),
            Ok((name, consumed)) => {
                let total = buf.len();
                let end = pos + consumed;
                if total - end < 4 {
                    return Err(DnsError::TruncatedMessage);
                }
                let type_ = read_u16(buf, end);
                let class = read_u16(buf, end + 2);
                Ok((Question { name, type_, class }, consumed + 4))
            },
        }
    }
}

} // verus!
