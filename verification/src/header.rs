//! The twelve-byte header that opens every DNS message.

use crate::error::DnsError;
use crate::wire::{be16, push_u16, read_u16, u16_at};
use vstd::prelude::*;

verus! {

/// The length of a header on the wire.
pub const HEADER_LEN: usize = 12;

/// The flag bit that asks the server to resolve recursively.
pub const RECURSION_DESIRED: u16 = 0x0100;

/// The header of a message: the id that ties a response to its query, the
/// flag bits, and how many entries each of the four sections holds.
#[derive(Clone, Copy, Debug, PartialEq, Eq, Structural)]
pub struct Header {
    pub id: u16,
    pub flags: u16,
    pub num_questions: u16,
    pub num_answers: u16,
    pub num_authorities: u16,
    pub num_additionals: u16,
}

/// The header that the first twelve bytes of `buf` hold, or
/// `TruncatedMessage` if there are fewer.
pub open spec fn header_at(buf: Seq<u8>) -> Result<Header, DnsError> {
    if buf.len() < HEADER_LEN {
        Err(DnsError::TruncatedMessage)
    } else {
        Ok(
            Header {
                id: u16_at(buf, 0),
                flags: u16_at(buf, 2),
                num_questions: u16_at(buf, 4),
                num_answers: u16_at(buf, 6),
                num_authorities: u16_at(buf, 8),
                num_additionals: u16_at(buf, 10),
            },
        )
    }
}

impl Header {
    /// The six fields in wire order, each as two big-endian bytes.
    pub open spec fn wire(self) -> Seq<u8> {
        be16(self.id) + be16(self.flags) + be16(self.num_questions) + be16(self.num_answers)
            + be16(self.num_authorities) + be16(self.num_additionals)
    }

    /// A header with the fields given.
    pub fn new(
        id: u16,
        flags: u16,
        num_questions: u16,
        num_answers: u16,
        num_authorities: u16,
        num_additionals: u16,
    ) -> (header: Header)
        ensures
            header == (Header {
                id,
                flags,
                num_questions,
                num_answers,
                num_authorities,
                num_additionals,
            }),
    {
        Header { id, flags, num_questions, num_answers, num_authorities, num_additionals }
    }

    /// The twelve bytes of the header.
    pub fn to_bytes(&self) -> (bytes: Vec<u8>)
        ensures
            bytes@ == self.wire(),
    {
        let mut bytes: Vec<u8> = Vec::new();
        assert(bytes@ + be16(self.id) =~= be16(self.id));
        push_u16(&mut bytes, self.id);
        push_u16(&mut bytes, self.flags);
        push_u16(&mut bytes, self.num_questions);
        push_u16(&mut bytes, self.num_answers);
        push_u16(&mut bytes, self.num_authorities);
        push_u16(&mut bytes, self.num_additionals);
        bytes
    }

    /// Reads the header at the start of `buf`. Fails with `TruncatedMessage`
    /// if `buf` holds fewer than twelve bytes.
    pub fn decode(buf: &[u8]) -> (r: Result<Header, DnsError>)
        ensures
            r == header_at(buf@),
    {
        if buf.len() < HEADER_LEN {
            return Err(DnsError::TruncatedMessage);
        }
        Ok(
            Header {
                id: read_u16(buf, 0),
                flags: read_u16(buf, 2),
                num_questions: read_u16(buf, 4),
                num_answers: read_u16(buf, 6),
                num_authorities: read_u16(buf, 8),
                num_additionals: read_u16(buf, 10),
            },
        )
    }
}

/// Reading a header back from its bytes gives the header, whatever follows.
pub proof fn lemma_header_round_trip(header: Header, rest: Seq<u8>)
    ensures
        header.wire().len() == HEADER_LEN,
        header_at(header.wire() + rest) == Ok::<Header, DnsError>(header),
{
    let buf = header.wire() + rest;
    assert(buf[0] == be16(header.id)[0] && buf[1] == be16(header.id)[1]);
    assert(buf[2] == be16(header.flags)[0] && buf[3] == be16(header.flags)[1]);
    assert(buf[4] == be16(header.num_questions)[0] && buf[5] == be16(header.num_questions)[1]);
    assert(buf[6] == be16(header.num_answers)[0] && buf[7] == be16(header.num_answers)[1]);
    assert(buf[8] == be16(header.num_authorities)[0] && buf[9] == be16(header.num_authorities)[1]);
    assert(buf[10] == be16(header.num_additionals)[0] && buf[11] == be16(
        header.num_additionals,
    )[1]);
}

} // verus!
