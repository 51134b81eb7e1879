//! Whole messages: a header, the questions, and the three record sections.

use crate::error::DnsError;
use crate::header::{header_at, Header, HEADER_LEN};
use crate::name::bytes_result;
use crate::question::{question_at, question_wire, Question, QuestionModel};
use crate::record::{record_at, record_wire, RecordModel, ResourceRecord};
use crate::wire::push_bytes;
use vstd::prelude::*;

verus! {

/// A DNS message.
#[derive(Clone, Debug, PartialEq, Eq)]
pub struct Message {
    pub header: Header,
    pub questions: Vec<Question>,
    pub answers: Vec<ResourceRecord>,
    pub authorities: Vec<ResourceRecord>,
    pub additionals: Vec<ResourceRecord>,
}

/// A message as a value of the model.
pub struct MessageModel {
    pub header: Header,
    pub questions: Seq<QuestionModel>,
    pub answers: Seq<RecordModel>,
    pub authorities: Seq<RecordModel>,
    pub additionals: Seq<RecordModel>,
}

/// The questions held by a vector.
pub open spec fn questions_view(questions: Seq<Question>) -> Seq<QuestionModel> {
    Seq::new(questions.len(), |i: int| questions[i]@)
}

/// The records held by a vector.
pub open spec fn records_view(records: Seq<ResourceRecord>) -> Seq<RecordModel> {
    Seq::new(records.len(), |i: int| records[i]@)
}

impl View for Message {
    type V = MessageModel;

    open spec fn view(&self) -> MessageModel {
        MessageModel {
            header: self.header,
            questions: questions_view(self.questions@),
            answers: records_view(self.answers@),
            authorities: records_view(self.authorities@),
            additionals: records_view(self.additionals@),
        }
    }
}

impl MessageModel {
    /// Each count of the header is the number of entries of its section.
    pub open spec fn counts_match(self) -> bool {
        &&& self.header.num_questions == self.questions.len()
        &&& self.header.num_answers == self.answers.len()
        &&& self.header.num_authorities == self.authorities.len()
        &&& self.header.num_additionals == self.additionals.len()
    }
}

/// The wire forms of the questions one after the other; fails as the first
/// question that fails.
pub open spec fn questions_wire(questions: Seq<QuestionModel>) -> Result<Seq<u8>, DnsError>
    decreases questions.len(),
{
    if questions.len() == 0 {
        Ok(Seq::empty())
    } else {
        match questions_wire(questions.drop_last()) {
            Err(e) => Err(e),
            Ok(before) => match question_wire(questions.last()) {
                Err(e) => Err(e),
                Ok(last) => Ok(before + last),
            },
        }
    }
}

/// The wire forms of the records one after the other; fails as the first
/// record that fails.
pub open spec fn records_wire(records: Seq<RecordModel>) -> Result<Seq<u8>, DnsError>
    decreases records.len(),
{
    if records.len() == 0 {
        Ok(Seq::empty())
    } else {
        match records_wire(records.drop_last()) {
            Err(e) => Err(e),
            Ok(before) => match record_wire(records.last()) {
                Err(e) => Err(e),
                Ok(last) => Ok(before + last),
            },
        }
    }
}

/// The wire form of a message: the header, then the questions, the answers,
/// the authority records and the additional records, none compressed. Fails
/// as the first entry that fails, in that order.
pub open spec fn message_wire(m: MessageModel) -> Result<Seq<u8>, DnsError> {
    match questions_wire(m.questions) {
        Err(e) => Err(e),
        Ok(questions) => match records_wire(m.answers) {
            Err(e) => Err(e),
            Ok(answers) => match records_wire(m.authorities) {
                Err(e) => Err(e),
                Ok(authorities) => match records_wire(m.additionals) {
                    Err(e) => Err(e),
                    Ok(additionals) => Ok(
                        m.header.wire() + questions + answers + authorities + additionals,
                    ),
                },
            },
        }
    }
}

/// The `count` questions that stand one after the other from `pos` on, and
/// the offset behind the last.
pub open spec fn questions_at(buf: Seq<u8>, pos: int, count: nat) -> Result<
    (Seq<QuestionModel>, int),
    DnsError,
>
    decreases count,
{
    if count == 0 {
        Ok((Seq::empty(), pos))
    } else {
        match question_at(buf, pos) {
            Err(e) => Err(e),
            Ok((first, next)) => match questions_at(buf, next, (count - 1) as nat) {
                Err(e) => Err(e),
                Ok((rest, end)) => Ok((seq![first] + rest, end)),
            },
        }
    }
}

/// The `count` records that stand one after the other from `pos` on, and the
/// offset behind the last.
pub open spec fn records_at(buf: Seq<u8>, pos: int, count: nat) -> Result<
    (Seq<RecordModel>, int),
    DnsError,
>
    decreases count,
{
    if count == 0 {
        Ok((Seq::empty(), pos))
    } else {
        match record_at(buf, pos) {
            Err(e) => Err(e),
            Ok((first, next)) => match records_at(buf, next, (count - 1) as nat) {
                Err(e) => Err(e),
                Ok((rest, end)) => Ok((seq![first] + rest, end)),
            },
        }
    }
}

/// The message that `buf` holds, and the offset behind its last entry: the
/// header, then as many questions, answers, authority records and additional
/// records as the header counts, read one after the other. Fails as the
/// first part that fails.
pub open spec fn message_at(buf: Seq<u8>) -> Result<(MessageModel, int), DnsError> {
    match header_at(buf) {
        Err(e) => Err(e),
        Ok(header) => match questions_at(buf, HEADER_LEN as int, header.num_questions as nat) {
            Err(e) => Err(e),
            Ok((questions, at_answers)) => match records_at(buf, at_answers, header.num_answers as nat) {
                Err(e) => Err(e),
                Ok((answers, at_authorities)) => match records_at(buf, at_authorities, header.num_authorities as nat) {
                    Err(e) => Err(e),
                    Ok((authorities, at_additionals)) => match records_at(
                        buf,
                        at_additionals,
                        header.num_additionals as nat,
                    ) {
                        Err(e) => Err(e),
                        Ok((additionals, end)) => Ok(
                            (
                                MessageModel {
                                    header,
                                    questions,
                                    answers,
                                    authorities,
                                    additionals,
                                },
                                end,
                            ),
                        ),
                    },
                },
            },
        },
    }
}

/// What decoding a buffer gives: the message it holds. Bytes behind the
/// last entry are not looked at.
pub open spec fn decode_message_spec(buf: Seq<u8>) -> Result<MessageModel, DnsError> {
    match message_at(buf) {
        Ok((m, _)) => Ok(m),
        Err(e) => Err(e),
    }
}

/// A section read so far, continued by what is read from here on.
spec fn more_questions(
    done: Seq<QuestionModel>,
    rest: Result<(Seq<QuestionModel>, int), DnsError>,
) -> Result<(Seq<QuestionModel>, int), DnsError> {
    match rest {
        Ok((found, end)) => Ok((done + found, end)),
        Err(e) => Err(e),
    }
}

/// A section read so far, continued by what is read from here on.
spec fn more_records(
    done: Seq<RecordModel>,
    rest: Result<(Seq<RecordModel>, int), DnsError>,
) -> Result<(Seq<RecordModel>, int), DnsError> {
    match rest {
        Ok((found, end)) => Ok((done + found, end)),
        Err(e) => Err(e),
    }
}

/// Reads `count` questions from `start` on; gives them with the offset
/// behind the last.
fn decode_questions(buf: &[u8], start: usize, count: u16) -> (r: Result<
    (Vec<Question>, usize),
    DnsError,
>)
    requires
        start <= buf@.len(),
    ensures
        match r {
            Ok((questions, end)) => questions_at(buf@, start as int, count as nat) == Ok::<
                (Seq<QuestionModel>, int),
                DnsError,
            >((questions_view(questions@), end as int)) && end <= buf@.len()
                && questions@.len() == count,
            Err(e) => questions_at(buf@, start as int, count as nat) == Err::<
                (Seq<QuestionModel>, int),
                DnsError,
            >(e),
        },
{
    let mut questions: Vec<Question> = Vec::new();
    let mut pos: usize = start;
    let mut i: u16 = 0;
    let total: usize = buf.len();
    proof {
        match questions_at(buf@, start as int, count as nat) {
            Ok((found, _)) => {
                assert(questions_view(questions@) + found =~= found);
            },
            Err(_) => {},
        }
    }
    while i < count
        invariant
            i <= count,
            pos <= buf@.len(),
            total == buf@.len(),
            questions@.len() == i,
            questions_at(buf@, start as int, count as nat) == more_questions(
                questions_view(questions@),
                questions_at(buf@, pos as int, (count - i) as nat),
            ),
        decreases count - i,
    {
        match Question::decode(buf, pos) {
            Err(e) => {
                return Err(e);
            },
            Ok((q, consumed)) => {
                let ghost done = questions_view(questions@);
                let ghost first = q@;
                questions.push(q);
                proof {
                    assert(questions_view(questions@) =~= done.push(first));
                    match questions_at(buf@, pos + consumed, (count - i - 1) as nat) {
                        Ok((rest, _)) => {
                            assert(done + (seq![first] + rest) =~= done.push(first) + rest);
                        },
                        Err(_) => {},
                    }
                }
                pos = pos + consumed;
                i += 1;
            },
        }
    }
    assert(questions_view(questions@) + Seq::<QuestionModel>::empty() =~= questions_view(
        questions@,
    ));
    Ok((questions, pos))
}

/// Reads `count` records from `start` on; gives them with the offset behind
/// the last.
fn decode_records(buf: &[u8], start: usize, count: u16) -> (r: Result<
    (Vec<ResourceRecord>, usize),
    DnsError,
>)
    requires
        start <= buf@.len(),
    ensures
        match r {
            Ok((records, end)) => records_at(buf@, start as int, count as nat) == Ok::<
                (Seq<RecordModel>, int),
                DnsError,
            >((records_view(records@), end as int)) && end <= buf@.len() && records@.len()
                == count,
            Err(e) => records_at(buf@, start as int, count as nat) == Err::<
                (Seq<RecordModel>, int),
                DnsError,
            >(e),
        },
{
    let mut records: Vec<ResourceRecord> = Vec::new();
    let mut pos: usize = start;
    let mut i: u16 = 0;
    let total: usize = buf.len();
    proof {
        match records_at(buf@, start as int, count as nat) {
            Ok((found, _)) => {
                assert(records_view(records@) + found =~= found);
            },
            Err(_) => {},
        }
    }
    while i < count
        invariant
            i <= count,
            pos <= buf@.len(),
            total == buf@.len(),
            records@.len() == i,
            records_at(buf@, start as int, count as nat) == more_records(
                records_view(records@),
                records_at(buf@, pos as int, (count - i) as nat),
            ),
        decreases count - i,
    {
        match ResourceRecord::decode(buf, pos) {
            Err(e) => {
                return Err(e);
            },
            Ok((record, consumed)) => {
                let ghost done = records_view(records@);
                let ghost first = record@;
                records.push(record);
                proof {
                    assert(records_view(records@) =~= done.push(first));
                    match records_at(buf@, pos + consumed, (count - i - 1) as nat) {
                        Ok((rest, _)) => {
                            assert(done + (seq![first] + rest) =~= done.push(first) + rest);
                        },
                        Err(_) => {},
                    }
                }
                pos = pos + consumed;
                i += 1;
            },
        }
    }
    assert(records_view(records@) + Seq::<RecordModel>::empty() =~= records_view(records@));
    Ok((records, pos))
}

/// Decodes the message that `buf` holds: the header, then exactly as many
/// questions and records as the header counts, section after section. A
/// name may point to any place of `buf`.
///
/// Fails with `TruncatedMessage` if `buf` ends before an entry that the
/// header counts does, with `MalformedRecord` if the data of a record does
/// not fit its type, and with `InvalidLabel` or `CompressionLoop` where a
/// name does. The decoded message has counts that match its sections.
pub fn decode_message(buf: &[u8]) -> (r: Result<Message, DnsError>)
    ensures
        match r {
            Ok(m) => decode_message_spec(buf@) == Ok::<MessageModel, DnsError>(m@)
                && m@.counts_match(),
            Err(e) => decode_message_spec(buf@) == Err::<MessageModel, DnsError>(e),
        },
{
    let header = match Header::decode(buf) {
        Err(e) => {
            return Err(e);
        },
        Ok(h) => h,
    };
    let (questions, at_answers) = match decode_questions(buf, HEADER_LEN, header.num_questions) {
        Err(e) => {
            return Err(e);
        },
        Ok(found) => found,
    };
    let (answers, at_authorities) = match decode_records(buf, at_answers, header.num_answers) {
        Err(e) => {
            return Err(e);
        },
        Ok(found) => found,
    };
    let (authorities, at_additionals) = match decode_records(buf, at_authorities, header.num_authorities) {
        Err(e) => {
            return Err(e);
        },
        Ok(found) => found,
    };
    let (additionals, _) = match decode_records(buf, at_additionals, header.num_additionals) {
        Err(e) => {
            return Err(e);
        },
        Ok(found) => found,
    };
    Ok(Message { header, questions, answers, authorities, additionals })
}

/// Appends the wire forms of `records` to `out`, or reports the first that
/// fails.
fn append_records(out: &mut Vec<u8>, records: &Vec<ResourceRecord>) -> (r: Result<(), DnsError>)
    ensures
        match r {
            Ok(_) => records_wire(records_view(records@)) is Ok && final(out)@ == old(out)@
                + records_wire(records_view(records@))->Ok_0,
            Err(e) => records_wire(records_view(records@)) == Err::<Seq<u8>, DnsError>(e),
        },
{
    let ghost all = records_view(records@);
    let mut i: usize = 0;
    assert(all.take(0) =~= Seq::<RecordModel>::empty());
    assert(out@ + Seq::<u8>::empty() =~= out@);
    while i < records.len()
        invariant
            i <= records.len(),
            all == records_view(records@),
            records_wire(all.take(i as int)) is Ok,
            out@ == old(out)@ + records_wire(all.take(i as int))->Ok_0,
        decreases records.len() - i,
    {
        proof {
            assert(all.take(i as int + 1).drop_last() =~= all.take(i as int));
            assert(all.take(i as int + 1).last() == records@[i as int]@);
        }
        match records[i].to_bytes() {
            Err(e) => {
                proof {
                    lemma_records_wire_prefix_fails(all, i as int + 1);
                }
                return Err(e);
            },
            Ok(bytes) => {
                push_bytes(out, &bytes);
                assert(out@ =~= old(out)@ + records_wire(all.take(i as int + 1))->Ok_0);
            },
        }
        i += 1;
    }
    assert(all.take(i as int) =~= all);
    Ok(())
}

/// Appends the wire forms of `questions` to `out`, or reports the first
/// that fails.
fn append_questions(out: &mut Vec<u8>, questions: &Vec<Question>) -> (r: Result<(), DnsError>)
    ensures
        match r {
            Ok(_) => questions_wire(questions_view(questions@)) is Ok && final(out)@ == old(out)@
                + questions_wire(questions_view(questions@))->Ok_0,
            Err(e) => questions_wire(questions_view(questions@)) == Err::<Seq<u8>, DnsError>(e),
        },
{
    let ghost all = questions_view(questions@);
    let mut i: usize = 0;
    assert(all.take(0) =~= Seq::<QuestionModel>::empty());
    assert(out@ + Seq::<u8>::empty() =~= out@);
    while i < questions.len()
        invariant
            i <= questions.len(),
            all == questions_view(questions@),
            questions_wire(all.take(i as int)) is Ok,
            out@ == old(out)@ + questions_wire(all.take(i as int))->Ok_0,
        decreases questions.len() - i,
    {
        proof {
            assert(all.take(i as int + 1).drop_last() =~= all.take(i as int));
            assert(all.take(i as int + 1).last() == questions@[i as int]@);
        }
        match questions[i].to_bytes() {
            Err(e) => {
                proof {
                    lemma_questions_wire_prefix_fails(all, i as int + 1);
                }
                return Err(e);
            },
            Ok(bytes) => {
                push_bytes(out, &bytes);
                assert(out@ =~= old(out)@ + questions_wire(all.take(i as int + 1))->Ok_0);
            },
        }
        i += 1;
    }
    assert(all.take(i as int) =~= all);
    Ok(())
}

/// Where the first `n` records fail to encode, all of them fail the same way.
proof fn lemma_records_wire_prefix_fails(records: Seq<RecordModel>, n: int)
    requires
        0 <= n <= records.len(),
        records_wire(records.take(n)) is Err,
    ensures
        records_wire(records) == records_wire(records.take(n)),
    decreases records.len(),
{
    if n < records.len() {
        assert(records.drop_last().take(n) =~= records.take(n));
        lemma_records_wire_prefix_fails(records.drop_last(), n);
    } else {
        assert(records.take(n) =~= records);
    }
}

/// Where the first `n` questions fail to encode, all of them fail the same
/// way.
proof fn lemma_questions_wire_prefix_fails(questions: Seq<QuestionModel>, n: int)
    requires
        0 <= n <= questions.len(),
        questions_wire(questions.take(n)) is Err,
    ensures
        questions_wire(questions) == questions_wire(questions.take(n)),
    decreases questions.len(),
{
    if n < questions.len() {
        assert(questions.drop_last().take(n) =~= questions.take(n));
        lemma_questions_wire_prefix_fails(questions.drop_last(), n);
    } else {
        assert(questions.take(n) =~= questions);
    }
}

impl Message {
    /// A message with the id, the flags and the sections given; the counts
    /// of its header are the lengths of the sections. Gives `None` if a
    /// section holds more than 65535 entries.
    pub fn new(
        id: u16,
        flags: u16,
        questions: Vec<Question>,
        answers: Vec<ResourceRecord>,
        authorities: Vec<ResourceRecord>,
        additionals: Vec<ResourceRecord>,
    ) -> (r: Option<Message>)
        ensures
            r is Some <==> questions@.len() <= 0xffff && answers@.len() <= 0xffff
                && authorities@.len() <= 0xffff && additionals@.len() <= 0xffff,
            r matches Some(m) ==> m@.counts_match() && m@.header.id == id && m@.header.flags
                == flags && m@.questions == questions_view(questions@) && m@.answers
                == records_view(answers@) && m@.authorities == records_view(authorities@)
                && m@.additionals == records_view(additionals@),
    {
        if questions.len() > 0xffff || answers.len() > 0xffff || authorities.len() > 0xffff
            || additionals.len() > 0xffff {
            return None;
        }
        let header = Header::new(
            id,
            flags,
            questions.len() as u16,
            answers.len() as u16,
            authorities.len() as u16,
            additionals.len() as u16,
        );
        Some(Message { header, questions, answers, authorities, additionals })
    }

    /// Whether each count of the header is the length of its section.
    pub fn counts_match(&self) -> (ok: bool)
        ensures
            ok == self@.counts_match(),
    {
        self.header.num_questions as usize == self.questions.len() && self.header.num_answers as usize
            == self.answers.len() && self.header.num_authorities as usize
            == self.authorities.len() && self.header.num_additionals as usize
            == self.additionals.len()
    }

    /// The wire form of the message, without compression: the header as it
    /// is, then the four sections. Fails as the first question or record
    /// that fails to encode.
    pub fn to_bytes(&self) -> (r: Result<Vec<u8>, DnsError>)
        ensures
            bytes_result(r) == message_wire(self@),
    {
        let mut out = self.header.to_bytes();
        match append_questions(&mut out, &self.questions) {
            Err(e) => {
                return Err(e);
            },
            Ok(_) => {},
        }
        match append_records(&mut out, &self.answers) {
            Err(e) => {
                return Err(e);
            },
            Ok(_) => {},
        }
        match append_records(&mut out, &self.authorities) {
            Err(e) => {
                return Err(e);
            },
            Ok(_) => {},
        }
        match append_records(&mut out, &self.additionals) {
            Err(e) => {
                return Err(e);
            },
            Ok(_) => {},
        }
        Ok(out)
    }
}

} // verus!
