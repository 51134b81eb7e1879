//! What holds of the message codec for every message and every buffer.

use crate::error::DnsError;
use crate::header::{header_at, lemma_header_round_trip, Header, HEADER_LEN};
use crate::message::{
    decode_message_spec, message_at, message_wire, questions_at, questions_wire, records_at,
    records_wire, MessageModel,
};
use crate::name::{
    decode_name_spec, lemma_name_end_bounds, no_empty_label, wire_name, MAX_POINTER_FOLLOWS,
};
use crate::name_laws::{
    holds_at, lemma_name_cut, lemma_name_in_buffer, lemma_wire_name_decodes,
};
use crate::query::{query_header, query_question, query_wire};
use crate::question::{
    question_at, question_wire, QuestionModel, CLASS_IN, TYPE_CNAME, TYPE_NS,
};
use crate::record::{
    data_at, data_wire, record_at, record_wire, DataModel, RecordModel, RECORD_FIXED_LEN,
};
use crate::wire::{be16, be32, lemma_be16_round_trip, lemma_be32_round_trip, u16_at};
use vstd::prelude::*;

verus! {

/// Cutting a buffer short leaves a question as it was or fails it with
/// `TruncatedMessage`; it fails it whenever the cut lies before its end.
pub proof fn lemma_question_cut(buf: Seq<u8>, pos: int, k: int)
    requires
        0 <= k <= buf.len(),
        question_at(buf, pos) is Ok,
    ensures
        question_at(buf.take(k), pos) == question_at(buf, pos) || question_at(buf.take(k), pos)
            == Err::<(QuestionModel, int), DnsError>(DnsError::TruncatedMessage),
        k < question_at(buf, pos)->Ok_0.1 ==> question_at(buf.take(k), pos) == Err::<
            (QuestionModel, int),
            DnsError,
        >(DnsError::TruncatedMessage),
{
    lemma_name_cut(buf, pos, MAX_POINTER_FOLLOWS as nat, k);
    lemma_name_end_bounds(buf, pos, MAX_POINTER_FOLLOWS as nat);
}

/// Cutting a buffer short leaves the data of a record as it was or fails it
/// with `TruncatedMessage`; it fails it whenever the cut lies before its end.
pub proof fn lemma_data_cut(buf: Seq<u8>, pos: int, len: int, type_: u16, k: int)
    requires
        0 <= k <= buf.len(),
        0 <= pos,
        0 <= len,
        data_at(buf, pos, len, type_) is Ok,
    ensures
        data_at(buf.take(k), pos, len, type_) == data_at(buf, pos, len, type_) || data_at(
            buf.take(k),
            pos,
            len,
            type_,
        ) == Err::<DataModel, DnsError>(DnsError::TruncatedMessage),
        k < pos + len ==> data_at(buf.take(k), pos, len, type_) == Err::<DataModel, DnsError>(
            DnsError::TruncatedMessage,
        ),
{
    if pos + len <= k {
        if type_ == TYPE_NS || type_ == TYPE_CNAME {
            lemma_name_cut(buf, pos, MAX_POINTER_FOLLOWS as nat, k);
        }
        assert(buf.take(k).subrange(pos, pos + len) =~= buf.subrange(pos, pos + len));
    }
}

/// Cutting a buffer short leaves a record as it was or fails it with
/// `TruncatedMessage`; it fails it whenever the cut lies before its end.
pub proof fn lemma_record_cut(buf: Seq<u8>, pos: int, k: int)
    requires
        0 <= k <= buf.len(),
        record_at(buf, pos) is Ok,
    ensures
        record_at(buf.take(k), pos) == record_at(buf, pos) || record_at(buf.take(k), pos) == Err::<
            (RecordModel, int),
            DnsError,
        >(DnsError::TruncatedMessage),
        k < record_at(buf, pos)->Ok_0.1 ==> record_at(buf.take(k), pos) == Err::<
            (RecordModel, int),
            DnsError,
        >(DnsError::TruncatedMessage),
{
    lemma_name_cut(buf, pos, MAX_POINTER_FOLLOWS as nat, k);
    lemma_name_end_bounds(buf, pos, MAX_POINTER_FOLLOWS as nat);
    let fixed = decode_name_spec(buf, pos)->Ok_0.1;
    if fixed + RECORD_FIXED_LEN <= k {
        let len = u16_at(buf, fixed + 8) as int;
        let type_ = u16_at(buf, fixed);
        lemma_data_cut(buf, fixed + RECORD_FIXED_LEN, len, type_, k);
    }
}

/// A record that decodes ends behind where it starts.
pub proof fn lemma_record_end(buf: Seq<u8>, pos: int)
    requires
        record_at(buf, pos) is Ok,
    ensures
        pos < record_at(buf, pos)->Ok_0.1 <= buf.len(),
{
    lemma_name_end_bounds(buf, pos, MAX_POINTER_FOLLOWS as nat);
}

/// A question that decodes ends behind where it starts.
pub proof fn lemma_question_end(buf: Seq<u8>, pos: int)
    requires
        question_at(buf, pos) is Ok,
    ensures
        pos < question_at(buf, pos)->Ok_0.1 <= buf.len(),
{
    lemma_name_end_bounds(buf, pos, MAX_POINTER_FOLLOWS as nat);
}

/// Cutting a buffer short leaves a run of questions as it was or fails it
/// with `TruncatedMessage`; it fails it whenever the cut lies between its
/// start and its end.
pub proof fn lemma_questions_cut(buf: Seq<u8>, pos: int, count: nat, k: int)
    requires
        0 <= k <= buf.len(),
        questions_at(buf, pos, count) is Ok,
    ensures
        questions_at(buf.take(k), pos, count) == questions_at(buf, pos, count) || questions_at(
            buf.take(k),
            pos,
            count,
        ) == Err::<(Seq<QuestionModel>, int), DnsError>(DnsError::TruncatedMessage),
        pos <= k < questions_at(buf, pos, count)->Ok_0.1 ==> questions_at(buf.take(k), pos, count)
            == Err::<(Seq<QuestionModel>, int), DnsError>(DnsError::TruncatedMessage),
        pos <= questions_at(buf, pos, count)->Ok_0.1,
    decreases count,
{
    if count > 0 {
        lemma_question_cut(buf, pos, k);
        lemma_question_end(buf, pos);
        let next = question_at(buf, pos)->Ok_0.1;
        lemma_questions_cut(buf, next, (count - 1) as nat, k);
    }
}

/// Cutting a buffer short leaves a run of records as it was or fails it with
/// `TruncatedMessage`; it fails it whenever the cut lies between its start
/// and its end.
pub proof fn lemma_records_cut(buf: Seq<u8>, pos: int, count: nat, k: int)
    requires
        0 <= k <= buf.len(),
        records_at(buf, pos, count) is Ok,
    ensures
        records_at(buf.take(k), pos, count) == records_at(buf, pos, count) || records_at(
            buf.take(k),
            pos,
            count,
        ) == Err::<(Seq<RecordModel>, int), DnsError>(DnsError::TruncatedMessage),
        pos <= k < records_at(buf, pos, count)->Ok_0.1 ==> records_at(buf.take(k), pos, count)
            == Err::<(Seq<RecordModel>, int), DnsError>(DnsError::TruncatedMessage),
        pos <= records_at(buf, pos, count)->Ok_0.1,
    decreases count,
{
    if count > 0 {
        lemma_record_cut(buf, pos, k);
        lemma_record_end(buf, pos);
        let next = record_at(buf, pos)->Ok_0.1;
        lemma_records_cut(buf, next, (count - 1) as nat, k);
    }
}

/// Malformed input: a buffer that holds a message, cut at any offset before
/// the end of its last entry, fails to decode with `TruncatedMessage`.
pub proof fn lemma_truncated_message(buf: Seq<u8>, k: int)
    requires
        message_at(buf) is Ok,
        0 <= k < message_at(buf)->Ok_0.1,
    ensures
        decode_message_spec(buf.take(k)) == Err::<MessageModel, DnsError>(
            DnsError::TruncatedMessage,
        ),
{
    let header = header_at(buf)->Ok_0;
    let start = HEADER_LEN as int;
    let (_, at_answers) = questions_at(buf, start, header.num_questions as nat)->Ok_0;
    let (_, at_authorities) = records_at(buf, at_answers, header.num_answers as nat)->Ok_0;
    let (_, at_additionals) = records_at(buf, at_authorities, header.num_authorities as nat)->Ok_0;
    let (_, end) = records_at(buf, at_additionals, header.num_additionals as nat)->Ok_0;
    lemma_questions_cut(buf, start, header.num_questions as nat, buf.len() as int);
    lemma_records_cut(buf, at_answers, header.num_answers as nat, buf.len() as int);
    lemma_records_cut(buf, at_authorities, header.num_authorities as nat, buf.len() as int);
    lemma_records_cut(buf, at_additionals, header.num_additionals as nat, buf.len() as int);
    assert(end <= buf.len()) by {
        lemma_message_end(buf);
    }
    if k >= HEADER_LEN {
        assert(header_at(buf.take(k)) == header_at(buf));
        lemma_questions_cut(buf, start, header.num_questions as nat, k);
        lemma_records_cut(buf, at_answers, header.num_answers as nat, k);
        lemma_records_cut(buf, at_authorities, header.num_authorities as nat, k);
        lemma_records_cut(buf, at_additionals, header.num_additionals as nat, k);
    }
}

/// A run of questions that decodes ends inside the buffer if it starts there.
pub proof fn lemma_questions_end(buf: Seq<u8>, pos: int, count: nat)
    requires
        questions_at(buf, pos, count) is Ok,
        pos <= buf.len(),
    ensures
        pos <= questions_at(buf, pos, count)->Ok_0.1 <= buf.len(),
    decreases count,
{
    if count > 0 {
        lemma_question_end(buf, pos);
        lemma_questions_end(buf, question_at(buf, pos)->Ok_0.1, (count - 1) as nat);
    }
}

/// A run of records that decodes ends inside the buffer if it starts there.
pub proof fn lemma_records_end(buf: Seq<u8>, pos: int, count: nat)
    requires
        records_at(buf, pos, count) is Ok,
        pos <= buf.len(),
    ensures
        pos <= records_at(buf, pos, count)->Ok_0.1 <= buf.len(),
    decreases count,
{
    if count > 0 {
        lemma_record_end(buf, pos);
        lemma_records_end(buf, record_at(buf, pos)->Ok_0.1, (count - 1) as nat);
    }
}

/// A message that decodes ends inside the buffer, behind its header.
pub proof fn lemma_message_end(buf: Seq<u8>)
    requires
        message_at(buf) is Ok,
    ensures
        HEADER_LEN <= message_at(buf)->Ok_0.1 <= buf.len(),
{
    let header = header_at(buf)->Ok_0;
    let start = HEADER_LEN as int;
    lemma_questions_end(buf, start, header.num_questions as nat);
    let (_, at_answers) = questions_at(buf, start, header.num_questions as nat)->Ok_0;
    lemma_records_end(buf, at_answers, header.num_answers as nat);
    let (_, at_authorities) = records_at(buf, at_answers, header.num_answers as nat)->Ok_0;
    lemma_records_end(buf, at_authorities, header.num_authorities as nat);
    let (_, at_additionals) = records_at(buf, at_authorities, header.num_authorities as nat)->Ok_0;
    lemma_records_end(buf, at_additionals, header.num_additionals as nat);
}

/// Header round trip: every query that encodes also decodes, to a message
/// whose header holds the id and the flags of the query and counts one
/// question and nothing else.
pub proof fn lemma_query_header_round_trip(
    name: Seq<Seq<u8>>,
    record_type: u16,
    id: u16,
    recursion_desired: bool,
)
    requires
        query_wire(name, record_type, id, recursion_desired) is Ok,
    ensures
        decode_message_spec(query_wire(name, record_type, id, recursion_desired)->Ok_0) is Ok,
        decode_message_spec(
            query_wire(name, record_type, id, recursion_desired)->Ok_0,
        )->Ok_0.header == query_header(id, recursion_desired),
        decode_message_spec(
            query_wire(name, record_type, id, recursion_desired)->Ok_0,
        )->Ok_0.header.id == id,
        decode_message_spec(
            query_wire(name, record_type, id, recursion_desired)->Ok_0,
        )->Ok_0.header.num_questions == 1,
{
    let header = query_header(id, recursion_desired);
    let bytes = query_wire(name, record_type, id, recursion_desired)->Ok_0;
    let tail = wire_name(name) + be16(record_type) + be16(CLASS_IN);
    assert(bytes =~= header.wire() + tail);
    lemma_header_round_trip(header, tail);
    let start = HEADER_LEN as int;
    assert(bytes.subrange(start, start + wire_name(name).len()) =~= wire_name(name));
    lemma_wire_name_decodes(bytes, start, name, MAX_POINTER_FOLLOWS as nat);
    lemma_name_end_bounds(bytes, start, MAX_POINTER_FOLLOWS as nat);
    reveal_with_fuel(questions_at, 2);
}

/// A query for a name without empty labels decodes to the very message that
/// was encoded: the header of the query, its one question, and no records.
pub proof fn lemma_query_round_trip(
    name: Seq<Seq<u8>>,
    record_type: u16,
    id: u16,
    recursion_desired: bool,
)
    requires
        query_wire(name, record_type, id, recursion_desired) is Ok,
        no_empty_label(name),
    ensures
        decode_message_spec(query_wire(name, record_type, id, recursion_desired)->Ok_0) == Ok::<
            MessageModel,
            DnsError,
        >(
            MessageModel {
                header: query_header(id, recursion_desired),
                questions: seq![query_question(name, record_type)],
                answers: Seq::empty(),
                authorities: Seq::empty(),
                additionals: Seq::empty(),
            },
        ),
{
    let header = query_header(id, recursion_desired);
    let bytes = query_wire(name, record_type, id, recursion_desired)->Ok_0;
    let tail = wire_name(name) + be16(record_type) + be16(CLASS_IN);
    assert(bytes =~= header.wire() + tail);
    lemma_header_round_trip(header, tail);
    let start = HEADER_LEN as int;
    let end = start + wire_name(name).len();
    assert(bytes.subrange(start, end) =~= wire_name(name));
    lemma_name_in_buffer(bytes, start, name, MAX_POINTER_FOLLOWS as nat);
    assert(bytes.subrange(end, end + 2) =~= be16(record_type));
    assert(bytes.subrange(end + 2, end + 4) =~= be16(CLASS_IN));
    lemma_be16_round_trip(bytes, end, record_type);
    lemma_be16_round_trip(bytes, end + 2, CLASS_IN);
    reveal_with_fuel(questions_at, 2);
    let found = questions_at(bytes, start, 1)->Ok_0.0;
    assert(found =~= seq![query_question(name, record_type)]);
}

/// No name of the question has an empty label.
pub open spec fn question_is_plain(q: QuestionModel) -> bool {
    no_empty_label(q.name)
}

/// No name of the record has an empty label.
pub open spec fn record_is_plain(r: RecordModel) -> bool {
    no_empty_label(r.name) && (r.data matches DataModel::Name(n) ==> no_empty_label(n))
}

/// No name of the message has an empty label.
pub open spec fn message_is_plain(m: MessageModel) -> bool {
    &&& forall|i: int| 0 <= i < m.questions.len() ==> question_is_plain(#[trigger] m.questions[i])
    &&& forall|i: int| 0 <= i < m.answers.len() ==> record_is_plain(#[trigger] m.answers[i])
    &&& forall|i: int| 0 <= i < m.authorities.len() ==> record_is_plain(#[trigger] m.authorities[i])
    &&& forall|i: int| 0 <= i < m.additionals.len() ==> record_is_plain(#[trigger] m.additionals[i])
}

/// A part of what stands in a buffer stands there too.
pub proof fn lemma_part_holds(buf: Seq<u8>, pos: int, whole: Seq<u8>, offset: int, part: Seq<u8>)
    requires
        holds_at(buf, pos, whole),
        0 <= offset,
        offset + part.len() <= whole.len(),
        whole.subrange(offset, offset + part.len()) == part,
    ensures
        holds_at(buf, pos + offset, part),
{
    let found = buf.subrange(pos + offset, pos + offset + part.len());
    assert(found =~= part) by {
        assert forall|i: int| 0 <= i < part.len() implies found[i] == #[trigger] part[i] by {
            assert(buf[pos + offset + i] == buf.subrange(pos, pos + whole.len())[offset + i]);
            assert(whole.subrange(offset, offset + part.len())[i] == whole[offset + i]);
        }
    }
}

/// Where the wire form of a question without empty labels stands in a
/// buffer, the question is read back there, and ends where its wire form does.
pub proof fn lemma_question_in_buffer(buf: Seq<u8>, pos: int, q: QuestionModel)
    requires
        question_wire(q) is Ok,
        question_is_plain(q),
        holds_at(buf, pos, question_wire(q)->Ok_0),
    ensures
        question_at(buf, pos) == Ok::<(QuestionModel, int), DnsError>(
            (q, pos + question_wire(q)->Ok_0.len()),
        ),
{
    let wire = question_wire(q)->Ok_0;
    let name = wire_name(q.name);
    let n = name.len() as int;
    assert(wire =~= name + be16(q.type_) + be16(q.class));
    assert(wire.subrange(0, n) =~= name);
    assert(wire.subrange(n, n + 2) =~= be16(q.type_));
    assert(wire.subrange(n + 2, n + 4) =~= be16(q.class));
    lemma_part_holds(buf, pos, wire, 0, name);
    lemma_part_holds(buf, pos, wire, n, be16(q.type_));
    lemma_part_holds(buf, pos, wire, n + 2, be16(q.class));
    lemma_name_in_buffer(buf, pos, q.name, MAX_POINTER_FOLLOWS as nat);
    lemma_be16_round_trip(buf, pos + n, q.type_);
    lemma_be16_round_trip(buf, pos + n + 2, q.class);
}

/// Where the wire form of a record without empty labels stands in a buffer,
/// the record is read back there, and ends where its wire form does.
pub proof fn lemma_record_in_buffer(buf: Seq<u8>, pos: int, r: RecordModel)
    requires
        record_wire(r) is Ok,
        record_is_plain(r),
        holds_at(buf, pos, record_wire(r)->Ok_0),
    ensures
        record_at(buf, pos) == Ok::<(RecordModel, int), DnsError>(
            (r, pos + record_wire(r)->Ok_0.len()),
        ),
{
    let wire = record_wire(r)->Ok_0;
    let name = wire_name(r.name);
    let data = data_wire(r.data)->Ok_0;
    let size = data.len() as u16;
    let n = name.len() as int;
    let start = pos + n + RECORD_FIXED_LEN;
    assert(wire =~= name + be16(r.type_) + be16(r.class) + be32(r.ttl) + be16(size) + data);
    assert(wire.subrange(0, n) =~= name);
    assert(wire.subrange(n, n + 2) =~= be16(r.type_));
    assert(wire.subrange(n + 2, n + 4) =~= be16(r.class));
    assert(wire.subrange(n + 4, n + 8) =~= be32(r.ttl));
    assert(wire.subrange(n + 8, n + 10) =~= be16(size));
    assert(wire.subrange(n + 10, n + 10 + data.len()) =~= data);
    lemma_part_holds(buf, pos, wire, 0, name);
    lemma_part_holds(buf, pos, wire, n, be16(r.type_));
    lemma_part_holds(buf, pos, wire, n + 2, be16(r.class));
    lemma_part_holds(buf, pos, wire, n + 4, be32(r.ttl));
    lemma_part_holds(buf, pos, wire, n + 8, be16(size));
    lemma_part_holds(buf, pos, wire, n + 10, data);
    lemma_name_in_buffer(buf, pos, r.name, MAX_POINTER_FOLLOWS as nat);
    lemma_be16_round_trip(buf, pos + n, r.type_);
    lemma_be16_round_trip(buf, pos + n + 2, r.class);
    lemma_be32_round_trip(buf, pos + n + 4, r.ttl);
    lemma_be16_round_trip(buf, pos + n + 8, size);
    let found = buf.subrange(start, start + data.len());
    assert(found == data);
    match r.data {
        DataModel::Address(a) => {
            assert(buf[start] == found[0] && buf[start + 1] == found[1] && buf[start + 2]
                == found[2] && buf[start + 3] == found[3]);
        },
        DataModel::Name(name) => {
            lemma_name_in_buffer(buf, start, name, MAX_POINTER_FOLLOWS as nat);
        },
        DataModel::Raw(b) => {},
    }
}

/// The wire form of a run of questions is that of the first, then that of
/// the rest.
pub proof fn lemma_questions_wire_front(questions: Seq<QuestionModel>)
    requires
        questions.len() > 0,
        questions_wire(questions) is Ok,
    ensures
        question_wire(questions[0]) is Ok,
        questions_wire(questions.skip(1)) is Ok,
        questions_wire(questions)->Ok_0 == question_wire(questions[0])->Ok_0 + questions_wire(
            questions.skip(1),
        )->Ok_0,
    decreases questions.len(),
{
    if questions.len() == 1 {
        assert(questions.drop_last() =~= Seq::<QuestionModel>::empty());
        assert(questions.skip(1) =~= Seq::<QuestionModel>::empty());
        assert(questions.last() == questions[0]);
        assert(Seq::<u8>::empty() + question_wire(questions[0])->Ok_0 =~= question_wire(
            questions[0],
        )->Ok_0 + Seq::<u8>::empty());
    } else {
        let front = questions.drop_last();
        lemma_questions_wire_front(front);
        assert(front[0] == questions[0]);
        assert(questions.skip(1).drop_last() =~= front.skip(1));
        assert(questions.skip(1).last() == questions.last());
        let a = question_wire(questions[0])->Ok_0;
        let b = questions_wire(front.skip(1))->Ok_0;
        let c = question_wire(questions.last())->Ok_0;
        assert((a + b) + c =~= a + (b + c));
    }
}

/// The wire form of a run of records is that of the first, then that of the
/// rest.
pub proof fn lemma_records_wire_front(records: Seq<RecordModel>)
    requires
        records.len() > 0,
        records_wire(records) is Ok,
    ensures
        record_wire(records[0]) is Ok,
        records_wire(records.skip(1)) is Ok,
        records_wire(records)->Ok_0 == record_wire(records[0])->Ok_0 + records_wire(
            records.skip(1),
        )->Ok_0,
    decreases records.len(),
{
    if records.len() == 1 {
        assert(records.drop_last() =~= Seq::<RecordModel>::empty());
        assert(records.skip(1) =~= Seq::<RecordModel>::empty());
        assert(records.last() == records[0]);
        assert(Seq::<u8>::empty() + record_wire(records[0])->Ok_0 =~= record_wire(
            records[0],
        )->Ok_0 + Seq::<u8>::empty());
    } else {
        let front = records.drop_last();
        lemma_records_wire_front(front);
        assert(front[0] == records[0]);
        assert(records.skip(1).drop_last() =~= front.skip(1));
        assert(records.skip(1).last() == records.last());
        let a = record_wire(records[0])->Ok_0;
        let b = records_wire(front.skip(1))->Ok_0;
        let c = record_wire(records.last())->Ok_0;
        assert((a + b) + c =~= a + (b + c));
    }
}

/// Where the wire form of a run of questions without empty labels stands in
/// a buffer, the questions are read back there.
pub proof fn lemma_questions_in_buffer(buf: Seq<u8>, pos: int, questions: Seq<QuestionModel>)
    requires
        questions_wire(questions) is Ok,
        forall|i: int| 0 <= i < questions.len() ==> question_is_plain(#[trigger] questions[i]),
        holds_at(buf, pos, questions_wire(questions)->Ok_0),
    ensures
        questions_at(buf, pos, questions.len()) == Ok::<(Seq<QuestionModel>, int), DnsError>(
            (questions, pos + questions_wire(questions)->Ok_0.len()),
        ),
    decreases questions.len(),
{
    if questions.len() == 0 {
        assert(questions =~= Seq::<QuestionModel>::empty());
    } else {
        lemma_questions_wire_front(questions);
        let whole = questions_wire(questions)->Ok_0;
        let first = question_wire(questions[0])->Ok_0;
        let rest = questions.skip(1);
        let next = pos + first.len();
        assert(whole.subrange(0, first.len() as int) =~= first);
        assert(whole.subrange(first.len() as int, whole.len() as int) =~= questions_wire(
            rest,
        )->Ok_0);
        lemma_part_holds(buf, pos, whole, 0, first);
        lemma_part_holds(buf, pos, whole, first.len() as int, questions_wire(rest)->Ok_0);
        assert(question_is_plain(questions[0]));
        lemma_question_in_buffer(buf, pos, questions[0]);
        assert forall|i: int| 0 <= i < rest.len() implies question_is_plain(#[trigger] rest[i]) by {
            assert(rest[i] == questions[i + 1]);
        }
        lemma_questions_in_buffer(buf, next, rest);
        assert(seq![questions[0]] + rest =~= questions);
    }
}

/// Where the wire form of a run of records without empty labels stands in a
/// buffer, the records are read back there.
pub proof fn lemma_records_in_buffer(buf: Seq<u8>, pos: int, records: Seq<RecordModel>)
    requires
        records_wire(records) is Ok,
        forall|i: int| 0 <= i < records.len() ==> record_is_plain(#[trigger] records[i]),
        holds_at(buf, pos, records_wire(records)->Ok_0),
    ensures
        records_at(buf, pos, records.len()) == Ok::<(Seq<RecordModel>, int), DnsError>(
            (records, pos + records_wire(records)->Ok_0.len()),
        ),
    decreases records.len(),
{
    if records.len() == 0 {
        assert(records =~= Seq::<RecordModel>::empty());
    } else {
        lemma_records_wire_front(records);
        let whole = records_wire(records)->Ok_0;
        let first = record_wire(records[0])->Ok_0;
        let rest = records.skip(1);
        let next = pos + first.len();
        assert(whole.subrange(0, first.len() as int) =~= first);
        assert(whole.subrange(first.len() as int, whole.len() as int) =~= records_wire(
            rest,
        )->Ok_0);
        lemma_part_holds(buf, pos, whole, 0, first);
        lemma_part_holds(buf, pos, whole, first.len() as int, records_wire(rest)->Ok_0);
        assert(record_is_plain(records[0]));
        lemma_record_in_buffer(buf, pos, records[0]);
        assert forall|i: int| 0 <= i < rest.len() implies record_is_plain(#[trigger] rest[i]) by {
            assert(rest[i] == records[i + 1]);
        }
        lemma_records_in_buffer(buf, next, rest);
        assert(seq![records[0]] + rest =~= records);
    }
}

/// Each of five runs of bytes stands at its place in the five in a row.
proof fn lemma_five_in_a_row(a: Seq<u8>, b: Seq<u8>, c: Seq<u8>, d: Seq<u8>, e: Seq<u8>)
    ensures
        ({
            let whole = a + b + c + d + e;
            let pb = a.len() as int;
            let pc = pb + b.len();
            let pd = pc + c.len();
            let pe = pd + d.len();
            &&& whole.len() == pe + e.len()
            &&& whole == a + (b + c + d + e)
            &&& whole.subrange(0, whole.len() as int) == whole
            &&& whole.subrange(pb, pc) == b
            &&& whole.subrange(pc, pd) == c
            &&& whole.subrange(pd, pe) == d
            &&& whole.subrange(pe, pe + e.len()) == e
        }),
{
    let whole = a + b + c + d + e;
    let pb = a.len() as int;
    let pc = pb + b.len();
    let pd = pc + c.len();
    let pe = pd + d.len();
    assert(whole =~= a + (b + c + d + e));
    assert(whole.subrange(0, whole.len() as int) =~= whole);
    assert(whole.subrange(pb, pc) =~= b);
    assert(whole.subrange(pc, pd) =~= c);
    assert(whole.subrange(pd, pe) =~= d);
    assert(whole.subrange(pe, pe + e.len()) =~= e);
}

/// Message round trip: a message that encodes, whose counts match its
/// sections and whose names have no empty label, decodes from its wire form
/// to itself, and the wire form ends with its last entry.
pub proof fn lemma_message_round_trip(m: MessageModel)
    requires
        message_wire(m) is Ok,
        m.counts_match(),
        message_is_plain(m),
    ensures
        message_at(message_wire(m)->Ok_0) == Ok::<(MessageModel, int), DnsError>(
            (m, message_wire(m)->Ok_0.len() as int),
        ),
        decode_message_spec(message_wire(m)->Ok_0) == Ok::<MessageModel, DnsError>(m),
{
    let buf = message_wire(m)->Ok_0;
    let h = m.header.wire();
    let q = questions_wire(m.questions)->Ok_0;
    let an = records_wire(m.answers)->Ok_0;
    let au = records_wire(m.authorities)->Ok_0;
    let ad = records_wire(m.additionals)->Ok_0;
    let at_questions = HEADER_LEN as int;
    let at_answers = at_questions + q.len();
    let at_authorities = at_answers + an.len();
    let at_additionals = at_authorities + au.len();
    lemma_five_in_a_row(h, q, an, au, ad);
    lemma_header_round_trip(m.header, q + an + au + ad);
    assert(header_at(buf) == Ok::<Header, DnsError>(m.header));
    lemma_part_holds(buf, 0, buf, at_questions, q);
    lemma_part_holds(buf, 0, buf, at_answers, an);
    lemma_part_holds(buf, 0, buf, at_authorities, au);
    lemma_part_holds(buf, 0, buf, at_additionals, ad);
    lemma_questions_in_buffer(buf, at_questions, m.questions);
    lemma_records_in_buffer(buf, at_answers, m.answers);
    lemma_records_in_buffer(buf, at_authorities, m.authorities);
    lemma_records_in_buffer(buf, at_additionals, m.additionals);
}

} // verus!
