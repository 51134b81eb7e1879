//! What holds of every resolution, whatever the name servers send.

use crate::message::decode_message_spec;
use crate::name::encode_name_spec;
use crate::outcome::{
    answers_question, classify_spec, find_answer, lemma_find_answer_is_first, OutcomeModel,
};
use crate::query::query_wire;
use crate::record::{DataModel, Ipv4Address};
use crate::resolver::{
    EventModel, QueryModel, ResolverModel, StateModel, MAX_HOPS, MAX_RETRIES,
};
use vstd::prelude::*;

verus! {

impl ResolverModel {
    /// The counters are within their caps, and no more lookups wait than
    /// referrals were followed.
    pub open spec fn within_bounds(self) -> bool {
        &&& self.alias_hops <= MAX_HOPS
        &&& self.referral_hops <= MAX_HOPS
        &&& self.retries <= MAX_RETRIES
        &&& self.suspended.len() <= self.referral_hops
    }

    /// How much a resolution may still do: every alias and every lookup
    /// that waits counts once, every referral that may still be followed
    /// twice, each of them three attempts, and the retries left for the
    /// query at hand.
    pub open spec fn effort_left(self) -> int {
        3 * (2 * (MAX_HOPS - self.referral_hops) + self.suspended.len() + (MAX_HOPS
            - self.alias_hops)) + (MAX_RETRIES - self.retries)
    }
}

/// The most that `effort_left` can be within the bounds: 74.
pub open spec fn most_effort() -> int {
    3 * (3 * MAX_HOPS) + MAX_RETRIES
}

/// A resolution that has ended stays as it is: no event changes it and no
/// further query is given.
pub proof fn lemma_finished_is_final(r: ResolverModel, event: EventModel, id: u16)
    requires
        r.finished(),
    ensures
        r.after_event(event) == r,
        r.after_query(id) == (r, None::<QueryModel>),
        r.after_step(event, id) == (r, None::<QueryModel>),
{
}

/// A new resolver is within the bounds, with the most effort left.
pub proof fn lemma_start_within_bounds(
    root: Ipv4Address,
    domain: Seq<Seq<u8>>,
    record_type: u16,
)
    ensures
        ResolverModel::start(root, domain, record_type).within_bounds(),
        ResolverModel::start(root, domain, record_type).effort_left() == most_effort(),
{
}

/// No event and no query takes a resolver out of the bounds: at most 8
/// aliases and 8 referrals are ever followed, and a query is sent again at
/// most twice.
pub proof fn lemma_bounds_are_kept(r: ResolverModel, event: EventModel, id: u16)
    requires
        r.within_bounds(),
    ensures
        r.after_event(event).within_bounds(),
        r.after_query(id).0.within_bounds(),
        r.after_step(event, id).0.within_bounds(),
        0 <= r.effort_left() <= most_effort(),
{
    let e = r.after_event(event);
    assert(e.within_bounds());
    assert(e.after_query(id).0.within_bounds());
}

/// Every event that is taken in for a query in flight ends the resolution or
/// leaves it with less effort to spend; asking for the next query never adds
/// any. A resolution therefore ends after at most 75 queries.
pub proof fn lemma_events_use_up_effort(r: ResolverModel, event: EventModel, id: u16)
    requires
        r.within_bounds(),
        r.awaiting(),
    ensures
        r.after_event(event).finished() || r.after_event(event).effort_left() < r.effort_left(),
        !r.after_event(event).awaiting(),
        r.after_step(event, id).0.finished() || r.after_step(event, id).0.effort_left()
            < r.effort_left(),
        r.after_step(event, id).1 is Some ==> r.after_step(event, id).0.awaiting(),
        r.after_step(event, id).1 is None ==> r.after_step(event, id).0.finished(),
{
    let e = r.after_event(event);
    assert(e.finished() || e.effort_left() < r.effort_left());
    assert(!e.awaiting());
    assert(e.after_query(id).0.finished() || e.after_query(id).0.effort_left() == e.effort_left());
}

/// The first query of a resolution goes to the root name server and asks
/// for the name and type the resolver was made for.
pub proof fn lemma_first_query_goes_to_the_root(
    root: Ipv4Address,
    domain: Seq<Seq<u8>>,
    record_type: u16,
    id: u16,
)
    requires
        query_wire(domain, record_type, id, false) is Ok,
    ensures
        ({
            let (r, q) = ResolverModel::start(root, domain, record_type).after_query(id);
            &&& q == Some(
                QueryModel {
                    nameserver: root,
                    bytes: query_wire(domain, record_type, id, false)->Ok_0,
                },
            )
            &&& r.state == (StateModel::Querying {
                nameserver: root,
                domain,
                record_type,
            })
            &&& r.in_flight == Some(id)
        }),
{
}

/// An answer is never made up: where a response ends the resolution with an
/// answer, the response decodes to a message that carries the id of the query
/// in flight and holds, among its answer records, one with the name and the
/// type of the current lookup and with the data given as the answer.
pub proof fn lemma_answer_comes_from_a_record(r: ResolverModel, bytes: Seq<u8>)
    requires
        !r.finished(),
        r.after_event(EventModel::Response(bytes)).state is GotAnswer,
    ensures
        r.awaiting(),
        decode_message_spec(bytes) is Ok,
        Some(decode_message_spec(bytes)->Ok_0.header.id) == r.in_flight,
        exists|i: int|
            0 <= i < decode_message_spec(bytes)->Ok_0.answers.len() && answers_question(
                #[trigger] decode_message_spec(bytes)->Ok_0.answers[i],
                r.current.domain,
                r.current.record_type,
            ) && r.after_event(EventModel::Response(bytes)).state == StateModel::GotAnswer(
                decode_message_spec(bytes)->Ok_0.answers[i].data,
            ),
{
    let m = decode_message_spec(bytes)->Ok_0;
    lemma_find_answer_is_first(m.answers, r.current.domain, r.current.record_type, 0);
    let i = find_answer(m.answers, r.current.domain, r.current.record_type, 0)->Some_0;
    assert(answers_question(m.answers[i], r.current.domain, r.current.record_type));
}

/// Two referrals and an answer: from the start, where the first response
/// refers to a name server, the second to another and the third answers the
/// question, each under the id of its query, the resolution sends exactly
/// three queries, to the root and to the two name servers in turn, and ends
/// with the data of the answer.
pub proof fn lemma_two_referrals_then_an_answer(
    root: Ipv4Address,
    domain: Seq<Seq<u8>>,
    record_type: u16,
    ids: Seq<u16>,
    responses: Seq<Seq<u8>>,
    first: Ipv4Address,
    second: Ipv4Address,
    data: DataModel,
)
    requires
        encode_name_spec(domain) is Ok,
        ids.len() == 4,
        responses.len() == 3,
        forall|k: int|
            0 <= k < 3 ==> decode_message_spec(#[trigger] responses[k]) is Ok
                && decode_message_spec(responses[k])->Ok_0.header.id == ids[k],
        classify_spec(decode_message_spec(responses[0])->Ok_0, domain, record_type)
            == OutcomeModel::Referral(first),
        classify_spec(decode_message_spec(responses[1])->Ok_0, domain, record_type)
            == OutcomeModel::Referral(second),
        classify_spec(decode_message_spec(responses[2])->Ok_0, domain, record_type)
            == OutcomeModel::Answer(data),
    ensures
        ({
            let (r1, q1) = ResolverModel::start(root, domain, record_type).after_query(ids[0]);
            let (r2, q2) = r1.after_step(EventModel::Response(responses[0]), ids[1]);
            let (r3, q3) = r2.after_step(EventModel::Response(responses[1]), ids[2]);
            let (r4, q4) = r3.after_step(EventModel::Response(responses[2]), ids[3]);
            &&& q1 matches Some(q) && q.nameserver == root && q.bytes == query_wire(
                domain,
                record_type,
                ids[0],
                false,
            )->Ok_0
            &&& q2 matches Some(q) && q.nameserver == first && q.bytes == query_wire(
                domain,
                record_type,
                ids[1],
                false,
            )->Ok_0
            &&& q3 matches Some(q) && q.nameserver == second && q.bytes == query_wire(
                domain,
                record_type,
                ids[2],
                false,
            )->Ok_0
            &&& q4 is None
            &&& r4.state == StateModel::GotAnswer(data)
        }),
{
    assert(decode_message_spec(responses[0]) is Ok);
    assert(decode_message_spec(responses[1]) is Ok);
    assert(decode_message_spec(responses[2]) is Ok);
}

} // verus!
