//! Iterative resolution as a state machine.
//!
//! The machine never sends or receives anything. It says which query to send
//! to which name server, and is told what came back: a response, a timeout or
//! a transport failure. From the root name server it follows referrals and
//! aliases until a record answers the question or the resolution fails.

use crate::error::DnsError;
use crate::message::{decode_message, decode_message_spec};
use crate::name::DomainName;
use crate::outcome::{classify, classify_spec, Outcome, OutcomeModel};
use crate::query::{encode_query, query_wire};
use crate::question::TYPE_A;
use crate::random::random_id;
use crate::record::{DataModel, Ipv4Address, RecordData};
use rand::rngs::StdRng;
use vstd::prelude::*;

verus! {

/// How many aliases, and how many referrals, one resolution may follow.
pub const MAX_HOPS: u8 = 8;

/// How often a query is sent again after a timeout, a transport failure or a
/// response with a foreign id.
pub const MAX_RETRIES: u8 = 2;

/// A name and the record type wanted for it.
#[derive(Clone, Debug, PartialEq, Eq)]
pub struct Lookup {
    pub domain: DomainName,
    pub record_type: u16,
}

/// A lookup as a value of the model.
pub struct LookupModel {
    pub domain: Seq<Seq<u8>>,
    pub record_type: u16,
}

impl View for Lookup {
    type V = LookupModel;

    open spec fn view(&self) -> LookupModel {
        LookupModel { domain: self.domain@, record_type: self.record_type }
    }
}

/// The lookups held by a vector.
pub open spec fn lookups_view(lookups: Seq<Lookup>) -> Seq<LookupModel> {
    Seq::new(lookups.len(), |i: int| lookups[i]@)
}

/// Where a resolution stands.
#[derive(Clone, Debug, PartialEq, Eq)]
pub enum ResolverState {
    /// Nothing has been asked yet.
    Start,
    /// This name server is being asked for this name and type.
    Querying { nameserver: Ipv4Address, domain: DomainName, record_type: u16 },
    /// The resolution ended with the data of the record found.
    GotAnswer(RecordData),
    /// The last response referred to this name server, to be asked next.
    GotReferral(Ipv4Address),
    /// The resolution ended without an answer, for this reason.
    Failed(DnsError),
}

/// A state as a value of the model.
pub enum StateModel {
    Start,
    Querying { nameserver: Ipv4Address, domain: Seq<Seq<u8>>, record_type: u16 },
    GotAnswer(DataModel),
    GotReferral(Ipv4Address),
    Failed(DnsError),
}

impl View for ResolverState {
    type V = StateModel;

    open spec fn view(&self) -> StateModel {
        match self {
            ResolverState::Start => StateModel::Start,
            ResolverState::Querying { nameserver, domain, record_type } => StateModel::Querying {
                nameserver: *nameserver,
                domain: domain@,
                record_type: *record_type,
            },
            ResolverState::GotAnswer(d) => StateModel::GotAnswer(d@),
            ResolverState::GotReferral(a) => StateModel::GotReferral(*a),
            ResolverState::Failed(e) => StateModel::Failed(*e),
        }
    }
}

/// What happened to the query in flight.
#[derive(Clone, Debug, PartialEq, Eq)]
pub enum Event {
    /// These bytes came back.
    Response(Vec<u8>),
    /// Nothing came back in time.
    Timeout,
    /// The datagram could not be exchanged.
    TransportError,
}

/// An event as a value of the model.
pub enum EventModel {
    Response(Seq<u8>),
    Timeout,
    TransportError,
}

impl View for Event {
    type V = EventModel;

    open spec fn view(&self) -> EventModel {
        match self {
            Event::Response(b) => EventModel::Response(b@),
            Event::Timeout => EventModel::Timeout,
            Event::TransportError => EventModel::TransportError,
        }
    }
}

/// A query to send: these bytes, to this name server.
#[derive(Clone, Debug, PartialEq, Eq)]
pub struct Query {
    pub nameserver: Ipv4Address,
    pub bytes: Vec<u8>,
}

/// A query as a value of the model.
pub struct QueryModel {
    pub nameserver: Ipv4Address,
    pub bytes: Seq<u8>,
}

impl View for Query {
    type V = QueryModel;

    open spec fn view(&self) -> QueryModel {
        QueryModel { nameserver: self.nameserver, bytes: self.bytes@ }
    }
}

/// An optional query seen through its view.
pub open spec fn query_view(q: Option<Query>) -> Option<QueryModel> {
    match q {
        Some(q) => Some(q@),
        None => None,
    }
}

/// One resolution: its state and what it has to remember between queries.
#[derive(Clone, Debug, PartialEq, Eq)]
pub struct Resolver {
    /// Where the resolution stands.
    pub state: ResolverState,
    /// The name server that every lookup starts from.
    pub root: Ipv4Address,
    /// The lookup being worked on: the one asked for, after the aliases
    /// followed so far, or the lookup of a name server's address.
    pub current: Lookup,
    /// The lookups that wait for the address of a name server, the one that
    /// waits for `current` last.
    pub suspended: Vec<Lookup>,
    /// The aliases followed so far.
    pub alias_hops: u8,
    /// The referrals followed so far.
    pub referral_hops: u8,
    /// How often the query in flight has been sent again.
    pub retries: u8,
    /// The id of the query in flight, if one is.
    pub in_flight: Option<u16>,
}

/// A resolver as a value of the model.
pub struct ResolverModel {
    pub state: StateModel,
    pub root: Ipv4Address,
    pub current: LookupModel,
    pub suspended: Seq<LookupModel>,
    pub alias_hops: u8,
    pub referral_hops: u8,
    pub retries: u8,
    pub in_flight: Option<u16>,
}

impl View for Resolver {
    type V = ResolverModel;

    open spec fn view(&self) -> ResolverModel {
        ResolverModel {
            state: self.state@,
            root: self.root,
            current: self.current@,
            suspended: lookups_view(self.suspended@),
            alias_hops: self.alias_hops,
            referral_hops: self.referral_hops,
            retries: self.retries,
            in_flight: self.in_flight,
        }
    }
}

impl ResolverModel {
    /// A resolver that has not asked anything yet.
    pub open spec fn start(root: Ipv4Address, domain: Seq<Seq<u8>>, record_type: u16)
        -> ResolverModel {
        ResolverModel {
            state: StateModel::Start,
            root,
            current: LookupModel { domain, record_type },
            suspended: Seq::empty(),
            alias_hops: 0,
            referral_hops: 0,
            retries: 0,
            in_flight: None,
        }
    }

    /// The resolution has ended, with an answer or a failure.
    pub open spec fn finished(self) -> bool {
        self.state is GotAnswer || self.state is Failed
    }

    /// A query is in flight and its outcome is awaited.
    pub open spec fn awaiting(self) -> bool {
        self.state is Querying && self.in_flight is Some
    }

    /// The name server being asked, or the root if none is.
    pub open spec fn asked(self) -> Ipv4Address {
        match self.state {
            StateModel::Querying { nameserver, .. } => nameserver,
            _ => self.root,
        }
    }

    /// The resolution, failed for `reason`.
    pub open spec fn failed(self, reason: DnsError) -> ResolverModel {
        ResolverModel { state: StateModel::Failed(reason), in_flight: None, ..self }
    }

    /// The query in flight is lost for `reason`: it may be sent again
    /// `MAX_RETRIES` times to the same name server, after that the
    /// resolution fails for `reason`.
    pub open spec fn retry_or_fail(self, reason: DnsError) -> ResolverModel {
        if self.retries >= MAX_RETRIES {
            self.failed(reason)
        } else {
            ResolverModel { retries: (self.retries + 1) as u8, in_flight: None, ..self }
        }
    }

    /// The resolver after a response with the right id that means `o` for
    /// the current lookup.
    ///
    /// - An answer ends the resolution, unless a lookup waits for it: then
    ///   the answer must be an address, which becomes the name server to
    ///   ask next for the lookup that waited.
    /// - An alias makes its target the name to look up, at the same name
    ///   server; the ninth alias fails with `AliasLoop`.
    /// - A referral makes its address the name server to ask next.
    /// - A referral without an address suspends the current lookup and
    ///   starts the lookup of the name server's address at the root.
    /// - The ninth referral of either kind fails with `NoAnswer`, and so
    ///   does a response that is none of these.
    pub open spec fn after_outcome(self, o: OutcomeModel) -> ResolverModel {
        match o {
            OutcomeModel::Answer(data) => if self.suspended.len() == 0 {
                ResolverModel { state: StateModel::GotAnswer(data), in_flight: None, ..self }
            } else {
                match data {
                    DataModel::Address(a) => ResolverModel {
                        state: StateModel::GotReferral(a),
                        current: self.suspended.last(),
                        suspended: self.suspended.drop_last(),
                        retries: 0,
                        in_flight: None,
                        ..self
                    },
                    _ => self.failed(DnsError::NoAnswer),
                }
            },
            OutcomeModel::Alias(target) => if self.alias_hops >= MAX_HOPS {
                self.failed(DnsError::AliasLoop)
            } else {
                ResolverModel {
                    state: StateModel::Querying {
                        nameserver: self.asked(),
                        domain: target,
                        record_type: self.current.record_type,
                    },
                    current: LookupModel {
                        domain: target,
                        record_type: self.current.record_type,
                    },
                    alias_hops: (self.alias_hops + 1) as u8,
                    retries: 0,
                    in_flight: None,
                    ..self
                }
            },
            OutcomeModel::Referral(a) => if self.referral_hops >= MAX_HOPS {
                self.failed(DnsError::NoAnswer)
            } else {
                ResolverModel {
                    state: StateModel::GotReferral(a),
                    referral_hops: (self.referral_hops + 1) as u8,
                    retries: 0,
                    in_flight: None,
                    ..self
                }
            },
            OutcomeModel::Glueless(server) => if self.referral_hops >= MAX_HOPS {
                self.failed(DnsError::NoAnswer)
            } else {
                ResolverModel {
                    state: StateModel::Querying {
                        nameserver: self.root,
                        domain: server,
                        record_type: TYPE_A,
                    },
                    current: LookupModel { domain: server, record_type: TYPE_A },
                    suspended: self.suspended.push(self.current),
                    referral_hops: (self.referral_hops + 1) as u8,
                    retries: 0,
                    in_flight: None,
                    ..self
                }
            },
            OutcomeModel::NoAnswer => self.failed(DnsError::NoAnswer),
        }
    }

    /// The resolver after these bytes came back for the query in flight. A
    /// response that does not decode fails the resolution with the reason
    /// of the decoder; one with another id than the query's counts as a
    /// lost query, with `IdMismatch`; any other is read for the current
    /// lookup.
    pub open spec fn after_response(self, bytes: Seq<u8>) -> ResolverModel {
        match decode_message_spec(bytes) {
            Err(e) => self.failed(e),
            Ok(m) => if Some(m.header.id) != self.in_flight {
                self.retry_or_fail(DnsError::IdMismatch)
            } else {
                self.after_outcome(
                    classify_spec(m, self.current.domain, self.current.record_type),
                )
            },
        }
    }

    /// The resolver after `event`. Without a query in flight nothing changes.
    pub open spec fn after_event(self, event: EventModel) -> ResolverModel {
        if !self.awaiting() {
            self
        } else {
            match event {
                EventModel::Response(bytes) => self.after_response(bytes),
                EventModel::Timeout => self.retry_or_fail(DnsError::Timeout),
                EventModel::TransportError => self.retry_or_fail(DnsError::TransportError),
            }
        }
    }

    /// The name server to send the next query to: the root at the start,
    /// the one referred to after a referral, the one being asked if its
    /// query is not in flight; none while a query is in flight or when the
    /// resolution has ended.
    pub open spec fn next_server(self) -> Option<Ipv4Address> {
        match self.state {
            StateModel::Start => Some(self.root),
            StateModel::GotReferral(a) => Some(a),
            StateModel::Querying { nameserver, .. } => if self.in_flight is None {
                Some(nameserver)
            } else {
                None
            },
            _ => None,
        }
    }

    /// The resolver after it was asked for the next query under `id`, and
    /// that query: for the current lookup, without the recursion bit, to the
    /// next name server. If the name of the lookup does not encode, the
    /// resolution fails with the reason of the encoder.
    pub open spec fn after_query(self, id: u16) -> (ResolverModel, Option<QueryModel>) {
        match self.next_server() {
            None => (self, None),
            Some(nameserver) => match query_wire(
                self.current.domain,
                self.current.record_type,
                id,
                false,
            ) {
                Err(e) => (self.failed(e), None),
                Ok(bytes) => (
                    ResolverModel {
                        state: StateModel::Querying {
                            nameserver,
                            domain: self.current.domain,
                            record_type: self.current.record_type,
                        },
                        in_flight: Some(id),
                        ..self
                    },
                    Some(QueryModel { nameserver, bytes }),
                ),
            },
        }
    }

    /// The resolver after `event` and the request for the next query under
    /// `id`, and that query.
    pub open spec fn after_step(self, event: EventModel, id: u16) -> (
        ResolverModel,
        Option<QueryModel>,
    ) {
        self.after_event(event).after_query(id)
    }
}

impl Resolver {
    /// A resolver for `domain` and `record_type` that will start at `root`.
    pub fn new(root: Ipv4Address, domain: DomainName, record_type: u16) -> (r: Resolver)
        ensures
            r@ == ResolverModel::start(root, domain@, record_type),
    {
        let r = Resolver {
            state: ResolverState::Start,
            root,
            current: Lookup { domain, record_type },
            suspended: Vec::new(),
            alias_hops: 0,
            referral_hops: 0,
            retries: 0,
            in_flight: None,
        };
        assert(lookups_view(r.suspended@) =~= Seq::<LookupModel>::empty());
        r
    }

    /// Whether the resolution has ended.
    pub fn finished(&self) -> (done: bool)
        ensures
            done == self@.finished(),
    {
        match &self.state {
            ResolverState::GotAnswer(_) => true,
            ResolverState::Failed(_) => true,
            _ => false,
        }
    }

    /// Ends the resolution for `reason`.
    fn fail(&mut self, reason: DnsError)
        ensures
            final(self)@ == old(self)@.failed(reason),
    {
        self.state = ResolverState::Failed(reason);
        self.in_flight = None;
    }

    /// Counts the query in flight as lost for `reason`.
    fn retry_or_fail(&mut self, reason: DnsError)
        ensures
            final(self)@ == old(self)@.retry_or_fail(reason),
    {
        if self.retries >= MAX_RETRIES {
            self.fail(reason);
        } else {
            self.retries = self.retries + 1;
            self.in_flight = None;
        }
    }

    /// Moves on by what a response means for the current lookup.
    fn apply(&mut self, outcome: Outcome)
        ensures
            final(self)@ == old(self)@.after_outcome(outcome@),
    {
        match outcome {
            Outcome::Answer(data) => {
                if self.suspended.len() == 0 {
                    self.state = ResolverState::GotAnswer(data);
                    self.in_flight = None;
                } else {
                    match data {
                        RecordData::Address(a) => {
                            let ghost before = lookups_view(self.suspended@);
                            match self.suspended.pop() {
                                Some(waiting) => {
                                    assert(waiting@ == before.last());
                                    assert(lookups_view(self.suspended@) =~= before.drop_last());
                                    self.current = waiting;
                                    self.state = ResolverState::GotReferral(a);
                                    self.retries = 0;
                                    self.in_flight = None;
                                },
                                None => {},
                            }
                        },
                        _ => {
                            self.fail(DnsError::NoAnswer);
                        },
                    }
                }
            },
            Outcome::Alias(target) => {
                if self.alias_hops >= MAX_HOPS {
                    self.fail(DnsError::AliasLoop);
                } else {
                    let nameserver = match &self.state {
                        ResolverState::Querying { nameserver, .. } => *nameserver,
                        _ => self.root,
                    };
                    let record_type = self.current.record_type;
                    self.state = ResolverState::Querying {
                        nameserver,
                        domain: target.duplicate(),
                        record_type,
                    };
                    self.current = Lookup { domain: target, record_type };
                    self.alias_hops = self.alias_hops + 1;
                    self.retries = 0;
                    self.in_flight = None;
                }
            },
            Outcome::Referral(a) => {
                if self.referral_hops >= MAX_HOPS {
                    self.fail(DnsError::NoAnswer);
                } else {
                    self.state = ResolverState::GotReferral(a);
                    self.referral_hops = self.referral_hops + 1;
                    self.retries = 0;
                    self.in_flight = None;
                }
            },
            Outcome::Glueless(server) => {
                if self.referral_hops >= MAX_HOPS {
                    self.fail(DnsError::NoAnswer);
                } else {
                    let ghost before = lookups_view(self.suspended@);
                    let waiting = Lookup {
                        domain: self.current.domain.duplicate(),
                        record_type: self.current.record_type,
                    };
                    self.suspended.push(waiting);
                    assert(lookups_view(self.suspended@) =~= before.push(old(self)@.current));
                    self.state = ResolverState::Querying {
                        nameserver: self.root,
                        domain: server.duplicate(),
                        record_type: TYPE_A,
                    };
                    self.current = Lookup { domain: server, record_type: TYPE_A };
                    self.referral_hops = self.referral_hops + 1;
                    self.retries = 0;
                    self.in_flight = None;
                }
            },
            Outcome::NoAnswer => {
                self.fail(DnsError::NoAnswer);
            },
        }
    }

    /// Takes in what happened to the query in flight. Without a query in
    /// flight nothing changes.
    ///
    /// A response is decoded: if that fails, the resolution fails with the
    /// decoder's reason. If its id is not the id of the query, the query
    /// counts as lost with `IdMismatch`. Otherwise the response decides: an
    /// answer, an alias, a referral, or none of them. A timeout or a
    /// transport failure loses the query. A lost query may be sent again
    /// twice; the third loss fails the resolution with the reason at hand.
    pub fn handle(&mut self, event: &Event)
        ensures
            final(self)@ == old(self)@.after_event(event@),
    {
        let id = match (&self.state, self.in_flight) {
            (ResolverState::Querying { .. }, Some(id)) => id,
            _ => {
                return ;
            },
        };
        match event {
            Event::Response(bytes) => {
                match decode_message(bytes.as_slice()) {
                    Err(e) => {
                        self.fail(e);
                    },
                    Ok(m) => {
                        if m.header.id != id {
                            self.retry_or_fail(DnsError::IdMismatch);
                        } else {
                            let outcome = classify(
                                &m,
                                &self.current.domain,
                                self.current.record_type,
                            );
                            self.apply(outcome);
                        }
                    },
                }
            },
            Event::Timeout => {
                self.retry_or_fail(DnsError::Timeout);
            },
            Event::TransportError => {
                self.retry_or_fail(DnsError::TransportError);
            },
        }
    }

    /// Gives the query to send next, under the id given by the caller, and
    /// marks it as in flight; gives nothing while a query is in flight or
    /// when the resolution has ended. The query asks the next name server
    /// about the current lookup, without the recursion bit. If the name does
    /// not encode, the resolution fails with the encoder's reason.
    pub fn next_query(&mut self, id: u16) -> (q: Option<Query>)
        ensures
            (final(self)@, query_view(q)) == old(self)@.after_query(id),
    {
        let nameserver = match &self.state {
            ResolverState::Start => self.root,
            ResolverState::GotReferral(a) => *a,
            ResolverState::Querying { nameserver, .. } => {
                if self.in_flight.is_some() {
                    return None;
                }
                *nameserver
            },
            _ => {
                return None;
            },
        };
        match encode_query(&self.current.domain, self.current.record_type, id, false) {
            Err(e) => {
                self.fail(e);
                None
            },
            Ok(bytes) => {
                self.state = ResolverState::Querying {
                    nameserver,
                    domain: self.current.domain.duplicate(),
                    record_type: self.current.record_type,
                };
                self.in_flight = Some(id);
                Some(Query { nameserver, bytes })
            },
        }
    }

    /// Takes in `event`, then gives the query to send next under `id`, if
    /// there is one.
    pub fn step(&mut self, event: &Event, id: u16) -> (q: Option<Query>)
        ensures
            (final(self)@, query_view(q)) == old(self)@.after_step(event@, id),
    {
        self.handle(event);
        self.next_query(id)
    }

    /// Gives the query to send next under an id drawn from `rng`. Whatever
    /// id is drawn, resolver and query are those of `next_query` for it.
    pub fn next_query_random(&mut self, rng: &mut StdRng) -> (q: Option<Query>)
        ensures
            exists|id: u16| (final(self)@, query_view(q)) == old(self)@.after_query(id),
    {
        let id = random_id(rng);
        self.next_query(id)
    }

    /// Takes in `event`, then gives the query to send next under an id
    /// drawn from `rng`. Whatever id is drawn, resolver and query are those
    /// of `step` for it.
    pub fn step_random(&mut self, event: &Event, rng: &mut StdRng) -> (q: Option<Query>)
        ensures
            exists|id: u16| (final(self)@, query_view(q)) == old(self)@.after_step(event@, id),
    {
        let id = random_id(rng);
        self.step(event, id)
    }
}

} // verus!
