use dns_resolve::error::DnsError;
use dns_resolve::message::{decode_message, Message};
use dns_resolve::name::DomainName;
use dns_resolve::outcome::{classify, Outcome};
use dns_resolve::question::Question;
use dns_resolve::record::{Ipv4Address, RecordData, ResourceRecord};
use dns_resolve::resolver::{Event, Lookup, Query, Resolver, ResolverState};
use rand::rngs::StdRng;
use rand::SeedableRng;

const ROOT: Ipv4Address = Ipv4Address(198, 41, 0, 4);
const TLD: Ipv4Address = Ipv4Address(192, 5, 6, 30);
const AUTHORITATIVE: Ipv4Address = Ipv4Address(199, 43, 135, 53);
const ANSWER: Ipv4Address = Ipv4Address(93, 184, 216, 34);

fn name(text: &str) -> DomainName {
    DomainName::from_text(text)
}

fn a_record(owner: &str, address: Ipv4Address) -> ResourceRecord {
    ResourceRecord {
        name: name(owner),
        type_: 1,
        class: 1,
        ttl: 300,
        data: RecordData::Address(address),
    }
}

fn ns_record(owner: &str, server: &str) -> ResourceRecord {
    ResourceRecord {
        name: name(owner),
        type_: 2,
        class: 1,
        ttl: 300,
        data: RecordData::Name(name(server)),
    }
}

fn cname_record(owner: &str, target: &str) -> ResourceRecord {
    ResourceRecord {
        name: name(owner),
        type_: 5,
        class: 1,
        ttl: 300,
        data: RecordData::Name(name(target)),
    }
}

fn message(
    id: u16,
    answers: Vec<ResourceRecord>,
    authorities: Vec<ResourceRecord>,
    additionals: Vec<ResourceRecord>,
) -> Message {
    Message::new(id, 0x8000, vec![], answers, authorities, additionals).unwrap()
}

fn response(
    id: u16,
    answers: Vec<ResourceRecord>,
    authorities: Vec<ResourceRecord>,
    additionals: Vec<ResourceRecord>,
) -> Event {
    Event::Response(message(id, answers, authorities, additionals).to_bytes().unwrap())
}

fn asked(query: &Query) -> (Ipv4Address, u16, DomainName, u16) {
    let m = decode_message(&query.bytes).unwrap();
    assert_eq!(m.header.num_questions, 1);
    assert_eq!(m.header.flags, 0);
    (query.nameserver, m.header.id, m.questions[0].name.clone(), m.questions[0].type_)
}

fn started(domain: &str, record_type: u16, id: u16) -> (Resolver, Query) {
    let mut resolver = Resolver::new(ROOT, name(domain), record_type);
    assert_eq!(resolver.state, ResolverState::Start);
    let first = resolver.next_query(id).unwrap();
    (resolver, first)
}

#[test]
fn two_referrals_then_an_answer_take_three_queries() {
    let mut sent = 0;
    let (mut resolver, first) = started("www.example.com", 1, 100);
    sent += 1;
    assert_eq!(asked(&first), (ROOT, 100, name("www.example.com"), 1));
    assert_eq!(
        resolver.state,
        ResolverState::Querying {
            nameserver: ROOT,
            domain: name("www.example.com"),
            record_type: 1
        }
    );

    let second = resolver
        .step(
            &response(
                100,
                vec![],
                vec![ns_record("com", "a.gtld-servers.net")],
                vec![a_record("a.gtld-servers.net", TLD)],
            ),
            101,
        )
        .unwrap();
    sent += 1;
    assert_eq!(asked(&second), (TLD, 101, name("www.example.com"), 1));

    let third = resolver
        .step(
            &response(
                101,
                vec![],
                vec![ns_record("example.com", "a.iana-servers.net")],
                vec![a_record("a.iana-servers.net", AUTHORITATIVE)],
            ),
            102,
        )
        .unwrap();
    sent += 1;
    assert_eq!(asked(&third), (AUTHORITATIVE, 102, name("www.example.com"), 1));
    assert!(!resolver.finished());

    let fourth = resolver.step(
        &response(102, vec![a_record("www.example.com", ANSWER)], vec![], vec![]),
        103,
    );
    assert_eq!(fourth, None);
    assert_eq!(sent, 3);
    assert!(resolver.finished());
    assert_eq!(resolver.state, ResolverState::GotAnswer(RecordData::Address(ANSWER)));
    assert_eq!(resolver.referral_hops, 2);
}

#[test]
fn referral_is_a_state_of_its_own_until_the_next_query() {
    let (mut resolver, _) = started("www.example.com", 1, 1);
    resolver.handle(&response(
        1,
        vec![],
        vec![ns_record("com", "a.gtld-servers.net")],
        vec![a_record("a.gtld-servers.net", TLD)],
    ));
    assert_eq!(resolver.state, ResolverState::GotReferral(TLD));
    assert_eq!(resolver.in_flight, None);
    let next = resolver.next_query(2).unwrap();
    assert_eq!(next.nameserver, TLD);
    assert_eq!(resolver.in_flight, Some(2));
}

#[test]
fn answer_from_the_first_server_takes_one_query() {
    let (mut resolver, _) = started("example.com", 1, 9);
    let next = resolver.step(&response(9, vec![a_record("example.com", ANSWER)], vec![], vec![]), 10);
    assert_eq!(next, None);
    assert_eq!(resolver.state, ResolverState::GotAnswer(RecordData::Address(ANSWER)));
}

#[test]
fn answer_for_another_name_or_type_is_no_answer() {
    let (mut resolver, _) = started("example.com", 1, 9);
    resolver.handle(&response(9, vec![a_record("example.org", ANSWER)], vec![], vec![]));
    assert_eq!(resolver.state, ResolverState::Failed(DnsError::NoAnswer));

    let (mut resolver, _) = started("example.com", 2, 9);
    resolver.handle(&response(9, vec![a_record("example.com", ANSWER)], vec![], vec![]));
    assert_eq!(resolver.state, ResolverState::Failed(DnsError::NoAnswer));
}

#[test]
fn empty_response_is_no_answer() {
    let (mut resolver, _) = started("example.com", 1, 9);
    assert_eq!(resolver.step(&response(9, vec![], vec![], vec![]), 10), None);
    assert_eq!(resolver.state, ResolverState::Failed(DnsError::NoAnswer));
    assert!(resolver.finished());
}

#[test]
fn alias_restarts_the_query_at_the_same_server() {
    let (mut resolver, _) = started("www.example.com", 1, 1);
    let next = resolver
        .step(
            &response(
                1,
                vec![cname_record("www.example.com", "host.example.net")],
                vec![ns_record("net", "ignored.example")],
                vec![],
            ),
            2,
        )
        .unwrap();
    assert_eq!(asked(&next), (ROOT, 2, name("host.example.net"), 1));
    assert_eq!(resolver.alias_hops, 1);
    assert_eq!(resolver.current, Lookup { domain: name("host.example.net"), record_type: 1 });
    let done = resolver.step(
        &response(2, vec![a_record("host.example.net", ANSWER)], vec![], vec![]),
        3,
    );
    assert_eq!(done, None);
    assert_eq!(resolver.state, ResolverState::GotAnswer(RecordData::Address(ANSWER)));
}

#[test]
fn alias_asked_for_is_an_answer() {
    let (mut resolver, _) = started("www.example.com", 5, 1);
    resolver.handle(&response(
        1,
        vec![cname_record("www.example.com", "host.example.net")],
        vec![],
        vec![],
    ));
    assert_eq!(
        resolver.state,
        ResolverState::GotAnswer(RecordData::Name(name("host.example.net")))
    );
}

#[test]
fn ninth_alias_is_an_alias_loop() {
    let (mut resolver, _) = started("n0.example", 1, 0);
    for hop in 0u16..8 {
        let from = format!("n{}.example", hop);
        let to = format!("n{}.example", hop + 1);
        let next = resolver.step(&response(hop, vec![cname_record(&from, &to)], vec![], vec![]), hop + 1);
        assert_eq!(asked(&next.unwrap()).2, name(&to));
    }
    assert_eq!(resolver.alias_hops, 8);
    let next = resolver.step(
        &response(8, vec![cname_record("n8.example", "n9.example")], vec![], vec![]),
        9,
    );
    assert_eq!(next, None);
    assert_eq!(resolver.state, ResolverState::Failed(DnsError::AliasLoop));
}

#[test]
fn ninth_referral_is_no_answer() {
    let (mut resolver, _) = started("www.example.com", 1, 0);
    for hop in 0u16..8 {
        let next = resolver.step(
            &response(
                hop,
                vec![],
                vec![ns_record("com", "ns.example")],
                vec![a_record("ns.example", Ipv4Address(10, 0, 0, hop as u8))],
            ),
            hop + 1,
        );
        assert_eq!(next.unwrap().nameserver, Ipv4Address(10, 0, 0, hop as u8));
    }
    assert_eq!(resolver.referral_hops, 8);
    let next = resolver.step(
        &response(8, vec![], vec![ns_record("com", "ns.example")], vec![a_record("ns.example", TLD)]),
        9,
    );
    assert_eq!(next, None);
    assert_eq!(resolver.state, ResolverState::Failed(DnsError::NoAnswer));
}

#[test]
fn referral_without_an_address_looks_the_server_up_from_the_root() {
    let (mut resolver, _) = started("www.example.com", 28, 1);
    // the TLD server is known by name only
    let nested = resolver
        .step(&response(1, vec![], vec![ns_record("com", "ns.tld.example")], vec![]), 2)
        .unwrap();
    assert_eq!(asked(&nested), (ROOT, 2, name("ns.tld.example"), 1));
    assert_eq!(
        resolver.suspended,
        vec![Lookup { domain: name("www.example.com"), record_type: 28 }]
    );
    assert_eq!(resolver.referral_hops, 1);
    // the root knows the address of that server
    let resumed = resolver
        .step(&response(2, vec![a_record("ns.tld.example", TLD)], vec![], vec![]), 3)
        .unwrap();
    assert_eq!(asked(&resumed), (TLD, 3, name("www.example.com"), 28));
    assert!(resolver.suspended.is_empty());
    let raw = ResourceRecord {
        name: name("www.example.com"),
        type_: 28,
        class: 1,
        ttl: 5,
        data: RecordData::Raw(vec![0x20, 0x01, 0x0d, 0xb8, 0, 0, 0, 0, 0, 0, 0, 0, 0, 0, 0, 1]),
    };
    let done = resolver.step(&response(3, vec![raw.clone()], vec![], vec![]), 4);
    assert_eq!(done, None);
    assert_eq!(resolver.state, ResolverState::GotAnswer(raw.data));
}

#[test]
fn server_with_an_address_is_preferred_to_an_earlier_one_without() {
    let (mut resolver, _) = started("www.example.com", 1, 1);
    let next = resolver
        .step(
            &response(
                1,
                vec![],
                vec![ns_record("com", "first.example"), ns_record("com", "second.example")],
                vec![a_record("other.example", ROOT), a_record("second.example", TLD)],
            ),
            2,
        )
        .unwrap();
    assert_eq!(next.nameserver, TLD);
    assert!(resolver.suspended.is_empty());
}

#[test]
fn three_timeouts_fail_with_timeout() {
    let (mut resolver, first) = started("www.example.com", 1, 1);
    let again = resolver.step(&Event::Timeout, 2).unwrap();
    assert_eq!(asked(&again), (ROOT, 2, name("www.example.com"), 1));
    assert_eq!(again.bytes[2..], first.bytes[2..]);
    assert_eq!(resolver.retries, 1);
    let again = resolver.step(&Event::Timeout, 3).unwrap();
    assert_eq!(asked(&again).1, 3);
    assert_eq!(resolver.retries, 2);
    assert_eq!(resolver.step(&Event::Timeout, 4), None);
    assert_eq!(resolver.state, ResolverState::Failed(DnsError::Timeout));
}

#[test]
fn three_transport_errors_fail_with_transport_error() {
    let (mut resolver, _) = started("www.example.com", 1, 1);
    assert!(resolver.step(&Event::TransportError, 2).is_some());
    assert!(resolver.step(&Event::Timeout, 3).is_some());
    assert_eq!(resolver.step(&Event::TransportError, 4), None);
    assert_eq!(resolver.state, ResolverState::Failed(DnsError::TransportError));
}

#[test]
fn response_with_another_id_is_retried_then_fails_with_id_mismatch() {
    let (mut resolver, _) = started("www.example.com", 1, 1);
    let good = vec![a_record("www.example.com", ANSWER)];
    let again = resolver.step(&response(7, good.clone(), vec![], vec![]), 2).unwrap();
    assert_eq!(asked(&again), (ROOT, 2, name("www.example.com"), 1));
    // the id of the first attempt is no longer accepted
    assert!(resolver.step(&response(1, good.clone(), vec![], vec![]), 3).is_some());
    assert_eq!(resolver.step(&response(2, good.clone(), vec![], vec![]), 4), None);
    assert_eq!(resolver.state, ResolverState::Failed(DnsError::IdMismatch));
}

#[test]
fn retries_start_anew_at_each_server() {
    let (mut resolver, _) = started("www.example.com", 1, 1);
    assert!(resolver.step(&Event::Timeout, 2).is_some());
    assert!(resolver.step(&Event::Timeout, 3).is_some());
    let next = resolver.step(
        &response(3, vec![], vec![ns_record("com", "ns.example")], vec![a_record("ns.example", TLD)]),
        4,
    );
    assert_eq!(next.unwrap().nameserver, TLD);
    assert_eq!(resolver.retries, 0);
    assert!(resolver.step(&Event::Timeout, 5).is_some());
    assert!(resolver.step(&Event::Timeout, 6).is_some());
    let done = resolver.step(&response(6, vec![a_record("www.example.com", ANSWER)], vec![], vec![]), 7);
    assert_eq!(done, None);
    assert_eq!(resolver.state, ResolverState::GotAnswer(RecordData::Address(ANSWER)));
}

#[test]
fn response_that_does_not_decode_fails_at_once() {
    let (mut resolver, _) = started("www.example.com", 1, 1);
    assert_eq!(resolver.step(&Event::Response(vec![0, 1, 0x80]), 2), None);
    assert_eq!(resolver.state, ResolverState::Failed(DnsError::TruncatedMessage));

    let (mut resolver, _) = started("www.example.com", 1, 1);
    let mut bytes = vec![0, 1, 0x80, 0, 0, 1, 0, 0, 0, 0, 0, 0];
    bytes.extend_from_slice(&[0xc0, 12, 0, 1, 0, 1]);
    resolver.handle(&Event::Response(bytes));
    assert_eq!(resolver.state, ResolverState::Failed(DnsError::CompressionLoop));
}

#[test]
fn name_that_does_not_encode_fails_before_any_query() {
    let mut resolver = Resolver::new(ROOT, name("b\u{fc}cher.example"), 1);
    assert_eq!(resolver.next_query(1), None);
    assert_eq!(resolver.state, ResolverState::Failed(DnsError::InvalidLabel));
    let mut resolver = Resolver::new(ROOT, DomainName { labels: vec![vec![b'a'; 63]; 5] }, 1);
    assert_eq!(resolver.next_query(1), None);
    assert_eq!(resolver.state, ResolverState::Failed(DnsError::NameTooLong));
}

#[test]
fn events_without_a_query_in_flight_change_nothing() {
    let mut resolver = Resolver::new(ROOT, name("example.com"), 1);
    let before = resolver.clone();
    resolver.handle(&Event::Timeout);
    resolver.handle(&response(0, vec![a_record("example.com", ANSWER)], vec![], vec![]));
    assert_eq!(resolver, before);

    let (mut resolver, _) = started("example.com", 1, 1);
    resolver.handle(&response(1, vec![a_record("example.com", ANSWER)], vec![], vec![]));
    let ended = resolver.clone();
    resolver.handle(&Event::Timeout);
    assert_eq!(resolver.step(&Event::TransportError, 5), None);
    assert_eq!(resolver, ended);
}

#[test]
fn no_second_query_while_one_is_in_flight() {
    let (mut resolver, _) = started("example.com", 1, 1);
    let before = resolver.clone();
    assert_eq!(resolver.next_query(2), None);
    assert_eq!(resolver, before);
}

#[test]
fn random_ids_tie_each_response_to_its_query() {
    let mut rng = StdRng::seed_from_u64(0xd15);
    let mut resolver = Resolver::new(ROOT, name("www.example.com"), 1);
    let first = resolver.next_query_random(&mut rng).unwrap();
    let (server, id, domain, record_type) = asked(&first);
    assert_eq!((server, domain, record_type), (ROOT, name("www.example.com"), 1));
    assert_eq!(resolver.in_flight, Some(id));
    let second = resolver
        .step_random(
            &response(id, vec![], vec![ns_record("com", "ns.example")], vec![a_record("ns.example", TLD)]),
            &mut rng,
        )
        .unwrap();
    let (server, id, _, _) = asked(&second);
    assert_eq!(server, TLD);
    let done = resolver.step_random(
        &response(id, vec![a_record("www.example.com", ANSWER)], vec![], vec![]),
        &mut rng,
    );
    assert_eq!(done, None);
    assert_eq!(resolver.state, ResolverState::GotAnswer(RecordData::Address(ANSWER)));
}

#[test]
fn random_ids_vary() {
    let mut rng = StdRng::seed_from_u64(0xd15);
    let mut ids = Vec::new();
    for _ in 0..40 {
        let mut resolver = Resolver::new(ROOT, name("www.example.com"), 1);
        resolver.next_query_random(&mut rng).unwrap();
        ids.push(resolver.in_flight.unwrap());
    }
    ids.sort();
    ids.dedup();
    assert!(ids.len() > 1);
}

#[test]
fn classify_reads_a_response_in_order() {
    let domain = name("www.example.com");
    let both = message(
        1,
        vec![
            cname_record("www.example.com", "host.example.net"),
            a_record("www.example.com", ANSWER),
            a_record("www.example.com", ROOT),
        ],
        vec![ns_record("com", "ns.example")],
        vec![a_record("ns.example", TLD)],
    );
    assert_eq!(classify(&both, &domain, 1), Outcome::Answer(RecordData::Address(ANSWER)));
    assert_eq!(classify(&both, &domain, 28), Outcome::Alias(name("host.example.net")));
    assert_eq!(classify(&both, &name("example.com"), 1), Outcome::Referral(TLD));
    let bare = message(1, vec![], vec![ns_record("com", "ns.example")], vec![]);
    assert_eq!(classify(&bare, &domain, 1), Outcome::Glueless(name("ns.example")));
    let other = message(1, vec![], vec![a_record("com", TLD)], vec![a_record("com", TLD)]);
    assert_eq!(classify(&other, &domain, 1), Outcome::NoAnswer);
    let question_only = Message::new(
        1,
        0,
        vec![Question::new(domain.clone(), 1, 1)],
        vec![],
        vec![],
        vec![],
    )
    .unwrap();
    assert_eq!(classify(&question_only, &domain, 1), Outcome::NoAnswer);
}

#[test]
fn lookup_of_a_server_that_meets_another_server_without_address_nests_twice() {
    let (mut resolver, _) = started("www.example.com", 1, 1);
    let q = resolver
        .step(&response(1, vec![], vec![ns_record("com", "ns.one.example")], vec![]), 2)
        .unwrap();
    assert_eq!(asked(&q), (ROOT, 2, name("ns.one.example"), 1));
    let q = resolver
        .step(&response(2, vec![], vec![ns_record("example", "ns.two.example")], vec![]), 3)
        .unwrap();
    assert_eq!(asked(&q), (ROOT, 3, name("ns.two.example"), 1));
    assert_eq!(
        resolver.suspended,
        vec![
            Lookup { domain: name("www.example.com"), record_type: 1 },
            Lookup { domain: name("ns.one.example"), record_type: 1 },
        ]
    );
    let q = resolver
        .step(&response(3, vec![a_record("ns.two.example", TLD)], vec![], vec![]), 4)
        .unwrap();
    assert_eq!(asked(&q), (TLD, 4, name("ns.one.example"), 1));
    let q = resolver
        .step(&response(4, vec![a_record("ns.one.example", AUTHORITATIVE)], vec![], vec![]), 5)
        .unwrap();
    assert_eq!(asked(&q), (AUTHORITATIVE, 5, name("www.example.com"), 1));
    assert_eq!(
        resolver.step(&response(5, vec![a_record("www.example.com", ANSWER)], vec![], vec![]), 6),
        None
    );
    assert_eq!(resolver.state, ResolverState::GotAnswer(RecordData::Address(ANSWER)));
    assert_eq!(resolver.referral_hops, 2);
}

#[test]
fn every_resolution_ends_within_75_queries() {
    // The servers refer without addresses, answer the nested lookups, alias
    // the name, and lose two of every three queries.
    let mut resolver = Resolver::new(ROOT, name("www.example.com"), 1);
    let mut next = resolver.next_query(0);
    let mut sent: u16 = 0;
    let mut turn: u32 = 0;
    while let Some(query) = next {
        sent += 1;
        assert!(sent <= 75);
        let (_, id, domain, _) = asked(&query);
        let text = String::from_utf8(domain.to_text_bytes()).unwrap();
        let event = if sent % 3 != 0 {
            Event::Timeout
        } else {
            turn += 1;
            match turn % 3 {
                0 => response(id, vec![], vec![ns_record("x", &format!("ns{}.example", turn))], vec![]),
                1 if !resolver.suspended.is_empty() => {
                    response(id, vec![a_record(&text, TLD)], vec![], vec![])
                }
                _ => response(id, vec![cname_record(&text, &format!("alias{}.example", turn))], vec![], vec![]),
            }
        };
        next = resolver.step(&event, sent);
    }
    assert!(resolver.finished());
    assert!(sent > 20);
}
