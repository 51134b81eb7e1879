use dns_resolve::error::DnsError;
use dns_resolve::header::Header;
use dns_resolve::message::{decode_message, Message};
use dns_resolve::name::DomainName;
use dns_resolve::query::{build_query, encode_query};
use dns_resolve::question::Question;
use dns_resolve::record::{Ipv4Address, RecordData, ResourceRecord};
use rand::rngs::StdRng;
use rand::SeedableRng;

fn name(text: &str) -> DomainName {
    DomainName::from_text(text)
}

fn a_record(owner: &str, address: Ipv4Address) -> ResourceRecord {
    ResourceRecord {
        name: name(owner),
        type_: 1,
        class: 1,
        ttl: 3600,
        data: RecordData::Address(address),
    }
}

fn ns_record(owner: &str, server: &str) -> ResourceRecord {
    ResourceRecord {
        name: name(owner),
        type_: 2,
        class: 1,
        ttl: 172800,
        data: RecordData::Name(name(server)),
    }
}

fn sample_message() -> Message {
    Message::new(
        0xbeef,
        0x8400,
        vec![Question::new(name("www.example.com"), 1, 1)],
        vec![a_record("www.example.com", Ipv4Address(93, 184, 216, 34))],
        vec![ns_record("example.com", "ns1.example.com")],
        vec![
            a_record("ns1.example.com", Ipv4Address(192, 0, 2, 53)),
            ResourceRecord {
                name: name("example.com"),
                type_: 16,
                class: 1,
                ttl: 1,
                data: RecordData::Raw(vec![4, b't', b'e', b's', b't']),
            },
        ],
    )
    .unwrap()
}

#[test]
fn header_is_twelve_big_endian_bytes() {
    let header = Header::new(0x1234, 0x0100, 1, 2, 3, 0x0405);
    assert_eq!(
        header.to_bytes(),
        vec![0x12, 0x34, 0x01, 0x00, 0x00, 0x01, 0x00, 0x02, 0x00, 0x03, 0x04, 0x05]
    );
    assert_eq!(Header::decode(&header.to_bytes()), Ok(header));
}

#[test]
fn header_of_eleven_bytes_is_truncated() {
    assert_eq!(Header::decode(&[0u8; 11]), Err(DnsError::TruncatedMessage));
    assert_eq!(Header::decode(&[]), Err(DnsError::TruncatedMessage));
    assert_eq!(Header::decode(&[0u8; 12]), Ok(Header::new(0, 0, 0, 0, 0, 0)));
}

#[test]
fn question_is_name_type_class() {
    let q = Question::new(name("a.bc"), 0x0102, 0x0304);
    assert_eq!(q.to_bytes(), Ok(vec![1, b'a', 2, b'b', b'c', 0, 0x01, 0x02, 0x03, 0x04]));
    let (back, consumed) = Question::decode(&q.to_bytes().unwrap(), 0).unwrap();
    assert_eq!(back, q);
    assert_eq!(consumed, 10);
}

#[test]
fn question_with_a_bad_name_fails_like_the_name() {
    let q = Question::new(name("b\u{fc}cher"), 1, 1);
    assert_eq!(q.to_bytes(), Err(DnsError::InvalidLabel));
}

#[test]
fn query_for_www_example_com() {
    let bytes = encode_query(&name("www.example.com"), 1, 0x1234, true).unwrap();
    let expected: Vec<u8> = vec![
        0x12, 0x34, 0x01, 0x00, 0x00, 0x01, 0x00, 0x00, 0x00, 0x00, 0x00, 0x00, // header
        0x03, 0x77, 0x77, 0x77, 0x07, 0x65, 0x78, 0x61, 0x6d, 0x70, 0x6c, 0x65, 0x03, 0x63, 0x6f,
        0x6d, 0x00, // name
        0x00, 0x01, 0x00, 0x01, // type and class
    ];
    assert_eq!(bytes, expected);
}

#[test]
fn query_without_recursion_has_no_flags() {
    let bytes = encode_query(&name("example.com"), 2, 7, false).unwrap();
    assert_eq!(&bytes[..12], &[0, 7, 0, 0, 0, 1, 0, 0, 0, 0, 0, 0]);
    assert_eq!(&bytes[bytes.len() - 4..], &[0, 2, 0, 1]);
}

#[test]
fn query_fails_where_the_name_does() {
    assert_eq!(encode_query(&name("b\u{fc}cher"), 1, 1, true), Err(DnsError::InvalidLabel));
    let long = DomainName { labels: vec![vec![b'a'; 63]; 5] };
    assert_eq!(encode_query(&long, 1, 1, true), Err(DnsError::NameTooLong));
}

#[test]
fn decoded_query_keeps_id_and_counts_one_question() {
    for id in [0u16, 1, 0x1234, 0xffff] {
        for rd in [false, true] {
            let bytes = encode_query(&name("www.example.com"), 28, id, rd).unwrap();
            let m = decode_message(&bytes).unwrap();
            assert_eq!(m.header.id, id);
            assert_eq!(m.header.num_questions, 1);
            assert_eq!(m.header.flags, if rd { 0x0100 } else { 0 });
            assert_eq!(m.questions, vec![Question::new(name("www.example.com"), 28, 1)]);
            assert!(m.answers.is_empty() && m.authorities.is_empty() && m.additionals.is_empty());
        }
    }
}

#[test]
fn decoded_query_with_an_empty_label_still_keeps_its_id() {
    let bytes = encode_query(&name("a..b"), 1, 0x4242, true).unwrap();
    let m = decode_message(&bytes).unwrap();
    assert_eq!(m.header.id, 0x4242);
    assert_eq!(m.header.num_questions, 1);
}

#[test]
fn built_query_differs_from_an_encoded_one_only_in_its_id() {
    let expected = encode_query(&name("www.example.com"), 1, 0, true).unwrap();
    let mut rng = StdRng::seed_from_u64(0x5eed);
    let mut ids = Vec::new();
    for _ in 0..40 {
        let bytes = build_query(String::from("www.example.com"), 1, &mut rng).unwrap();
        assert_eq!(bytes.len(), expected.len());
        assert_eq!(&bytes[2..], &expected[2..]);
        ids.push((bytes[0], bytes[1]));
    }
    ids.sort();
    ids.dedup();
    assert!(ids.len() > 1);
}

#[test]
fn built_query_is_the_encoded_one_for_its_id() {
    let mut rng = StdRng::seed_from_u64(1);
    for _ in 0..20 {
        let bytes = build_query(String::from("example.org"), 2, &mut rng).unwrap();
        let id = u16::from_be_bytes([bytes[0], bytes[1]]);
        assert_eq!(Ok(bytes), encode_query(&name("example.org"), 2, id, true));
    }
}

#[test]
fn same_seed_builds_the_same_queries() {
    let mut one = StdRng::seed_from_u64(99);
    let mut other = StdRng::seed_from_u64(99);
    for _ in 0..10 {
        assert_eq!(
            build_query(String::from("a.example"), 1, &mut one),
            build_query(String::from("a.example"), 1, &mut other)
        );
    }
}

#[test]
fn drawing_ids_goes_on_past_many_blocks() {
    // far more draws than one block of the generator holds
    let mut rng = StdRng::seed_from_u64(3);
    let mut seen = std::collections::HashSet::new();
    for _ in 0..40000 {
        let bytes = build_query(String::from("a"), 1, &mut rng).unwrap();
        seen.insert((bytes[0], bytes[1]));
    }
    assert!(seen.len() > 1000);
}

#[test]
fn built_query_fails_where_the_name_does() {
    let mut rng = StdRng::seed_from_u64(5);
    assert_eq!(
        build_query(String::from("b\u{fc}cher.de"), 1, &mut rng),
        Err(DnsError::InvalidLabel)
    );
    let long = format!("{}.{}.{}.{}.{}", "a".repeat(63), "b".repeat(63), "c".repeat(63), "d".repeat(63), "e");
    assert_eq!(build_query(long, 1, &mut rng), Err(DnsError::NameTooLong));
}

#[test]
fn record_is_name_type_class_ttl_length_data() {
    let record = ResourceRecord {
        name: name("a"),
        type_: 1,
        class: 1,
        ttl: 0x01020304,
        data: RecordData::Address(Ipv4Address(10, 20, 30, 40)),
    };
    assert_eq!(
        record.to_bytes(),
        Ok(vec![1, b'a', 0, 0, 1, 0, 1, 1, 2, 3, 4, 0, 4, 10, 20, 30, 40])
    );
    let (back, consumed) = ResourceRecord::decode(&record.to_bytes().unwrap(), 0).unwrap();
    assert_eq!(back, record);
    assert_eq!(consumed, 17);
}

#[test]
fn time_to_live_is_thirty_two_bits() {
    let record = a_record("a", Ipv4Address(1, 2, 3, 4));
    let mut bytes = record.to_bytes().unwrap();
    bytes[7..11].copy_from_slice(&[0xff, 0xfe, 0xfd, 0xfc]);
    let (back, _) = ResourceRecord::decode(&bytes, 0).unwrap();
    assert_eq!(back.ttl, 0xfffefdfc);
}

#[test]
fn name_server_record_carries_a_name() {
    let record = ns_record("com", "a.gtld-servers.net");
    let bytes = record.to_bytes().unwrap();
    let name_len = name("a.gtld-servers.net").encode().unwrap().len();
    assert_eq!(bytes[13], 0);
    assert_eq!(bytes[14] as usize, name_len);
    let (back, consumed) = ResourceRecord::decode(&bytes, 0).unwrap();
    assert_eq!(back, record);
    assert_eq!(consumed, bytes.len());
}

#[test]
fn other_types_carry_bare_bytes() {
    let record = ResourceRecord {
        name: name("example.com"),
        type_: 16,
        class: 1,
        ttl: 0,
        data: RecordData::Raw(vec![0xc0, 0xff, 0x80]),
    };
    let bytes = record.to_bytes().unwrap();
    let (back, consumed) = ResourceRecord::decode(&bytes, 0).unwrap();
    assert_eq!(back, record);
    assert_eq!(consumed, bytes.len());
}

#[test]
fn data_that_does_not_fit_the_type_is_malformed_when_written() {
    let mut record = a_record("a", Ipv4Address(1, 2, 3, 4));
    record.type_ = 2;
    assert_eq!(record.to_bytes(), Err(DnsError::MalformedRecord));
    record.type_ = 16;
    assert_eq!(record.to_bytes(), Err(DnsError::MalformedRecord));
    let mut record = ns_record("a", "b");
    record.type_ = 1;
    assert_eq!(record.to_bytes(), Err(DnsError::MalformedRecord));
    record.type_ = 5;
    assert!(record.to_bytes().is_ok());
    let raw = ResourceRecord {
        name: name("a"),
        type_: 5,
        class: 1,
        ttl: 0,
        data: RecordData::Raw(vec![]),
    };
    assert_eq!(raw.to_bytes(), Err(DnsError::MalformedRecord));
}

#[test]
fn data_longer_than_sixteen_bits_is_malformed() {
    let mut record = ResourceRecord {
        name: name("a"),
        type_: 16,
        class: 1,
        ttl: 0,
        data: RecordData::Raw(vec![0; 0x10000]),
    };
    assert_eq!(record.to_bytes(), Err(DnsError::MalformedRecord));
    record.data = RecordData::Raw(vec![7; 0xffff]);
    let bytes = record.to_bytes().unwrap();
    assert_eq!(bytes.len(), 3 + 10 + 0xffff);
    assert_eq!(&bytes[11..13], &[0xff, 0xff]);
}

#[test]
fn address_record_of_another_length_is_malformed() {
    // name "a", type A, class IN, ttl 0, length 3
    let bytes = vec![1, b'a', 0, 0, 1, 0, 1, 0, 0, 0, 0, 0, 3, 1, 2, 3];
    assert_eq!(ResourceRecord::decode(&bytes, 0), Err(DnsError::MalformedRecord));
    let bytes = vec![1, b'a', 0, 0, 1, 0, 1, 0, 0, 0, 0, 0, 5, 1, 2, 3, 4, 5];
    assert_eq!(ResourceRecord::decode(&bytes, 0), Err(DnsError::MalformedRecord));
}

#[test]
fn name_record_whose_name_does_not_fill_the_data_is_malformed() {
    // name "a", type NS, class IN, ttl 0, length 4, data: "b" and one byte more
    let bytes = vec![1, b'a', 0, 0, 2, 0, 1, 0, 0, 0, 0, 0, 4, 1, b'b', 0, 9];
    assert_eq!(ResourceRecord::decode(&bytes, 0), Err(DnsError::MalformedRecord));
    // length 2, but the name takes three bytes
    let bytes = vec![1, b'a', 0, 0, 5, 0, 1, 0, 0, 0, 0, 0, 2, 1, b'b', 0];
    assert_eq!(ResourceRecord::decode(&bytes, 0), Err(DnsError::MalformedRecord));
}

#[test]
fn record_cut_in_its_fixed_part_is_truncated() {
    let bytes = a_record("a", Ipv4Address(1, 2, 3, 4)).to_bytes().unwrap();
    for k in 0..bytes.len() {
        assert_eq!(ResourceRecord::decode(&bytes[..k], 0), Err(DnsError::TruncatedMessage));
    }
}

#[test]
fn message_round_trip() {
    let m = sample_message();
    assert!(m.counts_match());
    assert_eq!(m.header, Header::new(0xbeef, 0x8400, 1, 1, 1, 2));
    let bytes = m.to_bytes().unwrap();
    assert_eq!(decode_message(&bytes), Ok(m));
}

#[test]
fn bytes_behind_the_last_record_are_ignored() {
    let m = sample_message();
    let mut bytes = m.to_bytes().unwrap();
    bytes.extend_from_slice(&[0xde, 0xad]);
    assert_eq!(decode_message(&bytes), Ok(m));
}

#[test]
fn every_cut_of_a_message_is_truncated() {
    let bytes = sample_message().to_bytes().unwrap();
    for k in 0..bytes.len() {
        assert_eq!(decode_message(&bytes[..k]), Err(DnsError::TruncatedMessage));
    }
}

#[test]
fn every_cut_of_a_compressed_message_is_truncated() {
    let bytes = compressed_response();
    assert!(decode_message(&bytes).is_ok());
    for k in 0..bytes.len() {
        assert_eq!(decode_message(&bytes[..k]), Err(DnsError::TruncatedMessage));
    }
}

fn compressed_response() -> Vec<u8> {
    let mut bytes = vec![0x00, 0x2a, 0x84, 0x00, 0, 1, 0, 1, 0, 1, 0, 1];
    // question at 12: www.example.com A IN
    bytes.extend_from_slice(&name("www.example.com").encode().unwrap());
    bytes.extend_from_slice(&[0, 1, 0, 1]);
    // answer: pointer to 12, A IN, ttl 60, 4 bytes
    bytes.extend_from_slice(&[0xc0, 12, 0, 1, 0, 1, 0, 0, 0, 60, 0, 4, 93, 184, 216, 34]);
    // authority: pointer to 16 (example.com), NS IN, ttl 60, data "ns" + pointer to 16
    bytes.extend_from_slice(&[0xc0, 16, 0, 2, 0, 1, 0, 0, 0, 60, 0, 5, 2, b'n', b's', 0xc0, 16]);
    // additional: ns.example.com written as "ns" + pointer, A IN, ttl 60
    bytes.extend_from_slice(&[
        2, b'n', b's', 0xc0, 16, 0, 1, 0, 1, 0, 0, 0, 60, 0, 4, 192, 0, 2, 1,
    ]);
    bytes
}

#[test]
fn compressed_names_are_expanded() {
    let m = decode_message(&compressed_response()).unwrap();
    assert_eq!(m.header.id, 42);
    assert_eq!(m.questions, vec![Question::new(name("www.example.com"), 1, 1)]);
    assert_eq!(
        m.answers,
        vec![ResourceRecord {
            name: name("www.example.com"),
            type_: 1,
            class: 1,
            ttl: 60,
            data: RecordData::Address(Ipv4Address(93, 184, 216, 34)),
        }]
    );
    assert_eq!(
        m.authorities,
        vec![ResourceRecord {
            name: name("example.com"),
            type_: 2,
            class: 1,
            ttl: 60,
            data: RecordData::Name(name("ns.example.com")),
        }]
    );
    assert_eq!(
        m.additionals,
        vec![ResourceRecord {
            name: name("ns.example.com"),
            type_: 1,
            class: 1,
            ttl: 60,
            data: RecordData::Address(Ipv4Address(192, 0, 2, 1)),
        }]
    );
}

#[test]
fn count_beyond_the_entries_is_truncated() {
    let mut bytes = sample_message().to_bytes().unwrap();
    bytes[7] = 2; // two answers declared, one present before the authority section
    assert!(decode_message(&bytes).is_err());
    let mut bytes = encode_query(&name("a.b"), 1, 1, true).unwrap();
    bytes[5] = 2;
    assert_eq!(decode_message(&bytes), Err(DnsError::TruncatedMessage));
}

#[test]
fn message_with_a_looping_name_fails_with_compression_loop() {
    let mut bytes = vec![0, 1, 0, 0, 0, 1, 0, 0, 0, 0, 0, 0];
    bytes.extend_from_slice(&[0xc0, 12, 0, 1, 0, 1]);
    assert_eq!(decode_message(&bytes), Err(DnsError::CompressionLoop));
}

#[test]
fn message_with_a_malformed_record_fails_with_malformed_record() {
    let mut bytes = vec![0, 1, 0x80, 0, 0, 0, 0, 1, 0, 0, 0, 0];
    bytes.extend_from_slice(&[1, b'a', 0, 0, 1, 0, 1, 0, 0, 0, 0, 0, 2, 1, 2]);
    assert_eq!(decode_message(&bytes), Err(DnsError::MalformedRecord));
}

#[test]
fn message_fails_to_encode_like_its_first_bad_entry() {
    let mut m = sample_message();
    m.additionals[0].type_ = 2;
    assert_eq!(m.to_bytes(), Err(DnsError::MalformedRecord));
    m.questions[0].name = DomainName { labels: vec![vec![b'a'; 64]] };
    assert_eq!(m.to_bytes(), Err(DnsError::InvalidLabel));
}

#[test]
fn new_message_counts_its_sections() {
    let m = Message::new(1, 2, vec![], vec![], vec![], vec![]).unwrap();
    assert_eq!(m.header, Header::new(1, 2, 0, 0, 0, 0));
    assert_eq!(m.to_bytes(), Ok(vec![0, 1, 0, 2, 0, 0, 0, 0, 0, 0, 0, 0]));
    let many = vec![Question::new(DomainName { labels: vec![] }, 1, 1); 0x10000];
    assert!(Message::new(1, 2, many, vec![], vec![], vec![]).is_none());
    let mut off = sample_message();
    off.header.num_answers = 3;
    assert!(!off.counts_match());
}
