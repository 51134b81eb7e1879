use dns_resolve::error::DnsError;
use dns_resolve::name::{decode_name, encode_dns_name, DomainName};

fn name(text: &str) -> DomainName {
    DomainName::from_text(text)
}

fn label(byte: u8, len: usize) -> Vec<u8> {
    vec![byte; len]
}

#[test]
fn encodes_labels_with_length_prefixes() {
    let bytes = encode_dns_name(String::from("www.example.com")).unwrap();
    assert_eq!(
        bytes,
        vec![
            0x03, 0x77, 0x77, 0x77, 0x07, 0x65, 0x78, 0x61, 0x6d, 0x70, 0x6c, 0x65, 0x03, 0x63,
            0x6f, 0x6d, 0x00
        ]
    );
}

#[test]
fn from_text_splits_on_dots() {
    assert_eq!(
        name("www.example.com").labels,
        vec![b"www".to_vec(), b"example".to_vec(), b"com".to_vec()]
    );
    assert_eq!(name("localhost").labels, vec![b"localhost".to_vec()]);
    assert_eq!(name("").labels, vec![Vec::<u8>::new()]);
    assert_eq!(name("a.").labels, vec![b"a".to_vec(), Vec::new()]);
    assert_eq!(name(".").labels, vec![Vec::<u8>::new(), Vec::new()]);
    assert_eq!(name("a..b").labels, vec![b"a".to_vec(), Vec::new(), b"b".to_vec()]);
}

#[test]
fn text_of_labels_joins_with_dots() {
    assert_eq!(name("www.example.com").to_text_bytes(), b"www.example.com".to_vec());
    assert_eq!(name("a..b").to_text_bytes(), b"a..b".to_vec());
    assert_eq!(name("").to_text_bytes(), Vec::<u8>::new());
    assert_eq!(DomainName { labels: vec![] }.to_text_bytes(), Vec::<u8>::new());
}

#[test]
fn round_trip_of_a_plain_name() {
    let original = name("www.example.com");
    let wire = original.encode().unwrap();
    let (back, consumed) = decode_name(&wire, 0).unwrap();
    assert_eq!(back, original);
    assert_eq!(consumed, wire.len());
}

#[test]
fn round_trip_of_the_longest_name() {
    // three labels of 63 bytes and one of 61: 4 + 63 * 3 + 61 + 1 = 255 bytes
    let original = DomainName {
        labels: vec![label(b'a', 63), label(b'b', 63), label(b'c', 63), label(b'd', 61)],
    };
    let wire = original.encode().unwrap();
    assert_eq!(wire.len(), 255);
    let (back, consumed) = decode_name(&wire, 0).unwrap();
    assert_eq!(back, original);
    assert_eq!(consumed, 255);
}

#[test]
fn round_trip_of_the_root() {
    let root = DomainName { labels: vec![] };
    assert_eq!(root.encode(), Ok(vec![0]));
    let (back, consumed) = decode_name(&[0], 0).unwrap();
    assert_eq!(back, root);
    assert_eq!(consumed, 1);
}

#[test]
fn empty_labels_are_written_as_zero_bytes() {
    assert_eq!(encode_dns_name(String::from("a..b")), Ok(vec![1, b'a', 0, 1, b'b', 0]));
    assert_eq!(encode_dns_name(String::from("")), Ok(vec![0, 0]));
    assert_eq!(encode_dns_name(String::from("com.")), Ok(vec![3, b'c', b'o', b'm', 0, 0]));
    // the first zero byte ends the name when it is read back
    let (back, consumed) = decode_name(&[1, b'a', 0, 1, b'b', 0], 0).unwrap();
    assert_eq!(back, name("a"));
    assert_eq!(consumed, 3);
}

#[test]
fn non_ascii_label_is_invalid() {
    assert_eq!(encode_dns_name(String::from("b\u{fc}cher.example")), Err(DnsError::InvalidLabel));
    assert_eq!(
        DomainName { labels: vec![vec![b'a', 0x80]] }.encode(),
        Err(DnsError::InvalidLabel)
    );
    assert_eq!(DomainName { labels: vec![vec![b'a', 0x7f]] }.encode(), Ok(vec![2, b'a', 0x7f, 0]));
}

#[test]
fn label_of_64_bytes_is_invalid() {
    let long = String::from_utf8(label(b'x', 64)).unwrap();
    assert_eq!(encode_dns_name(format!("{}.com", long)), Err(DnsError::InvalidLabel));
    let fits = String::from_utf8(label(b'x', 63)).unwrap();
    let wire = encode_dns_name(format!("{}.com", fits)).unwrap();
    assert_eq!(wire.len(), 1 + 63 + 1 + 3 + 1);
    assert_eq!(wire[0], 63);
}

#[test]
fn name_of_256_bytes_is_too_long() {
    let too_long = DomainName {
        labels: vec![label(b'a', 63), label(b'b', 63), label(b'c', 63), label(b'd', 62)],
    };
    assert_eq!(too_long.encode(), Err(DnsError::NameTooLong));
    let many = DomainName { labels: vec![label(b'a', 1); 200] };
    assert_eq!(many.encode(), Err(DnsError::NameTooLong));
}

#[test]
fn invalid_label_is_reported_before_length() {
    let mut labels = vec![label(b'a', 63); 10];
    labels.push(label(b'b', 64));
    assert_eq!(DomainName { labels }.encode(), Err(DnsError::InvalidLabel));
}

#[test]
fn pointer_adds_the_name_it_leads_to() {
    // offset 0: "example.com"; offset 13: "www" then a pointer to offset 0
    let mut buf = name("example.com").encode().unwrap();
    assert_eq!(buf.len(), 13);
    buf.extend_from_slice(&[3, b'w', b'w', b'w', 0xc0, 0x00]);
    buf.extend_from_slice(&[0xaa, 0xbb]);
    let (found, consumed) = decode_name(&buf, 13).unwrap();
    assert_eq!(found, name("www.example.com"));
    // the three bytes of the label, its length byte and the pointer
    assert_eq!(consumed, 6);
}

#[test]
fn pointer_alone_takes_two_bytes() {
    let mut buf = vec![0u8; 320];
    let wire = name("ns.example").encode().unwrap();
    buf[0x0123..0x0123 + wire.len()].copy_from_slice(&wire);
    buf[10] = 0xc1;
    buf[11] = 0x23;
    let (found, consumed) = decode_name(&buf, 10).unwrap();
    assert_eq!(found, name("ns.example"));
    assert_eq!(consumed, 2);
}

#[test]
fn pointer_to_itself_is_a_loop() {
    assert_eq!(decode_name(&[0xc0, 0x00], 0), Err(DnsError::CompressionLoop));
    assert_eq!(decode_name(&[1, b'a', 0xc0, 0x02], 0), Err(DnsError::CompressionLoop));
}

#[test]
fn cycle_of_pointers_is_a_loop() {
    assert_eq!(decode_name(&[0xc0, 0x02, 0xc0, 0x00], 0), Err(DnsError::CompressionLoop));
    assert_eq!(
        decode_name(&[1, b'a', 0xc0, 0x04, 1, b'b', 0xc0, 0x00], 0),
        Err(DnsError::CompressionLoop)
    );
}

#[test]
fn five_pointers_are_followed_and_six_are_not() {
    // pointers at 0, 2, 4, 6, 8, 10, each to the next; the name at 12
    let buf = vec![
        0xc0, 2, 0xc0, 4, 0xc0, 6, 0xc0, 8, 0xc0, 10, 0xc0, 12, 1, b'x', 0,
    ];
    let (found, consumed) = decode_name(&buf, 2).unwrap();
    assert_eq!(found, name("x"));
    assert_eq!(consumed, 2);
    assert_eq!(decode_name(&buf, 0), Err(DnsError::CompressionLoop));
}

#[test]
fn name_that_leaves_the_buffer_is_truncated() {
    assert_eq!(decode_name(&[], 0), Err(DnsError::TruncatedMessage));
    assert_eq!(decode_name(&[0], 1), Err(DnsError::TruncatedMessage));
    assert_eq!(decode_name(&[0], 7), Err(DnsError::TruncatedMessage));
    assert_eq!(decode_name(&[3, b'w', b'w'], 0), Err(DnsError::TruncatedMessage));
    assert_eq!(decode_name(&[3, b'w', b'w', b'w'], 0), Err(DnsError::TruncatedMessage));
    assert_eq!(decode_name(&[0xc0], 0), Err(DnsError::TruncatedMessage));
    assert_eq!(decode_name(&[0xc0, 0x09], 0), Err(DnsError::TruncatedMessage));
    assert_eq!(decode_name(&[0xff, 0xff], 0), Err(DnsError::TruncatedMessage));
}

#[test]
fn every_cut_of_a_name_is_truncated() {
    let wire = name("www.example.com").encode().unwrap();
    for k in 0..wire.len() {
        assert_eq!(decode_name(&wire[..k], 0), Err(DnsError::TruncatedMessage));
    }
}

#[test]
fn length_byte_between_64_and_191_is_invalid() {
    let mut buf = vec![0x40];
    buf.extend_from_slice(&[b'a'; 70]);
    assert_eq!(decode_name(&buf, 0), Err(DnsError::InvalidLabel));
    let mut buf = vec![0xbf];
    buf.extend_from_slice(&[b'a'; 200]);
    assert_eq!(decode_name(&buf, 0), Err(DnsError::InvalidLabel));
}

#[test]
fn label_byte_outside_ascii_is_invalid_when_read() {
    assert_eq!(decode_name(&[2, b'a', 0x80, 0], 0), Err(DnsError::InvalidLabel));
    assert_eq!(decode_name(&[2, b'a', 0xff, 0], 0), Err(DnsError::InvalidLabel));
}

#[test]
fn names_compare_label_by_label() {
    assert!(name("www.example.com").same_as(&name("www.example.com")));
    assert!(!name("www.example.com").same_as(&name("www.example.org")));
    assert!(!name("www.example.com").same_as(&name("example.com")));
    assert!(!name("ab.c").same_as(&name("a.bc")));
    assert!(!name("WWW.example.com").same_as(&name("www.example.com")));
    let copy = name("a.b").duplicate();
    assert_eq!(copy, name("a.b"));
}
