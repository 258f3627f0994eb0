use slipstream::base32::{decode_payload, encode_payload};
use slipstream::codec::{encode_frame, parse_query_name, TunnelDomain};
use slipstream::error::ErrorKind;

fn domain(name: &[u8]) -> TunnelDomain {
    TunnelDomain::new(name.to_vec()).unwrap()
}

#[test]
fn encode_known_vectors() {
    assert_eq!(encode_payload(b""), b"".to_vec());
    assert_eq!(encode_payload(b"f"), b"my".to_vec());
    assert_eq!(encode_payload(b"fo"), b"mzxq".to_vec());
    assert_eq!(encode_payload(b"foo"), b"mzxw6".to_vec());
    assert_eq!(encode_payload(b"foob"), b"mzxw6yq".to_vec());
    assert_eq!(encode_payload(b"fooba"), b"mzxw6ytb".to_vec());
    assert_eq!(encode_payload(b"foobar"), b"mzxw6ytboi".to_vec());
}

#[test]
fn decode_inverts_encode() {
    let cases: Vec<Vec<u8>> = vec![
        vec![],
        vec![0],
        vec![255],
        vec![0, 0, 0],
        b"fo".to_vec(),
        b"foobar".to_vec(),
        (0u16..=255).map(|b| b as u8).collect(),
        vec![7; 63],
        vec![42; 64],
        vec![13; 150],
    ];
    for payload in cases {
        let encoded = encode_payload(&payload);
        let decoded = decode_payload(&encoded).unwrap();
        assert_eq!(decoded, payload);
    }
}

#[test]
fn decode_rejects_impossible_lengths() {
    for text in [&b"a"[..], b"abc", b"abcdef", b"aaaaaaaaa"] {
        let e = decode_payload(text).unwrap_err();
        assert_eq!(e.kind, ErrorKind::Transport);
    }
}

#[test]
fn decode_rejects_illegal_characters() {
    for text in [&b"A2"[..], b"m.", b"0y", b"1y", b"8y", b"m!"] {
        let e = decode_payload(text).unwrap_err();
        assert_eq!(e.kind, ErrorKind::Transport);
    }
}

#[test]
fn query_name_round_trip() {
    let dom = domain(b"test.example.com");
    let payload = b"hello tunnel".to_vec();
    let frame = encode_frame(77, &payload, &dom);
    assert_eq!(frame.txid, 77);
    assert!(frame.qname.ends_with(b".test.example.com"));
    let back = parse_query_name(&frame.qname, &dom).unwrap();
    assert_eq!(back, payload);
}

#[test]
fn long_payload_splits_into_legal_labels() {
    let dom = domain(b"test.example.com");
    let payload = vec![0xABu8; 120];
    let frame = encode_frame(1, &payload, &dom);
    let name = String::from_utf8(frame.qname.clone()).unwrap();
    for label in name.split('.') {
        assert!(label.len() <= 63, "label too long: {}", label.len());
    }
    let back = parse_query_name(&frame.qname, &dom).unwrap();
    assert_eq!(back, payload);
}

#[test]
fn parse_rejects_foreign_domain() {
    let dom = domain(b"test.example.com");
    let other = domain(b"alt.example.com");
    let frame = encode_frame(5, b"data", &dom);
    let e = parse_query_name(&frame.qname, &other).unwrap_err();
    assert_eq!(e.kind, ErrorKind::Transport);
    assert!(parse_query_name(b"short", &dom).is_err());
}

#[test]
fn budget_fills_the_message_and_no_more() {
    // A 16-byte domain leaves 224 characters; its budget is 140 bytes.
    let free = 240 - 16;
    assert_eq!(encode_payload(&vec![0u8; 140]).len() <= free, true);
    assert_eq!(encode_payload(&vec![0u8; 141]).len() > free, true);
}

#[test]
fn domain_length_is_validated_at_construction() {
    assert!(TunnelDomain::new(vec![b'a'; 239]).is_ok());
    let e = TunnelDomain::new(vec![b'a'; 240]).unwrap_err();
    assert_eq!(e.kind, ErrorKind::Configuration);
    assert_eq!(e.message, "Domain name is too long for DNS transport");
}
