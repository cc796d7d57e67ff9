use bytes::{Bytes, BytesMut};
use std::sync::Arc;
use rust_asn1::asn1::{
    minimal_octet_len, read_asn1_discipline_uint, ASN1Length, ASN1NodeCollection, Content,
    EncodingRules, ParseResult, ParserNode, _read_asn1_length,
};
use rust_asn1::asn1_types::{ASN1Identifier, TagClass};
use rust_asn1::errors::ErrorCode;

#[test]
fn test_parse_empty_data() {
    let data = Bytes::from(vec![]);
    let res = ParseResult::parse(data, EncodingRules::Distinguished);
    assert!(res.is_err());
}

#[test]
fn test_parse_truncated_tag() {
    let data = Bytes::from(vec![0x1F]);
    let res = ParseResult::parse(data, EncodingRules::Distinguished);
    assert!(res.is_err());
}

#[test]
fn test_parse_truncated_length() {
    let data = Bytes::from(vec![0x02]);
    let res = ParseResult::parse(data, EncodingRules::Distinguished);
    assert!(res.is_err());
}

#[test]
fn test_parse_truncated_value() {
    let data = Bytes::from(vec![0x02, 0x01]);
    let res = ParseResult::parse(data, EncodingRules::Distinguished);
    assert!(res.is_err());
}

#[test]
fn test_parse_long_form_tag_number_too_small_rejected() {
    // Long-form tag encoding must not be used for tag numbers below 0x1F.
    let data = Bytes::from(vec![0x1F, 0x1E, 0x00]);
    let res = ParseResult::parse(data, EncodingRules::Distinguished);
    assert!(res.is_err());
    assert_eq!(res.unwrap_err().code(), ErrorCode::InvalidASN1Object);
}

#[test]
fn test_parse_long_form_tag_number_boundary_ok() {
    let data = Bytes::from(vec![0x1F, 0x1F, 0x00]);
    let res = ParseResult::parse(data, EncodingRules::Distinguished);
    assert!(res.is_ok());
}

#[test]
fn test_parse_long_form_tag_number_above_boundary_ok() {
    let data = Bytes::from(vec![0x1F, 0x20, 0x00]);
    let res = ParseResult::parse(data, EncodingRules::Distinguished);
    assert!(res.is_ok());
}

#[test]
fn test_der_rejects_non_minimal_length_encoding() {
    let data = Bytes::from(vec![0x02, 0x81, 0x01, 0x00]);
    let res = ParseResult::parse(data, EncodingRules::Distinguished);
    assert!(res.is_err());
    assert_eq!(res.unwrap_err().code(), ErrorCode::UnsupportedFieldLength);
}

#[test]
fn test_ber_allows_non_minimal_length_encoding() {
    let data = Bytes::from(vec![0x02, 0x81, 0x01, 0x00]);
    let res = ParseResult::parse(data, EncodingRules::Basic);
    assert!(res.is_ok());
}

#[test]
fn test_parse_extra_data() {
    let data = Bytes::from(vec![0x02, 0x01, 0x00, 0xFF]);
    let res = ParseResult::parse(data.clone(), EncodingRules::Distinguished);
    assert!(res.is_err());
}

#[test]
fn test_huge_length() {
    let data = Bytes::from(vec![0x02, 0x84, 0xFF, 0xFF, 0xFF, 0xFF]);
    let res = ParseResult::parse(data, EncodingRules::Distinguished);
    assert!(res.is_err());
}

#[test]
fn asn1_test_recursion_limit() {
    let data = vec![0x30, 0x02, 0x30, 0x00];
    let res = ParseResult::parse(Bytes::from(data), EncodingRules::Distinguished);
    assert!(res.is_ok());
}

#[test]
fn test_recursion_limit_boundary_ok() {
    // The depth cap is checked at the start of each recursive call; with
    // indefinite nesting the deepest call is the innermost end-of-content
    // marker, one level below the innermost sequence. So 49 nested
    // sequences still decode.
    let mut data = Vec::new();
    for _ in 0..49 {
        data.push(0x30);
        data.push(0x80);
    }
    for _ in 0..49 {
        data.push(0x00);
        data.push(0x00);
    }

    let res = ParseResult::parse(Bytes::from(data), EncodingRules::Basic);
    assert!(res.is_ok());
}

#[test]
fn test_recursion_limit_boundary_err() {
    // 50 nested sequences put the deepest end-of-content marker past the cap.
    let mut data = Vec::new();
    for _ in 0..50 {
        data.push(0x30);
        data.push(0x80);
    }
    for _ in 0..50 {
        data.push(0x00);
        data.push(0x00);
    }

    let res = ParseResult::parse(Bytes::from(data), EncodingRules::Basic);
    assert!(res.is_err());
    assert_eq!(res.unwrap_err().code(), ErrorCode::InvalidASN1Object);
}

#[test]
fn test_deep_recursion_error() {
    let mut data = Vec::new();
    for _ in 0..52 {
        data.push(0x30);
        data.push(0x80);
    }
    for _ in 0..52 {
        data.push(0x00);
        data.push(0x00);
    }

    let res = ParseResult::parse(Bytes::from(data), EncodingRules::Basic);
    assert!(res.is_err());
    assert_eq!(res.unwrap_err().code(), ErrorCode::InvalidASN1Object);
}

#[test]
fn test_is_end_marker() {
    let node = ParserNode {
        identifier: ASN1Identifier::new(0, TagClass::Universal),
        depth: 0,
        is_constructed: false,
        encoded_bytes: Bytes::from(vec![0x00, 0x00]),
        data_bytes: Some(Bytes::from(vec![])),
    };
    assert!(node.is_end_marker());

    let node2 = ParserNode {
        identifier: ASN1Identifier::new(1, TagClass::Universal),
        depth: 0,
        is_constructed: false,
        encoded_bytes: Bytes::from(vec![0x00, 0x00]),
        data_bytes: Some(Bytes::from(vec![])),
    };
    assert!(!node2.is_end_marker());

    let node3 = ParserNode {
        identifier: ASN1Identifier::new(0, TagClass::Universal),
        depth: 0,
        is_constructed: false,
        encoded_bytes: Bytes::from(vec![0x00]),
        data_bytes: Some(Bytes::from(vec![])),
    };
    assert!(!node3.is_end_marker());
}

#[test]
fn test_indefinite_constructed_encoded_bytes_matches_input() {
    let data = vec![
        0x30, 0x80, // SEQUENCE, indefinite length
        0x02, 0x01, 0x00, // INTEGER (0)
        0x00, 0x00, // end-of-content
    ];

    let res = ParseResult::parse(Bytes::from(data.clone()), EncodingRules::Basic).unwrap();
    assert!(!res.nodes.is_empty());
    assert!(res.nodes[0].is_constructed);
    assert_eq!(res.nodes[0].encoded_bytes.as_ref(), data.as_slice());
}

#[test]
fn test_indefinite_end_marker_must_be_own_child() {
    // The end-of-content check applies to the child just parsed: a nested
    // definite-length sequence whose last descendant is a two-octet
    // Universal-0 primitive does not close the outer indefinite node.
    let data = vec![
        0x30, 0x80, // SEQUENCE, indefinite length
        0x30, 0x02, // SEQUENCE, definite length 2
        0x00, 0x00, // its child: Universal 0 primitive, empty
        0x00, 0x00, // end-of-content of the outer sequence
    ];

    let res = ParseResult::parse(Bytes::from(data.clone()), EncodingRules::Basic).unwrap();
    assert_eq!(res.nodes.len(), 3);
    assert!(res.nodes[0].is_constructed);
    assert_eq!(res.nodes[0].encoded_bytes.as_ref(), data.as_slice());
    assert!(res.nodes[1].is_constructed);
    assert_eq!(res.nodes[1].depth, 2);
    assert_eq!(res.nodes[2].depth, 3);
    assert!(res.nodes[2].is_end_marker());
}

#[test]
fn test_der_rejects_indefinite_length_encoding() {
    let data = vec![
        0x30, 0x80, // SEQUENCE, indefinite length
        0x00, 0x00, // end-of-content
    ];

    let err = ParseResult::parse(Bytes::from(data), EncodingRules::Distinguished).unwrap_err();
    assert_eq!(err.code(), ErrorCode::UnsupportedFieldLength);
}

#[test]
fn test_indefinite_length_missing_end_marker_rejected() {
    let data = vec![
        0x30, 0x80, // SEQUENCE, indefinite length
        0x02, 0x01, 0x00, // INTEGER, then no end-of-content marker
    ];

    let err = ParseResult::parse(Bytes::from(data), EncodingRules::Basic).unwrap_err();
    assert_eq!(err.code(), ErrorCode::TruncatedASN1Field);
}

#[test]
fn test_read_asn1_length_long_form_with_exact_bytes() {
    let mut data = Bytes::from(vec![0x82, 0x01, 0x02]);
    let result = _read_asn1_length(&mut data, false).unwrap();
    match result {
        ASN1Length::Definite(value) => assert_eq!(value, 0x0102),
        ASN1Length::Indefinite => panic!("expected definite length"),
    }
    assert!(data.is_empty());
}

#[test]
fn test_read_asn1_length_rejects_excessive_length_bytes() {
    let mut data = Bytes::from(vec![0x83, 0x00, 0x01, 0x02]);
    let err = _read_asn1_length(&mut data, true).unwrap_err();
    assert_eq!(err.code(), ErrorCode::UnsupportedFieldLength);
}

#[test]
fn test_read_asn1_length_rejects_overlong_encoding() {
    // 128 encoded using 3 octets
    let mut data = Bytes::from(vec![0x83, 0x00, 0x00, 0x80]);
    let err = _read_asn1_length(&mut data, true).unwrap_err();
    assert_eq!(err.code(), ErrorCode::UnsupportedFieldLength);
}

#[test]
fn test_der_allows_long_form_for_length_128() {
    let mut payload = BytesMut::from(&[0x04, 0x81, 0x80][..]);
    payload.extend_from_slice(&vec![0u8; 128]);
    assert!(ParseResult::parse(payload.freeze(), EncodingRules::Distinguished).is_ok());
}

#[test]
fn test_read_asn1_discipline_uint_multi_byte() {
    let mut data = Bytes::from(vec![0x81, 0x01]);
    let (value, read) = read_asn1_discipline_uint(&mut data).unwrap();
    assert_eq!(value, 129);
    assert_eq!(read, 2);
    assert!(data.is_empty());
}

#[test]
fn test_read_asn1_discipline_uint_truncated_errors() {
    let mut data = Bytes::from(vec![0x80]);
    let err = read_asn1_discipline_uint(&mut data).unwrap_err();
    assert_eq!(err.code(), ErrorCode::TruncatedASN1Field);
}

#[test]
fn test_read_asn1_discipline_uint_overflow_errors() {
    let mut bytes = vec![0xFF; 10];
    bytes.push(0x7F);
    let mut data = Bytes::from(bytes);
    let err = read_asn1_discipline_uint(&mut data).unwrap_err();
    assert_eq!(err.code(), ErrorCode::InvalidASN1Object);
}

#[test]
fn test_minimal_octet_len_values() {
    assert_eq!(minimal_octet_len(0), 1);
    assert_eq!(minimal_octet_len(1), 1);
    assert_eq!(minimal_octet_len(0x80), 1);
    assert_eq!(minimal_octet_len(u64::MAX), 8);
}

fn encode_base128(mut value: u64) -> Vec<u8> {
    if value == 0 {
        return vec![0];
    }
    let mut stack = Vec::new();
    while value > 0 {
        stack.push((value & 0x7F) as u8);
        value >>= 7;
    }
    let mut out = Vec::with_capacity(stack.len());
    for idx in (0..stack.len()).rev() {
        let mut byte = stack[idx];
        if idx != 0 {
            byte |= 0x80;
        }
        out.push(byte);
    }
    out
}

#[test]
fn test_read_asn1_discipline_uint_accepts_max_value() {
    let encoded = encode_base128(u64::MAX);
    let mut data = Bytes::from(encoded.clone());
    let (decoded, consumed) = read_asn1_discipline_uint(&mut data).unwrap();
    assert_eq!(decoded, u64::MAX);
    assert_eq!(consumed, encoded.len());
    assert!(data.is_empty());
}

#[test]
fn test_node_collection_iterator_yields_children_in_order() {
    fn bytes(data: &[u8]) -> Bytes {
        Bytes::from(data.to_vec())
    }

    let nodes = Arc::new(vec![
        ParserNode {
            identifier: ASN1Identifier::sequence(),
            depth: 1,
            is_constructed: true,
            encoded_bytes: bytes(&[0x30, 0x06]),
            data_bytes: None,
        },
        ParserNode {
            identifier: ASN1Identifier::integer(),
            depth: 2,
            is_constructed: false,
            encoded_bytes: bytes(&[0x02, 0x01, 0x01]),
            data_bytes: Some(bytes(&[0x01])),
        },
        ParserNode {
            identifier: ASN1Identifier::sequence(),
            depth: 2,
            is_constructed: true,
            encoded_bytes: bytes(&[0x30, 0x03]),
            data_bytes: None,
        },
        ParserNode {
            identifier: ASN1Identifier::integer(),
            depth: 3,
            is_constructed: false,
            encoded_bytes: bytes(&[0x02, 0x01, 0x02]),
            data_bytes: Some(bytes(&[0x02])),
        },
    ]);

    let total = nodes.len();
    let collection = ASN1NodeCollection::new(nodes.clone(), 1, total, 1);
    let mut iter = collection.into_iter();

    let first = iter.next().expect("first child");
    match first.content {
        Content::Primitive(bytes) => assert_eq!(bytes.as_ref(), &[0x01]),
        Content::Constructed(_) => panic!("expected primitive child"),
    }

    let second = iter.next().expect("second child");
    match second.content {
        Content::Constructed(child_collection) => {
            let mut child_iter = child_collection.into_iter();
            let grandchild = child_iter.next().expect("grandchild");
            match grandchild.content {
                Content::Primitive(bytes) => assert_eq!(bytes.as_ref(), &[0x02]),
                Content::Constructed(_) => panic!("expected primitive grandchild"),
            }
            assert!(child_iter.next().is_none());
        },
        Content::Primitive(_) => panic!("expected constructed child"),
    }

    assert!(iter.next().is_none());
}
