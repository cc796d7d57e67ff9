use rust_asn1::asn1::ASN1Node;
use rust_asn1::asn1_types::{
    ASN1BitString, ASN1Identifier, ASN1Integer, ASN1OctetString, ASN1PrintableString,
};
use rust_asn1::ber;
use rust_asn1::ber::BERParseable;
use rust_asn1::errors::{ASN1Error, ErrorCode};

#[test]
fn test_ber_parse_primitive() {
    // Integer 42: 02 01 2A
    let data = vec![0x02, 0x01, 0x2A];
    let node = ber::parse(&data).expect("Failed to parse BER");
    assert!(!node.is_constructed());

    let val = ASN1Integer::from_ber_node(node).expect("Failed to parse Integer");
    assert_eq!(val, ASN1Integer::from(42));
}

#[test]
fn test_ber_parse_constructed_octet_string() {
    // Constructed OCTET STRING: two primitive segments "ABC" and "DEF"
    let data = vec![
        0x24, 0x0A,
        0x04, 0x03, 0x41, 0x42, 0x43, // ABC
        0x04, 0x03, 0x44, 0x45, 0x46, // DEF
    ];

    let node = ber::parse(&data).expect("Failed to parse BER");
    assert!(node.is_constructed());

    let val = ASN1OctetString::from_ber_node(node).expect("Failed to parse Octet String");
    assert_eq!(val.0, "ABCDEF".as_bytes());
}

#[test]
fn test_ber_parse_constructed_bit_string() {
    // Constructed BIT STRING: a full-octet segment then a padded one.
    let data = vec![
        0x23, 0x08, // Tag 0x23, Len 8
        0x03, 0x02, 0x00, 0x41, // padding 0, octet 0x41
        0x03, 0x02, 0x04, 0x42, // padding 4, octet 0x42
    ];

    let node = ber::parse(&data).expect("Failed to parse BER");
    let val = ASN1BitString::from_ber_node(node).expect("Failed to parse Bit String");

    assert_eq!(val.padding_bits, 4);
    assert_eq!(val.bytes, bytes::Bytes::from(vec![0x41, 0x42]));
}

#[test]
fn test_ber_sequence() {
    // SEQUENCE { INTEGER 10 }
    let data = vec![0x30, 0x03, 0x02, 0x01, 0x0A];
    let node = ber::parse(&data).expect("Failed to parse BER");

    let val: i32 = ber::sequence(node, ASN1Identifier::sequence(), |mut iter| {
        let n: ASN1Node = iter.next().unwrap();
        let i = ASN1Integer::from_ber_node(n)?;
        if i == ASN1Integer::from(10) {
            Ok((10, iter))
        } else {
            Err(ASN1Error::new(
                ErrorCode::InvalidASN1Object,
                "Wrong int".into(),
                "".into(),
                0,
            ))
        }
    })
    .expect("Failed to parse sequence");

    assert_eq!(val, 10);
}

#[test]
fn test_from_ber_iterator_error() {
    // Empty sequence: 30 00
    let data = vec![0x30, 0x00];
    let node = ber::parse(&data).expect("Failed to parse BER");

    let res: Result<(), _> = ber::sequence(node, ASN1Identifier::sequence(), |mut iter| {
        let _ = ASN1Integer::from_ber_iterator(&mut iter)?;
        Ok(((), iter))
    });

    assert!(res.is_err());
}

#[test]
fn test_ber_nested_constructed_octet_string() {
    // A constructed OCTET STRING whose first child is itself constructed.
    let data = vec![
        0x24, 0x0C,
        0x24, 0x05, 0x04, 0x03, 0x41, 0x42, 0x43, // nested: ABC
        0x04, 0x03, 0x44, 0x45, 0x46, // DEF
    ];
    let node = ber::parse(&data).unwrap();
    let val = ASN1OctetString::from_ber_node(node).unwrap();
    assert_eq!(val.0, "ABCDEF".as_bytes());
}

#[test]
fn test_ber_constructed_string_segment_validated() {
    // A constructed PrintableString whose second segment holds a character
    // the type does not admit.
    let data = vec![
        0x33, 0x08,
        0x13, 0x02, 0x41, 0x42, // AB
        0x13, 0x02, 0x40, 0x42, // @B: @ is not printable
    ];
    let node = ber::parse(&data).unwrap();
    assert!(ASN1PrintableString::from_ber_node(node).is_err());
}
