use bytes::Bytes;
use rust_asn1::asn1_types::{ASN1Identifier, ASN1ObjectIdentifier};
use rust_asn1::asn1_types::object_identifier::{read_oid_subidentifier, write_oid_subidentifier};
use rust_asn1::ber;
use rust_asn1::ber::BERImplicitlyTaggable;
use rust_asn1::der;
use rust_asn1::der::{DERImplicitlyTaggable, DERParseable, Serializer};
use rust_asn1::ber::BERParseable;
use rust_asn1::errors::ErrorCode;

#[test]
fn test_oid_new_errors() {
    assert!(ASN1ObjectIdentifier::new(&[1]).is_err());
    assert!(ASN1ObjectIdentifier::new(&[3, 0]).is_err());
    assert!(ASN1ObjectIdentifier::new(&[0, 41]).is_err());
    assert!(ASN1ObjectIdentifier::new(&[1, 40]).is_err());

    assert!(ASN1ObjectIdentifier::new(&[0, 39]).is_ok());
    assert!(ASN1ObjectIdentifier::new(&[1, 39]).is_ok());
    assert!(ASN1ObjectIdentifier::new(&[2, 100]).is_ok());
}

#[test]
fn test_whitebox_oid_leading_zero_vlq() {
    // Tag 06 Length 02 Data 80 01: a sub-identifier with a leading zero octet
    let data = vec![0x06, 0x02, 0x80, 0x01];
    let res = ASN1ObjectIdentifier::from_der_bytes(&data);
    assert!(res.is_err());
}

#[test]
fn test_oid_new_zero_first_subidentifier_hits_zero_write_path() {
    let oid = ASN1ObjectIdentifier::new(&[0, 0]).unwrap();
    let mut serializer = Serializer::new();
    serializer.serialize(&oid).unwrap();
    assert_eq!(serializer.serialized_bytes(), vec![0x06, 0x01, 0x00]);
    let comps = oid.oid_components().unwrap();
    assert_eq!(comps, vec![0, 0]);
}

#[test]
fn test_oid_der_identifier_mismatch() {
    let node = der::parse(&[0x06, 0x01, 0x00]).unwrap();
    let res = <ASN1ObjectIdentifier as DERImplicitlyTaggable>::from_der_node_with_identifier(
        node,
        ASN1Identifier::integer(),
    );
    assert!(res.is_err());
}

#[test]
fn test_oid_der_empty_content_error() {
    let res = ASN1ObjectIdentifier::from_der_bytes(&[0x06, 0x00]);
    assert!(res.is_err());
}

#[test]
fn test_oid_der_constructed_rejected() {
    let node = der::parse(&[0x26, 0x00]).unwrap();
    let res = ASN1ObjectIdentifier::from_der_node(node);
    assert!(res.is_err());
}

#[test]
fn test_oid_ber_wrappers() {
    let node = ber::parse(&[0x06, 0x01, 0x00]).unwrap();
    let v = ASN1ObjectIdentifier::from_ber_node(node).unwrap();
    assert_eq!(v.oid_components().unwrap(), vec![0, 0]);

    let node = ber::parse(&[0x06, 0x01, 0x00]).unwrap();
    let v = <ASN1ObjectIdentifier as BERImplicitlyTaggable>::from_ber_node_with_identifier(
        node,
        ASN1Identifier::object_identifier(),
    )
    .unwrap();
    assert_eq!(v.oid_components().unwrap(), vec![0, 0]);

    let node = ber::parse(&[0x06, 0x01, 0x00]).unwrap();
    let res = <ASN1ObjectIdentifier as BERImplicitlyTaggable>::from_ber_node_with_identifier(
        node,
        ASN1Identifier::integer(),
    );
    assert!(res.is_err());
}

#[test]
fn test_read_oid_subidentifier_empty_error() {
    let mut data = Bytes::new();
    let res = read_oid_subidentifier(&mut data);
    assert!(res.is_err());
}

#[test]
fn test_write_oid_subidentifier_encodes_multibyte_values() {
    let mut buf = Vec::new();
    write_oid_subidentifier(200, &mut buf);
    assert_eq!(buf, vec![0x81, 0x48], "expected continuation bit only on first byte");
}

#[test]
fn test_read_oid_subidentifier_round_trip_large_value() {
    let mut buf = Vec::new();
    write_oid_subidentifier(9_876_543, &mut buf);
    let mut bytes = Bytes::from(buf.clone());
    let parsed = read_oid_subidentifier(&mut bytes).unwrap();
    assert_eq!(parsed, 9_876_543);
    assert!(bytes.is_empty());
    assert_eq!(buf.last().unwrap() & 0x80, 0);
    assert!(buf[..buf.len() - 1].iter().all(|b| b & 0x80 != 0));
}

#[test]
fn test_read_oid_subidentifier_accepts_max_pre_shift_value() {
    let limit = u64::MAX / 128;
    let mut buf = Vec::new();
    write_oid_subidentifier(limit, &mut buf);
    let mut bytes = Bytes::from(buf);
    let parsed = read_oid_subidentifier(&mut bytes).unwrap();
    assert_eq!(parsed, limit);
    assert!(bytes.is_empty());
}

#[test]
fn test_read_oid_subidentifier_rejects_leading_zero_encoding() {
    let mut data = Bytes::from_static(&[0x80, 0x01]);
    let err = read_oid_subidentifier(&mut data).unwrap_err();
    assert_eq!(err.code(), ErrorCode::InvalidASN1Object);
}

#[test]
fn test_read_oid_subidentifier_overflow_detected() {
    let mut encoded = vec![0xFF; 10];
    encoded.push(0x7F);
    let mut data = Bytes::from(encoded);
    let err = read_oid_subidentifier(&mut data).unwrap_err();
    assert_eq!(err.code(), ErrorCode::InvalidASN1Object);
}

#[test]
fn test_oid_invalid_string() {
    // A sub-identifier overflowing the 64-bit range inside OID content is
    // rejected when decoding.
    let mut content = vec![0xFF; 10];
    content.push(0x7F);
    let mut data = vec![0x06, content.len() as u8];
    data.extend_from_slice(&content);
    let res = ASN1ObjectIdentifier::from_der_bytes(&data);
    assert!(res.is_err());
    assert_eq!(res.unwrap_err().code(), ErrorCode::InvalidASN1Object);
}

#[test]
fn test_oid_construct() {
    let oid = ASN1ObjectIdentifier::new(&[1, 2, 840]).unwrap();
    let mut serializer = Serializer::new();
    serializer.serialize(&oid).unwrap();
    assert_eq!(serializer.serialized_bytes(), vec![0x06, 0x03, 0x2A, 0x86, 0x48]);
    assert_eq!(oid.oid_components().unwrap(), vec![1, 2, 840]);
}
