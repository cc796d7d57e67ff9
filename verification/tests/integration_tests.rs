use num_bigint::BigInt;
use rust_asn1::asn1_types::{
    ASN1BitString, ASN1Boolean, ASN1IA5String, ASN1Integer, ASN1Null, ASN1NumericString,
    ASN1ObjectIdentifier, ASN1OctetString, ASN1PrintableString, ASN1UTF8String, GeneralizedTime,
    UTCTime,
};
use rust_asn1::der::{DERParseable, Serializer};

#[test]
fn test_boolean_true() {
    let bytes = vec![0x01, 0x01, 0xFF];
    let val = ASN1Boolean::from_der_bytes(&bytes).expect("Parse failed");
    assert_eq!(val, ASN1Boolean(true));

    let mut serializer = Serializer::new();
    serializer.serialize(&val).expect("Serialize failed");
    assert_eq!(serializer.serialized_bytes(), bytes);
}

#[test]
fn test_boolean_false() {
    let bytes = vec![0x01, 0x01, 0x00];
    let val = ASN1Boolean::from_der_bytes(&bytes).expect("Parse failed");
    assert_eq!(val, ASN1Boolean(false));

    let mut serializer = Serializer::new();
    serializer.serialize(&val).expect("Serialize failed");
    assert_eq!(serializer.serialized_bytes(), bytes);
}

#[test]
fn test_integer_42() {
    let bytes = vec![0x02, 0x01, 0x2A];
    let val = ASN1Integer::from_der_bytes(&bytes).expect("Parse failed");
    assert_eq!(val, ASN1Integer::from(42));

    let mut serializer = Serializer::new();
    serializer.serialize(&val).expect("Serialize failed");
    assert_eq!(serializer.serialized_bytes(), bytes);
}

#[test]
fn test_integer_neg1() {
    let bytes = vec![0x02, 0x01, 0xFF];
    let val = ASN1Integer::from_der_bytes(&bytes).expect("Parse failed");
    assert_eq!(val, ASN1Integer::from(-1));

    let mut serializer = Serializer::new();
    serializer.serialize(&val).expect("Serialize failed");
    assert_eq!(serializer.serialized_bytes(), bytes);
}

#[test]
fn test_integer_large() {
    let bytes = vec![0x02, 0x08, 0x01, 0x02, 0x03, 0x04, 0x05, 0x06, 0x07, 0x08];
    let val = ASN1Integer::from_der_bytes(&bytes).expect("Parse failed");

    let expected = BigInt::parse_bytes(b"0102030405060708", 16).unwrap();
    assert_eq!(val, ASN1Integer::from_bigint(expected));

    let mut serializer = Serializer::new();
    serializer.serialize(&val).expect("Serialize failed");
    assert_eq!(serializer.serialized_bytes(), bytes);
}

#[test]
fn test_octet_string() {
    let mut bytes = vec![0x04, 0x0B];
    bytes.extend_from_slice(b"Hello World");
    let val = ASN1OctetString::from_der_bytes(&bytes).expect("Parse failed");
    assert_eq!(val.0, "Hello World".as_bytes());

    let mut serializer = Serializer::new();
    serializer.serialize(&val).expect("Serialize failed");
    assert_eq!(serializer.serialized_bytes(), bytes);
}

#[test]
fn test_octet_string_empty() {
    let bytes = vec![0x04, 0x00];
    let val = ASN1OctetString::from_der_bytes(&bytes).expect("Parse failed");
    assert_eq!(val.0, "".as_bytes());

    let mut serializer = Serializer::new();
    serializer.serialize(&val).expect("Serialize failed");
    assert_eq!(serializer.serialized_bytes(), bytes);
}

#[test]
fn test_oid() {
    let bytes = vec![0x06, 0x09, 0x2A, 0x86, 0x48, 0x86, 0xF7, 0x0D, 0x01, 0x01, 0x0B];
    let val = ASN1ObjectIdentifier::from_der_bytes(&bytes).expect("Parse failed");
    let components = val.oid_components().expect("Failed to get components");
    assert_eq!(components, vec![1, 2, 840, 113549, 1, 1, 11]);

    let mut serializer = Serializer::new();
    serializer.serialize(&val).expect("Serialize failed");
    assert_eq!(serializer.serialized_bytes(), bytes);
}

#[test]
fn test_generalized_time() {
    let mut bytes = vec![0x18, 0x0F];
    bytes.extend_from_slice(b"20230101120000Z");
    let val = GeneralizedTime::from_der_bytes(&bytes).expect("Parse failed");

    let expected = GeneralizedTime::new(2023, 1, 1, 12, 0, 0).unwrap();
    assert_eq!(val, expected);

    let mut serializer = Serializer::new();
    serializer.serialize(&val).expect("Serialize failed");
    assert_eq!(serializer.serialized_bytes(), bytes);
}

#[test]
fn test_utc_time() {
    let mut bytes = vec![0x17, 0x0D];
    bytes.extend_from_slice(b"230101120000Z");
    let val = UTCTime::from_der_bytes(&bytes).expect("Parse failed");

    let expected = UTCTime::new(2023, 1, 1, 12, 0, 0).unwrap();
    assert_eq!(val, expected);

    let mut serializer = Serializer::new();
    serializer.serialize(&val).expect("Serialize failed");
    assert_eq!(serializer.serialized_bytes(), bytes);
}

#[test]
fn test_null() {
    let bytes = vec![0x05, 0x00];
    let val = ASN1Null::from_der_bytes(&bytes).expect("Parse failed");
    assert_eq!(val, ASN1Null);

    let mut serializer = Serializer::new();
    serializer.serialize(&val).expect("Serialize failed");
    assert_eq!(serializer.serialized_bytes(), bytes);
}

#[test]
fn test_bit_string() {
    // BIT STRING of eleven ASCII octets with no unused bits.
    let mut bytes = vec![0x03, 0x0C, 0x00];
    bytes.extend_from_slice(b"0A3B5F291CD");
    let val = ASN1BitString::from_der_bytes(&bytes).expect("Parse failed");
    assert_eq!(val.padding_bits, 0);
    assert_eq!(val.bytes.len(), 11);

    let mut serializer = Serializer::new();
    serializer.serialize(&val).expect("Serialize failed");
    assert_eq!(serializer.serialized_bytes(), bytes);
}

#[test]
fn test_utf8_string() {
    let mut bytes = vec![0x0C, 0x0A];
    bytes.extend_from_slice(b"Hello UTF8");
    let val = ASN1UTF8String::from_der_bytes(&bytes).expect("Parse failed");
    assert_eq!(val.0, "Hello UTF8");

    let mut serializer = Serializer::new();
    serializer.serialize(&val).expect("Serialize failed");
    assert_eq!(serializer.serialized_bytes(), bytes);
}

#[test]
fn test_printable_string() {
    let mut bytes = vec![0x13, 0x0F];
    bytes.extend_from_slice(b"Hello Printable");
    let val = ASN1PrintableString::from_der_bytes(&bytes).expect("Parse failed");
    assert_eq!(val.0, "Hello Printable");

    let mut serializer = Serializer::new();
    serializer.serialize(&val).expect("Serialize failed");
    assert_eq!(serializer.serialized_bytes(), bytes);
}

#[test]
fn test_ia5_string() {
    let mut bytes = vec![0x16, 0x09];
    bytes.extend_from_slice(b"Hello IA5");
    let val = ASN1IA5String::from_der_bytes(&bytes).expect("Parse failed");
    assert_eq!(val.0, "Hello IA5");

    let mut serializer = Serializer::new();
    serializer.serialize(&val).expect("Serialize failed");
    assert_eq!(serializer.serialized_bytes(), bytes);
}

#[test]
fn test_numeric_string() {
    let mut bytes = vec![0x12, 0x0A];
    bytes.extend_from_slice(b"1234567890");
    let val = ASN1NumericString::from_der_bytes(&bytes).expect("Parse failed");
    assert_eq!(val.0, "1234567890");

    let mut serializer = Serializer::new();
    serializer.serialize(&val).expect("Serialize failed");
    assert_eq!(serializer.serialized_bytes(), bytes);
}
