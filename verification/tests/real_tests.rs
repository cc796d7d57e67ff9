use rust_asn1::asn1_types::ASN1Real;
use rust_asn1::der;
use rust_asn1::der::{DERParseable, DERSerializable, Serializer};

#[test]
fn test_real_zero() {
    let real = ASN1Real::Zero;
    let mut serializer = Serializer::new();
    real.serialize(&mut serializer).unwrap();
    assert_eq!(serializer.serialized_bytes(), vec![0x09, 0x00]);
}

#[test]
fn test_real_infinity() {
    let pos_inf = ASN1Real::PositiveInfinity;
    let neg_inf = ASN1Real::NegativeInfinity;
    let mut serializer = Serializer::new();
    pos_inf.serialize(&mut serializer).unwrap();
    neg_inf.serialize(&mut serializer).unwrap();
    assert_eq!(
        serializer.serialized_bytes(),
        vec![0x09, 0x01, 0x40, 0x09, 0x01, 0x41]
    );
}

#[test]
fn test_real_binary_round_trip() {
    // 1.5 = +0b11 * 2^-1: sign positive, exponent -1, mantissa 3.
    let value = ASN1Real::Binary { negative: false, exponent: -1, mantissa: 3 };
    let mut serializer = Serializer::new();
    value.serialize(&mut serializer).unwrap();
    let bytes = serializer.serialized_bytes();
    assert_eq!(bytes, vec![0x09, 0x0A, 0x80, 0xFF, 0x00, 0x00, 0x00, 0x00, 0x00, 0x00, 0x00, 0x03]);

    let node = der::parse(bytes.as_ref()).unwrap();
    let back = ASN1Real::from_der_node(node).unwrap();
    match back {
        ASN1Real::Binary { negative, exponent, mantissa } => {
            assert!(!negative);
            assert_eq!(exponent, -1);
            assert_eq!(mantissa, 3);
        },
        _ => panic!("expected a binary real"),
    }
}

#[test]
fn test_real_decode_special_values() {
    let node = der::parse(&[0x09, 0x00]).unwrap();
    assert_eq!(ASN1Real::from_der_node(node).unwrap(), ASN1Real::Zero);

    let node = der::parse(&[0x09, 0x01, 0x40]).unwrap();
    assert_eq!(ASN1Real::from_der_node(node).unwrap(), ASN1Real::PositiveInfinity);

    let node = der::parse(&[0x09, 0x01, 0x41]).unwrap();
    assert_eq!(ASN1Real::from_der_node(node).unwrap(), ASN1Real::NegativeInfinity);

    // Decimal form is out of scope.
    let node = der::parse(&[0x09, 0x02, 0x03, 0x31]).unwrap();
    assert!(ASN1Real::from_der_node(node).is_err());

    // Binary form shorter than its exponent-length field claims.
    let node = der::parse(&[0x09, 0x01, 0x83]).unwrap();
    assert!(ASN1Real::from_der_node(node).is_err());
}
