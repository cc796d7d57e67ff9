use bytes::Bytes;
use rust_asn1::asn1::{ASN1Node, Content};
use rust_asn1::asn1_types::{ASN1Identifier, ASN1Integer, TagClass};
use rust_asn1::der::{
    encode_length, parse, sequence, sequence_of, write_asn1_discipline_uint, DERParseable,
    IdentfierWriter, Serializer,
};
use rust_asn1::errors::{ASN1Error, ErrorCode};
use num_traits::ToPrimitive;

#[derive(Debug, Clone, Copy, PartialEq, Eq)]
struct Dummy(u8);

impl DERParseable for Dummy {
    fn from_der_node(node: ASN1Node) -> Result<Self, ASN1Error> {
        match node.content {
            Content::Primitive(bytes) => Ok(Dummy(bytes[0])),
            _ => Err(ASN1Error::new(
                ErrorCode::UnexpectedFieldType,
                "".to_string(),
                "".to_string(),
                0,
            )),
        }
    }
}

#[test]
fn test_der_sequence_unconsumed() {
    let data = vec![0x30, 0x03, 0x02, 0x01, 0x01];
    let node = parse(&data).unwrap();

    let res: Result<(), _> = sequence(node, ASN1Identifier::sequence(), |iter| Ok(((), iter)));

    assert!(res.is_err());
}

#[test]
fn test_der_sequence_mismatch_identifier() {
    let data = vec![0x30, 0x00];
    let node = parse(&data).unwrap();

    let res: Result<(), _> = sequence(node, ASN1Identifier::set_type(), |iter| Ok(((), iter)));

    assert!(res.is_err());
}

#[test]
fn test_der_sequence_of_mismatch() {
    let data = vec![0x30, 0x00];
    let node = parse(&data).unwrap();
    let res = sequence_of::<ASN1Integer>(ASN1Identifier::set_type(), node);
    assert!(res.is_err());
}

#[test]
fn test_der_sequence_of_success() {
    // SEQUENCE { INTEGER 1, INTEGER 2 }
    let data = vec![0x30, 0x06, 0x02, 0x01, 0x01, 0x02, 0x01, 0x02];
    let node = parse(&data).unwrap();
    let values = sequence_of::<ASN1Integer>(ASN1Identifier::sequence(), node).unwrap();
    let numbers: Vec<i64> = values
        .into_iter()
        .map(|v| v.value.to_i64().unwrap())
        .collect();
    assert_eq!(numbers, vec![1, 2]);
}

#[test]
fn test_identifier_writing_edge_cases() {
    let mut buf = Vec::new();
    // Tag 31 requires long form because 31 is the long-form marker.
    let id = ASN1Identifier::new(31, TagClass::ContextSpecific);

    buf.write_identifier(id, false);
    assert_eq!(buf, vec![0x9F, 0x1F]);

    buf.clear();
    buf.write_identifier(id, true);
    assert_eq!(buf, vec![0xBF, 0x1F]);
}

#[test]
fn test_der_from_der_iterator_empty_error() {
    let data = vec![0x30, 0x00];
    let node = parse(&data).unwrap();
    let res: Result<(), _> = sequence(node, ASN1Identifier::sequence(), |mut iter| {
        let _ = Dummy::from_der_iterator(&mut iter)?;
        Ok(((), iter))
    });
    assert!(res.is_err());
}

#[test]
fn test_der_sequence_non_constructed_error() {
    let node = ASN1Node {
        identifier: ASN1Identifier::sequence(),
        content: Content::Primitive(Bytes::from_static(&[])),
        encoded_bytes: Bytes::new(),
    };
    let res: Result<(), _> = sequence(node, ASN1Identifier::sequence(), |iter| Ok(((), iter)));
    assert!(res.is_err());
}

#[test]
fn test_der_sequence_of_non_constructed_error() {
    let node = ASN1Node {
        identifier: ASN1Identifier::sequence(),
        content: Content::Primitive(Bytes::from_static(&[])),
        encoded_bytes: Bytes::new(),
    };
    let res = sequence_of::<ASN1Integer>(ASN1Identifier::sequence(), node);
    assert!(res.is_err());
}

#[test]
fn test_identifier_writing_short_constructed() {
    let mut buf = Vec::new();
    buf.write_identifier(ASN1Identifier::boolean(), true);
    assert_eq!(buf, vec![0x21]);
}

#[test]
fn test_write_asn1_discipline_uint_zero() {
    let mut buf = Vec::new();
    write_asn1_discipline_uint(&mut buf, 0);
    assert_eq!(buf, vec![0x00]);
}

#[test]
fn test_encode_length_long_form_128() {
    let mut serializer = Serializer::new();
    serializer
        .append_primitive_node(ASN1Identifier::octet_string(), |mut buf| {
            buf.extend_from_slice(&vec![0u8; 128]);
            Ok(buf)
        })
        .unwrap();
    let out = serializer.serialized_bytes();
    assert_eq!(out[0], 0x04);
    assert_eq!(out[1], 0x81);
    assert_eq!(out[2], 0x80);
}

#[test]
fn test_encode_length_long_form_256() {
    let mut serializer = Serializer::new();
    serializer
        .append_primitive_node(ASN1Identifier::octet_string(), |mut buf| {
            buf.extend_from_slice(&vec![0u8; 256]);
            Ok(buf)
        })
        .unwrap();
    let out = serializer.serialized_bytes();
    assert_eq!(out[0], 0x04);
    assert_eq!(out[1], 0x82);
    assert_eq!(out[2], 0x01);
    assert_eq!(out[3], 0x00);
}

#[test]
fn test_encode_length_long_form_large_value() {
    let encoded = encode_length(0x012345);
    assert_eq!(encoded, vec![0x83, 0x01, 0x23, 0x45]);
    assert_eq!(encoded[0] & 0x80, 0x80, "long-form indicator bit must be set");
}

#[test]
fn test_write_large_tag() {
    // Tag 128 (Universal)
    let mut buf = Vec::new();
    let id = ASN1Identifier::new(128, TagClass::Universal);
    buf.write_identifier(id, false);
    assert_eq!(buf, vec![0x1F, 0x81, 0x00]);
}

#[test]
fn test_der_serializer_append() {
    let mut serializer = Serializer::new();
    serializer
        .append_primitive_node(ASN1Identifier::integer(), |buf| Ok(buf))
        .unwrap();
    assert_eq!(serializer.serialized_bytes(), vec![0x02, 0x00]);
}

#[test]
fn test_bool_primitive_roundtrip() {
    let bytes = vec![0x01, 0x01, 0xFF];
    let node = parse(&bytes).unwrap();
    let value = bool::from_der_node(node).unwrap();
    assert!(value);

    let mut serializer = Serializer::new();
    serializer.serialize(&value).unwrap();
    assert_eq!(serializer.serialized_bytes(), bytes);
}

#[test]
fn test_string_roundtrip() {
    let bytes = vec![0x0C, 0x02, b'H', b'I'];
    let node = parse(&bytes).unwrap();
    let value = String::from_der_node(node).unwrap();
    assert_eq!(value, "HI");

    let mut serializer = Serializer::new();
    serializer.serialize(&value).unwrap();
    assert_eq!(serializer.serialized_bytes(), bytes);
}

#[test]
fn test_signed_integer_roundtrip() {
    let bytes = vec![0x02, 0x01, 0x7F];
    let node = parse(&bytes).unwrap();
    let value = i32::from_der_node(node).unwrap();
    assert_eq!(value, 127);

    let mut serializer = Serializer::new();
    serializer.serialize(&value).unwrap();
    assert_eq!(serializer.serialized_bytes(), bytes);
}

#[test]
fn test_unsigned_integer_roundtrip() {
    let bytes = vec![0x02, 0x02, 0x00, 0x80];
    let node = parse(&bytes).unwrap();
    let value = u16::from_der_node(node).unwrap();
    assert_eq!(value, 128);

    let mut serializer = Serializer::new();
    serializer.serialize(&value).unwrap();
    assert_eq!(serializer.serialized_bytes(), bytes);
}

#[test]
fn test_vec_der_roundtrip() {
    let bytes = vec![0x30, 0x06, 0x02, 0x01, 0x01, 0x02, 0x01, 0x02];
    let node = parse(&bytes).unwrap();
    let values = Vec::<i64>::from_der_node(node).unwrap();
    assert_eq!(values, vec![1, 2]);

    let mut serializer = Serializer::new();
    serializer.serialize(&values).unwrap();
    assert_eq!(serializer.serialized_bytes(), bytes);
}

#[test]
fn test_option_absent_and_present() {
    fn parse_optional(bytes: &[u8]) -> Result<Option<bool>, ASN1Error> {
        let node = parse(bytes)?;
        sequence(node, ASN1Identifier::sequence(), |mut iter| {
            let _: i64 = <i64 as DERParseable>::from_der_iterator(&mut iter)?;
            let opt = Option::<bool>::from_der_iterator(&mut iter)?;
            Ok((opt, iter))
        })
    }

    let absent = vec![0x30, 0x03, 0x02, 0x01, 0x01];
    assert!(parse_optional(&absent).unwrap().is_none());

    let present = vec![0x30, 0x06, 0x02, 0x01, 0x01, 0x01, 0x01, 0xFF];
    assert_eq!(parse_optional(&present).unwrap(), Some(true));
}

#[test]
fn test_serializer_write_sequence_helper() {
    let mut serializer = Serializer::new();
    serializer
        .write_sequence(|mut seq| {
            seq.serialize(&ASN1Integer::from(5))?;
            seq.serialize(&true)?;
            Ok(seq)
        })
        .unwrap();

    assert_eq!(
        serializer.serialized_bytes(),
        vec![0x30, 0x06, 0x02, 0x01, 0x05, 0x01, 0x01, 0xFF]
    );
}
