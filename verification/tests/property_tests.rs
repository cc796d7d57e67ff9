use bytes::Bytes;
use rust_asn1::asn1::{EncodingRules, ParseResult};
use rust_asn1::asn1_types::{
    ASN1BitString, ASN1Identifier, ASN1Integer, ASN1ObjectIdentifier, ASN1OctetString,
    ASN1PrintableString, ASN1UTF8String, GeneralizedTime, UTCTime,
};
use rust_asn1::ber;
use rust_asn1::ber::BERParseable;
use rust_asn1::der;
use rust_asn1::der::{sequence, DERParseable, IdentfierWriter, Serializer};
use rust_asn1::errors::ErrorCode;
use num_traits::ToPrimitive;

/// Re-encoding a decoded DER value reproduces the input, for every domain
/// type.
#[test]
fn test_der_round_trips_reproduce_input() {
    let inputs: Vec<Vec<u8>> = vec![
        vec![0x01, 0x01, 0xFF],
        vec![0x01, 0x01, 0x00],
        vec![0x02, 0x01, 0x7F],
        vec![0x02, 0x02, 0x00, 0x80],
        vec![0x02, 0x01, 0x80],
        vec![0x02, 0x03, 0x01, 0x00, 0x01],
        vec![0x05, 0x00],
        vec![0x04, 0x03, 0x01, 0x02, 0x03],
        vec![0x06, 0x09, 0x2A, 0x86, 0x48, 0x86, 0xF7, 0x0D, 0x01, 0x01, 0x0B],
        vec![0x03, 0x02, 0x01, 0x02],
        vec![0x0C, 0x02, 0xC3, 0xA9],
        vec![0x13, 0x02, 0x41, 0x42],
    ];
    for input in inputs {
        let node = der::parse(&input).unwrap();
        let mut serializer = Serializer::new();
        match input[0] {
            0x01 => serializer.serialize(&bool::from_der_node(node).unwrap()).unwrap(),
            0x02 => serializer.serialize(&ASN1Integer::from_der_node(node).unwrap()).unwrap(),
            0x04 => serializer.serialize(&ASN1OctetString::from_der_node(node).unwrap()).unwrap(),
            0x05 => serializer
                .serialize(&rust_asn1::asn1_types::ASN1Null::from_der_node(node).unwrap())
                .unwrap(),
            0x06 => serializer
                .serialize(&ASN1ObjectIdentifier::from_der_node(node).unwrap())
                .unwrap(),
            0x03 => serializer.serialize(&ASN1BitString::from_der_node(node).unwrap()).unwrap(),
            0x0C => serializer.serialize(&ASN1UTF8String::from_der_node(node).unwrap()).unwrap(),
            0x13 => serializer
                .serialize(&ASN1PrintableString::from_der_node(node).unwrap())
                .unwrap(),
            _ => unreachable!(),
        }
        assert_eq!(serializer.serialized_bytes().as_ref(), input.as_slice());
    }
}

/// Decoding an encoded value gives the value back, for constructible
/// values of several domain types.
#[test]
fn test_encode_then_decode_gives_value_back() {
    let i = ASN1Integer::from(-129);
    let mut s = Serializer::new();
    s.serialize(&i).unwrap();
    let node = der::parse(s.serialized_bytes().as_ref()).unwrap();
    assert_eq!(ASN1Integer::from_der_node(node).unwrap(), i);

    let gt = GeneralizedTime::new(1999, 12, 31, 23, 59, 59).unwrap();
    let mut s = Serializer::new();
    s.serialize(&gt).unwrap();
    let node = der::parse(s.serialized_bytes().as_ref()).unwrap();
    assert_eq!(GeneralizedTime::from_der_node(node).unwrap(), gt);

    let ut = UTCTime::new(1950, 1, 2, 3, 4, 5).unwrap();
    let mut s = Serializer::new();
    s.serialize(&ut).unwrap();
    let node = der::parse(s.serialized_bytes().as_ref()).unwrap();
    assert_eq!(UTCTime::from_der_node(node).unwrap(), ut);

    let os = ASN1OctetString::from_vec(vec![9, 8, 7]);
    let mut s = Serializer::new();
    s.serialize(&os).unwrap();
    let node = der::parse(s.serialized_bytes().as_ref()).unwrap();
    assert_eq!(ASN1OctetString::from_der_node(node).unwrap().0, os.0);
}

/// Anything DER-valid is BER-valid with the same value.
#[test]
fn test_ber_accepts_der_valid_input_with_same_value() {
    let inputs: Vec<Vec<u8>> = vec![
        vec![0x02, 0x01, 0x2A],
        vec![0x02, 0x02, 0xFF, 0x7F],
        vec![0x01, 0x01, 0xFF],
        vec![0x04, 0x02, 0xAB, 0xCD],
    ];
    for input in inputs {
        match input[0] {
            0x02 => {
                let d = ASN1Integer::from_der_node(der::parse(&input).unwrap()).unwrap();
                let b = ASN1Integer::from_ber_node(ber::parse(&input).unwrap()).unwrap();
                assert_eq!(d, b);
            },
            0x01 => {
                let d = bool::from_der_node(der::parse(&input).unwrap()).unwrap();
                let b = rust_asn1::asn1_types::ASN1Boolean::from_ber_node(
                    ber::parse(&input).unwrap(),
                )
                .unwrap();
                assert_eq!(d, b.0);
            },
            0x04 => {
                let d = ASN1OctetString::from_der_node(der::parse(&input).unwrap()).unwrap();
                let b = ASN1OctetString::from_ber_node(ber::parse(&input).unwrap()).unwrap();
                assert_eq!(d.0, b.0);
            },
            _ => unreachable!(),
        }
    }
}

/// For every value below 128, the two-octet long form is rejected under
/// DER and read as that value under BER.
#[test]
fn test_nonminimal_length_all_small_values() {
    for n in 0u8..128 {
        let data = vec![0x04, 0x81, n];
        let mut full = data.clone();
        full.extend(std::iter::repeat(0xAB).take(n as usize));
        let der_res = ParseResult::parse(Bytes::from(full.clone()), EncodingRules::Distinguished);
        assert!(der_res.is_err(), "DER must reject 0x81 {:02X}", n);
        assert_eq!(der_res.unwrap_err().code(), ErrorCode::UnsupportedFieldLength);

        let ber_res = ParseResult::parse(Bytes::from(full), EncodingRules::Basic);
        assert!(ber_res.is_ok(), "BER must accept 0x81 {:02X}", n);
    }
}

/// An input DER accepts, BER parses to the very same nodes.
#[test]
fn test_der_accepted_parses_same_under_ber() {
    let inputs: Vec<Vec<u8>> = vec![
        vec![0x02, 0x01, 0x2A],
        vec![0x30, 0x06, 0x02, 0x01, 0x01, 0x02, 0x01, 0x02],
        vec![0x30, 0x03, 0x04, 0x01, 0xFF],
        vec![0x05, 0x00],
    ];
    for input in inputs {
        let der = ParseResult::parse(Bytes::from(input.clone()), EncodingRules::Distinguished)
            .unwrap();
        let ber = ParseResult::parse(Bytes::from(input), EncodingRules::Basic).unwrap();
        assert_eq!(der.nodes.len(), ber.nodes.len());
        for (d, b) in der.nodes.iter().zip(ber.nodes.iter()) {
            assert_eq!(d.identifier, b.identifier);
            assert_eq!(d.depth, b.depth);
            assert_eq!(d.is_constructed, b.is_constructed);
            assert_eq!(d.encoded_bytes.as_ref(), b.encoded_bytes.as_ref());
            assert_eq!(
                d.data_bytes.as_ref().map(|x| x.as_ref().to_vec()),
                b.data_bytes.as_ref().map(|x| x.as_ref().to_vec())
            );
        }
    }
}

/// An indefinite length octet is always rejected under DER.
#[test]
fn test_indefinite_rejected_under_der() {
    let inputs: Vec<Vec<u8>> = vec![
        vec![0x30, 0x80, 0x00, 0x00],
        vec![0x30, 0x80, 0x02, 0x01, 0x00, 0x00, 0x00],
        vec![0x24, 0x80, 0x04, 0x01, 0x41, 0x00, 0x00],
    ];
    for input in inputs {
        let res = ParseResult::parse(Bytes::from(input), EncodingRules::Distinguished);
        assert_eq!(res.unwrap_err().code(), ErrorCode::UnsupportedFieldLength);
    }
}

/// Nested indefinite sequences decode up to depth 49 and fail from 50 on.
#[test]
fn test_depth_window() {
    for k in 1..=52usize {
        let mut data = Vec::new();
        for _ in 0..k {
            data.push(0x30);
            data.push(0x80);
        }
        for _ in 0..k {
            data.push(0x00);
            data.push(0x00);
        }
        let res = ParseResult::parse(Bytes::from(data), EncodingRules::Basic);
        if k <= 49 {
            assert!(res.is_ok(), "depth {} should decode", k);
        } else {
            let err = res.unwrap_err();
            assert_eq!(err.code(), ErrorCode::InvalidASN1Object, "depth {}", k);
        }
    }
}

/// Round trips on a spread of object identifiers.
#[test]
fn test_oid_round_trips() {
    let cases: Vec<Vec<u64>> = vec![
        vec![0, 0],
        vec![0, 39],
        vec![1, 39],
        vec![2, 39],
        vec![2, 5, 999, 3],
        vec![1, 2, 840, 113549, 1, 1, 11],
        vec![2, 16, 840, 1, 101, 3, 4, 2, 1],
        vec![1, 3, u64::MAX / 2],
    ];
    for cs in cases {
        let oid = ASN1ObjectIdentifier::new(&cs).unwrap();
        let mut s = Serializer::new();
        s.serialize(&oid).unwrap();
        let node = der::parse(s.serialized_bytes().as_ref()).unwrap();
        let back = ASN1ObjectIdentifier::from_der_node(node).unwrap();
        assert_eq!(back.oid_components().unwrap(), cs, "oid {:?}", cs);
    }

    // With a second component past 39 the folded sub-identifier no longer
    // splits back by plain division; the octets still round-trip, and the
    // recomputed components follow the division as the reader defines it.
    let oid = ASN1ObjectIdentifier::new(&[2, 100]).unwrap();
    let mut s = Serializer::new();
    s.serialize(&oid).unwrap();
    let bytes_out = s.serialized_bytes();
    let node = der::parse(bytes_out.as_ref()).unwrap();
    let back = ASN1ObjectIdentifier::from_der_node(node).unwrap();
    let mut s2 = Serializer::new();
    s2.serialize(&back).unwrap();
    assert_eq!(s2.serialized_bytes(), bytes_out);
    assert_eq!(back.oid_components().unwrap(), vec![4, 20]);
}

/// DER rejects a redundant leading zero octet on INTEGER.
#[test]
fn test_der_rejects_redundant_integer_zero() {
    let res = ASN1Integer::from_der_bytes(&[0x02, 0x02, 0x00, 0x7F]);
    assert_eq!(res.unwrap_err().code(), ErrorCode::InvalidASN1IntegerEncoding);

    let val = ASN1Integer::from_der_bytes(&[0x02, 0x01, 0x7F]).unwrap();
    assert_eq!(val.value.to_i64().unwrap(), 127);
}

/// DER rejects the non-minimal length form that BER reads as zero.
#[test]
fn test_nonminimal_length_der_vs_ber() {
    let input = [0x02, 0x81, 0x01, 0x00];
    let res = ASN1Integer::from_der_bytes(&input);
    assert_eq!(res.unwrap_err().code(), ErrorCode::UnsupportedFieldLength);

    let node = ber::parse(&input).unwrap();
    let val = ASN1Integer::from_ber_node(node).unwrap();
    assert_eq!(val.value.to_i64().unwrap(), 0);
}

/// A length of 128 needs the long form, which DER accepts.
#[test]
fn test_length_128_long_form() {
    let mut input = vec![0x04, 0x81, 0x80];
    input.extend(std::iter::repeat(0x00).take(128));
    let val = ASN1OctetString::from_der_bytes(&input).unwrap();
    assert_eq!(val.0.len(), 128);
    assert!(val.0.as_ref().iter().all(|b| *b == 0));
}

/// An indefinite constructed SEQUENCE closes at its end-of-content marker
/// under BER and is rejected under DER.
#[test]
fn test_indefinite_constructed_end_of_content() {
    let input = [0x30, 0x80, 0x02, 0x01, 0x00, 0x00, 0x00];

    let node = ber::parse(&input).unwrap();
    let values = ber::sequence(node, ASN1Identifier::sequence(), |mut iter| {
        let v = ASN1Integer::from_ber_iterator(&mut iter)?;
        Ok((v, iter))
    })
    .unwrap();
    assert_eq!(values.value.to_i64().unwrap(), 0);

    let res = der::parse(&input);
    assert_eq!(res.unwrap_err().code(), ErrorCode::UnsupportedFieldLength);
}

/// Unused bits of a DER BIT STRING must be zero.
#[test]
fn test_bit_string_unused_bits_scenario() {
    let res = ASN1BitString::from_der_bytes(&[0x03, 0x02, 0x01, 0x01]);
    assert!(res.is_err());

    let val = ASN1BitString::from_der_bytes(&[0x03, 0x02, 0x01, 0x02]).unwrap();
    assert_eq!(val.bytes.as_ref(), &[0x02]);
    assert_eq!(val.padding_bits, 1);
}

/// The long-form tag number boundary sits at 31.
#[test]
fn test_long_form_tag_boundary() {
    let res = ParseResult::parse(Bytes::from(vec![0x1F, 0x1E, 0x00]), EncodingRules::Distinguished);
    assert_eq!(res.unwrap_err().code(), ErrorCode::InvalidASN1Object);

    let res = ParseResult::parse(Bytes::from(vec![0x1F, 0x1F, 0x00]), EncodingRules::Distinguished);
    assert!(res.is_ok());
}

/// The reference object identifier maps both ways between its encoding
/// and its components.
#[test]
fn test_oid_reference_vector() {
    let bytes = [0x06, 0x09, 0x2A, 0x86, 0x48, 0x86, 0xF7, 0x0D, 0x01, 0x01, 0x0B];
    let components = [1u64, 2, 840, 113549, 1, 1, 11];

    let oid = ASN1ObjectIdentifier::from_der_bytes(&bytes).unwrap();
    assert_eq!(oid.oid_components().unwrap(), components);

    let built = ASN1ObjectIdentifier::new(&components).unwrap();
    let mut s = Serializer::new();
    s.serialize(&built).unwrap();
    assert_eq!(s.serialized_bytes().as_ref(), bytes.as_slice());
}

/// OPTIONAL fields: absent and present, in a two-field schema.
#[test]
fn test_optional_absent_vs_present() {
    fn decode(bytes: &[u8]) -> (i64, Option<bool>) {
        let node = der::parse(bytes).unwrap();
        sequence(node, ASN1Identifier::sequence(), |mut iter| {
            let i = <i64 as DERParseable>::from_der_iterator(&mut iter)?;
            let b = Option::<bool>::from_der_iterator(&mut iter)?;
            Ok(((i, b), iter))
        })
        .unwrap()
    }

    assert_eq!(decode(&[0x30, 0x03, 0x02, 0x01, 0x01]), (1, None));
    assert_eq!(
        decode(&[0x30, 0x06, 0x02, 0x01, 0x01, 0x01, 0x01, 0xFF]),
        (1, Some(true))
    );
}

/// Each error kind arises from an input that provokes it.
#[test]
fn test_error_variants_have_witnesses() {
    // UnexpectedFieldType
    let node = der::parse(&[0x02, 0x01, 0x00]).unwrap();
    assert_eq!(
        rust_asn1::asn1_types::ASN1Boolean::from_der_node(node).unwrap_err().code(),
        ErrorCode::UnexpectedFieldType
    );
    // InvalidASN1Object
    assert_eq!(
        der::parse(&[0x02, 0x01, 0x00, 0xFF]).unwrap_err().code(),
        ErrorCode::InvalidASN1Object
    );
    // InvalidASN1IntegerEncoding
    assert_eq!(
        ASN1Integer::from_der_bytes(&[0x02, 0x02, 0xFF, 0x80]).unwrap_err().code(),
        ErrorCode::InvalidASN1IntegerEncoding
    );
    // TruncatedASN1Field
    assert_eq!(
        der::parse(&[0x02, 0x05, 0x00]).unwrap_err().code(),
        ErrorCode::TruncatedASN1Field
    );
    // UnsupportedFieldLength
    assert_eq!(
        der::parse(&[0x30, 0x80, 0x00, 0x00]).unwrap_err().code(),
        ErrorCode::UnsupportedFieldLength
    );
    // InvalidStringRepresentation
    assert_eq!(
        ASN1UTF8String::from_der_bytes(&[0x0C, 0x01, 0xFF]).unwrap_err().code(),
        ErrorCode::InvalidStringRepresentation
    );
    // TooFewOIDComponents
    assert_eq!(
        ASN1ObjectIdentifier::new(&[1]).unwrap_err().code(),
        ErrorCode::TooFewOIDComponents
    );
    // ValueOutOfRange
    assert_eq!(
        u8::from_der_bytes(&[0x02, 0x02, 0x01, 0x00]).unwrap_err().code(),
        ErrorCode::ValueOutOfRange
    );
}

/// The integer content really flows through the arbitrary-precision
/// reader: the decoded value reflects the octets, not the input handed
/// back unchanged.
#[test]
fn test_integer_value_reflects_bytes() {
    let val = ASN1Integer::from_der_bytes(&[0x02, 0x02, 0x01, 0x00]).unwrap();
    assert_eq!(val.value.to_i64().unwrap(), 256);
    let val = ASN1Integer::from_der_bytes(&[0x02, 0x01, 0x80]).unwrap();
    assert_eq!(val.value.to_i64().unwrap(), -128);
    let mut s = Serializer::new();
    s.serialize(&ASN1Integer::from(256)).unwrap();
    assert_eq!(s.serialized_bytes(), vec![0x02, 0x02, 0x01, 0x00].as_slice());
}

/// Narrowing bridges accept exactly the values inside the target range.
#[test]
fn test_integer_bridge_bounds() {
    assert_eq!(i8::from_der_bytes(&[0x02, 0x01, 0x80]).unwrap(), -128);
    assert!(i8::from_der_bytes(&[0x02, 0x02, 0x00, 0x80]).is_err());
    assert_eq!(u8::from_der_bytes(&[0x02, 0x02, 0x00, 0xFF]).unwrap(), 255);
    assert!(u8::from_der_bytes(&[0x02, 0x01, 0xFF]).is_err());
    assert_eq!(
        u64::from_der_bytes(&[0x02, 0x09, 0x00, 0xFF, 0xFF, 0xFF, 0xFF, 0xFF, 0xFF, 0xFF, 0xFF])
            .unwrap(),
        u64::MAX
    );
    assert_eq!(i64::from_der_bytes(&[0x02, 0x01, 0xFF]).unwrap(), -1);
}

/// UTCTime years map through the fifty-year window in both directions.
#[test]
fn test_utc_time_window() {
    let mut bytes = vec![0x17, 0x0D];
    bytes.extend_from_slice(b"500101000000Z");
    let v = UTCTime::from_der_bytes(&bytes).unwrap();
    assert_eq!(v.year, 1950);

    let mut bytes = vec![0x17, 0x0D];
    bytes.extend_from_slice(b"491231235959Z");
    let v = UTCTime::from_der_bytes(&bytes).unwrap();
    assert_eq!(v.year, 2049);
}

/// The plain tag-number reader accepts a non-canonical base-128 tag
/// encoding (the leading-zero rule applies only to OID sub-identifiers),
/// so re-encoding such a node canonicalizes its identifier octets: this is
/// the one family of accepted inputs whose bytes do not round-trip.
#[test]
fn test_noncanonical_long_form_tag_reencodes_canonically() {
    // Tag number 16383 encoded with a redundant leading 0x80 octet.
    let input = [0x1F, 0x80, 0xFF, 0x7F, 0x00];
    let node = der::parse(&input).unwrap();
    assert_eq!(node.identifier.tag_number, 16383);

    let mut canonical = Vec::new();
    canonical.write_identifier(node.identifier, false);
    assert_eq!(canonical, vec![0x1F, 0xFF, 0x7F]);
    assert_ne!(&input[..3], canonical.as_slice());
}
