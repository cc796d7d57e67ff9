use rust_asn1::asn1::{ASN1Node, Content};
use rust_asn1::asn1_types::{ASN1Boolean, ASN1Identifier};
use rust_asn1::ber;
use rust_asn1::ber::{BERImplicitlyTaggable, BERParseable, BERSerializable};
use rust_asn1::der::{DERImplicitlyTaggable, DERParseable, DERSerializable, Serializer};
use rust_asn1::errors::{ASN1Error, ErrorCode};

#[test]
fn test_ber_boolean_lax() {
    // Length 1, value 0x01: true in BER although not the DER 0xFF.
    let data = vec![0x01, 0x01, 0x01];
    let node = ber::parse(&data).unwrap();
    let b = ASN1Boolean::from_ber_node(node).unwrap();
    assert_eq!(b.0, true);

    let data2 = vec![0x01, 0x01, 0x00];
    let node2 = ber::parse(&data2).unwrap();
    let b2 = ASN1Boolean::from_ber_node(node2).unwrap();
    assert_eq!(b2.0, false);

    let data3 = vec![0x01, 0x01, 0xFF];
    let node3 = ber::parse(&data3).unwrap();
    let b3 = ASN1Boolean::from_ber_node(node3).unwrap();
    assert_eq!(b3.0, true);
}

#[derive(Debug, Clone, Copy, PartialEq, Eq)]
struct Dummy(u8);

impl DERParseable for Dummy {
    fn from_der_node(node: ASN1Node) -> Result<Self, ASN1Error> {
        match node.content {
            Content::Primitive(bytes) => {
                if bytes.is_empty() {
                    return Err(ASN1Error::new(
                        ErrorCode::InvalidASN1Object,
                        "".to_string(),
                        "".to_string(),
                        0,
                    ));
                }
                Ok(Dummy(bytes[0]))
            },
            _ => Err(ASN1Error::new(
                ErrorCode::UnexpectedFieldType,
                "".to_string(),
                "".to_string(),
                0,
            )),
        }
    }
}

impl DERSerializable for Dummy {
    fn serialize(&self, serializer: &mut Serializer) -> Result<(), ASN1Error> {
        let b = self.0;
        serializer.append_primitive_node(Dummy::default_identifier(), move |mut buf| {
            buf.push(b);
            Ok(buf)
        })
    }
}

impl DERImplicitlyTaggable for Dummy {
    fn default_identifier() -> ASN1Identifier {
        ASN1Identifier::integer()
    }

    fn from_der_node_with_identifier(
        node: ASN1Node,
        identifier: ASN1Identifier,
    ) -> Result<Self, ASN1Error> {
        if node.identifier != identifier {
            return Err(ASN1Error::new(
                ErrorCode::UnexpectedFieldType,
                "".to_string(),
                "".to_string(),
                0,
            ));
        }
        Self::from_der_node(node)
    }
}

impl BERParseable for Dummy {}
impl BERSerializable for Dummy {}
impl BERImplicitlyTaggable for Dummy {}

#[test]
fn test_ber_default_from_ber_node_and_with_identifier() {
    let node = ber::parse(&[0x02, 0x01, 0x2A]).unwrap();
    let v = Dummy::from_ber_node(node).unwrap();
    assert_eq!(v, Dummy(0x2A));

    let node = ber::parse(&[0x02, 0x01, 0x2A]).unwrap();
    let v = <Dummy as BERImplicitlyTaggable>::from_ber_node_with_identifier(
        node,
        ASN1Identifier::integer(),
    )
    .unwrap();
    assert_eq!(v, Dummy(0x2A));
}

#[test]
fn test_ber_default_from_ber_iterator() {
    let data = [0x30, 0x03, 0x02, 0x01, 0x2A];
    let node = ber::parse(&data).unwrap();
    let v: Dummy = ber::sequence(node, ASN1Identifier::sequence(), |mut iter| {
        let d = Dummy::from_ber_iterator(&mut iter)?;
        Ok((d, iter))
    })
    .unwrap();
    assert_eq!(v, Dummy(0x2A));
}
