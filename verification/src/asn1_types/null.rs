use vstd::prelude::*;
use crate::asn1::{ASN1Node, Content};
use crate::asn1_types::identifier::{universal_id, ASN1Identifier};
use crate::ber::{BERImplicitlyTaggable, BERParseable, BERSerializable};
use crate::der::{DERImplicitlyTaggable, DERParseable, DERSerializable, Serializer};
use crate::encoding::encoded_tlv;
use crate::errors::{err, ASN1Error, ErrorCode};
use crate::trusted::{bytes_len, bytes_view};

verus! {

/// An ASN.1 NULL.
#[derive(Debug, Clone, Copy, PartialEq, Eq, Hash, Structural)]
pub struct ASN1Null;

/// What decoding a node as NULL against `identifier` yields: a primitive
/// node with empty content, or the stated failure kind.
pub open spec fn spec_null_from_der(
    node: ASN1Node,
    identifier: ASN1Identifier,
    r: Result<ASN1Null, ASN1Error>,
) -> bool {
    match r {
        Ok(_) => node.identifier == identifier && (node.content matches Content::Primitive(b)
            && bytes_view(b).len() == 0),
        Err(e) => {
            ||| (node.identifier != identifier && e.spec_code() == ErrorCode::UnexpectedFieldType)
            ||| (node.identifier == identifier && node.spec_is_constructed() && e.spec_code()
                == ErrorCode::UnexpectedFieldType)
            ||| (node.identifier == identifier && (node.content matches Content::Primitive(b)
                && bytes_view(b).len() != 0 && e.spec_code() == ErrorCode::InvalidASN1Object))
        },
    }
}

impl DERParseable for ASN1Null {
    fn from_der_node(node: ASN1Node) -> (r: Result<Self, ASN1Error>)
        ensures
            spec_null_from_der(node, universal_id(0x05), r),
    {
        Self::from_der_node_with_identifier(node, ASN1Null::default_identifier())
    }
}

impl DERSerializable for ASN1Null {
    fn serialize(&self, serializer: &mut Serializer) -> (r: Result<(), ASN1Error>)
        ensures
            r matches Ok(_) && final(serializer).spec_buffer() == old(serializer).spec_buffer()
                + encoded_tlv(universal_id(0x05), false, Seq::<u8>::empty()),
    {
        let content: Vec<u8> = Vec::new();
        serializer.append_node(ASN1Null::default_identifier(), false, content.as_slice())
    }
}

impl DERImplicitlyTaggable for ASN1Null {
    open spec fn spec_default_identifier() -> ASN1Identifier {
        universal_id(0x05)
    }

    fn default_identifier() -> (r: ASN1Identifier)
        ensures
            r == universal_id(0x05),
    {
        proof {
            assert(<ASN1Null as DERImplicitlyTaggable>::spec_default_identifier()
                == universal_id(0x05));
        }
        ASN1Identifier::null()
    }

    fn from_der_node_with_identifier(node: ASN1Node, identifier: ASN1Identifier) -> (r: Result<
        Self,
        ASN1Error,
    >)
        ensures
            spec_null_from_der(node, identifier, r),
    {
        if node.identifier != identifier {
            return Err(err(ErrorCode::UnexpectedFieldType, "Unexpected field type"));
        }
        match node.content {
            Content::Primitive(bytes) => {
                if bytes_len(&bytes) != 0 {
                    return Err(err(ErrorCode::InvalidASN1Object, "NULL must have 0 length"));
                }
                Ok(ASN1Null)
            },
            Content::Constructed(_) => Err(
                err(ErrorCode::UnexpectedFieldType, "NULL must be primitive"),
            ),
        }
    }
}

impl BERParseable for ASN1Null {
    fn from_ber_node(node: ASN1Node) -> (r: Result<Self, ASN1Error>)
        ensures
            spec_null_from_der(node, universal_id(0x05), r),
    {
        Self::from_ber_node_with_identifier(node, ASN1Null::default_identifier())
    }
}

impl BERSerializable for ASN1Null {

}

impl BERImplicitlyTaggable for ASN1Null {
    fn from_ber_node_with_identifier(node: ASN1Node, identifier: ASN1Identifier) -> (r: Result<
        Self,
        ASN1Error,
    >)
        ensures
            spec_null_from_der(node, identifier, r),
    {
        Self::from_der_node_with_identifier(node, identifier)
    }
}

} // verus!
