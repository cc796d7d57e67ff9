use vstd::prelude::*;
use crate::asn1::{ASN1Node, Content};
use crate::asn1_types::identifier::{universal_id, ASN1Identifier};
use crate::ber::{BERImplicitlyTaggable, BERParseable, BERSerializable};
use crate::der::{DERImplicitlyTaggable, DERParseable, DERSerializable, Serializer};
use crate::encoding::encoded_tlv;
use crate::errors::{err, ASN1Error, ErrorCode};
use crate::trusted::{bytes_get, bytes_len, bytes_view};

verus! {

/// An ASN.1 BOOLEAN.
#[derive(Debug, Clone, Copy, PartialEq, Eq, Hash, Structural)]
pub struct ASN1Boolean(pub bool);

impl From<bool> for ASN1Boolean {
    fn from(b: bool) -> (r: Self) {
        ASN1Boolean(b)
    }
}

impl vstd::std_specs::convert::FromSpecImpl<bool> for ASN1Boolean {
    open spec fn obeys_from_spec() -> bool {
        true
    }

    open spec fn from_spec(b: bool) -> ASN1Boolean {
        ASN1Boolean(b)
    }
}

impl From<ASN1Boolean> for bool {
    fn from(val: ASN1Boolean) -> (r: Self) {
        val.0
    }
}

impl vstd::std_specs::convert::FromSpecImpl<ASN1Boolean> for bool {
    open spec fn obeys_from_spec() -> bool {
        true
    }

    open spec fn from_spec(val: ASN1Boolean) -> bool {
        val.0
    }
}

/// The single content octet a boolean serializes to under DER.
pub open spec fn spec_boolean_content(b: bool) -> Seq<u8> {
    if b {
        seq![0xFFu8]
    } else {
        seq![0x00u8]
    }
}

/// What decoding a node as a DER boolean against `identifier` yields:
/// exactly one primitive content octet, `0x00` for false and `0xFF` for
/// true; anything else fails with the stated kind.
pub open spec fn spec_boolean_from_der(
    node: ASN1Node,
    identifier: ASN1Identifier,
    r: Result<ASN1Boolean, ASN1Error>,
) -> bool {
    match r {
        Ok(v) => node.identifier == identifier && (node.content matches Content::Primitive(b)
            && bytes_view(b) == spec_boolean_content(v.0)),
        Err(e) => {
            ||| (node.identifier != identifier && e.spec_code() == ErrorCode::UnexpectedFieldType)
            ||| (node.identifier == identifier && node.spec_is_constructed() && e.spec_code()
                == ErrorCode::UnexpectedFieldType)
            ||| (node.identifier == identifier && (node.content matches Content::Primitive(b)
                && bytes_view(b).len() != 1 && e.spec_code() == ErrorCode::InvalidASN1Object))
            ||| (node.identifier == identifier && (node.content matches Content::Primitive(b)
                && bytes_view(b).len() == 1 && bytes_view(b)[0] != 0x00 && bytes_view(b)[0] != 0xFF
                && e.spec_code() == ErrorCode::InvalidASN1Object))
        },
    }
}

/// What decoding a node as a BER boolean yields: exactly one primitive
/// content octet, zero for false and anything else for true.
pub open spec fn spec_boolean_from_ber(
    node: ASN1Node,
    identifier: ASN1Identifier,
    r: Result<ASN1Boolean, ASN1Error>,
) -> bool {
    match r {
        Ok(v) => node.identifier == identifier && (node.content matches Content::Primitive(b)
            && bytes_view(b).len() == 1 && v.0 == (bytes_view(b)[0] != 0x00)),
        Err(e) => {
            ||| (node.identifier != identifier && e.spec_code() == ErrorCode::UnexpectedFieldType)
            ||| (node.identifier == identifier && node.spec_is_constructed() && e.spec_code()
                == ErrorCode::UnexpectedFieldType)
            ||| (node.identifier == identifier && (node.content matches Content::Primitive(b)
                && bytes_view(b).len() != 1 && e.spec_code() == ErrorCode::InvalidASN1Object))
        },
    }
}

impl DERParseable for ASN1Boolean {
    fn from_der_node(node: ASN1Node) -> (r: Result<Self, ASN1Error>)
        ensures
            spec_boolean_from_der(node, universal_id(0x01), r),
    {
        Self::from_der_node_with_identifier(node, ASN1Boolean::default_identifier())
    }
}

impl DERSerializable for ASN1Boolean {
    fn serialize(&self, serializer: &mut Serializer) -> (r: Result<(), ASN1Error>)
        ensures
            r matches Ok(_) && final(serializer).spec_buffer() == old(serializer).spec_buffer()
                + encoded_tlv(universal_id(0x01), false, spec_boolean_content(self.0)),
    {
        let mut content: Vec<u8> = Vec::new();
        if self.0 {
            content.push(0xFF);
        } else {
            content.push(0x00);
        }
        proof {
            assert(content@ =~= spec_boolean_content(self.0));
        }
        serializer.append_node(ASN1Boolean::default_identifier(), false, content.as_slice())
    }
}

impl DERImplicitlyTaggable for ASN1Boolean {
    open spec fn spec_default_identifier() -> ASN1Identifier {
        universal_id(0x01)
    }

    fn default_identifier() -> (r: ASN1Identifier)
        ensures
            r == universal_id(0x01),
    {
        proof {
            assert(<ASN1Boolean as DERImplicitlyTaggable>::spec_default_identifier()
                == universal_id(0x01));
        }
        ASN1Identifier::boolean()
    }

    fn from_der_node_with_identifier(node: ASN1Node, identifier: ASN1Identifier) -> (r: Result<
        Self,
        ASN1Error,
    >)
        ensures
            spec_boolean_from_der(node, identifier, r),
    {
        if node.identifier != identifier {
            return Err(err(ErrorCode::UnexpectedFieldType, "Unexpected field type"));
        }

        match node.content {
            Content::Primitive(bytes) => {
                if bytes_len(&bytes) != 1 {
                    return Err(err(ErrorCode::InvalidASN1Object, "Boolean must have length 1"));
                }
                let b = bytes_get(&bytes, 0);
                proof {
                    assert(bytes_view(bytes) =~= seq![b]);
                }
                match b {
                    0x00 => Ok(ASN1Boolean(false)),
                    0xFF => Ok(ASN1Boolean(true)),
                    _ => Err(
                        err(ErrorCode::InvalidASN1Object, "Boolean must be 0x00 or 0xFF in DER"),
                    ),
                }
            },
            Content::Constructed(_) => Err(
                err(ErrorCode::UnexpectedFieldType, "Boolean must be primitive"),
            ),
        }
    }
}

impl BERParseable for ASN1Boolean {
    fn from_ber_node(node: ASN1Node) -> (r: Result<Self, ASN1Error>)
        ensures
            spec_boolean_from_ber(node, universal_id(0x01), r),
    {
        Self::from_ber_node_with_identifier(node, ASN1Boolean::default_identifier())
    }
}

impl BERSerializable for ASN1Boolean {

}

impl BERImplicitlyTaggable for ASN1Boolean {
    fn from_ber_node_with_identifier(node: ASN1Node, identifier: ASN1Identifier) -> (r: Result<
        Self,
        ASN1Error,
    >)
        ensures
            spec_boolean_from_ber(node, identifier, r),
    {
        if node.identifier != identifier {
            return Err(err(ErrorCode::UnexpectedFieldType, "Unexpected field type"));
        }

        match node.content {
            Content::Primitive(bytes) => {
                if bytes_len(&bytes) != 1 {
                    return Err(err(ErrorCode::InvalidASN1Object, "Boolean must have length 1"));
                }
                let b = bytes_get(&bytes, 0);
                match b {
                    0x00 => Ok(ASN1Boolean(false)),
                    _ => Ok(ASN1Boolean(true)),
                }
            },
            Content::Constructed(_) => Err(
                err(ErrorCode::UnexpectedFieldType, "Boolean must be primitive"),
            ),
        }
    }
}

/// Any boolean a DER decode accepts, a BER decode of the same node accepts
/// with the same value: BER's boolean reading extends DER's.
pub proof fn lemma_ber_boolean_extends_der(
    node: ASN1Node,
    identifier: ASN1Identifier,
    rd: Result<ASN1Boolean, ASN1Error>,
    rb: Result<ASN1Boolean, ASN1Error>,
)
    requires
        spec_boolean_from_der(node, identifier, rd),
        spec_boolean_from_ber(node, identifier, rb),
        rd matches Ok(_),
    ensures
        rb matches Ok(v) && rd matches Ok(w) && v == w,
{
    let v = rd->Ok_0;
    if v.0 {
        assert(spec_boolean_content(v.0)[0] == 0xFF);
    } else {
        assert(spec_boolean_content(v.0)[0] == 0x00);
    }
}

/// Round trip on DER BOOLEAN content: re-encoding a decoded boolean emits
/// exactly the content octet the decoder accepted.
pub proof fn lemma_boolean_round_trip(
    node: ASN1Node,
    identifier: ASN1Identifier,
    r: Result<ASN1Boolean, ASN1Error>,
)
    requires
        spec_boolean_from_der(node, identifier, r),
        r matches Ok(_),
    ensures
        node.content matches Content::Primitive(b) && spec_boolean_content(r->Ok_0.0)
            == bytes_view(b),
{
}

/// Round trip on BOOLEAN values: decoding a node that carries a boolean's
/// own content octet yields that boolean back.
pub proof fn lemma_boolean_value_round_trip(
    v: bool,
    node: ASN1Node,
    identifier: ASN1Identifier,
    r: Result<ASN1Boolean, ASN1Error>,
)
    requires
        node.identifier == identifier,
        node.content matches Content::Primitive(b) && bytes_view(b) == spec_boolean_content(v),
        spec_boolean_from_der(node, identifier, r),
    ensures
        r matches Ok(w) && w.0 == v,
{
    match r {
        Ok(w) => {
            assert(spec_boolean_content(w.0) == spec_boolean_content(v));
            assert(spec_boolean_content(true)[0] != spec_boolean_content(false)[0]);
        },
        Err(e) => {
            assert(spec_boolean_content(v).len() == 1);
            assert(spec_boolean_content(v)[0] == 0x00 || spec_boolean_content(v)[0] == 0xFF);
        },
    }
}

} // verus!
