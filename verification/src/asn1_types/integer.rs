use vstd::prelude::*;
use num_bigint::BigInt;
use crate::asn1::{ASN1Node, Content};
use crate::asn1_types::identifier::{universal_id, ASN1Identifier};
use crate::ber::{BERImplicitlyTaggable, BERParseable, BERSerializable};
use crate::der::{DERImplicitlyTaggable, DERParseable, DERSerializable, Serializer};
use crate::encoding::{encoded_tlv, min_signed, signed_be};
use crate::errors::{err, ASN1Error, ErrorCode};
use crate::trusted::{
    bigint_from_i128, bigint_from_signed_bytes_be, bigint_to_signed_bytes_be, bigint_value,
    bytes_as_slice, bytes_get, bytes_len, bytes_view,
};

verus! {

/// An ASN.1 INTEGER of arbitrary precision.
#[derive(Debug, Clone, PartialEq, Eq, Hash)]
pub struct ASN1Integer {
    pub value: BigInt,
}

impl ASN1Integer {
    /// The mathematical value this integer holds.
    pub open spec fn spec_value(&self) -> int {
        bigint_value(self.value)
    }

    pub fn from(v: i64) -> (r: Self)
        ensures
            r.spec_value() == v,
    {
        ASN1Integer { value: bigint_from_i128(v as i128) }
    }

    pub fn from_bigint(v: BigInt) -> (r: Self)
        ensures
            r.spec_value() == bigint_value(v),
    {
        ASN1Integer { value: v }
    }
}

/// What decoding a node as a DER INTEGER against `identifier` yields: at
/// least one primitive content octet in minimal two's-complement form,
/// read big-endian; redundant leading octets are a distinct failure kind.
pub open spec fn spec_integer_from_der(
    node: ASN1Node,
    identifier: ASN1Identifier,
    r: Result<ASN1Integer, ASN1Error>,
) -> bool {
    match r {
        Ok(v) => node.identifier == identifier && (node.content matches Content::Primitive(b)
            && min_signed(bytes_view(b)) && v.spec_value() == signed_be(bytes_view(b))),
        Err(e) => {
            ||| (node.identifier != identifier && e.spec_code() == ErrorCode::UnexpectedFieldType)
            ||| (node.identifier == identifier && node.spec_is_constructed() && e.spec_code()
                == ErrorCode::UnexpectedFieldType)
            ||| (node.identifier == identifier && (node.content matches Content::Primitive(b)
                && bytes_view(b).len() == 0 && e.spec_code() == ErrorCode::InvalidASN1Object))
            ||| (node.identifier == identifier && (node.content matches Content::Primitive(b)
                && bytes_view(b).len() >= 1 && !min_signed(bytes_view(b)) && e.spec_code()
                == ErrorCode::InvalidASN1IntegerEncoding))
        },
    }
}

/// What decoding a node as a BER INTEGER yields: as DER, but redundant
/// leading octets are accepted.
pub open spec fn spec_integer_from_ber(
    node: ASN1Node,
    identifier: ASN1Identifier,
    r: Result<ASN1Integer, ASN1Error>,
) -> bool {
    match r {
        Ok(v) => node.identifier == identifier && (node.content matches Content::Primitive(b)
            && bytes_view(b).len() >= 1 && v.spec_value() == signed_be(bytes_view(b))),
        Err(e) => {
            ||| (node.identifier != identifier && e.spec_code() == ErrorCode::UnexpectedFieldType)
            ||| (node.identifier == identifier && node.spec_is_constructed() && e.spec_code()
                == ErrorCode::UnexpectedFieldType)
            ||| (node.identifier == identifier && (node.content matches Content::Primitive(b)
                && bytes_view(b).len() == 0 && e.spec_code() == ErrorCode::InvalidASN1Object))
        },
    }
}

impl DERParseable for ASN1Integer {
    fn from_der_node(node: ASN1Node) -> (r: Result<Self, ASN1Error>)
        ensures
            spec_integer_from_der(node, universal_id(0x02), r),
    {
        Self::from_der_node_with_identifier(node, ASN1Integer::default_identifier())
    }
}

impl DERSerializable for ASN1Integer {
    fn serialize(&self, serializer: &mut Serializer) -> (r: Result<(), ASN1Error>)
        ensures
            r matches Ok(_),
            exists|s: Seq<u8>|
                {
                    &&& signed_be(s) == self.spec_value()
                    &&& #[trigger] min_signed(s)
                    &&& final(serializer).spec_buffer() == old(serializer).spec_buffer()
                        + encoded_tlv(universal_id(0x02), false, s)
                },
    {
        let content = bigint_to_signed_bytes_be(&self.value);
        serializer.append_node(ASN1Integer::default_identifier(), false, content.as_slice())
    }
}

impl DERImplicitlyTaggable for ASN1Integer {
    open spec fn spec_default_identifier() -> ASN1Identifier {
        universal_id(0x02)
    }

    fn default_identifier() -> (r: ASN1Identifier)
        ensures
            r == universal_id(0x02),
    {
        proof {
            assert(<ASN1Integer as DERImplicitlyTaggable>::spec_default_identifier()
                == universal_id(0x02));
        }
        ASN1Identifier::integer()
    }

    fn from_der_node_with_identifier(node: ASN1Node, identifier: ASN1Identifier) -> (r: Result<
        Self,
        ASN1Error,
    >)
        ensures
            spec_integer_from_der(node, identifier, r),
    {
        if node.identifier != identifier {
            return Err(err(ErrorCode::UnexpectedFieldType, "Unexpected field type"));
        }

        match node.content {
            Content::Primitive(bytes) => {
                let n = bytes_len(&bytes);
                if n == 0 {
                    return Err(err(ErrorCode::InvalidASN1Object, "Integer with 0 bytes"));
                }

                if n > 1 {
                    let first = bytes_get(&bytes, 0);
                    let second = bytes_get(&bytes, 1);
                    if first == 0x00 {
                        if second < 0x80 {
                            return Err(
                                err(
                                    ErrorCode::InvalidASN1IntegerEncoding,
                                    "Integer encoded with redundant leading zero",
                                ),
                            );
                        }
                    } else if first == 0xFF {
                        if second >= 0x80 {
                            return Err(
                                err(
                                    ErrorCode::InvalidASN1IntegerEncoding,
                                    "Integer encoded with redundant leading FF",
                                ),
                            );
                        }
                    }
                }

                let val = bigint_from_signed_bytes_be(bytes_as_slice(&bytes));
                Ok(ASN1Integer { value: val })
            },
            Content::Constructed(_) => Err(
                err(ErrorCode::UnexpectedFieldType, "Integer must be primitive"),
            ),
        }
    }
}

impl BERParseable for ASN1Integer {
    fn from_ber_node(node: ASN1Node) -> (r: Result<Self, ASN1Error>)
        ensures
            spec_integer_from_ber(node, universal_id(0x02), r),
    {
        Self::from_ber_node_with_identifier(node, ASN1Integer::default_identifier())
    }
}

impl BERSerializable for ASN1Integer {

}

impl BERImplicitlyTaggable for ASN1Integer {
    fn from_ber_node_with_identifier(node: ASN1Node, identifier: ASN1Identifier) -> (r: Result<
        Self,
        ASN1Error,
    >)
        ensures
            spec_integer_from_ber(node, identifier, r),
    {
        if node.identifier != identifier {
            return Err(err(ErrorCode::UnexpectedFieldType, "Unexpected field type"));
        }

        match node.content {
            Content::Primitive(bytes) => {
                if bytes_len(&bytes) == 0 {
                    return Err(err(ErrorCode::InvalidASN1Object, "Integer with 0 bytes"));
                }
                let val = bigint_from_signed_bytes_be(bytes_as_slice(&bytes));
                Ok(ASN1Integer { value: val })
            },
            Content::Constructed(_) => Err(
                err(ErrorCode::UnexpectedFieldType, "Integer must be primitive"),
            ),
        }
    }
}

/// Any integer a DER decode accepts, a BER decode of the same node accepts
/// with the same value: BER's integer reading extends DER's.
pub proof fn lemma_ber_integer_extends_der(
    node: ASN1Node,
    identifier: ASN1Identifier,
    rd: Result<ASN1Integer, ASN1Error>,
    rb: Result<ASN1Integer, ASN1Error>,
)
    requires
        spec_integer_from_der(node, identifier, rd),
        spec_integer_from_ber(node, identifier, rb),
        rd matches Ok(_),
    ensures
        rb matches Ok(v) && rd matches Ok(w) && v.spec_value() == w.spec_value(),
{
}


/// Round trip on DER INTEGER content: the octets a decoder accepted are
/// the only minimal encoding of the value, so re-encoding the decoded
/// value emits exactly the original content octets.
pub proof fn lemma_integer_round_trip(
    node: ASN1Node,
    r: Result<ASN1Integer, ASN1Error>,
    s: Seq<u8>,
)
    requires
        spec_integer_from_der(node, universal_id(0x02), r),
        r matches Ok(v),
        min_signed(s),
        signed_be(s) == r->Ok_0.spec_value(),
    ensures
        node.content matches Content::Primitive(b) && s == bytes_view(b),
{
    match node.content {
        Content::Primitive(bb) => {
            crate::encoding::lemma_min_signed_unique(s, bytes_view(bb));
        },
        Content::Constructed(_) => {},
    }
}

/// Round trip on INTEGER values: decoding any node that carries a minimal
/// encoding of a value yields exactly that value back.
pub proof fn lemma_integer_value_round_trip(
    s: Seq<u8>,
    val: int,
    node: ASN1Node,
    identifier: ASN1Identifier,
    r: Result<ASN1Integer, ASN1Error>,
)
    requires
        min_signed(s),
        signed_be(s) == val,
        node.identifier == identifier,
        node.content matches Content::Primitive(b) && bytes_view(b) == s,
        spec_integer_from_der(node, identifier, r),
    ensures
        r matches Ok(w) && w.spec_value() == val,
{
}

} // verus!
