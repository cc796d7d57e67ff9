use vstd::prelude::*;
use bytes::Bytes;
use crate::asn1::{
    lemma_scan_end_bounds, node_size, spec_subtree_end, ASN1Node, Content, ParserNode,
};
use crate::asn1_types::identifier::{universal_id, ASN1Identifier};
use crate::ber::{BERImplicitlyTaggable, BERParseable, BERSerializable};
use crate::der::{DERImplicitlyTaggable, DERParseable, DERSerializable, Serializer};
use crate::encoding::encoded_tlv;
use crate::errors::{err, ASN1Error, ErrorCode};
use crate::trusted::{bytes_as_slice, bytes_copy_from_slice, bytes_from_vec, bytes_view};

verus! {

/// An ASN.1 OCTET STRING: an arbitrary string of octets.
#[derive(Debug, Clone)]
pub struct ASN1OctetString(pub Bytes);

impl ASN1OctetString {
    /// Takes ownership of the octets in `v`.
    pub fn from_vec(v: Vec<u8>) -> (r: Self)
        ensures
            bytes_view(r.0) == v@,
    {
        ASN1OctetString(bytes_from_vec(v))
    }

    /// Copies the octets out of `s`.
    pub fn from_slice(s: &[u8]) -> (r: Self)
        ensures
            bytes_view(r.0) == s@,
    {
        ASN1OctetString(bytes_copy_from_slice(s))
    }
}

/// What decoding a node as a DER OCTET STRING against `identifier` yields:
/// the content octets of a primitive node, exactly.
pub open spec fn spec_octet_string_from_der(
    node: ASN1Node,
    identifier: ASN1Identifier,
    r: Result<ASN1OctetString, ASN1Error>,
) -> bool {
    match r {
        Ok(v) => node.identifier == identifier && (node.content matches Content::Primitive(b)
            && bytes_view(v.0) == bytes_view(b)),
        Err(e) => {
            ||| (node.identifier != identifier && e.spec_code() == ErrorCode::UnexpectedFieldType)
            ||| (node.identifier == identifier && node.spec_is_constructed() && e.spec_code()
                == ErrorCode::UnexpectedFieldType)
        },
    }
}

/// The octets a BER constructed OCTET STRING reassembles over the node
/// window from `i` to `end`: each logical node there must itself be a BER
/// OCTET STRING; a primitive one contributes its content octets, a
/// constructed one reassembles its own children. `None` when any node
/// breaks the rule.
pub open spec fn spec_octet_segments(nodes: Seq<ParserNode>, i: int, end: int) -> Option<Seq<u8>>
    decreases end - i,
    via spec_octet_segments_decreases
{
    if i >= end {
        Some(Seq::empty())
    } else {
        let se = spec_subtree_end(nodes, i, end);
        let head = if nodes[i].identifier != universal_id(0x04) {
            None
        } else if !nodes[i].is_constructed {
            Some(bytes_view(nodes[i].data_bytes->Some_0))
        } else {
            spec_octet_segments(nodes, i + 1, se)
        };
        match head {
            None => None,
            Some(h) => match spec_octet_segments(nodes, se, end) {
                None => None,
                Some(t) => Some(h + t),
            },
        }
    }
}

#[via_fn]
proof fn spec_octet_segments_decreases(nodes: Seq<ParserNode>, i: int, end: int) {
    if i < end {
        lemma_scan_end_bounds(nodes, nodes[i].depth as int, i + 1, end);
    }
}

/// What decoding a node as a BER OCTET STRING yields: a primitive node's
/// own octets always succeed; a constructed node reassembles its children,
/// failing exactly when one of them is not itself a BER OCTET STRING, a
/// tag mismatch somewhere in the tree and so always `UnexpectedFieldType`.
pub open spec fn spec_octet_string_from_ber(
    node: ASN1Node,
    identifier: ASN1Identifier,
    r: Result<ASN1OctetString, ASN1Error>,
) -> bool {
    match r {
        Ok(v) => node.identifier == identifier && match node.content {
            Content::Primitive(b) => bytes_view(v.0) == bytes_view(b),
            Content::Constructed(c) => spec_octet_segments(
                c.spec_nodes(),
                c.spec_start() as int,
                c.spec_end() as int,
            ) == Some(bytes_view(v.0)),
        },
        Err(e) => {
            &&& e.spec_code() == ErrorCode::UnexpectedFieldType
            &&& node.identifier == identifier && !node.spec_is_constructed() ==> false
            &&& node.identifier == identifier ==> (node.content matches Content::Constructed(c)
                && spec_octet_segments(
                c.spec_nodes(),
                c.spec_start() as int,
                c.spec_end() as int,
            ) is None)
        },
    }
}

impl DERParseable for ASN1OctetString {
    fn from_der_node(node: ASN1Node) -> (r: Result<Self, ASN1Error>)
        ensures
            spec_octet_string_from_der(node, universal_id(0x04), r),
    {
        Self::from_der_node_with_identifier(node, ASN1OctetString::default_identifier())
    }
}

impl DERSerializable for ASN1OctetString {
    fn serialize(&self, serializer: &mut Serializer) -> (r: Result<(), ASN1Error>)
        ensures
            r matches Ok(_) && final(serializer).spec_buffer() == old(serializer).spec_buffer()
                + encoded_tlv(universal_id(0x04), false, bytes_view(self.0)),
    {
        serializer.append_node(ASN1OctetString::default_identifier(), false, bytes_as_slice(&self.0))
    }
}

impl DERImplicitlyTaggable for ASN1OctetString {
    open spec fn spec_default_identifier() -> ASN1Identifier {
        universal_id(0x04)
    }

    fn default_identifier() -> (r: ASN1Identifier)
        ensures
            r == universal_id(0x04),
    {
        proof {
            assert(<ASN1OctetString as DERImplicitlyTaggable>::spec_default_identifier()
                == universal_id(0x04));
        }
        ASN1Identifier::octet_string()
    }

    fn from_der_node_with_identifier(node: ASN1Node, identifier: ASN1Identifier) -> (r: Result<
        Self,
        ASN1Error,
    >)
        ensures
            spec_octet_string_from_der(node, identifier, r),
    {
        if node.identifier != identifier {
            return Err(err(ErrorCode::UnexpectedFieldType, "Unexpected field type"));
        }
        match node.content {
            Content::Primitive(bytes) => Ok(ASN1OctetString(bytes)),
            Content::Constructed(_) => Err(
                err(ErrorCode::UnexpectedFieldType, "DER OCTET STRING must be primitive"),
            ),
        }
    }
}

impl BERParseable for ASN1OctetString {
    fn from_ber_node(node: ASN1Node) -> (r: Result<Self, ASN1Error>)
        ensures
            spec_octet_string_from_ber(node, universal_id(0x04), r),
        decreases node_size(node), 1int,
    {
        Self::from_ber_node_with_identifier(node, ASN1OctetString::default_identifier())
    }
}

impl BERSerializable for ASN1OctetString {

}

impl BERImplicitlyTaggable for ASN1OctetString {
    fn from_ber_node_with_identifier(node: ASN1Node, identifier: ASN1Identifier) -> (r: Result<
        Self,
        ASN1Error,
    >)
        ensures
            spec_octet_string_from_ber(node, identifier, r),
        decreases node_size(node), 0int,
    {
        if node.identifier != identifier {
            return Err(err(ErrorCode::UnexpectedFieldType, "Unexpected field type"));
        }
        match node.content {
            Content::Primitive(bytes) => Ok(ASN1OctetString(bytes)),
            Content::Constructed(collection) => {
                let ghost c = collection;
                let ghost ns = collection.spec_nodes();
                let ghost total = spec_octet_segments(
                    ns,
                    c.spec_start() as int,
                    c.spec_end() as int,
                );
                let mut iter = collection.into_iter();
                let mut result: Vec<u8> = Vec::new();
                loop
                    invariant
                        iter.wf(),
                        iter.spec_nodes() == ns,
                        ns == c.spec_nodes(),
                        iter.spec_end() == c.spec_end(),
                        iter.spec_start() >= c.spec_start(),
                        c.spec_start() <= c.spec_end(),
                        node.identifier == identifier,
                        node.content == Content::Constructed(c),
                        total == spec_octet_segments(ns, c.spec_start() as int, c.spec_end() as int),
                        match spec_octet_segments(
                            ns,
                            iter.spec_start() as int,
                            iter.spec_end() as int,
                        ) {
                            Some(rest) => total == Some(result@ + rest),
                            None => total is None,
                        },
                    ensures
                        iter.spec_start() >= iter.spec_end(),
                        total == Some(result@ + Seq::<u8>::empty()),
                    decreases iter.spec_end() - iter.spec_start(),
                {
                    let ghost i = iter.spec_start() as int;
                    let next = iter.next();
                    match next {
                        None => {
                            proof {
                                assert(total == Some(result@ + Seq::<u8>::empty()));
                            }
                            break ;
                        },
                        Some(child) => {
                            proof {
                                assert(node_size(child) < node_size(node));
                            }
                            let ghost se = iter.spec_start() as int;
                            match ASN1OctetString::from_ber_node(child) {
                                Ok(part) => {
                                    let ghost pre = result@;
                                    let mut part_vec = crate::trusted::bytes_to_vec(&part.0);
                                    result.append(&mut part_vec);
                                    proof {
                                        if ns[i].is_constructed {
                                            assert(child.content matches Content::Constructed(c2)
                                                && c2.spec_nodes() == ns && c2.spec_start() == i + 1
                                                && c2.spec_end() == se);
                                            assert(spec_octet_segments(ns, i + 1, se) == Some(
                                                bytes_view(part.0),
                                            ));
                                        }
                                        if spec_octet_segments(ns, se, c.spec_end() as int)
                                            is Some {
                                            let rest2 = spec_octet_segments(
                                                ns,
                                                se,
                                                c.spec_end() as int,
                                            )->Some_0;
                                            assert(spec_octet_segments(
                                                ns,
                                                i,
                                                c.spec_end() as int,
                                            ) == Some(bytes_view(part.0) + rest2));
                                            assert(result@ =~= pre + bytes_view(part.0));
                                            assert(pre + (bytes_view(part.0) + rest2) =~= result@
                                                + rest2);
                                        }
                                    }
                                },
                                Err(e) => {
                                    proof {
                                        assert(spec_octet_segments(ns, i, c.spec_end() as int)
                                            is None);
                                    }
                                    return Err(e);
                                },
                            }
                        },
                    }
                }
                Ok(ASN1OctetString(bytes_from_vec(result)))
            },
        }
    }
}


/// Any octet string a DER decode accepts, a BER decode of the same node
/// accepts with the same octets: BER's reading extends DER's.
pub proof fn lemma_ber_octet_string_extends_der(
    node: ASN1Node,
    identifier: ASN1Identifier,
    rd: Result<ASN1OctetString, ASN1Error>,
    rb: Result<ASN1OctetString, ASN1Error>,
)
    requires
        spec_octet_string_from_der(node, identifier, rd),
        spec_octet_string_from_ber(node, identifier, rb),
        rd matches Ok(_),
    ensures
        rb matches Ok(v) && rd matches Ok(w) && bytes_view(v.0) == bytes_view(w.0),
{
}

/// Round trip on DER OCTET STRING content: a decoded octet string holds
/// exactly the content octets, which re-encoding emits unchanged.
pub proof fn lemma_octet_string_round_trip(
    node: ASN1Node,
    identifier: ASN1Identifier,
    r: Result<ASN1OctetString, ASN1Error>,
)
    requires
        spec_octet_string_from_der(node, identifier, r),
        r matches Ok(_),
    ensures
        node.content matches Content::Primitive(b) && bytes_view(r->Ok_0.0) == bytes_view(b),
{
}

/// Round trip on OCTET STRING values: decoding a node that carries an
/// octet string's own octets yields those octets back.
pub proof fn lemma_octet_string_value_round_trip(
    s: Seq<u8>,
    node: ASN1Node,
    identifier: ASN1Identifier,
    r: Result<ASN1OctetString, ASN1Error>,
)
    requires
        node.identifier == identifier,
        node.content matches Content::Primitive(b) && bytes_view(b) == s,
        spec_octet_string_from_der(node, identifier, r),
    ensures
        r matches Ok(w) && bytes_view(w.0) == s,
{
}

} // verus!
