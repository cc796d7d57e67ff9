use vstd::prelude::*;
use bytes::Bytes;
use crate::asn1::{
    lemma_scan_end_bounds, node_size, spec_subtree_end, ASN1Node, Content, ParserNode,
};
use crate::asn1_types::identifier::{universal_id, ASN1Identifier};
use crate::ber::{BERImplicitlyTaggable, BERParseable, BERSerializable};
use crate::der::{DERImplicitlyTaggable, DERParseable, DERSerializable, Serializer};
use crate::encoding::encoded_tlv;
use crate::errors::{err, ASN1Error, ErrorCode};
use crate::trusted::{bytes_as_slice, bytes_from_vec, bytes_get, bytes_len, bytes_slice, bytes_view};

verus! {

/// An ASN.1 BIT STRING: a string of bits, stored as octets together with
/// the count of unused (padding) bits in the final octet.
#[derive(Debug, Clone)]
pub struct ASN1BitString {
    pub bytes: Bytes,
    pub padding_bits: u8,
}

/// A bit string value is sound when the padding count is at most seven and
/// an empty bit string carries no padding.
pub open spec fn spec_bit_string_ok(data: Seq<u8>, padding_bits: u8) -> bool {
    padding_bits <= 7 && (data.len() == 0 ==> padding_bits == 0)
}

/// DER's content rule for a primitive BIT STRING: a leading padding-count
/// octet between zero and seven, no padding on an empty string, and the
/// unused bits of the final octet all zero.
pub open spec fn spec_der_bit_string_content_ok(c: Seq<u8>) -> bool {
    &&& c.len() >= 1
    &&& c[0] <= 7
    &&& c.len() == 1 ==> c[0] == 0
    &&& c.len() > 1 ==> c.last() & (((1u8 << c[0]) - 1) as u8) == 0
}

/// What decoding a node as a DER BIT STRING against `identifier` yields:
/// the content past the padding octet, with that octet as padding count.
pub open spec fn spec_bit_string_from_der(
    node: ASN1Node,
    identifier: ASN1Identifier,
    r: Result<ASN1BitString, ASN1Error>,
) -> bool {
    match r {
        Ok(v) => node.identifier == identifier && (node.content matches Content::Primitive(b)
            && spec_der_bit_string_content_ok(bytes_view(b)) && bytes_view(v.bytes) == bytes_view(
            b,
        ).skip(1) && v.padding_bits == bytes_view(b)[0]),
        Err(e) => {
            ||| (node.identifier != identifier && e.spec_code() == ErrorCode::UnexpectedFieldType)
            ||| (node.identifier == identifier && node.spec_is_constructed() && e.spec_code()
                == ErrorCode::UnexpectedFieldType)
            ||| (node.identifier == identifier && (node.content matches Content::Primitive(b)
                && !spec_der_bit_string_content_ok(bytes_view(b)) && e.spec_code()
                == ErrorCode::InvalidASN1Object))
        },
    }
}

/// What decoding a primitive node as a BER BIT STRING yields: as DER, but
/// without the zero-unused-bits rule.
pub open spec fn spec_bit_string_from_ber_prim(
    node: ASN1Node,
    identifier: ASN1Identifier,
    r: Result<ASN1BitString, ASN1Error>,
) -> bool {
    match r {
        Ok(v) => node.identifier == identifier && (node.content matches Content::Primitive(b)
            && bytes_view(b).len() >= 1 && bytes_view(b)[0] <= 7 && bytes_view(v.bytes)
            == bytes_view(b).skip(1) && v.padding_bits == bytes_view(b)[0]),
        Err(e) => {
            ||| (node.identifier != identifier && e.spec_code() == ErrorCode::UnexpectedFieldType)
            ||| (node.identifier == identifier && (node.content matches Content::Primitive(b)
                && !(bytes_view(b).len() >= 1 && bytes_view(b)[0] <= 7) && e.spec_code()
                == ErrorCode::InvalidASN1Object))
        },
    }
}

/// The octets and padding a BER constructed BIT STRING reassembles over
/// the node window from `i` to `end`, entered with `pending` padding bits
/// carried by the segment just before the window: each logical node there
/// must itself be a BER BIT STRING, and a segment with non-zero padding
/// admits no segment after it. An offending window yields the error kind
/// the decoder reports for it: `UnexpectedFieldType` where a child is no
/// BIT STRING, `InvalidASN1Object` where a segment's content is bad or a
/// segment follows non-zero padding, always for the first offence found.
pub open spec fn spec_bit_segments_from(
    nodes: Seq<ParserNode>,
    i: int,
    end: int,
    pending: u8,
) -> Result<(Seq<u8>, u8), ErrorCode>
    decreases end - i,
    via spec_bit_segments_decreases
{
    if i >= end {
        Ok((Seq::empty(), pending))
    } else {
        let se = spec_subtree_end(nodes, i, end);
        let head = if nodes[i].identifier != universal_id(0x03) {
            Err(ErrorCode::UnexpectedFieldType)
        } else if !nodes[i].is_constructed {
            let c = bytes_view(nodes[i].data_bytes->Some_0);
            if c.len() >= 1 && c[0] <= 7 {
                Ok((c.skip(1), c[0]))
            } else {
                Err(ErrorCode::InvalidASN1Object)
            }
        } else {
            spec_bit_segments_from(nodes, i + 1, se, 0)
        };
        match head {
            Err(code) => Err(code),
            Ok(h) => if pending != 0 {
                Err(ErrorCode::InvalidASN1Object)
            } else {
                match spec_bit_segments_from(nodes, se, end, h.1) {
                    Err(code) => Err(code),
                    Ok(t) => Ok((h.0 + t.0, t.1)),
                }
            },
        }
    }
}

#[via_fn]
proof fn spec_bit_segments_decreases(nodes: Seq<ParserNode>, i: int, end: int, pending: u8) {
    if i < end {
        lemma_scan_end_bounds(nodes, nodes[i].depth as int, i + 1, end);
    }
}

/// The reassembly of the whole child window, entered with no padding.
pub open spec fn spec_bit_segments(nodes: Seq<ParserNode>, i: int, end: int) -> Result<
    (Seq<u8>, u8),
    ErrorCode,
> {
    spec_bit_segments_from(nodes, i, end, 0)
}

/// What decoding a constructed node as a BER BIT STRING yields: its
/// children's octets reassembled, with the last segment's padding; on a
/// window that breaks the rules, exactly the reassembly's error kind.
pub open spec fn spec_bit_string_from_ber_constructed(
    node: ASN1Node,
    identifier: ASN1Identifier,
    r: Result<ASN1BitString, ASN1Error>,
) -> bool {
    match r {
        Ok(v) => node.identifier == identifier && (node.content matches Content::Constructed(c)
            && spec_bit_segments(c.spec_nodes(), c.spec_start() as int, c.spec_end() as int)
            == Ok::<(Seq<u8>, u8), ErrorCode>((bytes_view(v.bytes), v.padding_bits))),
        Err(e) => {
            &&& node.identifier != identifier ==> e.spec_code() == ErrorCode::UnexpectedFieldType
            &&& node.identifier == identifier ==> (node.content matches Content::Constructed(c)
                && spec_bit_segments(
                c.spec_nodes(),
                c.spec_start() as int,
                c.spec_end() as int,
            ) == Err::<(Seq<u8>, u8), ErrorCode>(e.spec_code()))
        },
    }
}

impl ASN1BitString {
    /// Accepts exactly the sound bit string values.
    pub fn new(bytes: Bytes, padding_bits: u8) -> (r: Result<Self, ASN1Error>)
        ensures
            match r {
                Ok(v) => spec_bit_string_ok(bytes_view(bytes), padding_bits) && bytes_view(v.bytes)
                    == bytes_view(bytes) && v.padding_bits == padding_bits,
                Err(e) => !spec_bit_string_ok(bytes_view(bytes), padding_bits) && e.spec_code()
                    == ErrorCode::InvalidASN1Object,
            },
    {
        if padding_bits > 7 {
            return Err(err(ErrorCode::InvalidASN1Object, "Invalid padding bits > 7"));
        }
        if bytes_len(&bytes) == 0 && padding_bits != 0 {
            return Err(
                err(ErrorCode::InvalidASN1Object, "Empty BitString must have 0 padding bits"),
            );
        }
        Ok(ASN1BitString { bytes, padding_bits })
    }
}

impl DERParseable for ASN1BitString {
    fn from_der_node(node: ASN1Node) -> (r: Result<Self, ASN1Error>)
        ensures
            spec_bit_string_from_der(node, universal_id(0x03), r),
    {
        Self::from_der_node_with_identifier(node, ASN1BitString::default_identifier())
    }
}

impl DERSerializable for ASN1BitString {
    fn serialize(&self, serializer: &mut Serializer) -> (r: Result<(), ASN1Error>)
        ensures
            r matches Ok(_),
            final(serializer).spec_buffer() == old(serializer).spec_buffer() + encoded_tlv(
                universal_id(0x03),
                false,
                seq![self.padding_bits] + bytes_view(self.bytes),
            ),
    {
        let mut content: Vec<u8> = Vec::new();
        content.push(self.padding_bits);
        content.extend_from_slice(bytes_as_slice(&self.bytes));
        proof {
            assert(content@ =~= seq![self.padding_bits] + bytes_view(self.bytes));
        }
        serializer.append_node(ASN1BitString::default_identifier(), false, content.as_slice())
    }
}

impl DERImplicitlyTaggable for ASN1BitString {
    open spec fn spec_default_identifier() -> ASN1Identifier {
        universal_id(0x03)
    }

    fn default_identifier() -> (r: ASN1Identifier)
        ensures
            r == universal_id(0x03),
    {
        proof {
            assert(<ASN1BitString as DERImplicitlyTaggable>::spec_default_identifier()
                == universal_id(0x03));
        }
        ASN1Identifier::bit_string()
    }

    fn from_der_node_with_identifier(node: ASN1Node, identifier: ASN1Identifier) -> (r: Result<
        Self,
        ASN1Error,
    >)
        ensures
            spec_bit_string_from_der(node, identifier, r),
    {
        if node.identifier != identifier {
            return Err(err(ErrorCode::UnexpectedFieldType, "Unexpected field type"));
        }
        match node.content {
            Content::Primitive(bytes) => {
                let n = bytes_len(&bytes);
                if n == 0 {
                    return Err(
                        err(
                            ErrorCode::InvalidASN1Object,
                            "Empty BIT STRING content (missing padding byte)",
                        ),
                    );
                }
                let padding_bits = bytes_get(&bytes, 0);
                if padding_bits > 7 {
                    return Err(
                        err(ErrorCode::InvalidASN1Object, "Invalid padding bits in BIT STRING"),
                    );
                }

                let data = bytes_slice(&bytes, 1, n);
                proof {
                    assert(bytes_view(data) =~= bytes_view(bytes).skip(1));
                }
                if bytes_len(&data) == 0 && padding_bits != 0 {
                    return Err(
                        err(ErrorCode::InvalidASN1Object, "Empty BIT STRING with non-zero padding"),
                    );
                }

                if bytes_len(&data) > 0 {
                    let last = bytes_get(&data, bytes_len(&data) - 1);
                    proof {
                        assert(1u8 << padding_bits >= 1) by (bit_vector)
                            requires
                                padding_bits <= 7,
                        ;
                    }
                    let mask = (1u8 << padding_bits) - 1;
                    proof {
                        assert(bytes_view(data).last() == bytes_view(bytes).last());
                    }
                    if (last & mask) != 0 {
                        return Err(
                            err(ErrorCode::InvalidASN1Object, "BIT STRING unused bits must be zero"),
                        );
                    }
                }

                Ok(ASN1BitString { bytes: data, padding_bits })
            },
            Content::Constructed(_) => Err(
                err(ErrorCode::UnexpectedFieldType, "DER BIT STRING must be primitive"),
            ),
        }
    }
}

impl BERParseable for ASN1BitString {
    fn from_ber_node(node: ASN1Node) -> (r: Result<Self, ASN1Error>)
        ensures
            !node.spec_is_constructed() ==> spec_bit_string_from_ber_prim(
                node,
                universal_id(0x03),
                r,
            ),
            node.spec_is_constructed() ==> spec_bit_string_from_ber_constructed(
                node,
                universal_id(0x03),
                r,
            ),
            match r {
                Ok(v) => node.identifier == universal_id(0x03) && v.padding_bits <= 7,
                Err(e) => node.identifier != universal_id(0x03) ==> e.spec_code()
                    == ErrorCode::UnexpectedFieldType,
            },
        decreases node_size(node), 1int,
    {
        Self::from_ber_node_with_identifier(node, ASN1BitString::default_identifier())
    }
}

impl BERSerializable for ASN1BitString {

}

impl BERImplicitlyTaggable for ASN1BitString {
    /// Under BER a primitive BIT STRING accepts any unused-bit values, and
    /// a constructed one concatenates its children's octets; only the last
    /// child may carry non-zero padding.
    fn from_ber_node_with_identifier(node: ASN1Node, identifier: ASN1Identifier) -> (r: Result<
        Self,
        ASN1Error,
    >)
        ensures
            !node.spec_is_constructed() ==> spec_bit_string_from_ber_prim(node, identifier, r),
            node.spec_is_constructed() ==> spec_bit_string_from_ber_constructed(
                node,
                identifier,
                r,
            ),
            match r {
                Ok(v) => node.identifier == identifier && v.padding_bits <= 7,
                Err(e) => node.identifier != identifier ==> e.spec_code()
                    == ErrorCode::UnexpectedFieldType,
            },
        decreases node_size(node), 0int,
    {
        if node.identifier != identifier {
            return Err(err(ErrorCode::UnexpectedFieldType, "Unexpected field type"));
        }
        match node.content {
            Content::Primitive(bytes) => {
                let n = bytes_len(&bytes);
                if n == 0 {
                    return Err(err(ErrorCode::InvalidASN1Object, "Empty BIT STRING content"));
                }
                let padding_bits = bytes_get(&bytes, 0);
                if padding_bits > 7 {
                    return Err(err(ErrorCode::InvalidASN1Object, "Invalid padding bits"));
                }
                let data = bytes_slice(&bytes, 1, n);
                proof {
                    assert(bytes_view(data) =~= bytes_view(bytes).skip(1));
                }
                Ok(ASN1BitString { bytes: data, padding_bits })
            },
            Content::Constructed(collection) => {
                let ghost c = collection;
                let ghost ns = collection.spec_nodes();
                let ghost total = spec_bit_segments(
                    ns,
                    c.spec_start() as int,
                    c.spec_end() as int,
                );
                let mut iter = collection.into_iter();
                let mut result_bits: Vec<u8> = Vec::new();
                let mut total_padding: u8 = 0;
                loop
                    invariant
                        iter.wf(),
                        iter.spec_nodes() == ns,
                        ns == c.spec_nodes(),
                        iter.spec_end() == c.spec_end(),
                        iter.spec_start() >= c.spec_start(),
                        c.spec_start() <= c.spec_end(),
                        node.identifier == identifier,
                        node.content == Content::Constructed(c),
                        total_padding <= 7,
                        total == spec_bit_segments(
                            ns,
                            c.spec_start() as int,
                            c.spec_end() as int,
                        ),
                        total == (match spec_bit_segments_from(
                            ns,
                            iter.spec_start() as int,
                            iter.spec_end() as int,
                            total_padding,
                        ) {
                            Ok(t) => Ok::<(Seq<u8>, u8), ErrorCode>((result_bits@ + t.0, t.1)),
                            Err(code) => Err(code),
                        }),
                    ensures
                        iter.spec_start() >= iter.spec_end(),
                        total == Ok::<(Seq<u8>, u8), ErrorCode>((result_bits@, total_padding)),
                    decreases iter.spec_end() - iter.spec_start(),
                {
                    let ghost i = iter.spec_start() as int;
                    let ghost p = total_padding;
                    let next = iter.next();
                    match next {
                        None => {
                            proof {
                                assert(result_bits@ + Seq::<u8>::empty() =~= result_bits@);
                            }
                            break ;
                        },
                        Some(child) => {
                            proof {
                                assert(node_size(child) < node_size(node));
                            }
                            let ghost se = iter.spec_start() as int;
                            match ASN1BitString::from_ber_node(child) {
                                Ok(part) => {
                                    proof {
                                        if ns[i].is_constructed {
                                            assert(child.content matches Content::Constructed(c2)
                                                && c2.spec_nodes() == ns && c2.spec_start() == i + 1
                                                && c2.spec_end() == se);
                                            assert(spec_bit_segments_from(ns, i + 1, se, 0)
                                                == Ok::<(Seq<u8>, u8), ErrorCode>(
                                                (bytes_view(part.bytes), part.padding_bits),
                                            ));
                                        }
                                    }
                                    if total_padding != 0 {
                                        proof {
                                            assert(spec_bit_segments_from(
                                                ns,
                                                i,
                                                c.spec_end() as int,
                                                p,
                                            ) == Err::<(Seq<u8>, u8), ErrorCode>(
                                                ErrorCode::InvalidASN1Object,
                                            ));
                                        }
                                        return Err(
                                            err(
                                                ErrorCode::InvalidASN1Object,
                                                "Only the last segment of a constructed BIT STRING may have non-zero padding",
                                            ),
                                        );
                                    }
                                    let ghost pre = result_bits@;
                                    let mut part_vec = crate::trusted::bytes_to_vec(&part.bytes);
                                    result_bits.append(&mut part_vec);
                                    total_padding = part.padding_bits;
                                    proof {
                                        assert(result_bits@ =~= pre + bytes_view(part.bytes));
                                        if spec_bit_segments_from(
                                            ns,
                                            se,
                                            c.spec_end() as int,
                                            part.padding_bits,
                                        ) is Ok {
                                            let t2 = spec_bit_segments_from(
                                                ns,
                                                se,
                                                c.spec_end() as int,
                                                part.padding_bits,
                                            )->Ok_0;
                                            assert(spec_bit_segments_from(
                                                ns,
                                                i,
                                                c.spec_end() as int,
                                                p,
                                            ) == Ok::<(Seq<u8>, u8), ErrorCode>(
                                                (bytes_view(part.bytes) + t2.0, t2.1),
                                            ));
                                            assert(pre + (bytes_view(part.bytes) + t2.0)
                                                =~= result_bits@ + t2.0);
                                        }
                                    }
                                },
                                Err(e) => {
                                    proof {
                                        if ns[i].is_constructed && ns[i].identifier == universal_id(
                                            0x03,
                                        ) {
                                            assert(child.content matches Content::Constructed(c2)
                                                && c2.spec_nodes() == ns && c2.spec_start() == i + 1
                                                && c2.spec_end() == se);
                                            assert(spec_bit_segments_from(ns, i + 1, se, 0)
                                                == Err::<(Seq<u8>, u8), ErrorCode>(e.spec_code()));
                                        }
                                        assert(spec_bit_segments_from(
                                            ns,
                                            i,
                                            c.spec_end() as int,
                                            p,
                                        ) == Err::<(Seq<u8>, u8), ErrorCode>(e.spec_code()));
                                    }
                                    return Err(e);
                                },
                            }
                        },
                    }
                }
                Ok(ASN1BitString { bytes: bytes_from_vec(result_bits), padding_bits: total_padding })
            },
        }
    }
}

/// Round trip on DER BIT STRING content: the padding octet the decoder
/// stripped, put back before the data octets, is exactly the content it
/// accepted.
pub proof fn lemma_bit_string_round_trip(
    node: ASN1Node,
    identifier: ASN1Identifier,
    r: Result<ASN1BitString, ASN1Error>,
)
    requires
        spec_bit_string_from_der(node, identifier, r),
        r matches Ok(_),
    ensures
        node.content matches Content::Primitive(b) && seq![r->Ok_0.padding_bits] + bytes_view(
            r->Ok_0.bytes,
        ) == bytes_view(b),
{
    let v = r->Ok_0;
    match node.content {
        Content::Primitive(b) => {
            assert(seq![v.padding_bits] + bytes_view(v.bytes) =~= bytes_view(b));
        },
        Content::Constructed(_) => {},
    }
}

/// Any bit string a DER decode accepts, a BER decode of the same node
/// accepts with the same octets and padding: BER's reading extends DER's.
pub proof fn lemma_ber_bit_string_extends_der(
    node: ASN1Node,
    identifier: ASN1Identifier,
    rd: Result<ASN1BitString, ASN1Error>,
    rb: Result<ASN1BitString, ASN1Error>,
)
    requires
        spec_bit_string_from_der(node, identifier, rd),
        !node.spec_is_constructed() ==> spec_bit_string_from_ber_prim(node, identifier, rb),
        rd matches Ok(_),
    ensures
        rb matches Ok(v) && rd matches Ok(w) && bytes_view(v.bytes) == bytes_view(w.bytes)
            && v.padding_bits == w.padding_bits,
{
}

} // verus!
