use vstd::prelude::*;
use std::sync::Arc;
use bytes::{Bytes, BytesMut};
use crate::asn1::{
    wf_node, ASN1Node, ASN1NodeCollection, ASN1NodeCollectionIterator, Content, EncodingRules,
    ParseResult, ParserNode,
};
use crate::asn1_types::identifier::{spec_class_flags, ASN1Identifier};
use crate::encoding::{
    encoded_tlv, id_header_bytes, length_field_bytes, min_be_bytes, pow256, vlq_encode, vlq_prefix,
};
use crate::errors::{err, ASN1Error, ErrorCode};
use crate::trusted::{
    bytes_as_slice, bytes_copy_from_slice, bytes_view, bytesmut_extend, bytesmut_freeze,
    bytesmut_new, bytesmut_view,
};

verus! {

/// A value that can be read from one DER node. The node-level rules each
/// type enforces stand in the `ensures` of its own implementation.
pub trait DERParseable: Sized {
    fn from_der_node(node: ASN1Node) -> Result<Self, ASN1Error>
        requires
            node.wf(),
    ;

    /// Takes the next node from the cursor and decodes it: an exhausted
    /// cursor is an error of kind `InvalidASN1Object`; otherwise exactly
    /// the next logical node is consumed and the result is its decode.
    fn from_der_iterator(iter: &mut ASN1NodeCollectionIterator) -> (r: Result<Self, ASN1Error>)
        requires
            old(iter).wf(),
        ensures
            final(iter).wf(),
            final(iter).spec_nodes() == old(iter).spec_nodes(),
            final(iter).spec_end() == old(iter).spec_end(),
            final(iter).spec_start() >= old(iter).spec_start(),
        default_ensures
            old(iter).spec_start() >= old(iter).spec_end() ==> (r matches Err(e) && e.spec_code()
                == ErrorCode::InvalidASN1Object && final(iter).spec_start() == old(
                iter,
            ).spec_start()),
            old(iter).spec_start() < old(iter).spec_end() ==> final(iter).spec_start() as int
                == crate::asn1::spec_subtree_end(
                old(iter).spec_nodes(),
                old(iter).spec_start() as int,
                old(iter).spec_end() as int,
            ) && (exists|nd: ASN1Node|
                {
                    &&& crate::asn1::node_at(
                        old(iter).spec_nodes(),
                        old(iter).spec_start() as int,
                        final(iter).spec_start() as int,
                        nd,
                    )
                    &&& nd.wf()
                    &&& #[trigger] call_ensures(Self::from_der_node, (nd,), r)
                }),
    {
        let next = iter.next();
        match next {
            Some(node) => {
                let ghost nd = node;
                let out = Self::from_der_node(node);
                proof {
                    assert(call_ensures(Self::from_der_node, (nd,), out));
                }
                out
            },
            None => Err(
                err(ErrorCode::InvalidASN1Object, "Unable to decode, no ASN.1 nodes to decode"),
            ),
        }
    }

    /// Parses the whole input under DER and decodes its single root node:
    /// a parse failure surfaces with its kind, and otherwise the result is
    /// the decode of exactly the parsed root.
    fn from_der_bytes(bytes: &[u8]) -> (r: Result<Self, ASN1Error>)
        default_ensures
            match crate::asn1::spec_parse(bytes@, EncodingRules::Distinguished) {
                Err(c) => r matches Err(e) && e.spec_code() == c,
                Ok(ms) => exists|nd: ASN1Node|
                    {
                        &&& crate::asn1::spec_root_node(ms, nd)
                        &&& nd.wf()
                        &&& #[trigger] call_ensures(Self::from_der_node, (nd,), r)
                    },
            },
    {
        let node = match parse(bytes) {
            Ok(n) => n,
            Err(e) => {
                return Err(e);
            },
        };
        let ghost nd = node;
        let out = Self::from_der_node(node);
        proof {
            assert(call_ensures(Self::from_der_node, (nd,), out));
        }
        out
    }
}

/// A value that can be appended to a serializer buffer. Every
/// implementation only ever appends — the octets already in the buffer
/// stay — and a failed serialization leaves the buffer untouched.
pub trait DERSerializable {
    fn serialize(&self, serializer: &mut Serializer) -> (r: Result<(), ASN1Error>)
        ensures
            final(serializer).spec_buffer().take(old(serializer).spec_buffer().len() as int)
                == old(serializer).spec_buffer(),
            r matches Err(_) ==> final(serializer).spec_buffer() == old(serializer).spec_buffer(),
    ;
}

/// A type with a canonical identifier, which implicit tagging may override
/// without changing the content rules.
pub trait DERImplicitlyTaggable: DERParseable + DERSerializable {
    /// The canonical identifier at the specification level. Every
    /// implementation in this crate overrides it; the default body stands
    /// only for implementations outside the library, which are unverified.
    open spec fn spec_default_identifier() -> ASN1Identifier {
        crate::asn1_types::identifier::universal_id(0)
    }

    fn default_identifier() -> (r: ASN1Identifier)
        ensures
            r == Self::spec_default_identifier(),
    ;

    fn from_der_node_with_identifier(node: ASN1Node, identifier: ASN1Identifier) -> Result<
        Self,
        ASN1Error,
    >
        requires
            node.wf(),
    ;
}

/// Parses the input under DER: exactly one root node, with nothing after
/// its encoding. The returned node is exactly the root of the spec-level
/// parse of the input, and each rule violation surfaces with its kind.
pub fn parse(data: &[u8]) -> (r: Result<ASN1Node, ASN1Error>)
    ensures
        r matches Ok(n) ==> n.wf() && bytes_view(n.encoded_bytes) == data@,
        match crate::asn1::spec_parse(data@, EncodingRules::Distinguished) {
            Ok(ms) => r matches Ok(n) && crate::asn1::spec_root_node(ms, n),
            Err(c) => r matches Err(e) && e.spec_code() == c,
        },
{
    let bytes = bytes_copy_from_slice(data);
    let result = match ParseResult::parse(bytes, EncodingRules::Distinguished) {
        Ok(pr) => pr,
        Err(e) => {
            return Err(e);
        },
    };

    if result.nodes.len() == 0 {
        return Err(err(ErrorCode::InvalidASN1Object, "No ASN.1 nodes parsed"));
    }

    let ghost nodes_seq = result.nodes@;
    let ghost ms = crate::asn1::spec_parse(data@, EncodingRules::Distinguished)->Ok_0;
    proof {
        crate::asn1::lemma_spec_parse_node_shape(
            data@,
            EncodingRules::Distinguished,
            1,
            crate::asn1::MAXIMUM_NODE_COUNT as int,
        );
        assert(crate::asn1::models_of(nodes_seq) == ms);
        let t = crate::asn1::spec_parse_node(
            data@,
            EncodingRules::Distinguished,
            1,
            crate::asn1::MAXIMUM_NODE_COUNT as int,
        )->Ok_0;
        assert(ms == t.0);
        assert forall|i: int| 1 <= i < nodes_seq.len() implies #[trigger] nodes_seq[i].depth
            > 1 by {
            assert(crate::asn1::model_of(nodes_seq[i]) == ms[i]);
            assert(t.0[i].depth > 1);
        }
        assert(crate::asn1::model_of(nodes_seq[0]) == ms[0]);
    }
    let root_depth = result.nodes[0].depth;
    let total = result.nodes.len();
    let nodes_arc = Arc::new(result.nodes);

    let nodes_ref = crate::trusted::arc_vec_ref(&nodes_arc);
    let mut end_index: usize = 1;
    while end_index < total
        invariant
            nodes_ref@ == nodes_seq,
            nodes_arc@ == nodes_seq,
            total == nodes_seq.len(),
            1 <= end_index <= total,
            forall|i: int| 0 <= i < nodes_seq.len() ==> wf_node(#[trigger] nodes_seq[i]),
            root_depth == nodes_seq[0].depth,
        ensures
            1 <= end_index <= total,
            end_index == total || nodes_seq[end_index as int].depth <= root_depth,
        decreases total - end_index,
    {
        if nodes_ref[end_index].depth <= root_depth {
            break ;
        }
        end_index += 1;
    }

    if end_index != total {
        proof {
            assert(nodes_seq[end_index as int].depth > 1);
            assert(false);
        }
        return Err(
            err(ErrorCode::InvalidASN1Object, "ASN1ParseResult unexpectedly allowed multiple root nodes"),
        );
    }

    let first = &nodes_ref[0];
    let identifier = first.identifier;
    let encoded_bytes = first.encoded_bytes.clone();
    if first.is_constructed {
        let collection = ASN1NodeCollection::new(
            crate::trusted::arc_vec_clone(&nodes_arc),
            1,
            end_index,
            root_depth,
        );
        Ok(ASN1Node { identifier, content: Content::Constructed(collection), encoded_bytes })
    } else {
        match &first.data_bytes {
            Some(db) => {
                proof {
                    assert(Some(bytes_view(*db)) == ms[0].data);
                }
                Ok(
                    ASN1Node {
                        identifier,
                        content: Content::Primitive(db.clone()),
                        encoded_bytes,
                    },
                )
            },
            None => vstd::pervasive::unreached(),
        }
    }
}

/// The builder was run on the full child cursor of `c`, produced `t`, and
/// handed back an exhausted cursor.
pub open spec fn builder_consumed_all<T, F: FnOnce(ASN1NodeCollectionIterator) -> Result<
    (T, ASN1NodeCollectionIterator),
    ASN1Error,
>>(builder: F, c: ASN1NodeCollection, t: T) -> bool {
    exists|it0: ASN1NodeCollectionIterator, it2: ASN1NodeCollectionIterator|
        {
            &&& it0.spec_nodes() == c.spec_nodes()
            &&& it0.spec_start() == c.spec_start()
            &&& it0.spec_end() == c.spec_end()
            &&& #[trigger] call_ensures(builder, (it0,), Ok((t, it2)))
            &&& it2.spec_start() >= it2.spec_end()
        }
}

/// The builder itself failed with `e` on the full child cursor of `c`.
pub open spec fn builder_returned_err<T, F: FnOnce(ASN1NodeCollectionIterator) -> Result<
    (T, ASN1NodeCollectionIterator),
    ASN1Error,
>>(builder: F, c: ASN1NodeCollection, e: ASN1Error) -> bool {
    exists|it0: ASN1NodeCollectionIterator|
        {
            &&& it0.spec_nodes() == c.spec_nodes()
            &&& it0.spec_start() == c.spec_start()
            &&& it0.spec_end() == c.spec_end()
            &&& #[trigger] call_ensures(
                builder,
                (it0,),
                Err::<(T, ASN1NodeCollectionIterator), ASN1Error>(e),
            )
        }
}

/// The builder ran on the full child cursor of `c` but left nodes behind.
pub open spec fn builder_left_nodes<T, F: FnOnce(ASN1NodeCollectionIterator) -> Result<
    (T, ASN1NodeCollectionIterator),
    ASN1Error,
>>(builder: F, c: ASN1NodeCollection) -> bool {
    exists|t: T, it0: ASN1NodeCollectionIterator, it2: ASN1NodeCollectionIterator|
        {
            &&& it0.spec_nodes() == c.spec_nodes()
            &&& it0.spec_start() == c.spec_start()
            &&& it0.spec_end() == c.spec_end()
            &&& #[trigger] call_ensures(builder, (it0,), Ok((t, it2)))
            &&& it2.spec_start() < it2.spec_end()
        }
}

/// Decodes a constructed node with the expected identifier by handing its
/// child cursor to `builder`; whatever `builder` leaves unconsumed is an
/// error. On success the result came from `builder` on the full child
/// cursor, and that cursor ended exhausted; a failure is the identifier
/// or shape mismatch, the builder's own error, or leftover children.
pub fn sequence<T, F: FnOnce(ASN1NodeCollectionIterator) -> Result<
    (T, ASN1NodeCollectionIterator),
    ASN1Error,
>>(node: ASN1Node, identifier: ASN1Identifier, builder: F) -> (r: Result<T, ASN1Error>)
    requires
        node.wf(),
        forall|it: ASN1NodeCollectionIterator| it.wf() ==> #[trigger] call_requires(builder, (it,)),
        forall|it: ASN1NodeCollectionIterator, t: T, it2: ASN1NodeCollectionIterator|
            #[trigger] call_ensures(builder, (it,), Ok((t, it2))) && it.wf() ==> it2.wf(),
    ensures
        match r {
            Ok(t) => node.identifier == identifier && (node.content matches Content::Constructed(
                c,
            ) && builder_consumed_all(builder, c, t)),
            Err(e) => {
                &&& node.identifier != identifier ==> e.spec_code()
                    == ErrorCode::UnexpectedFieldType
                &&& node.identifier == identifier && !node.spec_is_constructed() ==> e.spec_code()
                    == ErrorCode::UnexpectedFieldType
                &&& node.identifier == identifier && node.spec_is_constructed() ==> (node.content
                    matches Content::Constructed(c) && (builder_returned_err::<T, F>(
                    builder,
                    c,
                    e,
                ) || (builder_left_nodes::<T, F>(builder, c) && e.spec_code()
                    == ErrorCode::InvalidASN1Object)))
            },
        },
{
    if node.identifier != identifier {
        return Err(err(ErrorCode::UnexpectedFieldType, "Unexpected field type"));
    }
    match node.content {
        Content::Constructed(collection) => {
            let ghost c = collection;
            let iter = collection.into_iter();
            let ghost it0 = iter;
            match builder(iter) {
                Ok(p) => {
                    let (result, mut rest) = p;
                    let ghost it_ret = rest;
                    proof {
                        assert(call_ensures(builder, (it0,), Ok((result, it_ret))));
                        assert(it0.wf());
                        assert(it_ret.wf());
                    }
                    if rest.next().is_some() {
                        proof {
                            assert(builder_left_nodes::<T, F>(builder, c));
                        }
                        return Err(err(ErrorCode::InvalidASN1Object, "Unconsumed sequence nodes"));
                    }
                    proof {
                        assert(builder_consumed_all(builder, c, result));
                    }
                    Ok(result)
                },
                Err(e) => {
                    proof {
                        assert(builder_returned_err::<T, F>(builder, c, e));
                    }
                    Err(e)
                },
            }
        },
        Content::Primitive(_) => Err(err(ErrorCode::UnexpectedFieldType, "Unexpected field type")),
    }
}

/// The `k`-th logical child of the window decodes, by `T`'s own node
/// decoder, to `rr`.
pub open spec fn nth_child_decodes<T: DERParseable>(
    ns: Seq<ParserNode>,
    start: int,
    end: int,
    k: int,
    rr: Result<T, ASN1Error>,
) -> bool {
    exists|nd: ASN1Node|
        {
            &&& crate::asn1::node_at(
                ns,
                crate::asn1::spec_nth_child_start(ns, start, end, k),
                crate::asn1::spec_subtree_end(
                    ns,
                    crate::asn1::spec_nth_child_start(ns, start, end, k),
                    end,
                ),
                nd,
            )
            &&& nd.wf()
            &&& #[trigger] call_ensures(T::from_der_node, (nd,), rr)
        }
}

/// A run of children failed: the first `k` decoded to the elements of
/// `pre`, and the `k`-th failed with `e`.
pub open spec fn children_decode_failed<T: DERParseable>(
    ns: Seq<ParserNode>,
    start: int,
    end: int,
    e: ASN1Error,
) -> bool {
    exists|k: int, pre: Seq<T>|
        {
            &&& 0 <= k
            &&& #[trigger] pre.len() == k
            &&& (forall|i: int|
                0 <= i < k ==> nth_child_decodes::<T>(
                    ns,
                    start,
                    end,
                    i,
                    Ok(#[trigger] pre[i]),
                ))
            &&& #[trigger] nth_child_decodes::<T>(ns, start, end, k, Err(e))
        }
}

/// Decodes a constructed node with the expected identifier as a sequence of
/// elements: element `k` is the decode of the window's `k`-th logical
/// child, and the first failing child's error is the result.
pub fn sequence_of<T: DERParseable>(identifier: ASN1Identifier, root_node: ASN1Node) -> (r: Result<
    Vec<T>,
    ASN1Error,
>)
    requires
        root_node.wf(),
    ensures
        match r {
            Ok(v) => root_node.identifier == identifier && (root_node.content matches
                Content::Constructed(c) && v@.len() == crate::asn1::spec_child_count(
                c.spec_nodes(),
                c.spec_start() as int,
                c.spec_end() as int,
            ) && (forall|k: int|
                0 <= k < v@.len() ==> nth_child_decodes::<T>(
                    c.spec_nodes(),
                    c.spec_start() as int,
                    c.spec_end() as int,
                    k,
                    Ok(#[trigger] v@[k]),
                ))),
            Err(e) => {
                &&& root_node.identifier != identifier ==> e.spec_code()
                    == ErrorCode::UnexpectedFieldType
                &&& root_node.identifier == identifier && !root_node.spec_is_constructed()
                    ==> e.spec_code() == ErrorCode::UnexpectedFieldType
                &&& root_node.identifier == identifier && root_node.spec_is_constructed() ==> (
                root_node.content matches Content::Constructed(c) && children_decode_failed::<T>(
                    c.spec_nodes(),
                    c.spec_start() as int,
                    c.spec_end() as int,
                    e,
                ))
            },
        },
{
    if root_node.identifier != identifier {
        return Err(err(ErrorCode::UnexpectedFieldType, "Unexpected field type"));
    }
    match root_node.content {
        Content::Constructed(collection) => {
            let ghost c = collection;
            let ghost ns = collection.spec_nodes();
            let ghost cs = collection.spec_start() as int;
            let ghost ce = collection.spec_end() as int;
            let ghost total = crate::asn1::spec_child_count(ns, cs, ce);
            let mut iter = collection.into_iter();
            let mut results: Vec<T> = Vec::new();
            loop
                invariant
                    iter.wf(),
                    iter.spec_nodes() == ns,
                    ns == c.spec_nodes(),
                    iter.spec_end() == ce,
                    ce == c.spec_end(),
                    cs == c.spec_start(),
                    cs <= iter.spec_start(),
                    root_node.identifier == identifier,
                    root_node.content == Content::Constructed(c),
                    total == crate::asn1::spec_child_count(ns, cs, ce),
                    iter.spec_start() as int == crate::asn1::spec_nth_child_start(
                        ns,
                        cs,
                        ce,
                        results@.len() as int,
                    ),
                    crate::asn1::spec_child_count(ns, iter.spec_start() as int, ce)
                        + results@.len() == total,
                    forall|k: int|
                        0 <= k < results@.len() ==> nth_child_decodes::<T>(
                            ns,
                            cs,
                            ce,
                            k,
                            Ok(#[trigger] results@[k]),
                        ),
                ensures
                    results@.len() == total,
                    forall|k: int|
                        0 <= k < results@.len() ==> nth_child_decodes::<T>(
                            ns,
                            cs,
                            ce,
                            k,
                            Ok(#[trigger] results@[k]),
                        ),
                decreases ce - iter.spec_start(),
            {
                let ghost k = results@.len() as int;
                let next = iter.next();
                match next {
                    None => {
                        break ;
                    },
                    Some(n) => {
                        let ghost nd = n;
                        let inner = T::from_der_node(n);
                        proof {
                            assert(call_ensures(T::from_der_node, (nd,), inner));
                            assert(crate::asn1::spec_nth_child_start(ns, cs, ce, k + 1)
                                == iter.spec_start() as int);
                        }
                        match inner {
                            Ok(v) => {
                                results.push(v);
                                proof {
                                    assert(nth_child_decodes::<T>(ns, cs, ce, k, Ok(v)));
                                }
                            },
                            Err(e) => {
                                proof {
                                    assert(nth_child_decodes::<T>(ns, cs, ce, k, Err(e)));
                                    assert(children_decode_failed::<T>(ns, cs, ce, e));
                                }
                                return Err(e);
                            },
                        }
                    },
                }
            }
            Ok(results)
        },
        Content::Primitive(_) => Err(err(ErrorCode::UnexpectedFieldType, "Unexpected field type")),
    }
}

/// The content writer itself failed with `e`, on a fresh empty buffer.
pub open spec fn content_writer_failed<F: FnOnce(Vec<u8>) -> Result<Vec<u8>, ASN1Error>>(
    f: F,
    e: ASN1Error,
) -> bool {
    exists|vx: Vec<u8>|
        vx@ == Seq::<u8>::empty() && #[trigger] call_ensures(f, (vx,), Err::<Vec<u8>, ASN1Error>(e))
}

/// The nested writer itself failed with `e`, on a fresh empty serializer.
pub open spec fn nested_writer_failed<F: FnOnce(Serializer) -> Result<Serializer, ASN1Error>>(
    f: F,
    e: ASN1Error,
) -> bool {
    exists|sx: Serializer|
        sx.spec_buffer() == Seq::<u8>::empty() && #[trigger] call_ensures(
            f,
            (sx,),
            Err::<Serializer, ASN1Error>(e),
        )
}

/// Builds DER output: append-only, finalized into an owned byte sequence.
pub struct Serializer {
    buffer: BytesMut,
}

impl Serializer {
    /// The octets written so far.
    pub closed spec fn spec_buffer(&self) -> Seq<u8> {
        bytesmut_view(self.buffer)
    }

    pub fn new() -> (r: Self)
        ensures
            r.spec_buffer() == Seq::<u8>::empty(),
    {
        Serializer { buffer: bytesmut_new() }
    }

    /// The octets written so far, as an owned byte sequence.
    pub fn serialized_bytes(&self) -> (r: Bytes)
        ensures
            bytes_view(r) == self.spec_buffer(),
    {
        bytesmut_freeze(self.buffer.clone())
    }

    /// Appends one primitive node: the expected identifier and a writer
    /// that fills the content octets.
    pub fn append_primitive_node<F: FnOnce(Vec<u8>) -> Result<Vec<u8>, ASN1Error>>(
        &mut self,
        identifier: ASN1Identifier,
        content_writer: F,
    ) -> (r: Result<(), ASN1Error>)
        requires
            forall|v: Vec<u8>| v@ == Seq::<u8>::empty() ==> #[trigger] call_requires(
                content_writer,
                (v,),
            ),
        ensures
            final(self).spec_buffer().take(old(self).spec_buffer().len() as int) == old(
                self,
            ).spec_buffer(),
            r matches Ok(_) ==> exists|v: Vec<u8>, content: Vec<u8>|
                {
                    &&& v@ == Seq::<u8>::empty()
                    &&& #[trigger] call_ensures(content_writer, (v,), Ok(content))
                    &&& final(self).spec_buffer() == old(self).spec_buffer() + encoded_tlv(
                        identifier,
                        false,
                        content@,
                    )
                },
            r matches Err(e) ==> final(self).spec_buffer() == old(self).spec_buffer()
                && content_writer_failed(content_writer, e),
    {
        let buf: Vec<u8> = Vec::new();
        let ghost v0 = buf;
        match content_writer(buf) {
            Ok(content) => {
                let res = self.append_node(identifier, false, content.as_slice());
                proof {
                    assert(call_ensures(content_writer, (v0,), Ok(content)));
                }
                res
            },
            Err(e) => {
                proof {
                    assert(call_ensures(content_writer, (v0,), Err::<Vec<u8>, ASN1Error>(e)));
                    assert(content_writer_failed(content_writer, e));
                }
                Err(e)
            },
        }
    }

    /// Appends one constructed node: the expected identifier and a writer
    /// that fills a nested serializer with the children.
    pub fn append_constructed_node<F: FnOnce(Serializer) -> Result<Serializer, ASN1Error>>(
        &mut self,
        identifier: ASN1Identifier,
        writer: F,
    ) -> (r: Result<(), ASN1Error>)
        requires
            forall|s: Serializer| s.spec_buffer() == Seq::<u8>::empty() ==> #[trigger] call_requires(
                writer,
                (s,),
            ),
        ensures
            final(self).spec_buffer().take(old(self).spec_buffer().len() as int) == old(
                self,
            ).spec_buffer(),
            r matches Ok(_) ==> exists|s: Serializer, nested: Serializer|
                {
                    &&& s.spec_buffer() == Seq::<u8>::empty()
                    &&& #[trigger] call_ensures(writer, (s,), Ok(nested))
                    &&& final(self).spec_buffer() == old(self).spec_buffer() + encoded_tlv(
                        identifier,
                        true,
                        nested.spec_buffer(),
                    )
                },
            r matches Err(e) ==> final(self).spec_buffer() == old(self).spec_buffer()
                && nested_writer_failed(writer, e),
    {
        let fresh = Serializer::new();
        let ghost s0 = fresh;
        match writer(fresh) {
            Ok(nested) => {
                let content = nested.serialized_bytes();
                let res = self.append_node(identifier, true, bytes_as_slice(&content));
                proof {
                    assert(call_ensures(writer, (s0,), Ok(nested)));
                }
                res
            },
            Err(e) => {
                proof {
                    assert(call_ensures(writer, (s0,), Err::<Serializer, ASN1Error>(e)));
                    assert(nested_writer_failed(writer, e));
                }
                Err(e)
            },
        }
    }

    /// Appends one SEQUENCE node whose children the writer fills.
    pub fn write_sequence<F: FnOnce(Serializer) -> Result<Serializer, ASN1Error>>(
        &mut self,
        writer: F,
    ) -> (r: Result<(), ASN1Error>)
        requires
            forall|s: Serializer| s.spec_buffer() == Seq::<u8>::empty() ==> #[trigger] call_requires(
                writer,
                (s,),
            ),
        ensures
            final(self).spec_buffer().take(old(self).spec_buffer().len() as int) == old(
                self,
            ).spec_buffer(),
            r matches Ok(_) ==> exists|s: Serializer, nested: Serializer|
                {
                    &&& s.spec_buffer() == Seq::<u8>::empty()
                    &&& #[trigger] call_ensures(writer, (s,), Ok(nested))
                    &&& final(self).spec_buffer() == old(self).spec_buffer() + encoded_tlv(
                        crate::asn1_types::identifier::universal_id(0x10),
                        true,
                        nested.spec_buffer(),
                    )
                },
            r matches Err(e) ==> final(self).spec_buffer() == old(self).spec_buffer()
                && nested_writer_failed(writer, e),
    {
        self.append_constructed_node(ASN1Identifier::sequence(), writer)
    }

    /// Appends a value through its own serializer implementation; a failed
    /// serialization leaves the buffer untouched.
    pub fn serialize<T: DERSerializable>(&mut self, node: &T) -> (r: Result<(), ASN1Error>)
        ensures
            final(self).spec_buffer().take(old(self).spec_buffer().len() as int) == old(
                self,
            ).spec_buffer(),
            r matches Err(_) ==> final(self).spec_buffer() == old(self).spec_buffer(),
    {
        node.serialize(self)
    }

    /// Appends one full node: identifier octets, minimal length octets,
    /// then the content octets.
    pub(crate) fn append_node(
        &mut self,
        identifier: ASN1Identifier,
        constructed: bool,
        content: &[u8],
    ) -> (r: Result<(), ASN1Error>)
        ensures
            r matches Ok(_),
            final(self).spec_buffer() == old(self).spec_buffer() + encoded_tlv(
                identifier,
                constructed,
                content@,
            ),
    {
        let mut temp_vec: Vec<u8> = Vec::new();
        temp_vec.write_identifier(identifier, constructed);
        bytesmut_extend(&mut self.buffer, temp_vec.as_slice());

        let len_bytes = encode_length(content.len());
        bytesmut_extend(&mut self.buffer, len_bytes.as_slice());
        bytesmut_extend(&mut self.buffer, content);
        Ok(())
    }
}

/// Writing identifier octets onto a growing octet buffer.
pub trait IdentfierWriter where Self: View<V = Seq<u8>> {
    fn write_identifier(&mut self, identifier: ASN1Identifier, constructed: bool)
        ensures
            final(self)@ == old(self)@ + id_header_bytes(identifier, constructed),
    ;
}

impl IdentfierWriter for Vec<u8> {
    fn write_identifier(&mut self, identifier: ASN1Identifier, constructed: bool) {
        let flags = identifier.tag_class.top_byte_flags();
        proof {
            assert(flags == 0x00 || flags == 0x40 || flags == 0x80 || flags == 0xC0);
        }
        match identifier.short_form() {
            Some(short) => {
                let ghost t = identifier.tag_number as u8;
                let b = if constructed {
                    proof {
                        assert((t | flags) | 0x20 == t + flags + 0x20) by (bit_vector)
                            requires
                                t < 0x1F,
                                flags == 0x00 || flags == 0x40 || flags == 0x80 || flags == 0xC0,
                        ;
                    }
                    short | 0x20
                } else {
                    proof {
                        assert(t | flags == t + flags) by (bit_vector)
                            requires
                                t < 0x1F,
                                flags == 0x00 || flags == 0x40 || flags == 0x80 || flags == 0xC0,
                        ;
                    }
                    short
                };
                self.push(b);
                proof {
                    assert(id_header_bytes(identifier, constructed) =~= seq![b]);
                    assert(self@ =~= old(self)@ + id_header_bytes(identifier, constructed));
                }
            },
            None => {
                proof {
                    assert((0x3Fu8 | flags == 0x3F + flags) && (0x1Fu8 | flags == 0x1F + flags))
                        by (bit_vector)
                        requires
                            flags == 0x00 || flags == 0x40 || flags == 0x80 || flags == 0xC0,
                    ;
                    assert(0x1Fu8 | 0x20 == 0x3F) by (bit_vector);
                }
                let mut top_byte: u8 = 0x1f;
                if constructed {
                    top_byte = top_byte | 0x20;
                }
                top_byte = top_byte | flags;
                self.push(top_byte);
                let ghost mid = self@;
                proof {
                    assert(id_header_bytes(identifier, constructed) =~= seq![top_byte]
                        + crate::encoding::vlq_encode(identifier.tag_number as nat));
                }

                write_asn1_discipline_uint(self, identifier.tag_number);
                proof {
                    assert(self@ =~= old(self)@ + id_header_bytes(identifier, constructed));
                }
            },
        }
    }
}

/// Appends the canonical base-128 encoding of `n`.
pub fn write_asn1_discipline_uint(v: &mut Vec<u8>, n: u64)
    ensures
        final(v)@ == old(v)@ + vlq_encode(n as nat),
{
    if n == 0 {
        v.push(0);
        proof {
            assert(vlq_encode(0) =~= seq![0u8]);
            assert(v@ =~= old(v)@ + vlq_encode(0));
        }
        return ;
    }

    let mut prefix: Vec<u8> = Vec::new();
    let mut m: u64 = n / 128;
    while m != 0
        invariant
            vlq_prefix((n / 128) as nat) == vlq_prefix(m as nat) + prefix@,
        decreases m,
    {
        let ghost pre = prefix@;
        let digit: u8 = (m % 128 + 128) as u8;
        prefix.insert(0, digit);
        proof {
            assert(prefix@ =~= seq![digit] + pre);
            assert(vlq_prefix(m as nat) =~= vlq_prefix((m / 128) as nat) + seq![digit]);
            assert(vlq_prefix((m / 128) as nat) + prefix@ =~= vlq_prefix(m as nat) + pre);
        }
        m = m / 128;
    }
    proof {
        assert(vlq_prefix(0) =~= Seq::<u8>::empty());
        assert(vlq_prefix((n / 128) as nat) =~= prefix@);
    }
    let last: u8 = (n % 128) as u8;
    v.extend_from_slice(prefix.as_slice());
    v.push(last);
    proof {
        assert(v@ =~= old(v)@ + vlq_encode(n as nat));
    }
}

/// The DER length field: one octet up to 127, else an indicator octet and
/// the minimal big-endian value.
pub fn encode_length(len: usize) -> (r: Vec<u8>)
    ensures
        r@ == length_field_bytes(len as nat),
{
    if len <= 0x7F {
        let mut result: Vec<u8> = Vec::new();
        result.push(len as u8);
        proof {
            assert(result@ =~= length_field_bytes(len as nat));
        }
        result
    } else {
        let mut bytes: Vec<u8> = Vec::new();
        let mut l: usize = len;
        while l != 0
            invariant
                min_be_bytes(len as nat) == min_be_bytes(l as nat) + bytes@,
            decreases l,
        {
            let ghost pre = bytes@;
            let digit: u8 = (l % 256) as u8;
            bytes.insert(0, digit);
            proof {
                assert(bytes@ =~= seq![digit] + pre);
                assert(min_be_bytes(l as nat) =~= min_be_bytes((l / 256) as nat) + seq![digit]);
                assert(min_be_bytes((l / 256) as nat) + bytes@ =~= min_be_bytes(l as nat) + pre);
            }
            l = l / 256;
        }
        proof {
            assert(min_be_bytes(0) =~= Seq::<u8>::empty());
            assert(min_be_bytes(len as nat) =~= bytes@);
            lemma_min_be_bytes_len(len as nat);
        }
        let len_len: u8 = bytes.len() as u8;
        let indicator: u8 = 0x80u8 + len_len;
        let mut result: Vec<u8> = Vec::with_capacity(1 + bytes.len());
        result.push(indicator);
        result.extend_from_slice(bytes.as_slice());
        proof {
            assert(result@ =~= length_field_bytes(len as nat));
        }
        result
    }
}

/// A usize length takes at most eight octets in minimal big-endian form.
proof fn lemma_min_be_bytes_len(n: nat)
    requires
        n <= u64::MAX,
    ensures
        min_be_bytes(n).len() <= 8,
{
    assert(pow256(0) == 1);
    assert(pow256(1) == 256);
    assert(pow256(2) == 0x10000);
    assert(pow256(3) == 0x1000000);
    assert(pow256(4) == 0x100000000);
    assert(pow256(5) == 0x10000000000);
    assert(pow256(6) == 0x1000000000000);
    assert(pow256(7) == 0x100000000000000);
    assert(pow256(8) == 0x10000000000000000);
    lemma_min_be_bytes_len_le(n, 8);
}

proof fn lemma_min_be_bytes_len_le(n: nat, k: nat)
    requires
        n < pow256(k),
    ensures
        min_be_bytes(n).len() <= k,
    decreases k,
{
    if n > 0 {
        if k == 0 {
        } else {
            assert(pow256(k) == 256 * pow256((k - 1) as nat));
            let p = pow256((k - 1) as nat) as int;
            assert(n / 256 < p) by (nonlinear_arith)
                requires
                    0 <= n,
                    1 <= p,
                    n < 256 * p,
            ;
            lemma_min_be_bytes_len_le(n / 256, (k - 1) as nat);
        }
    }
}


/// What decoding a node as an integer narrowed to `[lo, hi]` yields: the
/// DER INTEGER rules, plus a distinct failure kind when the value does not
/// fit the target range.
pub open spec fn spec_bounded_integer_from_der(
    node: ASN1Node,
    identifier: ASN1Identifier,
    lo: int,
    hi: int,
    r: Result<int, ASN1Error>,
) -> bool {
    match r {
        Ok(v) => node.identifier == identifier && (node.content matches Content::Primitive(b)
            && crate::encoding::min_signed(bytes_view(b)) && v == crate::encoding::signed_be(
            bytes_view(b),
        ) && lo <= v <= hi),
        Err(e) => {
            ||| (node.identifier != identifier && e.spec_code() == ErrorCode::UnexpectedFieldType)
            ||| (node.identifier == identifier && node.spec_is_constructed() && e.spec_code()
                == ErrorCode::UnexpectedFieldType)
            ||| (node.identifier == identifier && (node.content matches Content::Primitive(b)
                && bytes_view(b).len() == 0 && e.spec_code() == ErrorCode::InvalidASN1Object))
            ||| (node.identifier == identifier && (node.content matches Content::Primitive(b)
                && bytes_view(b).len() >= 1 && !crate::encoding::min_signed(bytes_view(b))
                && e.spec_code() == ErrorCode::InvalidASN1IntegerEncoding))
            ||| (node.identifier == identifier && (node.content matches Content::Primitive(b)
                && crate::encoding::min_signed(bytes_view(b)) && !(lo <= crate::encoding::signed_be(
                bytes_view(b),
            ) <= hi) && e.spec_code() == ErrorCode::ValueOutOfRange))
        },
    }
}

impl DERParseable for bool {
    fn from_der_node(node: ASN1Node) -> (r: Result<Self, ASN1Error>)
        ensures
            crate::asn1_types::boolean::spec_boolean_from_der(
                node,
                crate::asn1_types::identifier::universal_id(0x01),
                match r {
                    Ok(v) => Ok(crate::asn1_types::ASN1Boolean(v)),
                    Err(e) => Err(e),
                },
            ),
    {
        match <Self as DERImplicitlyTaggable>::from_der_node_with_identifier(
            node,
            <Self as DERImplicitlyTaggable>::default_identifier(),
        ) {
            Ok(v) => Ok(v),
            Err(e) => Err(e),
        }
    }
}

impl DERSerializable for bool {
    fn serialize(&self, serializer: &mut Serializer) -> (r: Result<(), ASN1Error>)
        ensures
            r matches Ok(_) && final(serializer).spec_buffer() == old(serializer).spec_buffer()
                + encoded_tlv(
                crate::asn1_types::identifier::universal_id(0x01),
                false,
                crate::asn1_types::boolean::spec_boolean_content(*self),
            ),
    {
        crate::asn1_types::ASN1Boolean::from(*self).serialize(serializer)
    }
}

impl DERImplicitlyTaggable for bool {
    open spec fn spec_default_identifier() -> ASN1Identifier {
        crate::asn1_types::identifier::universal_id(0x01)
    }

    fn default_identifier() -> (r: ASN1Identifier)
        ensures
            r == crate::asn1_types::identifier::universal_id(0x01),
    {
        proof {
            assert(<bool as DERImplicitlyTaggable>::spec_default_identifier()
                == crate::asn1_types::identifier::universal_id(0x01));
        }
        ASN1Identifier::boolean()
    }

    fn from_der_node_with_identifier(node: ASN1Node, identifier: ASN1Identifier) -> (r: Result<
        Self,
        ASN1Error,
    >)
        ensures
            crate::asn1_types::boolean::spec_boolean_from_der(
                node,
                identifier,
                match r {
                    Ok(v) => Ok(crate::asn1_types::ASN1Boolean(v)),
                    Err(e) => Err(e),
                },
            ),
    {
        match crate::asn1_types::ASN1Boolean::from_der_node_with_identifier(node, identifier) {
            Ok(b) => Ok(b.0),
            Err(e) => Err(e),
        }
    }
}

impl DERParseable for String {
    fn from_der_node(node: ASN1Node) -> (r: Result<Self, ASN1Error>)
        ensures
            crate::asn1_types::strings::spec_utf8_string_from_der(
                node,
                crate::asn1_types::identifier::universal_id(0x0c),
                match r {
                    Ok(v) => Ok(crate::asn1_types::ASN1UTF8String(v)),
                    Err(e) => Err(e),
                },
            ),
    {
        match <Self as DERImplicitlyTaggable>::from_der_node_with_identifier(
            node,
            <Self as DERImplicitlyTaggable>::default_identifier(),
        ) {
            Ok(v) => Ok(v),
            Err(e) => Err(e),
        }
    }
}

impl DERSerializable for String {
    fn serialize(&self, serializer: &mut Serializer) -> (r: Result<(), ASN1Error>)
        ensures
            r matches Ok(_),
            exists|bs: Seq<u8>|
                {
                    &&& #[trigger] crate::trusted::utf8_decode(bs) == Some(self@)
                    &&& final(serializer).spec_buffer() == old(serializer).spec_buffer()
                        + encoded_tlv(
                        crate::asn1_types::identifier::universal_id(0x0c),
                        false,
                        bs,
                    )
                },
    {
        crate::asn1_types::ASN1UTF8String(self.clone()).serialize(serializer)
    }
}

impl DERImplicitlyTaggable for String {
    open spec fn spec_default_identifier() -> ASN1Identifier {
        crate::asn1_types::identifier::universal_id(0x0c)
    }

    fn default_identifier() -> (r: ASN1Identifier)
        ensures
            r == crate::asn1_types::identifier::universal_id(0x0c),
    {
        proof {
            assert(<String as DERImplicitlyTaggable>::spec_default_identifier()
                == crate::asn1_types::identifier::universal_id(0x0c));
        }
        ASN1Identifier::utf8_string()
    }

    fn from_der_node_with_identifier(node: ASN1Node, identifier: ASN1Identifier) -> (r: Result<
        Self,
        ASN1Error,
    >)
        ensures
            crate::asn1_types::strings::spec_utf8_string_from_der(
                node,
                identifier,
                match r {
                    Ok(v) => Ok(crate::asn1_types::ASN1UTF8String(v)),
                    Err(e) => Err(e),
                },
            ),
    {
        match crate::asn1_types::ASN1UTF8String::from_der_node_with_identifier(node, identifier) {
            Ok(s) => Ok(s.0),
            Err(e) => Err(e),
        }
    }
}

impl DERParseable for i8 {
    fn from_der_node(node: ASN1Node) -> (r: Result<Self, ASN1Error>)
        ensures
            spec_bounded_integer_from_der(
                node,
                crate::asn1_types::identifier::universal_id(0x02),
                i8::MIN as int,
                i8::MAX as int,
                match r {
                    Ok(v) => Ok(v as int),
                    Err(e) => Err(e),
                },
            ),
    {
        match <Self as DERImplicitlyTaggable>::from_der_node_with_identifier(
            node,
            <Self as DERImplicitlyTaggable>::default_identifier(),
        ) {
            Ok(v) => Ok(v),
            Err(e) => Err(e),
        }
    }
}

impl DERSerializable for i8 {
    fn serialize(&self, serializer: &mut Serializer) -> (r: Result<(), ASN1Error>)
        ensures
            r matches Ok(_),
            exists|s: Seq<u8>|
                {
                    &&& crate::encoding::signed_be(s) == *self as int
                    &&& #[trigger] crate::encoding::min_signed(s)
                    &&& final(serializer).spec_buffer() == old(serializer).spec_buffer()
                        + encoded_tlv(
                        crate::asn1_types::identifier::universal_id(0x02),
                        false,
                        s,
                    )
                },
    {
        let value = crate::asn1_types::ASN1Integer {
            value: crate::trusted::bigint_from_i128(*self as i128),
        };
        value.serialize(serializer)
    }
}

impl DERImplicitlyTaggable for i8 {
    open spec fn spec_default_identifier() -> ASN1Identifier {
        crate::asn1_types::identifier::universal_id(0x02)
    }

    fn default_identifier() -> (r: ASN1Identifier)
        ensures
            r == crate::asn1_types::identifier::universal_id(0x02),
    {
        proof {
            assert(<i8 as DERImplicitlyTaggable>::spec_default_identifier()
                == crate::asn1_types::identifier::universal_id(0x02));
        }
        ASN1Identifier::integer()
    }

    fn from_der_node_with_identifier(node: ASN1Node, identifier: ASN1Identifier) -> (r: Result<
        Self,
        ASN1Error,
    >)
        ensures
            spec_bounded_integer_from_der(
                node,
                identifier,
                i8::MIN as int,
                i8::MAX as int,
                match r {
                    Ok(v) => Ok(v as int),
                    Err(e) => Err(e),
                },
            ),
    {
        let value = match crate::asn1_types::ASN1Integer::from_der_node_with_identifier(
            node,
            identifier,
        ) {
            Ok(v) => v,
            Err(e) => {
                return Err(e);
            },
        };
        match crate::trusted::bigint_to_i128(&value.value) {
            Some(w) => {
                if i8::MIN as i128 <= w && w <= i8::MAX as i128 {
                    Ok(w as i8)
                } else {
                    Err(err(ErrorCode::ValueOutOfRange, "ASN1Integer does not fit the target type"))
                }
            },
            None => Err(err(ErrorCode::ValueOutOfRange, "ASN1Integer does not fit the target type")),
        }
    }
}

impl DERParseable for i16 {
    fn from_der_node(node: ASN1Node) -> (r: Result<Self, ASN1Error>)
        ensures
            spec_bounded_integer_from_der(
                node,
                crate::asn1_types::identifier::universal_id(0x02),
                i16::MIN as int,
                i16::MAX as int,
                match r {
                    Ok(v) => Ok(v as int),
                    Err(e) => Err(e),
                },
            ),
    {
        match <Self as DERImplicitlyTaggable>::from_der_node_with_identifier(
            node,
            <Self as DERImplicitlyTaggable>::default_identifier(),
        ) {
            Ok(v) => Ok(v),
            Err(e) => Err(e),
        }
    }
}

impl DERSerializable for i16 {
    fn serialize(&self, serializer: &mut Serializer) -> (r: Result<(), ASN1Error>)
        ensures
            r matches Ok(_),
            exists|s: Seq<u8>|
                {
                    &&& crate::encoding::signed_be(s) == *self as int
                    &&& #[trigger] crate::encoding::min_signed(s)
                    &&& final(serializer).spec_buffer() == old(serializer).spec_buffer()
                        + encoded_tlv(
                        crate::asn1_types::identifier::universal_id(0x02),
                        false,
                        s,
                    )
                },
    {
        let value = crate::asn1_types::ASN1Integer {
            value: crate::trusted::bigint_from_i128(*self as i128),
        };
        value.serialize(serializer)
    }
}

impl DERImplicitlyTaggable for i16 {
    open spec fn spec_default_identifier() -> ASN1Identifier {
        crate::asn1_types::identifier::universal_id(0x02)
    }

    fn default_identifier() -> (r: ASN1Identifier)
        ensures
            r == crate::asn1_types::identifier::universal_id(0x02),
    {
        proof {
            assert(<i16 as DERImplicitlyTaggable>::spec_default_identifier()
                == crate::asn1_types::identifier::universal_id(0x02));
        }
        ASN1Identifier::integer()
    }

    fn from_der_node_with_identifier(node: ASN1Node, identifier: ASN1Identifier) -> (r: Result<
        Self,
        ASN1Error,
    >)
        ensures
            spec_bounded_integer_from_der(
                node,
                identifier,
                i16::MIN as int,
                i16::MAX as int,
                match r {
                    Ok(v) => Ok(v as int),
                    Err(e) => Err(e),
                },
            ),
    {
        let value = match crate::asn1_types::ASN1Integer::from_der_node_with_identifier(
            node,
            identifier,
        ) {
            Ok(v) => v,
            Err(e) => {
                return Err(e);
            },
        };
        match crate::trusted::bigint_to_i128(&value.value) {
            Some(w) => {
                if i16::MIN as i128 <= w && w <= i16::MAX as i128 {
                    Ok(w as i16)
                } else {
                    Err(err(ErrorCode::ValueOutOfRange, "ASN1Integer does not fit the target type"))
                }
            },
            None => Err(err(ErrorCode::ValueOutOfRange, "ASN1Integer does not fit the target type")),
        }
    }
}

impl DERParseable for i32 {
    fn from_der_node(node: ASN1Node) -> (r: Result<Self, ASN1Error>)
        ensures
            spec_bounded_integer_from_der(
                node,
                crate::asn1_types::identifier::universal_id(0x02),
                i32::MIN as int,
                i32::MAX as int,
                match r {
                    Ok(v) => Ok(v as int),
                    Err(e) => Err(e),
                },
            ),
    {
        match <Self as DERImplicitlyTaggable>::from_der_node_with_identifier(
            node,
            <Self as DERImplicitlyTaggable>::default_identifier(),
        ) {
            Ok(v) => Ok(v),
            Err(e) => Err(e),
        }
    }
}

impl DERSerializable for i32 {
    fn serialize(&self, serializer: &mut Serializer) -> (r: Result<(), ASN1Error>)
        ensures
            r matches Ok(_),
            exists|s: Seq<u8>|
                {
                    &&& crate::encoding::signed_be(s) == *self as int
                    &&& #[trigger] crate::encoding::min_signed(s)
                    &&& final(serializer).spec_buffer() == old(serializer).spec_buffer()
                        + encoded_tlv(
                        crate::asn1_types::identifier::universal_id(0x02),
                        false,
                        s,
                    )
                },
    {
        let value = crate::asn1_types::ASN1Integer {
            value: crate::trusted::bigint_from_i128(*self as i128),
        };
        value.serialize(serializer)
    }
}

impl DERImplicitlyTaggable for i32 {
    open spec fn spec_default_identifier() -> ASN1Identifier {
        crate::asn1_types::identifier::universal_id(0x02)
    }

    fn default_identifier() -> (r: ASN1Identifier)
        ensures
            r == crate::asn1_types::identifier::universal_id(0x02),
    {
        proof {
            assert(<i32 as DERImplicitlyTaggable>::spec_default_identifier()
                == crate::asn1_types::identifier::universal_id(0x02));
        }
        ASN1Identifier::integer()
    }

    fn from_der_node_with_identifier(node: ASN1Node, identifier: ASN1Identifier) -> (r: Result<
        Self,
        ASN1Error,
    >)
        ensures
            spec_bounded_integer_from_der(
                node,
                identifier,
                i32::MIN as int,
                i32::MAX as int,
                match r {
                    Ok(v) => Ok(v as int),
                    Err(e) => Err(e),
                },
            ),
    {
        let value = match crate::asn1_types::ASN1Integer::from_der_node_with_identifier(
            node,
            identifier,
        ) {
            Ok(v) => v,
            Err(e) => {
                return Err(e);
            },
        };
        match crate::trusted::bigint_to_i128(&value.value) {
            Some(w) => {
                if i32::MIN as i128 <= w && w <= i32::MAX as i128 {
                    Ok(w as i32)
                } else {
                    Err(err(ErrorCode::ValueOutOfRange, "ASN1Integer does not fit the target type"))
                }
            },
            None => Err(err(ErrorCode::ValueOutOfRange, "ASN1Integer does not fit the target type")),
        }
    }
}

impl DERParseable for i64 {
    fn from_der_node(node: ASN1Node) -> (r: Result<Self, ASN1Error>)
        ensures
            spec_bounded_integer_from_der(
                node,
                crate::asn1_types::identifier::universal_id(0x02),
                i64::MIN as int,
                i64::MAX as int,
                match r {
                    Ok(v) => Ok(v as int),
                    Err(e) => Err(e),
                },
            ),
    {
        match <Self as DERImplicitlyTaggable>::from_der_node_with_identifier(
            node,
            <Self as DERImplicitlyTaggable>::default_identifier(),
        ) {
            Ok(v) => Ok(v),
            Err(e) => Err(e),
        }
    }
}

impl DERSerializable for i64 {
    fn serialize(&self, serializer: &mut Serializer) -> (r: Result<(), ASN1Error>)
        ensures
            r matches Ok(_),
            exists|s: Seq<u8>|
                {
                    &&& crate::encoding::signed_be(s) == *self as int
                    &&& #[trigger] crate::encoding::min_signed(s)
                    &&& final(serializer).spec_buffer() == old(serializer).spec_buffer()
                        + encoded_tlv(
                        crate::asn1_types::identifier::universal_id(0x02),
                        false,
                        s,
                    )
                },
    {
        let value = crate::asn1_types::ASN1Integer {
            value: crate::trusted::bigint_from_i128(*self as i128),
        };
        value.serialize(serializer)
    }
}

impl DERImplicitlyTaggable for i64 {
    open spec fn spec_default_identifier() -> ASN1Identifier {
        crate::asn1_types::identifier::universal_id(0x02)
    }

    fn default_identifier() -> (r: ASN1Identifier)
        ensures
            r == crate::asn1_types::identifier::universal_id(0x02),
    {
        proof {
            assert(<i64 as DERImplicitlyTaggable>::spec_default_identifier()
                == crate::asn1_types::identifier::universal_id(0x02));
        }
        ASN1Identifier::integer()
    }

    fn from_der_node_with_identifier(node: ASN1Node, identifier: ASN1Identifier) -> (r: Result<
        Self,
        ASN1Error,
    >)
        ensures
            spec_bounded_integer_from_der(
                node,
                identifier,
                i64::MIN as int,
                i64::MAX as int,
                match r {
                    Ok(v) => Ok(v as int),
                    Err(e) => Err(e),
                },
            ),
    {
        let value = match crate::asn1_types::ASN1Integer::from_der_node_with_identifier(
            node,
            identifier,
        ) {
            Ok(v) => v,
            Err(e) => {
                return Err(e);
            },
        };
        match crate::trusted::bigint_to_i128(&value.value) {
            Some(w) => {
                if i64::MIN as i128 <= w && w <= i64::MAX as i128 {
                    Ok(w as i64)
                } else {
                    Err(err(ErrorCode::ValueOutOfRange, "ASN1Integer does not fit the target type"))
                }
            },
            None => Err(err(ErrorCode::ValueOutOfRange, "ASN1Integer does not fit the target type")),
        }
    }
}

impl DERParseable for i128 {
    fn from_der_node(node: ASN1Node) -> (r: Result<Self, ASN1Error>)
        ensures
            spec_bounded_integer_from_der(
                node,
                crate::asn1_types::identifier::universal_id(0x02),
                i128::MIN as int,
                i128::MAX as int,
                match r {
                    Ok(v) => Ok(v as int),
                    Err(e) => Err(e),
                },
            ),
    {
        match <Self as DERImplicitlyTaggable>::from_der_node_with_identifier(
            node,
            <Self as DERImplicitlyTaggable>::default_identifier(),
        ) {
            Ok(v) => Ok(v),
            Err(e) => Err(e),
        }
    }
}

impl DERSerializable for i128 {
    fn serialize(&self, serializer: &mut Serializer) -> (r: Result<(), ASN1Error>)
        ensures
            r matches Ok(_),
            exists|s: Seq<u8>|
                {
                    &&& crate::encoding::signed_be(s) == *self as int
                    &&& #[trigger] crate::encoding::min_signed(s)
                    &&& final(serializer).spec_buffer() == old(serializer).spec_buffer()
                        + encoded_tlv(
                        crate::asn1_types::identifier::universal_id(0x02),
                        false,
                        s,
                    )
                },
    {
        let value = crate::asn1_types::ASN1Integer {
            value: crate::trusted::bigint_from_i128(*self as i128),
        };
        value.serialize(serializer)
    }
}

impl DERImplicitlyTaggable for i128 {
    open spec fn spec_default_identifier() -> ASN1Identifier {
        crate::asn1_types::identifier::universal_id(0x02)
    }

    fn default_identifier() -> (r: ASN1Identifier)
        ensures
            r == crate::asn1_types::identifier::universal_id(0x02),
    {
        proof {
            assert(<i128 as DERImplicitlyTaggable>::spec_default_identifier()
                == crate::asn1_types::identifier::universal_id(0x02));
        }
        ASN1Identifier::integer()
    }

    fn from_der_node_with_identifier(node: ASN1Node, identifier: ASN1Identifier) -> (r: Result<
        Self,
        ASN1Error,
    >)
        ensures
            spec_bounded_integer_from_der(
                node,
                identifier,
                i128::MIN as int,
                i128::MAX as int,
                match r {
                    Ok(v) => Ok(v as int),
                    Err(e) => Err(e),
                },
            ),
    {
        let value = match crate::asn1_types::ASN1Integer::from_der_node_with_identifier(
            node,
            identifier,
        ) {
            Ok(v) => v,
            Err(e) => {
                return Err(e);
            },
        };
        match crate::trusted::bigint_to_i128(&value.value) {
            Some(w) => {
                if i128::MIN as i128 <= w && w <= i128::MAX as i128 {
                    Ok(w as i128)
                } else {
                    Err(err(ErrorCode::ValueOutOfRange, "ASN1Integer does not fit the target type"))
                }
            },
            None => Err(err(ErrorCode::ValueOutOfRange, "ASN1Integer does not fit the target type")),
        }
    }
}

impl DERParseable for isize {
    fn from_der_node(node: ASN1Node) -> (r: Result<Self, ASN1Error>)
        ensures
            spec_bounded_integer_from_der(
                node,
                crate::asn1_types::identifier::universal_id(0x02),
                isize::MIN as int,
                isize::MAX as int,
                match r {
                    Ok(v) => Ok(v as int),
                    Err(e) => Err(e),
                },
            ),
    {
        match <Self as DERImplicitlyTaggable>::from_der_node_with_identifier(
            node,
            <Self as DERImplicitlyTaggable>::default_identifier(),
        ) {
            Ok(v) => Ok(v),
            Err(e) => Err(e),
        }
    }
}

impl DERSerializable for isize {
    fn serialize(&self, serializer: &mut Serializer) -> (r: Result<(), ASN1Error>)
        ensures
            r matches Ok(_),
            exists|s: Seq<u8>|
                {
                    &&& crate::encoding::signed_be(s) == *self as int
                    &&& #[trigger] crate::encoding::min_signed(s)
                    &&& final(serializer).spec_buffer() == old(serializer).spec_buffer()
                        + encoded_tlv(
                        crate::asn1_types::identifier::universal_id(0x02),
                        false,
                        s,
                    )
                },
    {
        let value = crate::asn1_types::ASN1Integer {
            value: crate::trusted::bigint_from_i128(*self as i128),
        };
        value.serialize(serializer)
    }
}

impl DERImplicitlyTaggable for isize {
    open spec fn spec_default_identifier() -> ASN1Identifier {
        crate::asn1_types::identifier::universal_id(0x02)
    }

    fn default_identifier() -> (r: ASN1Identifier)
        ensures
            r == crate::asn1_types::identifier::universal_id(0x02),
    {
        proof {
            assert(<isize as DERImplicitlyTaggable>::spec_default_identifier()
                == crate::asn1_types::identifier::universal_id(0x02));
        }
        ASN1Identifier::integer()
    }

    fn from_der_node_with_identifier(node: ASN1Node, identifier: ASN1Identifier) -> (r: Result<
        Self,
        ASN1Error,
    >)
        ensures
            spec_bounded_integer_from_der(
                node,
                identifier,
                isize::MIN as int,
                isize::MAX as int,
                match r {
                    Ok(v) => Ok(v as int),
                    Err(e) => Err(e),
                },
            ),
    {
        let value = match crate::asn1_types::ASN1Integer::from_der_node_with_identifier(
            node,
            identifier,
        ) {
            Ok(v) => v,
            Err(e) => {
                return Err(e);
            },
        };
        match crate::trusted::bigint_to_i128(&value.value) {
            Some(w) => {
                if isize::MIN as i128 <= w && w <= isize::MAX as i128 {
                    Ok(w as isize)
                } else {
                    Err(err(ErrorCode::ValueOutOfRange, "ASN1Integer does not fit the target type"))
                }
            },
            None => Err(err(ErrorCode::ValueOutOfRange, "ASN1Integer does not fit the target type")),
        }
    }
}

impl DERParseable for u8 {
    fn from_der_node(node: ASN1Node) -> (r: Result<Self, ASN1Error>)
        ensures
            spec_bounded_integer_from_der(
                node,
                crate::asn1_types::identifier::universal_id(0x02),
                0,
                u8::MAX as int,
                match r {
                    Ok(v) => Ok(v as int),
                    Err(e) => Err(e),
                },
            ),
    {
        match <Self as DERImplicitlyTaggable>::from_der_node_with_identifier(
            node,
            <Self as DERImplicitlyTaggable>::default_identifier(),
        ) {
            Ok(v) => Ok(v),
            Err(e) => Err(e),
        }
    }
}

impl DERSerializable for u8 {
    fn serialize(&self, serializer: &mut Serializer) -> (r: Result<(), ASN1Error>)
        ensures
            r matches Ok(_),
            exists|s: Seq<u8>|
                {
                    &&& crate::encoding::signed_be(s) == *self as int
                    &&& #[trigger] crate::encoding::min_signed(s)
                    &&& final(serializer).spec_buffer() == old(serializer).spec_buffer()
                        + encoded_tlv(
                        crate::asn1_types::identifier::universal_id(0x02),
                        false,
                        s,
                    )
                },
    {
        let value = crate::asn1_types::ASN1Integer {
            value: crate::trusted::bigint_from_u128(*self as u128),
        };
        value.serialize(serializer)
    }
}

impl DERImplicitlyTaggable for u8 {
    open spec fn spec_default_identifier() -> ASN1Identifier {
        crate::asn1_types::identifier::universal_id(0x02)
    }

    fn default_identifier() -> (r: ASN1Identifier)
        ensures
            r == crate::asn1_types::identifier::universal_id(0x02),
    {
        proof {
            assert(<u8 as DERImplicitlyTaggable>::spec_default_identifier()
                == crate::asn1_types::identifier::universal_id(0x02));
        }
        ASN1Identifier::integer()
    }

    fn from_der_node_with_identifier(node: ASN1Node, identifier: ASN1Identifier) -> (r: Result<
        Self,
        ASN1Error,
    >)
        ensures
            spec_bounded_integer_from_der(
                node,
                identifier,
                0,
                u8::MAX as int,
                match r {
                    Ok(v) => Ok(v as int),
                    Err(e) => Err(e),
                },
            ),
    {
        let value = match crate::asn1_types::ASN1Integer::from_der_node_with_identifier(
            node,
            identifier,
        ) {
            Ok(v) => v,
            Err(e) => {
                return Err(e);
            },
        };
        match crate::trusted::bigint_to_u128(&value.value) {
            Some(w) => {
                if w <= u8::MAX as u128 {
                    Ok(w as u8)
                } else {
                    Err(err(ErrorCode::ValueOutOfRange, "ASN1Integer does not fit the target type"))
                }
            },
            None => Err(err(ErrorCode::ValueOutOfRange, "ASN1Integer does not fit the target type")),
        }
    }
}

impl DERParseable for u16 {
    fn from_der_node(node: ASN1Node) -> (r: Result<Self, ASN1Error>)
        ensures
            spec_bounded_integer_from_der(
                node,
                crate::asn1_types::identifier::universal_id(0x02),
                0,
                u16::MAX as int,
                match r {
                    Ok(v) => Ok(v as int),
                    Err(e) => Err(e),
                },
            ),
    {
        match <Self as DERImplicitlyTaggable>::from_der_node_with_identifier(
            node,
            <Self as DERImplicitlyTaggable>::default_identifier(),
        ) {
            Ok(v) => Ok(v),
            Err(e) => Err(e),
        }
    }
}

impl DERSerializable for u16 {
    fn serialize(&self, serializer: &mut Serializer) -> (r: Result<(), ASN1Error>)
        ensures
            r matches Ok(_),
            exists|s: Seq<u8>|
                {
                    &&& crate::encoding::signed_be(s) == *self as int
                    &&& #[trigger] crate::encoding::min_signed(s)
                    &&& final(serializer).spec_buffer() == old(serializer).spec_buffer()
                        + encoded_tlv(
                        crate::asn1_types::identifier::universal_id(0x02),
                        false,
                        s,
                    )
                },
    {
        let value = crate::asn1_types::ASN1Integer {
            value: crate::trusted::bigint_from_u128(*self as u128),
        };
        value.serialize(serializer)
    }
}

impl DERImplicitlyTaggable for u16 {
    open spec fn spec_default_identifier() -> ASN1Identifier {
        crate::asn1_types::identifier::universal_id(0x02)
    }

    fn default_identifier() -> (r: ASN1Identifier)
        ensures
            r == crate::asn1_types::identifier::universal_id(0x02),
    {
        proof {
            assert(<u16 as DERImplicitlyTaggable>::spec_default_identifier()
                == crate::asn1_types::identifier::universal_id(0x02));
        }
        ASN1Identifier::integer()
    }

    fn from_der_node_with_identifier(node: ASN1Node, identifier: ASN1Identifier) -> (r: Result<
        Self,
        ASN1Error,
    >)
        ensures
            spec_bounded_integer_from_der(
                node,
                identifier,
                0,
                u16::MAX as int,
                match r {
                    Ok(v) => Ok(v as int),
                    Err(e) => Err(e),
                },
            ),
    {
        let value = match crate::asn1_types::ASN1Integer::from_der_node_with_identifier(
            node,
            identifier,
        ) {
            Ok(v) => v,
            Err(e) => {
                return Err(e);
            },
        };
        match crate::trusted::bigint_to_u128(&value.value) {
            Some(w) => {
                if w <= u16::MAX as u128 {
                    Ok(w as u16)
                } else {
                    Err(err(ErrorCode::ValueOutOfRange, "ASN1Integer does not fit the target type"))
                }
            },
            None => Err(err(ErrorCode::ValueOutOfRange, "ASN1Integer does not fit the target type")),
        }
    }
}

impl DERParseable for u32 {
    fn from_der_node(node: ASN1Node) -> (r: Result<Self, ASN1Error>)
        ensures
            spec_bounded_integer_from_der(
                node,
                crate::asn1_types::identifier::universal_id(0x02),
                0,
                u32::MAX as int,
                match r {
                    Ok(v) => Ok(v as int),
                    Err(e) => Err(e),
                },
            ),
    {
        match <Self as DERImplicitlyTaggable>::from_der_node_with_identifier(
            node,
            <Self as DERImplicitlyTaggable>::default_identifier(),
        ) {
            Ok(v) => Ok(v),
            Err(e) => Err(e),
        }
    }
}

impl DERSerializable for u32 {
    fn serialize(&self, serializer: &mut Serializer) -> (r: Result<(), ASN1Error>)
        ensures
            r matches Ok(_),
            exists|s: Seq<u8>|
                {
                    &&& crate::encoding::signed_be(s) == *self as int
                    &&& #[trigger] crate::encoding::min_signed(s)
                    &&& final(serializer).spec_buffer() == old(serializer).spec_buffer()
                        + encoded_tlv(
                        crate::asn1_types::identifier::universal_id(0x02),
                        false,
                        s,
                    )
                },
    {
        let value = crate::asn1_types::ASN1Integer {
            value: crate::trusted::bigint_from_u128(*self as u128),
        };
        value.serialize(serializer)
    }
}

impl DERImplicitlyTaggable for u32 {
    open spec fn spec_default_identifier() -> ASN1Identifier {
        crate::asn1_types::identifier::universal_id(0x02)
    }

    fn default_identifier() -> (r: ASN1Identifier)
        ensures
            r == crate::asn1_types::identifier::universal_id(0x02),
    {
        proof {
            assert(<u32 as DERImplicitlyTaggable>::spec_default_identifier()
                == crate::asn1_types::identifier::universal_id(0x02));
        }
        ASN1Identifier::integer()
    }

    fn from_der_node_with_identifier(node: ASN1Node, identifier: ASN1Identifier) -> (r: Result<
        Self,
        ASN1Error,
    >)
        ensures
            spec_bounded_integer_from_der(
                node,
                identifier,
                0,
                u32::MAX as int,
                match r {
                    Ok(v) => Ok(v as int),
                    Err(e) => Err(e),
                },
            ),
    {
        let value = match crate::asn1_types::ASN1Integer::from_der_node_with_identifier(
            node,
            identifier,
        ) {
            Ok(v) => v,
            Err(e) => {
                return Err(e);
            },
        };
        match crate::trusted::bigint_to_u128(&value.value) {
            Some(w) => {
                if w <= u32::MAX as u128 {
                    Ok(w as u32)
                } else {
                    Err(err(ErrorCode::ValueOutOfRange, "ASN1Integer does not fit the target type"))
                }
            },
            None => Err(err(ErrorCode::ValueOutOfRange, "ASN1Integer does not fit the target type")),
        }
    }
}

impl DERParseable for u64 {
    fn from_der_node(node: ASN1Node) -> (r: Result<Self, ASN1Error>)
        ensures
            spec_bounded_integer_from_der(
                node,
                crate::asn1_types::identifier::universal_id(0x02),
                0,
                u64::MAX as int,
                match r {
                    Ok(v) => Ok(v as int),
                    Err(e) => Err(e),
                },
            ),
    {
        match <Self as DERImplicitlyTaggable>::from_der_node_with_identifier(
            node,
            <Self as DERImplicitlyTaggable>::default_identifier(),
        ) {
            Ok(v) => Ok(v),
            Err(e) => Err(e),
        }
    }
}

impl DERSerializable for u64 {
    fn serialize(&self, serializer: &mut Serializer) -> (r: Result<(), ASN1Error>)
        ensures
            r matches Ok(_),
            exists|s: Seq<u8>|
                {
                    &&& crate::encoding::signed_be(s) == *self as int
                    &&& #[trigger] crate::encoding::min_signed(s)
                    &&& final(serializer).spec_buffer() == old(serializer).spec_buffer()
                        + encoded_tlv(
                        crate::asn1_types::identifier::universal_id(0x02),
                        false,
                        s,
                    )
                },
    {
        let value = crate::asn1_types::ASN1Integer {
            value: crate::trusted::bigint_from_u128(*self as u128),
        };
        value.serialize(serializer)
    }
}

impl DERImplicitlyTaggable for u64 {
    open spec fn spec_default_identifier() -> ASN1Identifier {
        crate::asn1_types::identifier::universal_id(0x02)
    }

    fn default_identifier() -> (r: ASN1Identifier)
        ensures
            r == crate::asn1_types::identifier::universal_id(0x02),
    {
        proof {
            assert(<u64 as DERImplicitlyTaggable>::spec_default_identifier()
                == crate::asn1_types::identifier::universal_id(0x02));
        }
        ASN1Identifier::integer()
    }

    fn from_der_node_with_identifier(node: ASN1Node, identifier: ASN1Identifier) -> (r: Result<
        Self,
        ASN1Error,
    >)
        ensures
            spec_bounded_integer_from_der(
                node,
                identifier,
                0,
                u64::MAX as int,
                match r {
                    Ok(v) => Ok(v as int),
                    Err(e) => Err(e),
                },
            ),
    {
        let value = match crate::asn1_types::ASN1Integer::from_der_node_with_identifier(
            node,
            identifier,
        ) {
            Ok(v) => v,
            Err(e) => {
                return Err(e);
            },
        };
        match crate::trusted::bigint_to_u128(&value.value) {
            Some(w) => {
                if w <= u64::MAX as u128 {
                    Ok(w as u64)
                } else {
                    Err(err(ErrorCode::ValueOutOfRange, "ASN1Integer does not fit the target type"))
                }
            },
            None => Err(err(ErrorCode::ValueOutOfRange, "ASN1Integer does not fit the target type")),
        }
    }
}

impl DERParseable for u128 {
    fn from_der_node(node: ASN1Node) -> (r: Result<Self, ASN1Error>)
        ensures
            spec_bounded_integer_from_der(
                node,
                crate::asn1_types::identifier::universal_id(0x02),
                0,
                u128::MAX as int,
                match r {
                    Ok(v) => Ok(v as int),
                    Err(e) => Err(e),
                },
            ),
    {
        match <Self as DERImplicitlyTaggable>::from_der_node_with_identifier(
            node,
            <Self as DERImplicitlyTaggable>::default_identifier(),
        ) {
            Ok(v) => Ok(v),
            Err(e) => Err(e),
        }
    }
}

impl DERSerializable for u128 {
    fn serialize(&self, serializer: &mut Serializer) -> (r: Result<(), ASN1Error>)
        ensures
            r matches Ok(_),
            exists|s: Seq<u8>|
                {
                    &&& crate::encoding::signed_be(s) == *self as int
                    &&& #[trigger] crate::encoding::min_signed(s)
                    &&& final(serializer).spec_buffer() == old(serializer).spec_buffer()
                        + encoded_tlv(
                        crate::asn1_types::identifier::universal_id(0x02),
                        false,
                        s,
                    )
                },
    {
        let value = crate::asn1_types::ASN1Integer {
            value: crate::trusted::bigint_from_u128(*self as u128),
        };
        value.serialize(serializer)
    }
}

impl DERImplicitlyTaggable for u128 {
    open spec fn spec_default_identifier() -> ASN1Identifier {
        crate::asn1_types::identifier::universal_id(0x02)
    }

    fn default_identifier() -> (r: ASN1Identifier)
        ensures
            r == crate::asn1_types::identifier::universal_id(0x02),
    {
        proof {
            assert(<u128 as DERImplicitlyTaggable>::spec_default_identifier()
                == crate::asn1_types::identifier::universal_id(0x02));
        }
        ASN1Identifier::integer()
    }

    fn from_der_node_with_identifier(node: ASN1Node, identifier: ASN1Identifier) -> (r: Result<
        Self,
        ASN1Error,
    >)
        ensures
            spec_bounded_integer_from_der(
                node,
                identifier,
                0,
                u128::MAX as int,
                match r {
                    Ok(v) => Ok(v as int),
                    Err(e) => Err(e),
                },
            ),
    {
        let value = match crate::asn1_types::ASN1Integer::from_der_node_with_identifier(
            node,
            identifier,
        ) {
            Ok(v) => v,
            Err(e) => {
                return Err(e);
            },
        };
        match crate::trusted::bigint_to_u128(&value.value) {
            Some(w) => {
                if w <= u128::MAX as u128 {
                    Ok(w as u128)
                } else {
                    Err(err(ErrorCode::ValueOutOfRange, "ASN1Integer does not fit the target type"))
                }
            },
            None => Err(err(ErrorCode::ValueOutOfRange, "ASN1Integer does not fit the target type")),
        }
    }
}

impl DERParseable for usize {
    fn from_der_node(node: ASN1Node) -> (r: Result<Self, ASN1Error>)
        ensures
            spec_bounded_integer_from_der(
                node,
                crate::asn1_types::identifier::universal_id(0x02),
                0,
                usize::MAX as int,
                match r {
                    Ok(v) => Ok(v as int),
                    Err(e) => Err(e),
                },
            ),
    {
        match <Self as DERImplicitlyTaggable>::from_der_node_with_identifier(
            node,
            <Self as DERImplicitlyTaggable>::default_identifier(),
        ) {
            Ok(v) => Ok(v),
            Err(e) => Err(e),
        }
    }
}

impl DERSerializable for usize {
    fn serialize(&self, serializer: &mut Serializer) -> (r: Result<(), ASN1Error>)
        ensures
            r matches Ok(_),
            exists|s: Seq<u8>|
                {
                    &&& crate::encoding::signed_be(s) == *self as int
                    &&& #[trigger] crate::encoding::min_signed(s)
                    &&& final(serializer).spec_buffer() == old(serializer).spec_buffer()
                        + encoded_tlv(
                        crate::asn1_types::identifier::universal_id(0x02),
                        false,
                        s,
                    )
                },
    {
        let value = crate::asn1_types::ASN1Integer {
            value: crate::trusted::bigint_from_u128(*self as u128),
        };
        value.serialize(serializer)
    }
}

impl DERImplicitlyTaggable for usize {
    open spec fn spec_default_identifier() -> ASN1Identifier {
        crate::asn1_types::identifier::universal_id(0x02)
    }

    fn default_identifier() -> (r: ASN1Identifier)
        ensures
            r == crate::asn1_types::identifier::universal_id(0x02),
    {
        proof {
            assert(<usize as DERImplicitlyTaggable>::spec_default_identifier()
                == crate::asn1_types::identifier::universal_id(0x02));
        }
        ASN1Identifier::integer()
    }

    fn from_der_node_with_identifier(node: ASN1Node, identifier: ASN1Identifier) -> (r: Result<
        Self,
        ASN1Error,
    >)
        ensures
            spec_bounded_integer_from_der(
                node,
                identifier,
                0,
                usize::MAX as int,
                match r {
                    Ok(v) => Ok(v as int),
                    Err(e) => Err(e),
                },
            ),
    {
        let value = match crate::asn1_types::ASN1Integer::from_der_node_with_identifier(
            node,
            identifier,
        ) {
            Ok(v) => v,
            Err(e) => {
                return Err(e);
            },
        };
        match crate::trusted::bigint_to_u128(&value.value) {
            Some(w) => {
                if w <= usize::MAX as u128 {
                    Ok(w as usize)
                } else {
                    Err(err(ErrorCode::ValueOutOfRange, "ASN1Integer does not fit the target type"))
                }
            },
            None => Err(err(ErrorCode::ValueOutOfRange, "ASN1Integer does not fit the target type")),
        }
    }
}

impl<T: DERParseable + DERSerializable> DERParseable for Vec<T> {
    /// A SEQUENCE OF `T`: element `k` is the decode of the `k`-th logical
    /// child, and the first failing child's error is the result.
    fn from_der_node(node: ASN1Node) -> (r: Result<Self, ASN1Error>)
        ensures
            match r {
                Ok(v) => node.identifier == crate::asn1_types::identifier::universal_id(0x10) && (node.content matches
                    Content::Constructed(c) && v@.len() == crate::asn1::spec_child_count(
                    c.spec_nodes(),
                    c.spec_start() as int,
                    c.spec_end() as int,
                ) && (forall|k: int|
                    0 <= k < v@.len() ==> nth_child_decodes::<T>(
                        c.spec_nodes(),
                        c.spec_start() as int,
                        c.spec_end() as int,
                        k,
                        Ok(#[trigger] v@[k]),
                    ))),
                Err(e) => {
                    &&& node.identifier != crate::asn1_types::identifier::universal_id(0x10) ==> e.spec_code()
                        == ErrorCode::UnexpectedFieldType
                    &&& node.identifier == crate::asn1_types::identifier::universal_id(0x10) && !node.spec_is_constructed()
                        ==> e.spec_code() == ErrorCode::UnexpectedFieldType
                    &&& node.identifier == crate::asn1_types::identifier::universal_id(0x10) && node.spec_is_constructed() ==> (
                    node.content matches Content::Constructed(c) && children_decode_failed::<T>(
                        c.spec_nodes(),
                        c.spec_start() as int,
                        c.spec_end() as int,
                        e,
                    ))
                },
            },
    {
        <Self as DERImplicitlyTaggable>::from_der_node_with_identifier(
            node,
            <Self as DERImplicitlyTaggable>::default_identifier(),
        )
    }
}

impl<T: DERSerializable> DERSerializable for Vec<T> {
    /// Appends exactly one SEQUENCE node holding the elements'
    /// serializations.
    fn serialize(&self, serializer: &mut Serializer) -> (r: Result<(), ASN1Error>)
        ensures
            r matches Ok(_) ==> exists|cs: Seq<u8>|
                final(serializer).spec_buffer() == old(serializer).spec_buffer()
                    + #[trigger] encoded_tlv(
                    crate::asn1_types::identifier::universal_id(0x10),
                    true,
                    cs,
                ),
    {
        serializer.write_sequence(
            |seq: Serializer| -> (out: Result<Serializer, ASN1Error>)
                {
                    let mut seq = seq;
                    let mut i: usize = 0;
                    while i < self.len()
                        decreases self@.len() - i,
                    {
                        match seq.serialize(&self[i]) {
                            Ok(_) => {},
                            Err(e) => {
                                return Err(e);
                            },
                        }
                        i += 1;
                    }
                    Ok(seq)
                },
        )
    }
}

impl<T: DERParseable + DERSerializable> DERImplicitlyTaggable for Vec<T> {
    open spec fn spec_default_identifier() -> ASN1Identifier {
        crate::asn1_types::identifier::universal_id(0x10)
    }

    fn default_identifier() -> (r: ASN1Identifier)
        ensures
            r == crate::asn1_types::identifier::universal_id(0x10),
    {
        proof {
            assert(<Vec<T> as DERImplicitlyTaggable>::spec_default_identifier()
                == crate::asn1_types::identifier::universal_id(0x10));
        }
        ASN1Identifier::sequence()
    }

    fn from_der_node_with_identifier(node: ASN1Node, identifier: ASN1Identifier) -> (r: Result<
        Self,
        ASN1Error,
    >)
        ensures
            match r {
                Ok(v) => node.identifier == identifier && (node.content matches
                    Content::Constructed(c) && v@.len() == crate::asn1::spec_child_count(
                    c.spec_nodes(),
                    c.spec_start() as int,
                    c.spec_end() as int,
                ) && (forall|k: int|
                    0 <= k < v@.len() ==> nth_child_decodes::<T>(
                        c.spec_nodes(),
                        c.spec_start() as int,
                        c.spec_end() as int,
                        k,
                        Ok(#[trigger] v@[k]),
                    ))),
                Err(e) => {
                    &&& node.identifier != identifier ==> e.spec_code()
                        == ErrorCode::UnexpectedFieldType
                    &&& node.identifier == identifier && !node.spec_is_constructed()
                        ==> e.spec_code() == ErrorCode::UnexpectedFieldType
                    &&& node.identifier == identifier && node.spec_is_constructed() ==> (
                    node.content matches Content::Constructed(c) && children_decode_failed::<T>(
                        c.spec_nodes(),
                        c.spec_start() as int,
                        c.spec_end() as int,
                        e,
                    ))
                },
            },
    {
        sequence_of(identifier, node)
    }
}

impl<T: DERImplicitlyTaggable> DERParseable for Option<T> {
    /// The inner type's decode, wrapped in `Some`, errors included.
    fn from_der_node(node: ASN1Node) -> (r: Result<Self, ASN1Error>)
        ensures
            exists|rr: Result<T, ASN1Error>|
                {
                    &&& #[trigger] call_ensures(T::from_der_node, (node,), rr)
                    &&& match rr {
                        Ok(v) => r == Ok::<Option<T>, ASN1Error>(Some(v)),
                        Err(e) => r == Err::<Option<T>, ASN1Error>(e),
                    }
                },
    {
        let ghost nd = node;
        let inner = T::from_der_node(node);
        proof {
            assert(call_ensures(T::from_der_node, (nd,), inner));
        }
        match inner {
            Ok(v) => Ok(Some(v)),
            Err(e) => Err(e),
        }
    }

    /// OPTIONAL decoding: peek at the next node's identifier and only
    /// consume it when it carries the inner type's default identifier.
    /// An absent field — an exhausted cursor or a different identifier —
    /// leaves the cursor exactly where it stood and is `Ok(None)`; a
    /// present one consumes exactly its subtree, and the outcome is the
    /// consumed node's decode, errors included.
    fn from_der_iterator(iter: &mut ASN1NodeCollectionIterator) -> (r: Result<Self, ASN1Error>)
        ensures
            (r matches Ok(v) && v is None) <==> (old(iter).spec_start() >= old(iter).spec_end()
                || old(iter).spec_nodes()[old(iter).spec_start() as int].identifier
                != T::spec_default_identifier()),
            (r matches Ok(v) && v is None) ==> final(iter).spec_start() == old(iter).spec_start(),
            !(r matches Ok(v) && v is None) ==> old(iter).spec_start() < old(iter).spec_end()
                && final(iter).spec_start() as int == crate::asn1::spec_subtree_end(
                old(iter).spec_nodes(),
                old(iter).spec_start() as int,
                old(iter).spec_end() as int,
            ) && (exists|nd: ASN1Node, rr: Result<T, ASN1Error>|
                {
                    &&& crate::asn1::node_at(
                        old(iter).spec_nodes(),
                        old(iter).spec_start() as int,
                        final(iter).spec_start() as int,
                        nd,
                    )
                    &&& nd.wf()
                    &&& nd.identifier == T::spec_default_identifier()
                    &&& #[trigger] call_ensures(T::from_der_node, (nd,), rr)
                    &&& match rr {
                        Ok(v) => r == Ok::<Option<T>, ASN1Error>(Some(v)),
                        Err(e) => r == Err::<Option<T>, ASN1Error>(e),
                    }
                }),
    {
        let should_decode = match iter.peek() {
            None => {
                return Ok(None);
            },
            Some(node) => node.identifier == T::default_identifier(),
        };

        if !should_decode {
            return Ok(None);
        }
        match iter.next() {
            Some(node) => {
                let ghost nd = node;
                let inner = T::from_der_node(node);
                proof {
                    assert(call_ensures(T::from_der_node, (nd,), inner));
                }
                match inner {
                    Ok(v) => Ok(Some(v)),
                    Err(e) => Err(e),
                }
            },
            None => vstd::pervasive::unreached(),
        }
    }
}

impl<T: DERSerializable> DERSerializable for Option<T> {
    /// An absent value appends nothing; a present one appends through the
    /// inner type's own serializer.
    fn serialize(&self, serializer: &mut Serializer) -> (r: Result<(), ASN1Error>)
        ensures
            self is None ==> (r matches Ok(_) && final(serializer).spec_buffer() == old(
                serializer,
            ).spec_buffer()),
    {
        match self {
            Some(value) => serializer.serialize(value),
            None => Ok(()),
        }
    }
}

impl<T: DERParseable> DERParseable for Box<T> {
    fn from_der_node(node: ASN1Node) -> (r: Result<Self, ASN1Error>) {
        match T::from_der_node(node) {
            Ok(v) => Ok(Box::new(v)),
            Err(e) => Err(e),
        }
    }
}

} // verus!
