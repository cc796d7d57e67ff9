use vstd::prelude::*;
use std::sync::Arc;
use crate::asn1::{
    ASN1Node, ASN1NodeCollection, ASN1NodeCollectionIterator, Content, EncodingRules, ParseResult,
};
use crate::asn1_types::identifier::ASN1Identifier;
use crate::der::{
    builder_consumed_all, DERImplicitlyTaggable, DERParseable, DERSerializable,
};
use crate::errors::{err, ASN1Error, ErrorCode};
use crate::trusted::{arc_vec_clone, arc_vec_ref, bytes_copy_from_slice, bytes_view};

verus! {

/// A value that can be read from one BER node. By default the BER reading
/// falls back to the stricter DER reading; types with BER relaxations
/// override it.
pub trait BERParseable: DERParseable {
    fn from_ber_node(node: ASN1Node) -> Result<Self, ASN1Error>
        requires
            node.wf(),
    {
        Self::from_der_node(node)
    }

    /// Takes the next node from the cursor and decodes it under BER: an
    /// exhausted cursor is an error of kind `InvalidASN1Object`; otherwise
    /// exactly the next logical node is consumed and the result is its
    /// decode.
    fn from_ber_iterator(iter: &mut ASN1NodeCollectionIterator) -> (r: Result<Self, ASN1Error>)
        requires
            old(iter).wf(),
        ensures
            final(iter).wf(),
            final(iter).spec_nodes() == old(iter).spec_nodes(),
            final(iter).spec_end() == old(iter).spec_end(),
            final(iter).spec_start() >= old(iter).spec_start(),
        default_ensures
            old(iter).spec_start() >= old(iter).spec_end() ==> (r matches Err(e) && e.spec_code()
                == ErrorCode::InvalidASN1Object && final(iter).spec_start() == old(
                iter,
            ).spec_start()),
            old(iter).spec_start() < old(iter).spec_end() ==> final(iter).spec_start() as int
                == crate::asn1::spec_subtree_end(
                old(iter).spec_nodes(),
                old(iter).spec_start() as int,
                old(iter).spec_end() as int,
            ) && (exists|nd: ASN1Node|
                {
                    &&& crate::asn1::node_at(
                        old(iter).spec_nodes(),
                        old(iter).spec_start() as int,
                        final(iter).spec_start() as int,
                        nd,
                    )
                    &&& nd.wf()
                    &&& #[trigger] call_ensures(Self::from_ber_node, (nd,), r)
                }),
    {
        let next = iter.next();
        match next {
            Some(node) => {
                let ghost nd = node;
                let out = Self::from_ber_node(node);
                proof {
                    assert(call_ensures(Self::from_ber_node, (nd,), out));
                }
                out
            },
            None => Err(
                err(ErrorCode::InvalidASN1Object, "Unable to decode, no ASN.1 nodes to decode"),
            ),
        }
    }
}

/// BER output is DER output: the library always writes the canonical form.
pub trait BERSerializable: DERSerializable {

}

/// Implicit tagging under BER; by default the DER reading applies.
pub trait BERImplicitlyTaggable: BERParseable + BERSerializable + DERImplicitlyTaggable {
    fn from_ber_node_with_identifier(node: ASN1Node, identifier: ASN1Identifier) -> Result<
        Self,
        ASN1Error,
    >
        requires
            node.wf(),
    {
        Self::from_der_node_with_identifier(node, identifier)
    }
}

/// Parses the input under BER. The returned node is exactly the root of
/// the spec-level parse of the input, and each rule violation surfaces
/// with its kind.
pub fn parse(data: &[u8]) -> (r: Result<ASN1Node, ASN1Error>)
    ensures
        r matches Ok(n) ==> n.wf() && bytes_view(n.encoded_bytes) == data@,
        match crate::asn1::spec_parse(data@, EncodingRules::Basic) {
            Ok(ms) => r matches Ok(n) && crate::asn1::spec_root_node(ms, n),
            Err(c) => r matches Err(e) && e.spec_code() == c,
        },
{
    let bytes = bytes_copy_from_slice(data);
    let result = match ParseResult::parse(bytes, EncodingRules::Basic) {
        Ok(pr) => pr,
        Err(e) => {
            return Err(e);
        },
    };

    let ghost nodes_seq = result.nodes@;
    let ghost ms = crate::asn1::spec_parse(data@, EncodingRules::Basic)->Ok_0;
    proof {
        assert(crate::asn1::models_of(nodes_seq) == ms);
        assert(crate::asn1::model_of(nodes_seq[0]) == ms[0]);
    }
    let nodes = result.nodes;
    let total = nodes.len();
    let nodes_arc = Arc::new(nodes);
    let nodes_ref = arc_vec_ref(&nodes_arc);
    let first_node = &nodes_ref[0];

    let identifier = first_node.identifier;
    let encoded_bytes = first_node.encoded_bytes.clone();
    if first_node.is_constructed {
        let collection = ASN1NodeCollection::new(
            arc_vec_clone(&nodes_arc),
            1,
            total,
            first_node.depth,
        );
        Ok(ASN1Node { identifier, content: Content::Constructed(collection), encoded_bytes })
    } else {
        match &first_node.data_bytes {
            Some(db) => {
                proof {
                    assert(Some(bytes_view(*db)) == ms[0].data);
                }
                Ok(
                    ASN1Node {
                        identifier,
                        content: Content::Primitive(db.clone()),
                        encoded_bytes,
                    },
                )
            },
            None => vstd::pervasive::unreached(),
        }
    }
}

/// Decodes a constructed node with the expected identifier by handing its
/// child cursor to `builder`, exactly as the DER sequence decoder does.
pub fn sequence<T, F: FnOnce(ASN1NodeCollectionIterator) -> Result<
    (T, ASN1NodeCollectionIterator),
    ASN1Error,
>>(node: ASN1Node, identifier: ASN1Identifier, builder: F) -> (r: Result<T, ASN1Error>)
    requires
        node.wf(),
        forall|it: ASN1NodeCollectionIterator| it.wf() ==> #[trigger] call_requires(builder, (it,)),
        forall|it: ASN1NodeCollectionIterator, t: T, it2: ASN1NodeCollectionIterator|
            #[trigger] call_ensures(builder, (it,), Ok((t, it2))) && it.wf() ==> it2.wf(),
    ensures
        match r {
            Ok(t) => node.identifier == identifier && (node.content matches Content::Constructed(
                c,
            ) && builder_consumed_all(builder, c, t)),
            Err(e) => {
                &&& node.identifier != identifier ==> e.spec_code()
                    == ErrorCode::UnexpectedFieldType
                &&& node.identifier == identifier && !node.spec_is_constructed() ==> e.spec_code()
                    == ErrorCode::UnexpectedFieldType
            },
        },
{
    crate::der::sequence(node, identifier, builder)
}

} // verus!
