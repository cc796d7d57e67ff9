use vstd::prelude::*;
use vstd::assert_by_contradiction;
use crate::asn1::{
    lemma_scan_end_bounds, node_size, spec_subtree_end, ASN1Node, Content, ParserNode,
};
use crate::asn1_types::identifier::{universal_id, ASN1Identifier};
use crate::ber::{BERImplicitlyTaggable, BERParseable, BERSerializable};
use crate::der::{DERImplicitlyTaggable, DERParseable, DERSerializable, Serializer};
use crate::encoding::encoded_tlv;
use crate::errors::{err, ASN1Error, ErrorCode};
use crate::trusted::{bytes_to_vec, bytes_view, string_bytes, string_from_utf8, utf8_decode};

verus! {

/// An octet admitted in a PrintableString: letters, digits, and the
/// punctuation the rules allow.
pub open spec fn spec_printable_byte(b: u8) -> bool {
    ||| 0x30 <= b <= 0x39
    ||| 0x41 <= b <= 0x5A
    ||| 0x61 <= b <= 0x7A
    ||| b == 0x20
    ||| b == 0x27
    ||| b == 0x28
    ||| b == 0x29
    ||| b == 0x2B
    ||| b == 0x2C
    ||| b == 0x2D
    ||| b == 0x2E
    ||| b == 0x2F
    ||| b == 0x3A
    ||| b == 0x3D
    ||| b == 0x3F
}

/// A character admitted in a PrintableString.
pub open spec fn spec_printable_char(c: char) -> bool {
    ||| 0x30 <= c as u32 <= 0x39
    ||| 0x41 <= c as u32 <= 0x5A
    ||| 0x61 <= c as u32 <= 0x7A
    ||| c as u32 == 0x20
    ||| c as u32 == 0x27
    ||| c as u32 == 0x28
    ||| c as u32 == 0x29
    ||| c as u32 == 0x2B
    ||| c as u32 == 0x2C
    ||| c as u32 == 0x2D
    ||| c as u32 == 0x2E
    ||| c as u32 == 0x2F
    ||| c as u32 == 0x3A
    ||| c as u32 == 0x3D
    ||| c as u32 == 0x3F
}

/// An octet admitted in an IA5String: any ASCII code.
pub open spec fn spec_ia5_byte(b: u8) -> bool {
    b < 128
}

/// A character admitted in an IA5String.
pub open spec fn spec_ia5_char(c: char) -> bool {
    (c as u32) < 128
}

/// An octet admitted in a NumericString: a digit or a space.
pub open spec fn spec_numeric_byte(b: u8) -> bool {
    0x30 <= b <= 0x39 || b == 0x20
}

/// A character admitted in a NumericString.
pub open spec fn spec_numeric_char(c: char) -> bool {
    0x30 <= c as u32 <= 0x39 || c as u32 == 0x20
}

fn all_printable_bytes(v: &Vec<u8>) -> (r: bool)
    ensures
        r == forall|i: int| 0 <= i < v@.len() ==> #[trigger] spec_printable_byte(v@[i]),
{
    let mut i: usize = 0;
    while i < v.len()
        invariant
            i <= v@.len(),
            forall|j: int| 0 <= j < i ==> #[trigger] spec_printable_byte(v@[j]),
        decreases v@.len() - i,
    {
        let b = v[i];
        let ok = (0x30 <= b && b <= 0x39) || (0x41 <= b && b <= 0x5A) || (0x61 <= b && b <= 0x7A)
            || b == 0x20 || b == 0x27 || b == 0x28 || b == 0x29 || b == 0x2B || b == 0x2C || b
            == 0x2D || b == 0x2E || b == 0x2F || b == 0x3A || b == 0x3D || b == 0x3F;
        if !ok {
            proof {
                assert(!spec_printable_byte(v@[i as int]));
            }
            return false;
        }
        i += 1;
    }
    true
}

fn all_ia5_bytes(v: &Vec<u8>) -> (r: bool)
    ensures
        r == forall|i: int| 0 <= i < v@.len() ==> #[trigger] spec_ia5_byte(v@[i]),
{
    let mut i: usize = 0;
    while i < v.len()
        invariant
            i <= v@.len(),
            forall|j: int| 0 <= j < i ==> #[trigger] spec_ia5_byte(v@[j]),
        decreases v@.len() - i,
    {
        if v[i] >= 128 {
            proof {
                assert(!spec_ia5_byte(v@[i as int]));
            }
            return false;
        }
        i += 1;
    }
    true
}

fn all_numeric_bytes(v: &Vec<u8>) -> (r: bool)
    ensures
        r == forall|i: int| 0 <= i < v@.len() ==> #[trigger] spec_numeric_byte(v@[i]),
{
    let mut i: usize = 0;
    while i < v.len()
        invariant
            i <= v@.len(),
            forall|j: int| 0 <= j < i ==> #[trigger] spec_numeric_byte(v@[j]),
        decreases v@.len() - i,
    {
        let b = v[i];
        if !((0x30 <= b && b <= 0x39) || b == 0x20) {
            proof {
                assert(!spec_numeric_byte(v@[i as int]));
            }
            return false;
        }
        i += 1;
    }
    true
}

/// What decoding a node as a DER UTF8String against `identifier` yields:
/// the primitive content octets decoded as UTF-8.
pub open spec fn spec_utf8_string_from_der(
    node: ASN1Node,
    identifier: ASN1Identifier,
    r: Result<ASN1UTF8String, ASN1Error>,
) -> bool {
    match r {
        Ok(v) => node.identifier == identifier && (node.content matches Content::Primitive(b)
            && utf8_decode(bytes_view(b)) == Some(v.0@)),
        Err(e) => {
            ||| (node.identifier != identifier && e.spec_code() == ErrorCode::UnexpectedFieldType)
            ||| (node.identifier == identifier && node.spec_is_constructed() && e.spec_code()
                == ErrorCode::UnexpectedFieldType)
            ||| (node.identifier == identifier && (node.content matches Content::Primitive(b)
                && utf8_decode(bytes_view(b)) is None && e.spec_code()
                == ErrorCode::InvalidStringRepresentation))
        },
    }
}

/// An ASN.1 UTF8String.
#[derive(Debug, Clone, PartialEq, Eq, Hash)]
pub struct ASN1UTF8String(pub String);

impl ASN1UTF8String {
    /// Accepts every string: any sequence of characters is valid UTF-8.
    pub fn new(s: String) -> (r: Result<Self, ASN1Error>)
        ensures
            r matches Ok(v) && v.0@ == s@,
    {
        Ok(ASN1UTF8String(s))
    }
}

impl DERParseable for ASN1UTF8String {
    fn from_der_node(node: ASN1Node) -> (r: Result<Self, ASN1Error>)
        ensures
            spec_utf8_string_from_der(node, universal_id(0x0c), r),
    {
        Self::from_der_node_with_identifier(node, ASN1UTF8String::default_identifier())
    }
}

impl DERSerializable for ASN1UTF8String {
    fn serialize(&self, serializer: &mut Serializer) -> (r: Result<(), ASN1Error>)
        ensures
            r matches Ok(_),
            exists|bs: Seq<u8>|
                {
                    &&& #[trigger] utf8_decode(bs) == Some(self.0@)
                    &&& final(serializer).spec_buffer() == old(serializer).spec_buffer()
                        + encoded_tlv(universal_id(0x0c), false, bs)
                },
    {
        let content = string_bytes(&self.0);
        serializer.append_node(ASN1UTF8String::default_identifier(), false, content.as_slice())
    }
}

impl DERImplicitlyTaggable for ASN1UTF8String {
    open spec fn spec_default_identifier() -> ASN1Identifier {
        universal_id(0x0c)
    }

    fn default_identifier() -> (r: ASN1Identifier)
        ensures
            r == universal_id(0x0c),
    {
        proof {
            assert(<ASN1UTF8String as DERImplicitlyTaggable>::spec_default_identifier()
                == universal_id(0x0c));
        }
        ASN1Identifier::utf8_string()
    }

    #[verifier::spinoff_prover]
    #[verifier::rlimit(60)]
    fn from_der_node_with_identifier(node: ASN1Node, identifier: ASN1Identifier) -> (r: Result<
        Self,
        ASN1Error,
    >)
        ensures
            spec_utf8_string_from_der(node, identifier, r),
    {
        if node.identifier != identifier {
            return Err(err(ErrorCode::UnexpectedFieldType, "Unexpected field type"));
        }
        match node.content {
            Content::Primitive(bytes) => {
                let bv = bytes_to_vec(&bytes);
                match string_from_utf8(bv) {
                    None => Err(err(ErrorCode::InvalidStringRepresentation, "Invalid UTF-8")),
                    Some(s) => {
                        Ok(ASN1UTF8String(s))
                    },
                }
            },
            Content::Constructed(_) => Err(
                err(ErrorCode::UnexpectedFieldType, "String must be primitive"),
            ),
        }
    }
}

impl BERParseable for ASN1UTF8String {
    fn from_ber_node(node: ASN1Node) -> (r: Result<Self, ASN1Error>)
        ensures
            !node.spec_is_constructed() ==> spec_utf8_string_from_der(node, universal_id(0x0c), r),
            node.spec_is_constructed() ==> spec_utf8_string_from_ber_constructed(
                node,
                universal_id(0x0c),
                r,
            ),
            match r {
                Ok(_) => node.identifier == universal_id(0x0c),
                Err(e) => node.identifier != universal_id(0x0c) ==> e.spec_code()
                    == ErrorCode::UnexpectedFieldType,
            },
        decreases node_size(node), 1int,
    {
        Self::from_ber_node_with_identifier(node, ASN1UTF8String::default_identifier())
    }
}

impl BERSerializable for ASN1UTF8String {

}

/// What decoding a constructed node as a BER UTF8String yields: its
/// children's characters reassembled under the type's own tag.
pub open spec fn spec_utf8_string_from_ber_constructed(
    node: ASN1Node,
    identifier: ASN1Identifier,
    r: Result<ASN1UTF8String, ASN1Error>,
) -> bool {
    match r {
        Ok(v) => node.identifier == identifier && (node.content matches Content::Constructed(c)
            && spec_text_segments(
            c.spec_nodes(),
            c.spec_start() as int,
            c.spec_end() as int,
            0x0c,
        ) == Ok::<Seq<char>, ErrorCode>(v.0@)),
        Err(e) => {
            &&& node.identifier != identifier ==> e.spec_code() == ErrorCode::UnexpectedFieldType
            &&& node.identifier == identifier ==> (node.content matches Content::Constructed(c)
                && spec_text_segments(
                c.spec_nodes(),
                c.spec_start() as int,
                c.spec_end() as int,
                0x0c,
            ) == Err::<Seq<char>, ErrorCode>(e.spec_code()))
        },
    }
}

impl BERImplicitlyTaggable for ASN1UTF8String {
    /// Under BER a primitive node follows the DER reading; a constructed
    /// node concatenates the strings its children decode to.
    fn from_ber_node_with_identifier(node: ASN1Node, identifier: ASN1Identifier) -> (r: Result<
        Self,
        ASN1Error,
    >)
        ensures
            !node.spec_is_constructed() ==> spec_utf8_string_from_der(node, identifier, r),
            node.spec_is_constructed() ==> spec_utf8_string_from_ber_constructed(node, identifier, r),
            match r {
                Ok(_) => node.identifier == identifier,
                Err(e) => node.identifier != identifier ==> e.spec_code()
                    == ErrorCode::UnexpectedFieldType,
            },
        decreases node_size(node), 0int,
    {
        if !node.is_constructed() {
            return Self::from_der_node_with_identifier(node, identifier);
        }
        if node.identifier != identifier {
            return Err(err(ErrorCode::UnexpectedFieldType, "Unexpected field type"));
        }
        match node.content {
            Content::Primitive(_) => vstd::pervasive::unreached(),
            Content::Constructed(collection) => {
                let ghost c = collection;
                let ghost ns = collection.spec_nodes();
                let ghost total = spec_text_segments(
                    ns,
                    c.spec_start() as int,
                    c.spec_end() as int,
                    0x0c,
                );
                let mut iter = collection.into_iter();
                let mut res = String::new();
                loop
                    invariant
                        iter.wf(),
                        iter.spec_nodes() == ns,
                        ns == c.spec_nodes(),
                        iter.spec_end() == c.spec_end(),
                        iter.spec_start() >= c.spec_start(),
                        c.spec_start() <= c.spec_end(),
                        node.identifier == identifier,
                        node.content == Content::Constructed(c),
                        total == spec_text_segments(
                            ns,
                            c.spec_start() as int,
                            c.spec_end() as int,
                            0x0c,
                        ),
                        match spec_text_segments(
                            ns,
                            iter.spec_start() as int,
                            iter.spec_end() as int,
                            0x0c,
                        ) {
                            Ok(rest) => total == Ok::<Seq<char>, ErrorCode>(res@ + rest),
                            Err(code) => total == Err::<Seq<char>, ErrorCode>(code),
                        },
                    ensures
                        total == Ok::<Seq<char>, ErrorCode>(res@ + Seq::<char>::empty()),
                    decreases iter.spec_end() - iter.spec_start(),
                {
                    let ghost i = iter.spec_start() as int;
                    let next = iter.next();
                    match next {
                        None => {
                            proof {
                                assert(total == Ok::<Seq<char>, ErrorCode>(res@ + Seq::<char>::empty()));
                            }
                            break ;
                        },
                        Some(child) => {
                            proof {
                                assert(node_size(child) < node_size(node));
                            }
                            let ghost se = iter.spec_start() as int;
                            match ASN1UTF8String::from_ber_node(child) {
                                Ok(part) => {
                                    let ghost pre = res@;
                                    res.append(part.0.as_str());
                                    proof {
                                        if ns[i].is_constructed {
                                            assert(child.content matches Content::Constructed(c2)
                                                && c2.spec_nodes() == ns && c2.spec_start() == i + 1
                                                && c2.spec_end() == se);
                                            assert(spec_text_segments(ns, i + 1, se, 0x0c)
                                                == Ok::<Seq<char>, ErrorCode>(part.0@));
                                        }
                                        if spec_text_segments(ns, se, c.spec_end() as int, 0x0c)
                                            is Ok {
                                            let rest2 = spec_text_segments(
                                                ns,
                                                se,
                                                c.spec_end() as int,
                                                0x0c,
                                            )->Ok_0;
                                            assert(spec_text_segments(
                                                ns,
                                                i,
                                                c.spec_end() as int,
                                                0x0c,
                                            ) == Ok::<Seq<char>, ErrorCode>(part.0@ + rest2));
                                            assert(res@ =~= pre + part.0@);
                                            assert(pre + (part.0@ + rest2) =~= res@ + rest2);
                                        }
                                    }
                                },
                                Err(e) => {
                                    proof {
                                        if ns[i].is_constructed && ns[i].identifier == universal_id(
                                            0x0c,
                                        ) {
                                            assert(child.content matches Content::Constructed(c2)
                                                && c2.spec_nodes() == ns && c2.spec_start() == i + 1
                                                && c2.spec_end() == se);
                                            assert(spec_text_segments(ns, i + 1, se, 0x0c)
                                                == Err::<Seq<char>, ErrorCode>(e.spec_code()));
                                        }
                                        assert(spec_text_segments(
                                            ns,
                                            i,
                                            c.spec_end() as int,
                                            0x0c,
                                        ) == Err::<Seq<char>, ErrorCode>(e.spec_code()));
                                    }
                                    return Err(e);
                                },
                            }
                        },
                    }
                }
                Ok(ASN1UTF8String(res))
            },
        }
    }
}


/// The characters the string type with universal tag number `tag` admits.
pub open spec fn spec_string_char_ok(tag: u64, c: char) -> bool {
    if tag == 0x13 {
        spec_printable_char(c)
    } else if tag == 0x16 {
        spec_ia5_char(c)
    } else if tag == 0x12 {
        spec_numeric_char(c)
    } else {
        true
    }
}

/// The characters a BER constructed character string reassembles over the
/// node window from `i` to `end`: each logical node there must itself be a
/// BER string of the type's own tag; a primitive one contributes its
/// decoded characters, each admitted, and a constructed one reassembles
/// its own children. An offending window yields the error kind the
/// decoder reports for it: `UnexpectedFieldType` where a child carries
/// another tag, `InvalidStringRepresentation` where a segment's octets
/// are no admissible text, always for the first offence found.
pub open spec fn spec_text_segments(nodes: Seq<ParserNode>, i: int, end: int, tag: u64) -> Result<
    Seq<char>,
    ErrorCode,
>
    decreases end - i,
    via spec_text_segments_decreases
{
    if i >= end {
        Ok(Seq::empty())
    } else {
        let se = spec_subtree_end(nodes, i, end);
        let head = if nodes[i].identifier != universal_id(tag) {
            Err(ErrorCode::UnexpectedFieldType)
        } else if !nodes[i].is_constructed {
            match utf8_decode(bytes_view(nodes[i].data_bytes->Some_0)) {
                Some(cs) => if forall|k: int|
                    0 <= k < cs.len() ==> spec_string_char_ok(tag, #[trigger] cs[k]) {
                    Ok(cs)
                } else {
                    Err(ErrorCode::InvalidStringRepresentation)
                },
                None => Err(ErrorCode::InvalidStringRepresentation),
            }
        } else {
            spec_text_segments(nodes, i + 1, se, tag)
        };
        match head {
            Err(code) => Err(code),
            Ok(h) => match spec_text_segments(nodes, se, end, tag) {
                Err(code) => Err(code),
                Ok(t) => Ok(h + t),
            },
        }
    }
}

#[via_fn]
proof fn spec_text_segments_decreases(nodes: Seq<ParserNode>, i: int, end: int, tag: u64) {
    if i < end {
        lemma_scan_end_bounds(nodes, nodes[i].depth as int, i + 1, end);
    }
}

/// What decoding a node as a DER PrintableString against `identifier` yields:
/// the primitive content octets decoded as UTF-8, every character admitted.
pub open spec fn spec_printable_string_from_der(
    node: ASN1Node,
    identifier: ASN1Identifier,
    r: Result<ASN1PrintableString, ASN1Error>,
) -> bool {
    match r {
        Ok(v) => node.identifier == identifier && (node.content matches Content::Primitive(b)
            && utf8_decode(bytes_view(b)) == Some(v.0@) && (forall|i: int|
            0 <= i < v.0@.len() ==> #[trigger] spec_printable_char(v.0@[i]))),
        Err(e) => {
            ||| (node.identifier != identifier && e.spec_code() == ErrorCode::UnexpectedFieldType)
            ||| (node.identifier == identifier && node.spec_is_constructed() && e.spec_code()
                == ErrorCode::UnexpectedFieldType)
            ||| (node.identifier == identifier && (node.content matches Content::Primitive(b)
                && !(utf8_decode(bytes_view(b)) matches Some(cs) && (forall|i: int|
                0 <= i < cs.len() ==> #[trigger] spec_printable_char(cs[i]))) && e.spec_code()
                == ErrorCode::InvalidStringRepresentation))
        },
    }
}

/// An ASN.1 PrintableString.
#[derive(Debug, Clone, PartialEq, Eq, Hash)]
pub struct ASN1PrintableString(pub String);

impl ASN1PrintableString {
    /// Accepts exactly the strings whose characters the type admits.
    pub fn new(s: String) -> (r: Result<Self, ASN1Error>)
        ensures
            match r {
                Ok(v) => v.0@ == s@ && (forall|i: int|
                    0 <= i < s@.len() ==> #[trigger] spec_printable_char(s@[i])),
                Err(e) => !(forall|i: int| 0 <= i < s@.len() ==> #[trigger] spec_printable_char(s@[i]))
                    && e.spec_code() == ErrorCode::InvalidStringRepresentation,
            },
    {
        let sb = string_bytes(&s);
        if all_printable_bytes(&sb) {
            proof {
                assert forall|i: int| 0 <= i < sb@.len() implies sb@[i]
                    < 128 by {
                    assert(spec_printable_byte(sb@[i]));
                }
                assert forall|i: int| 0 <= i < s@.len() implies #[trigger] spec_printable_char(
                    s@[i],
                ) by {
                    assert(s@[i] as u32 == sb@[i] as u32);
                    assert(spec_printable_byte(sb@[i]));
                }
            }
            Ok(ASN1PrintableString(s))
        } else {
            proof {
                let ghost j = choose|j: int|
                    0 <= j < sb@.len() && !spec_printable_byte(sb@[j]);
                assert_by_contradiction!(!(forall|i: int|
                    0 <= i < s@.len() ==> #[trigger] spec_printable_char(s@[i])), {
                    assert forall|i: int| 0 <= i < s@.len() implies (s@[i]
                        as u32) < 128 by {
                        assert(spec_printable_char(s@[i]));
                    }
                    assert(spec_printable_char(s@[j]));
                    assert(sb@[j] as u32 == s@[j] as u32);
                    assert(spec_printable_byte(sb@[j]));
                });
            }
            Err(err(ErrorCode::InvalidStringRepresentation, "Invalid string content"))
        }
    }
}

impl DERParseable for ASN1PrintableString {
    fn from_der_node(node: ASN1Node) -> (r: Result<Self, ASN1Error>)
        ensures
            spec_printable_string_from_der(node, universal_id(0x13), r),
    {
        Self::from_der_node_with_identifier(node, ASN1PrintableString::default_identifier())
    }
}

impl DERSerializable for ASN1PrintableString {
    fn serialize(&self, serializer: &mut Serializer) -> (r: Result<(), ASN1Error>)
        ensures
            r matches Ok(_),
            exists|bs: Seq<u8>|
                {
                    &&& #[trigger] utf8_decode(bs) == Some(self.0@)
                    &&& final(serializer).spec_buffer() == old(serializer).spec_buffer()
                        + encoded_tlv(universal_id(0x13), false, bs)
                },
    {
        let content = string_bytes(&self.0);
        serializer.append_node(ASN1PrintableString::default_identifier(), false, content.as_slice())
    }
}

impl DERImplicitlyTaggable for ASN1PrintableString {
    open spec fn spec_default_identifier() -> ASN1Identifier {
        universal_id(0x13)
    }

    fn default_identifier() -> (r: ASN1Identifier)
        ensures
            r == universal_id(0x13),
    {
        proof {
            assert(<ASN1PrintableString as DERImplicitlyTaggable>::spec_default_identifier()
                == universal_id(0x13));
        }
        ASN1Identifier::printable_string()
    }

    #[verifier::spinoff_prover]
    #[verifier::rlimit(60)]
    fn from_der_node_with_identifier(node: ASN1Node, identifier: ASN1Identifier) -> (r: Result<
        Self,
        ASN1Error,
    >)
        ensures
            spec_printable_string_from_der(node, identifier, r),
    {
        if node.identifier != identifier {
            return Err(err(ErrorCode::UnexpectedFieldType, "Unexpected field type"));
        }
        match node.content {
            Content::Primitive(bytes) => {
                let bv = bytes_to_vec(&bytes);
                match string_from_utf8(bv) {
                    None => {
                        return Err(
                            err(ErrorCode::InvalidStringRepresentation, "Invalid UTF-8"),
                        );
                    },
                    Some(s) => {
                        let sb = string_bytes(&s);
                        if all_printable_bytes(&sb) {
                            proof {
                                assert forall|i: int| 0 <= i < sb@.len() implies sb@[i]
                                    < 128 by {
                                    assert(spec_printable_byte(sb@[i]));
                                }
                                assert forall|i: int| 0 <= i < s@.len() implies
                                    #[trigger] spec_printable_char(s@[i]) by {
                                    assert(s@[i] as u32 == sb@[i] as u32);
                                    assert(spec_printable_byte(sb@[i]));
                                }
                            }
                            let v = ASN1PrintableString(s);
                            proof {
                                assert(spec_printable_string_from_der(
                                    node,
                                    identifier,
                                    Ok::<ASN1PrintableString, ASN1Error>(v),
                                ));
                            }
                            Ok(v)
                        } else {
                            proof {
                                let dv = utf8_decode(bytes_view(bytes))->Some_0;
                                assert(dv == s@);
                                let j = choose|j: int|
                                    0 <= j < sb@.len() && !spec_printable_byte(sb@[j]);
                                assert_by_contradiction!(!(forall|i: int|
                                    0 <= i < dv.len() ==> #[trigger] spec_printable_char(dv[i])), {
                                    assert forall|i: int| 0 <= i < s@.len() implies (s@[i]
                                        as u32) < 128 by {
                                        assert(spec_printable_char(dv[i]));
                                        assert(dv[i] == s@[i]);
                                    }
                                    assert(spec_printable_char(dv[j]));
                                    assert(dv[j] == s@[j]);
                                    assert(sb@[j] as u32 == s@[j] as u32);
                                    assert(spec_printable_byte(sb@[j]));
                                });
                            }
                            let e = err(
                                ErrorCode::InvalidStringRepresentation,
                                "Invalid string content",
                            );
                            proof {
                                assert(spec_printable_string_from_der(
                                    node,
                                    identifier,
                                    Err::<ASN1PrintableString, ASN1Error>(e),
                                ));
                            }
                            return Err(e);
                        }
                    },
                }
            },
            Content::Constructed(_) => Err(
                err(ErrorCode::UnexpectedFieldType, "String must be primitive"),
            ),
        }
    }
}

impl BERParseable for ASN1PrintableString {
    fn from_ber_node(node: ASN1Node) -> (r: Result<Self, ASN1Error>)
        ensures
            !node.spec_is_constructed() ==> spec_printable_string_from_der(node, universal_id(0x13), r),
            node.spec_is_constructed() ==> spec_printable_string_from_ber_constructed(
                node,
                universal_id(0x13),
                r,
            ),
            match r {
                Ok(_) => node.identifier == universal_id(0x13),
                Err(e) => node.identifier != universal_id(0x13) ==> e.spec_code()
                    == ErrorCode::UnexpectedFieldType,
            },
        decreases node_size(node), 1int,
    {
        Self::from_ber_node_with_identifier(node, ASN1PrintableString::default_identifier())
    }
}

impl BERSerializable for ASN1PrintableString {

}

/// What decoding a constructed node as a BER PrintableString yields: its
/// children's characters reassembled under the type's own tag.
pub open spec fn spec_printable_string_from_ber_constructed(
    node: ASN1Node,
    identifier: ASN1Identifier,
    r: Result<ASN1PrintableString, ASN1Error>,
) -> bool {
    match r {
        Ok(v) => node.identifier == identifier && (node.content matches Content::Constructed(c)
            && spec_text_segments(
            c.spec_nodes(),
            c.spec_start() as int,
            c.spec_end() as int,
            0x13,
        ) == Ok::<Seq<char>, ErrorCode>(v.0@)),
        Err(e) => {
            &&& node.identifier != identifier ==> e.spec_code() == ErrorCode::UnexpectedFieldType
            &&& node.identifier == identifier ==> (node.content matches Content::Constructed(c)
                && spec_text_segments(
                c.spec_nodes(),
                c.spec_start() as int,
                c.spec_end() as int,
                0x13,
            ) == Err::<Seq<char>, ErrorCode>(e.spec_code()))
        },
    }
}

impl BERImplicitlyTaggable for ASN1PrintableString {
    /// Under BER a primitive node follows the DER reading; a constructed
    /// node concatenates the strings its children decode to.
    fn from_ber_node_with_identifier(node: ASN1Node, identifier: ASN1Identifier) -> (r: Result<
        Self,
        ASN1Error,
    >)
        ensures
            !node.spec_is_constructed() ==> spec_printable_string_from_der(node, identifier, r),
            node.spec_is_constructed() ==> spec_printable_string_from_ber_constructed(node, identifier, r),
            match r {
                Ok(_) => node.identifier == identifier,
                Err(e) => node.identifier != identifier ==> e.spec_code()
                    == ErrorCode::UnexpectedFieldType,
            },
        decreases node_size(node), 0int,
    {
        if !node.is_constructed() {
            return Self::from_der_node_with_identifier(node, identifier);
        }
        if node.identifier != identifier {
            return Err(err(ErrorCode::UnexpectedFieldType, "Unexpected field type"));
        }
        match node.content {
            Content::Primitive(_) => vstd::pervasive::unreached(),
            Content::Constructed(collection) => {
                let ghost c = collection;
                let ghost ns = collection.spec_nodes();
                let ghost total = spec_text_segments(
                    ns,
                    c.spec_start() as int,
                    c.spec_end() as int,
                    0x13,
                );
                let mut iter = collection.into_iter();
                let mut res = String::new();
                loop
                    invariant
                        iter.wf(),
                        iter.spec_nodes() == ns,
                        ns == c.spec_nodes(),
                        iter.spec_end() == c.spec_end(),
                        iter.spec_start() >= c.spec_start(),
                        c.spec_start() <= c.spec_end(),
                        node.identifier == identifier,
                        node.content == Content::Constructed(c),
                        total == spec_text_segments(
                            ns,
                            c.spec_start() as int,
                            c.spec_end() as int,
                            0x13,
                        ),
                        match spec_text_segments(
                            ns,
                            iter.spec_start() as int,
                            iter.spec_end() as int,
                            0x13,
                        ) {
                            Ok(rest) => total == Ok::<Seq<char>, ErrorCode>(res@ + rest),
                            Err(code) => total == Err::<Seq<char>, ErrorCode>(code),
                        },
                    ensures
                        total == Ok::<Seq<char>, ErrorCode>(res@ + Seq::<char>::empty()),
                    decreases iter.spec_end() - iter.spec_start(),
                {
                    let ghost i = iter.spec_start() as int;
                    let next = iter.next();
                    match next {
                        None => {
                            proof {
                                assert(total == Ok::<Seq<char>, ErrorCode>(res@ + Seq::<char>::empty()));
                            }
                            break ;
                        },
                        Some(child) => {
                            proof {
                                assert(node_size(child) < node_size(node));
                            }
                            let ghost se = iter.spec_start() as int;
                            match ASN1PrintableString::from_ber_node(child) {
                                Ok(part) => {
                                    let ghost pre = res@;
                                    res.append(part.0.as_str());
                                    proof {
                                        if ns[i].is_constructed {
                                            assert(child.content matches Content::Constructed(c2)
                                                && c2.spec_nodes() == ns && c2.spec_start() == i + 1
                                                && c2.spec_end() == se);
                                            assert(spec_text_segments(ns, i + 1, se, 0x13)
                                                == Ok::<Seq<char>, ErrorCode>(part.0@));
                                        }
                                        if spec_text_segments(ns, se, c.spec_end() as int, 0x13)
                                            is Ok {
                                            let rest2 = spec_text_segments(
                                                ns,
                                                se,
                                                c.spec_end() as int,
                                                0x13,
                                            )->Ok_0;
                                            assert(spec_text_segments(
                                                ns,
                                                i,
                                                c.spec_end() as int,
                                                0x13,
                                            ) == Ok::<Seq<char>, ErrorCode>(part.0@ + rest2));
                                            assert(res@ =~= pre + part.0@);
                                            assert(pre + (part.0@ + rest2) =~= res@ + rest2);
                                        }
                                    }
                                },
                                Err(e) => {
                                    proof {
                                        if ns[i].is_constructed && ns[i].identifier == universal_id(
                                            0x13,
                                        ) {
                                            assert(child.content matches Content::Constructed(c2)
                                                && c2.spec_nodes() == ns && c2.spec_start() == i + 1
                                                && c2.spec_end() == se);
                                            assert(spec_text_segments(ns, i + 1, se, 0x13)
                                                == Err::<Seq<char>, ErrorCode>(e.spec_code()));
                                        }
                                        assert(spec_text_segments(
                                            ns,
                                            i,
                                            c.spec_end() as int,
                                            0x13,
                                        ) == Err::<Seq<char>, ErrorCode>(e.spec_code()));
                                    }
                                    return Err(e);
                                },
                            }
                        },
                    }
                }
                Ok(ASN1PrintableString(res))
            },
        }
    }
}

/// What decoding a node as a DER IA5String against `identifier` yields:
/// the primitive content octets decoded as UTF-8, every character admitted.
pub open spec fn spec_ia5_string_from_der(
    node: ASN1Node,
    identifier: ASN1Identifier,
    r: Result<ASN1IA5String, ASN1Error>,
) -> bool {
    match r {
        Ok(v) => node.identifier == identifier && (node.content matches Content::Primitive(b)
            && utf8_decode(bytes_view(b)) == Some(v.0@) && (forall|i: int|
            0 <= i < v.0@.len() ==> #[trigger] spec_ia5_char(v.0@[i]))),
        Err(e) => {
            ||| (node.identifier != identifier && e.spec_code() == ErrorCode::UnexpectedFieldType)
            ||| (node.identifier == identifier && node.spec_is_constructed() && e.spec_code()
                == ErrorCode::UnexpectedFieldType)
            ||| (node.identifier == identifier && (node.content matches Content::Primitive(b)
                && !(utf8_decode(bytes_view(b)) matches Some(cs) && (forall|i: int|
                0 <= i < cs.len() ==> #[trigger] spec_ia5_char(cs[i]))) && e.spec_code()
                == ErrorCode::InvalidStringRepresentation))
        },
    }
}

/// An ASN.1 IA5String.
#[derive(Debug, Clone, PartialEq, Eq, Hash)]
pub struct ASN1IA5String(pub String);

impl ASN1IA5String {
    /// Accepts exactly the strings whose characters the type admits.
    pub fn new(s: String) -> (r: Result<Self, ASN1Error>)
        ensures
            match r {
                Ok(v) => v.0@ == s@ && (forall|i: int|
                    0 <= i < s@.len() ==> #[trigger] spec_ia5_char(s@[i])),
                Err(e) => !(forall|i: int| 0 <= i < s@.len() ==> #[trigger] spec_ia5_char(s@[i]))
                    && e.spec_code() == ErrorCode::InvalidStringRepresentation,
            },
    {
        let sb = string_bytes(&s);
        if all_ia5_bytes(&sb) {
            proof {
                assert forall|i: int| 0 <= i < sb@.len() implies sb@[i]
                    < 128 by {
                    assert(spec_ia5_byte(sb@[i]));
                }
                assert forall|i: int| 0 <= i < s@.len() implies #[trigger] spec_ia5_char(
                    s@[i],
                ) by {
                    assert(s@[i] as u32 == sb@[i] as u32);
                    assert(spec_ia5_byte(sb@[i]));
                }
            }
            Ok(ASN1IA5String(s))
        } else {
            proof {
                let ghost j = choose|j: int|
                    0 <= j < sb@.len() && !spec_ia5_byte(sb@[j]);
                assert_by_contradiction!(!(forall|i: int|
                    0 <= i < s@.len() ==> #[trigger] spec_ia5_char(s@[i])), {
                    assert forall|i: int| 0 <= i < s@.len() implies (s@[i]
                        as u32) < 128 by {
                        assert(spec_ia5_char(s@[i]));
                    }
                    assert(spec_ia5_char(s@[j]));
                    assert(sb@[j] as u32 == s@[j] as u32);
                    assert(spec_ia5_byte(sb@[j]));
                });
            }
            Err(err(ErrorCode::InvalidStringRepresentation, "Invalid string content"))
        }
    }
}

impl DERParseable for ASN1IA5String {
    fn from_der_node(node: ASN1Node) -> (r: Result<Self, ASN1Error>)
        ensures
            spec_ia5_string_from_der(node, universal_id(0x16), r),
    {
        Self::from_der_node_with_identifier(node, ASN1IA5String::default_identifier())
    }
}

impl DERSerializable for ASN1IA5String {
    fn serialize(&self, serializer: &mut Serializer) -> (r: Result<(), ASN1Error>)
        ensures
            r matches Ok(_),
            exists|bs: Seq<u8>|
                {
                    &&& #[trigger] utf8_decode(bs) == Some(self.0@)
                    &&& final(serializer).spec_buffer() == old(serializer).spec_buffer()
                        + encoded_tlv(universal_id(0x16), false, bs)
                },
    {
        let content = string_bytes(&self.0);
        serializer.append_node(ASN1IA5String::default_identifier(), false, content.as_slice())
    }
}

impl DERImplicitlyTaggable for ASN1IA5String {
    open spec fn spec_default_identifier() -> ASN1Identifier {
        universal_id(0x16)
    }

    fn default_identifier() -> (r: ASN1Identifier)
        ensures
            r == universal_id(0x16),
    {
        proof {
            assert(<ASN1IA5String as DERImplicitlyTaggable>::spec_default_identifier()
                == universal_id(0x16));
        }
        ASN1Identifier::ia5_string()
    }

    #[verifier::spinoff_prover]
    #[verifier::rlimit(60)]
    fn from_der_node_with_identifier(node: ASN1Node, identifier: ASN1Identifier) -> (r: Result<
        Self,
        ASN1Error,
    >)
        ensures
            spec_ia5_string_from_der(node, identifier, r),
    {
        if node.identifier != identifier {
            return Err(err(ErrorCode::UnexpectedFieldType, "Unexpected field type"));
        }
        match node.content {
            Content::Primitive(bytes) => {
                let bv = bytes_to_vec(&bytes);
                match string_from_utf8(bv) {
                    None => {
                        return Err(
                            err(ErrorCode::InvalidStringRepresentation, "Invalid UTF-8"),
                        );
                    },
                    Some(s) => {
                        let sb = string_bytes(&s);
                        if all_ia5_bytes(&sb) {
                            proof {
                                assert forall|i: int| 0 <= i < sb@.len() implies sb@[i]
                                    < 128 by {
                                    assert(spec_ia5_byte(sb@[i]));
                                }
                                assert forall|i: int| 0 <= i < s@.len() implies
                                    #[trigger] spec_ia5_char(s@[i]) by {
                                    assert(s@[i] as u32 == sb@[i] as u32);
                                    assert(spec_ia5_byte(sb@[i]));
                                }
                            }
                            let v = ASN1IA5String(s);
                            proof {
                                assert(spec_ia5_string_from_der(
                                    node,
                                    identifier,
                                    Ok::<ASN1IA5String, ASN1Error>(v),
                                ));
                            }
                            Ok(v)
                        } else {
                            proof {
                                let dv = utf8_decode(bytes_view(bytes))->Some_0;
                                assert(dv == s@);
                                let j = choose|j: int|
                                    0 <= j < sb@.len() && !spec_ia5_byte(sb@[j]);
                                assert_by_contradiction!(!(forall|i: int|
                                    0 <= i < dv.len() ==> #[trigger] spec_ia5_char(dv[i])), {
                                    assert forall|i: int| 0 <= i < s@.len() implies (s@[i]
                                        as u32) < 128 by {
                                        assert(spec_ia5_char(dv[i]));
                                        assert(dv[i] == s@[i]);
                                    }
                                    assert(spec_ia5_char(dv[j]));
                                    assert(dv[j] == s@[j]);
                                    assert(sb@[j] as u32 == s@[j] as u32);
                                    assert(spec_ia5_byte(sb@[j]));
                                });
                            }
                            let e = err(
                                ErrorCode::InvalidStringRepresentation,
                                "Invalid string content",
                            );
                            proof {
                                assert(spec_ia5_string_from_der(
                                    node,
                                    identifier,
                                    Err::<ASN1IA5String, ASN1Error>(e),
                                ));
                            }
                            return Err(e);
                        }
                    },
                }
            },
            Content::Constructed(_) => Err(
                err(ErrorCode::UnexpectedFieldType, "String must be primitive"),
            ),
        }
    }
}

impl BERParseable for ASN1IA5String {
    fn from_ber_node(node: ASN1Node) -> (r: Result<Self, ASN1Error>)
        ensures
            !node.spec_is_constructed() ==> spec_ia5_string_from_der(node, universal_id(0x16), r),
            node.spec_is_constructed() ==> spec_ia5_string_from_ber_constructed(
                node,
                universal_id(0x16),
                r,
            ),
            match r {
                Ok(_) => node.identifier == universal_id(0x16),
                Err(e) => node.identifier != universal_id(0x16) ==> e.spec_code()
                    == ErrorCode::UnexpectedFieldType,
            },
        decreases node_size(node), 1int,
    {
        Self::from_ber_node_with_identifier(node, ASN1IA5String::default_identifier())
    }
}

impl BERSerializable for ASN1IA5String {

}

/// What decoding a constructed node as a BER IA5String yields: its
/// children's characters reassembled under the type's own tag.
pub open spec fn spec_ia5_string_from_ber_constructed(
    node: ASN1Node,
    identifier: ASN1Identifier,
    r: Result<ASN1IA5String, ASN1Error>,
) -> bool {
    match r {
        Ok(v) => node.identifier == identifier && (node.content matches Content::Constructed(c)
            && spec_text_segments(
            c.spec_nodes(),
            c.spec_start() as int,
            c.spec_end() as int,
            0x16,
        ) == Ok::<Seq<char>, ErrorCode>(v.0@)),
        Err(e) => {
            &&& node.identifier != identifier ==> e.spec_code() == ErrorCode::UnexpectedFieldType
            &&& node.identifier == identifier ==> (node.content matches Content::Constructed(c)
                && spec_text_segments(
                c.spec_nodes(),
                c.spec_start() as int,
                c.spec_end() as int,
                0x16,
            ) == Err::<Seq<char>, ErrorCode>(e.spec_code()))
        },
    }
}

impl BERImplicitlyTaggable for ASN1IA5String {
    /// Under BER a primitive node follows the DER reading; a constructed
    /// node concatenates the strings its children decode to.
    fn from_ber_node_with_identifier(node: ASN1Node, identifier: ASN1Identifier) -> (r: Result<
        Self,
        ASN1Error,
    >)
        ensures
            !node.spec_is_constructed() ==> spec_ia5_string_from_der(node, identifier, r),
            node.spec_is_constructed() ==> spec_ia5_string_from_ber_constructed(node, identifier, r),
            match r {
                Ok(_) => node.identifier == identifier,
                Err(e) => node.identifier != identifier ==> e.spec_code()
                    == ErrorCode::UnexpectedFieldType,
            },
        decreases node_size(node), 0int,
    {
        if !node.is_constructed() {
            return Self::from_der_node_with_identifier(node, identifier);
        }
        if node.identifier != identifier {
            return Err(err(ErrorCode::UnexpectedFieldType, "Unexpected field type"));
        }
        match node.content {
            Content::Primitive(_) => vstd::pervasive::unreached(),
            Content::Constructed(collection) => {
                let ghost c = collection;
                let ghost ns = collection.spec_nodes();
                let ghost total = spec_text_segments(
                    ns,
                    c.spec_start() as int,
                    c.spec_end() as int,
                    0x16,
                );
                let mut iter = collection.into_iter();
                let mut res = String::new();
                loop
                    invariant
                        iter.wf(),
                        iter.spec_nodes() == ns,
                        ns == c.spec_nodes(),
                        iter.spec_end() == c.spec_end(),
                        iter.spec_start() >= c.spec_start(),
                        c.spec_start() <= c.spec_end(),
                        node.identifier == identifier,
                        node.content == Content::Constructed(c),
                        total == spec_text_segments(
                            ns,
                            c.spec_start() as int,
                            c.spec_end() as int,
                            0x16,
                        ),
                        match spec_text_segments(
                            ns,
                            iter.spec_start() as int,
                            iter.spec_end() as int,
                            0x16,
                        ) {
                            Ok(rest) => total == Ok::<Seq<char>, ErrorCode>(res@ + rest),
                            Err(code) => total == Err::<Seq<char>, ErrorCode>(code),
                        },
                    ensures
                        total == Ok::<Seq<char>, ErrorCode>(res@ + Seq::<char>::empty()),
                    decreases iter.spec_end() - iter.spec_start(),
                {
                    let ghost i = iter.spec_start() as int;
                    let next = iter.next();
                    match next {
                        None => {
                            proof {
                                assert(total == Ok::<Seq<char>, ErrorCode>(res@ + Seq::<char>::empty()));
                            }
                            break ;
                        },
                        Some(child) => {
                            proof {
                                assert(node_size(child) < node_size(node));
                            }
                            let ghost se = iter.spec_start() as int;
                            match ASN1IA5String::from_ber_node(child) {
                                Ok(part) => {
                                    let ghost pre = res@;
                                    res.append(part.0.as_str());
                                    proof {
                                        if ns[i].is_constructed {
                                            assert(child.content matches Content::Constructed(c2)
                                                && c2.spec_nodes() == ns && c2.spec_start() == i + 1
                                                && c2.spec_end() == se);
                                            assert(spec_text_segments(ns, i + 1, se, 0x16)
                                                == Ok::<Seq<char>, ErrorCode>(part.0@));
                                        }
                                        if spec_text_segments(ns, se, c.spec_end() as int, 0x16)
                                            is Ok {
                                            let rest2 = spec_text_segments(
                                                ns,
                                                se,
                                                c.spec_end() as int,
                                                0x16,
                                            )->Ok_0;
                                            assert(spec_text_segments(
                                                ns,
                                                i,
                                                c.spec_end() as int,
                                                0x16,
                                            ) == Ok::<Seq<char>, ErrorCode>(part.0@ + rest2));
                                            assert(res@ =~= pre + part.0@);
                                            assert(pre + (part.0@ + rest2) =~= res@ + rest2);
                                        }
                                    }
                                },
                                Err(e) => {
                                    proof {
                                        if ns[i].is_constructed && ns[i].identifier == universal_id(
                                            0x16,
                                        ) {
                                            assert(child.content matches Content::Constructed(c2)
                                                && c2.spec_nodes() == ns && c2.spec_start() == i + 1
                                                && c2.spec_end() == se);
                                            assert(spec_text_segments(ns, i + 1, se, 0x16)
                                                == Err::<Seq<char>, ErrorCode>(e.spec_code()));
                                        }
                                        assert(spec_text_segments(
                                            ns,
                                            i,
                                            c.spec_end() as int,
                                            0x16,
                                        ) == Err::<Seq<char>, ErrorCode>(e.spec_code()));
                                    }
                                    return Err(e);
                                },
                            }
                        },
                    }
                }
                Ok(ASN1IA5String(res))
            },
        }
    }
}

/// What decoding a node as a DER NumericString against `identifier` yields:
/// the primitive content octets decoded as UTF-8, every character admitted.
pub open spec fn spec_numeric_string_from_der(
    node: ASN1Node,
    identifier: ASN1Identifier,
    r: Result<ASN1NumericString, ASN1Error>,
) -> bool {
    match r {
        Ok(v) => node.identifier == identifier && (node.content matches Content::Primitive(b)
            && utf8_decode(bytes_view(b)) == Some(v.0@) && (forall|i: int|
            0 <= i < v.0@.len() ==> #[trigger] spec_numeric_char(v.0@[i]))),
        Err(e) => {
            ||| (node.identifier != identifier && e.spec_code() == ErrorCode::UnexpectedFieldType)
            ||| (node.identifier == identifier && node.spec_is_constructed() && e.spec_code()
                == ErrorCode::UnexpectedFieldType)
            ||| (node.identifier == identifier && (node.content matches Content::Primitive(b)
                && !(utf8_decode(bytes_view(b)) matches Some(cs) && (forall|i: int|
                0 <= i < cs.len() ==> #[trigger] spec_numeric_char(cs[i]))) && e.spec_code()
                == ErrorCode::InvalidStringRepresentation))
        },
    }
}

/// An ASN.1 NumericString.
#[derive(Debug, Clone, PartialEq, Eq, Hash)]
pub struct ASN1NumericString(pub String);

impl ASN1NumericString {
    /// Accepts exactly the strings whose characters the type admits.
    pub fn new(s: String) -> (r: Result<Self, ASN1Error>)
        ensures
            match r {
                Ok(v) => v.0@ == s@ && (forall|i: int|
                    0 <= i < s@.len() ==> #[trigger] spec_numeric_char(s@[i])),
                Err(e) => !(forall|i: int| 0 <= i < s@.len() ==> #[trigger] spec_numeric_char(s@[i]))
                    && e.spec_code() == ErrorCode::InvalidStringRepresentation,
            },
    {
        let sb = string_bytes(&s);
        if all_numeric_bytes(&sb) {
            proof {
                assert forall|i: int| 0 <= i < sb@.len() implies sb@[i]
                    < 128 by {
                    assert(spec_numeric_byte(sb@[i]));
                }
                assert forall|i: int| 0 <= i < s@.len() implies #[trigger] spec_numeric_char(
                    s@[i],
                ) by {
                    assert(s@[i] as u32 == sb@[i] as u32);
                    assert(spec_numeric_byte(sb@[i]));
                }
            }
            Ok(ASN1NumericString(s))
        } else {
            proof {
                let ghost j = choose|j: int|
                    0 <= j < sb@.len() && !spec_numeric_byte(sb@[j]);
                assert_by_contradiction!(!(forall|i: int|
                    0 <= i < s@.len() ==> #[trigger] spec_numeric_char(s@[i])), {
                    assert forall|i: int| 0 <= i < s@.len() implies (s@[i]
                        as u32) < 128 by {
                        assert(spec_numeric_char(s@[i]));
                    }
                    assert(spec_numeric_char(s@[j]));
                    assert(sb@[j] as u32 == s@[j] as u32);
                    assert(spec_numeric_byte(sb@[j]));
                });
            }
            Err(err(ErrorCode::InvalidStringRepresentation, "Invalid string content"))
        }
    }
}

impl DERParseable for ASN1NumericString {
    fn from_der_node(node: ASN1Node) -> (r: Result<Self, ASN1Error>)
        ensures
            spec_numeric_string_from_der(node, universal_id(0x12), r),
    {
        Self::from_der_node_with_identifier(node, ASN1NumericString::default_identifier())
    }
}

impl DERSerializable for ASN1NumericString {
    fn serialize(&self, serializer: &mut Serializer) -> (r: Result<(), ASN1Error>)
        ensures
            r matches Ok(_),
            exists|bs: Seq<u8>|
                {
                    &&& #[trigger] utf8_decode(bs) == Some(self.0@)
                    &&& final(serializer).spec_buffer() == old(serializer).spec_buffer()
                        + encoded_tlv(universal_id(0x12), false, bs)
                },
    {
        let content = string_bytes(&self.0);
        serializer.append_node(ASN1NumericString::default_identifier(), false, content.as_slice())
    }
}

impl DERImplicitlyTaggable for ASN1NumericString {
    open spec fn spec_default_identifier() -> ASN1Identifier {
        universal_id(0x12)
    }

    fn default_identifier() -> (r: ASN1Identifier)
        ensures
            r == universal_id(0x12),
    {
        proof {
            assert(<ASN1NumericString as DERImplicitlyTaggable>::spec_default_identifier()
                == universal_id(0x12));
        }
        ASN1Identifier::numeric_string()
    }

    #[verifier::spinoff_prover]
    #[verifier::rlimit(60)]
    fn from_der_node_with_identifier(node: ASN1Node, identifier: ASN1Identifier) -> (r: Result<
        Self,
        ASN1Error,
    >)
        ensures
            spec_numeric_string_from_der(node, identifier, r),
    {
        if node.identifier != identifier {
            return Err(err(ErrorCode::UnexpectedFieldType, "Unexpected field type"));
        }
        match node.content {
            Content::Primitive(bytes) => {
                let bv = bytes_to_vec(&bytes);
                match string_from_utf8(bv) {
                    None => {
                        return Err(
                            err(ErrorCode::InvalidStringRepresentation, "Invalid UTF-8"),
                        );
                    },
                    Some(s) => {
                        let sb = string_bytes(&s);
                        if all_numeric_bytes(&sb) {
                            proof {
                                assert forall|i: int| 0 <= i < sb@.len() implies sb@[i]
                                    < 128 by {
                                    assert(spec_numeric_byte(sb@[i]));
                                }
                                assert forall|i: int| 0 <= i < s@.len() implies
                                    #[trigger] spec_numeric_char(s@[i]) by {
                                    assert(s@[i] as u32 == sb@[i] as u32);
                                    assert(spec_numeric_byte(sb@[i]));
                                }
                            }
                            let v = ASN1NumericString(s);
                            proof {
                                assert(spec_numeric_string_from_der(
                                    node,
                                    identifier,
                                    Ok::<ASN1NumericString, ASN1Error>(v),
                                ));
                            }
                            Ok(v)
                        } else {
                            proof {
                                let dv = utf8_decode(bytes_view(bytes))->Some_0;
                                assert(dv == s@);
                                let j = choose|j: int|
                                    0 <= j < sb@.len() && !spec_numeric_byte(sb@[j]);
                                assert_by_contradiction!(!(forall|i: int|
                                    0 <= i < dv.len() ==> #[trigger] spec_numeric_char(dv[i])), {
                                    assert forall|i: int| 0 <= i < s@.len() implies (s@[i]
                                        as u32) < 128 by {
                                        assert(spec_numeric_char(dv[i]));
                                        assert(dv[i] == s@[i]);
                                    }
                                    assert(spec_numeric_char(dv[j]));
                                    assert(dv[j] == s@[j]);
                                    assert(sb@[j] as u32 == s@[j] as u32);
                                    assert(spec_numeric_byte(sb@[j]));
                                });
                            }
                            let e = err(
                                ErrorCode::InvalidStringRepresentation,
                                "Invalid string content",
                            );
                            proof {
                                assert(spec_numeric_string_from_der(
                                    node,
                                    identifier,
                                    Err::<ASN1NumericString, ASN1Error>(e),
                                ));
                            }
                            return Err(e);
                        }
                    },
                }
            },
            Content::Constructed(_) => Err(
                err(ErrorCode::UnexpectedFieldType, "String must be primitive"),
            ),
        }
    }
}

impl BERParseable for ASN1NumericString {
    fn from_ber_node(node: ASN1Node) -> (r: Result<Self, ASN1Error>)
        ensures
            !node.spec_is_constructed() ==> spec_numeric_string_from_der(node, universal_id(0x12), r),
            node.spec_is_constructed() ==> spec_numeric_string_from_ber_constructed(
                node,
                universal_id(0x12),
                r,
            ),
            match r {
                Ok(_) => node.identifier == universal_id(0x12),
                Err(e) => node.identifier != universal_id(0x12) ==> e.spec_code()
                    == ErrorCode::UnexpectedFieldType,
            },
        decreases node_size(node), 1int,
    {
        Self::from_ber_node_with_identifier(node, ASN1NumericString::default_identifier())
    }
}

impl BERSerializable for ASN1NumericString {

}

/// What decoding a constructed node as a BER NumericString yields: its
/// children's characters reassembled under the type's own tag.
pub open spec fn spec_numeric_string_from_ber_constructed(
    node: ASN1Node,
    identifier: ASN1Identifier,
    r: Result<ASN1NumericString, ASN1Error>,
) -> bool {
    match r {
        Ok(v) => node.identifier == identifier && (node.content matches Content::Constructed(c)
            && spec_text_segments(
            c.spec_nodes(),
            c.spec_start() as int,
            c.spec_end() as int,
            0x12,
        ) == Ok::<Seq<char>, ErrorCode>(v.0@)),
        Err(e) => {
            &&& node.identifier != identifier ==> e.spec_code() == ErrorCode::UnexpectedFieldType
            &&& node.identifier == identifier ==> (node.content matches Content::Constructed(c)
                && spec_text_segments(
                c.spec_nodes(),
                c.spec_start() as int,
                c.spec_end() as int,
                0x12,
            ) == Err::<Seq<char>, ErrorCode>(e.spec_code()))
        },
    }
}

impl BERImplicitlyTaggable for ASN1NumericString {
    /// Under BER a primitive node follows the DER reading; a constructed
    /// node concatenates the strings its children decode to.
    fn from_ber_node_with_identifier(node: ASN1Node, identifier: ASN1Identifier) -> (r: Result<
        Self,
        ASN1Error,
    >)
        ensures
            !node.spec_is_constructed() ==> spec_numeric_string_from_der(node, identifier, r),
            node.spec_is_constructed() ==> spec_numeric_string_from_ber_constructed(node, identifier, r),
            match r {
                Ok(_) => node.identifier == identifier,
                Err(e) => node.identifier != identifier ==> e.spec_code()
                    == ErrorCode::UnexpectedFieldType,
            },
        decreases node_size(node), 0int,
    {
        if !node.is_constructed() {
            return Self::from_der_node_with_identifier(node, identifier);
        }
        if node.identifier != identifier {
            return Err(err(ErrorCode::UnexpectedFieldType, "Unexpected field type"));
        }
        match node.content {
            Content::Primitive(_) => vstd::pervasive::unreached(),
            Content::Constructed(collection) => {
                let ghost c = collection;
                let ghost ns = collection.spec_nodes();
                let ghost total = spec_text_segments(
                    ns,
                    c.spec_start() as int,
                    c.spec_end() as int,
                    0x12,
                );
                let mut iter = collection.into_iter();
                let mut res = String::new();
                loop
                    invariant
                        iter.wf(),
                        iter.spec_nodes() == ns,
                        ns == c.spec_nodes(),
                        iter.spec_end() == c.spec_end(),
                        iter.spec_start() >= c.spec_start(),
                        c.spec_start() <= c.spec_end(),
                        node.identifier == identifier,
                        node.content == Content::Constructed(c),
                        total == spec_text_segments(
                            ns,
                            c.spec_start() as int,
                            c.spec_end() as int,
                            0x12,
                        ),
                        match spec_text_segments(
                            ns,
                            iter.spec_start() as int,
                            iter.spec_end() as int,
                            0x12,
                        ) {
                            Ok(rest) => total == Ok::<Seq<char>, ErrorCode>(res@ + rest),
                            Err(code) => total == Err::<Seq<char>, ErrorCode>(code),
                        },
                    ensures
                        total == Ok::<Seq<char>, ErrorCode>(res@ + Seq::<char>::empty()),
                    decreases iter.spec_end() - iter.spec_start(),
                {
                    let ghost i = iter.spec_start() as int;
                    let next = iter.next();
                    match next {
                        None => {
                            proof {
                                assert(total == Ok::<Seq<char>, ErrorCode>(res@ + Seq::<char>::empty()));
                            }
                            break ;
                        },
                        Some(child) => {
                            proof {
                                assert(node_size(child) < node_size(node));
                            }
                            let ghost se = iter.spec_start() as int;
                            match ASN1NumericString::from_ber_node(child) {
                                Ok(part) => {
                                    let ghost pre = res@;
                                    res.append(part.0.as_str());
                                    proof {
                                        if ns[i].is_constructed {
                                            assert(child.content matches Content::Constructed(c2)
                                                && c2.spec_nodes() == ns && c2.spec_start() == i + 1
                                                && c2.spec_end() == se);
                                            assert(spec_text_segments(ns, i + 1, se, 0x12)
                                                == Ok::<Seq<char>, ErrorCode>(part.0@));
                                        }
                                        if spec_text_segments(ns, se, c.spec_end() as int, 0x12)
                                            is Ok {
                                            let rest2 = spec_text_segments(
                                                ns,
                                                se,
                                                c.spec_end() as int,
                                                0x12,
                                            )->Ok_0;
                                            assert(spec_text_segments(
                                                ns,
                                                i,
                                                c.spec_end() as int,
                                                0x12,
                                            ) == Ok::<Seq<char>, ErrorCode>(part.0@ + rest2));
                                            assert(res@ =~= pre + part.0@);
                                            assert(pre + (part.0@ + rest2) =~= res@ + rest2);
                                        }
                                    }
                                },
                                Err(e) => {
                                    proof {
                                        if ns[i].is_constructed && ns[i].identifier == universal_id(
                                            0x12,
                                        ) {
                                            assert(child.content matches Content::Constructed(c2)
                                                && c2.spec_nodes() == ns && c2.spec_start() == i + 1
                                                && c2.spec_end() == se);
                                            assert(spec_text_segments(ns, i + 1, se, 0x12)
                                                == Err::<Seq<char>, ErrorCode>(e.spec_code()));
                                        }
                                        assert(spec_text_segments(
                                            ns,
                                            i,
                                            c.spec_end() as int,
                                            0x12,
                                        ) == Err::<Seq<char>, ErrorCode>(e.spec_code()));
                                    }
                                    return Err(e);
                                },
                            }
                        },
                    }
                }
                Ok(ASN1NumericString(res))
            },
        }
    }
}

/// Any UTF8String a DER decode accepts, a BER decode of the same node
/// accepts with the same characters: BER's reading extends DER's.
pub proof fn lemma_ber_utf8_string_extends_der(
    node: ASN1Node,
    identifier: ASN1Identifier,
    rd: Result<ASN1UTF8String, ASN1Error>,
    rb: Result<ASN1UTF8String, ASN1Error>,
)
    requires
        spec_utf8_string_from_der(node, identifier, rd),
        !node.spec_is_constructed() ==> spec_utf8_string_from_der(node, identifier, rb),
        rd matches Ok(_),
    ensures
        rb matches Ok(v) && rd matches Ok(w) && v.0@ == w.0@,
{{
}}

/// Any PrintableString a DER decode accepts, a BER decode of the same node
/// accepts with the same characters: BER's reading extends DER's.
pub proof fn lemma_ber_printable_string_extends_der(
    node: ASN1Node,
    identifier: ASN1Identifier,
    rd: Result<ASN1PrintableString, ASN1Error>,
    rb: Result<ASN1PrintableString, ASN1Error>,
)
    requires
        spec_printable_string_from_der(node, identifier, rd),
        !node.spec_is_constructed() ==> spec_printable_string_from_der(node, identifier, rb),
        rd matches Ok(_),
    ensures
        rb matches Ok(v) && rd matches Ok(w) && v.0@ == w.0@,
{{
}}

/// Any IA5String a DER decode accepts, a BER decode of the same node
/// accepts with the same characters: BER's reading extends DER's.
pub proof fn lemma_ber_ia5_string_extends_der(
    node: ASN1Node,
    identifier: ASN1Identifier,
    rd: Result<ASN1IA5String, ASN1Error>,
    rb: Result<ASN1IA5String, ASN1Error>,
)
    requires
        spec_ia5_string_from_der(node, identifier, rd),
        !node.spec_is_constructed() ==> spec_ia5_string_from_der(node, identifier, rb),
        rd matches Ok(_),
    ensures
        rb matches Ok(v) && rd matches Ok(w) && v.0@ == w.0@,
{{
}}

/// Any NumericString a DER decode accepts, a BER decode of the same node
/// accepts with the same characters: BER's reading extends DER's.
pub proof fn lemma_ber_numeric_string_extends_der(
    node: ASN1Node,
    identifier: ASN1Identifier,
    rd: Result<ASN1NumericString, ASN1Error>,
    rb: Result<ASN1NumericString, ASN1Error>,
)
    requires
        spec_numeric_string_from_der(node, identifier, rd),
        !node.spec_is_constructed() ==> spec_numeric_string_from_der(node, identifier, rb),
        rd matches Ok(_),
    ensures
        rb matches Ok(v) && rd matches Ok(w) && v.0@ == w.0@,
{{
}}

} // verus!
