use vstd::prelude::*;
use bytes::Bytes;
use crate::asn1_types::identifier::{universal_id, ASN1Identifier, TagClass};
use crate::encoding::{
    lemma_unsigned_be_prefix_lower, lemma_unsigned_be_snoc, pow256, unsigned_be,
};
use crate::errors::{err, ASN1Error, ErrorCode};
use std::sync::Arc;
use crate::trusted::{
    arc_vec_clone, arc_vec_ref, bytes_get, bytes_len, bytes_slice, bytes_split_to, bytes_view,
};

verus! {

/// Selects between the Basic Encoding Rules and their canonical subset, the
/// Distinguished Encoding Rules.
#[derive(Debug, Clone, Copy, PartialEq, Eq, Structural)]
pub enum EncodingRules {
    Basic,
    Distinguished,
}

impl EncodingRules {
    /// Indefinite lengths are a BER-only relaxation.
    pub fn indefinite_length_allowed(&self) -> (r: bool)
        ensures
            r == (*self == EncodingRules::Basic),
    {
        match self {
            EncodingRules::Basic => true,
            EncodingRules::Distinguished => false,
        }
    }

    /// Non-minimal length encodings are a BER-only relaxation.
    pub fn non_minimal_encoded_lengths_allowed(&self) -> (r: bool)
        ensures
            r == (*self == EncodingRules::Basic),
    {
        match self {
            EncodingRules::Basic => true,
            EncodingRules::Distinguished => false,
        }
    }
}

/// The number of octets in the shortest big-endian representation of `value`
/// (one octet for zero).
pub open spec fn spec_minimal_octet_len(value: u64) -> nat
    decreases value,
{
    if value < 256 {
        1
    } else {
        1 + spec_minimal_octet_len(value / 256)
    }
}

pub fn minimal_octet_len(value: u64) -> (r: usize)
    ensures
        r == spec_minimal_octet_len(value),
{
    proof {
        lemma_minimal_octet_len_bound(value);
    }
    let mut v: u64 = value;
    let mut n: usize = 1;
    while v >= 256
        invariant
            1 <= n <= 8,
            n + spec_minimal_octet_len(v) == 1 + spec_minimal_octet_len(value),
            spec_minimal_octet_len(value) <= 8,
        decreases v,
    {
        proof {
            lemma_minimal_octet_len_bound(v / 256);
        }
        v = v / 256;
        n = n + 1;
    }
    n
}

/// The shortest big-endian representation of a 64-bit value takes between
/// one and eight octets.
pub proof fn lemma_minimal_octet_len_bound(value: u64)
    ensures
        1 <= spec_minimal_octet_len(value) <= 8,
{
    assert(pow256(0) == 1);
    assert(pow256(1) == 256);
    assert(pow256(2) == 0x10000);
    assert(pow256(3) == 0x1000000);
    assert(pow256(4) == 0x100000000);
    assert(pow256(5) == 0x10000000000);
    assert(pow256(6) == 0x1000000000000);
    assert(pow256(7) == 0x100000000000000);
    assert(pow256(8) == 0x10000000000000000);
    lemma_octet_len_le(value, 8);
}

proof fn lemma_octet_len_le(value: u64, k: nat)
    requires
        k >= 1,
        (value as nat) < pow256(k),
    ensures
        spec_minimal_octet_len(value) <= k,
    decreases k,
{
    if value >= 256 {
        assert(pow256(k) == 256 * pow256((k - 1) as nat));
        if k == 1 {
            assert(pow256(1) == 256);
        }
        let v = value as int;
        let p = pow256((k - 1) as nat) as int;
        assert(v / 256 < p) by (nonlinear_arith)
            requires
                0 <= v,
                1 <= p,
                v < 256 * p,
        ;
        lemma_octet_len_le(value / 256, (k - 1) as nat);
    }
}


/// The deepest recursion the tree builder admits.
pub const MAXIMUM_NODE_DEPTH: usize = 50;

/// The largest number of nodes one decode may emit.
pub const MAXIMUM_NODE_COUNT: usize = 100000;

/// One entry of the flat node vector: an identifier, the node's depth in
/// the original tree (the root is at depth 1), the constructed flag, the
/// octets of its whole encoding, and, for a primitive node, its content
/// octets.
#[derive(Debug, Clone)]
pub struct ParserNode {
    pub identifier: ASN1Identifier,
    pub depth: usize,
    pub is_constructed: bool,
    pub encoded_bytes: Bytes,
    pub data_bytes: Option<Bytes>,
}

/// Structural soundness of one node of the flat vector: primitive nodes
/// carry content octets, constructed nodes do not, and depth starts at 1.
pub open spec fn wf_node(n: ParserNode) -> bool {
    &&& n.depth >= 1
    &&& !n.is_constructed ==> n.data_bytes is Some
    &&& n.is_constructed ==> n.data_bytes is None
}

impl ParserNode {
    /// The end-of-content marker: a primitive node of identifier
    /// Universal 0 whose whole encoding is the two octets `00 00`.
    pub open spec fn spec_is_end_marker(&self) -> bool {
        &&& self.identifier == universal_id(0)
        &&& !self.is_constructed
        &&& bytes_view(self.encoded_bytes).len() == 2
        &&& bytes_view(self.encoded_bytes)[0] == 0x00
        &&& bytes_view(self.encoded_bytes)[1] == 0x00
    }

    pub fn is_end_marker(&self) -> (r: bool)
        ensures
            r == self.spec_is_end_marker(),
    {
        self.identifier.tag_class == TagClass::Universal && self.identifier.tag_number == 0
            && !self.is_constructed && bytes_len(&self.encoded_bytes) == 2 && bytes_get(
            &self.encoded_bytes,
            0,
        ) == 0x00 && bytes_get(&self.encoded_bytes, 1) == 0x00
    }
}

/// A decoded length field: definite with a 64-bit octet count, or the
/// indefinite marker.
#[derive(Debug, Clone, Copy, PartialEq, Eq, Structural)]
pub enum ASN1Length {
    Indefinite,
    Definite(u64),
}

/// What reading a length field from the head of `s` yields: the length and
/// the octets consumed, or the kind of the failure. Under `minimal`, long
/// form is rejected for values below 128 and for values encoded in more
/// octets than needed.
pub open spec fn spec_read_length(s: Seq<u8>, minimal: bool) -> Result<
    (ASN1Length, int),
    ErrorCode,
> {
    if s.len() == 0 {
        Err(ErrorCode::TruncatedASN1Field)
    } else if s[0] == 0x80 {
        Ok((ASN1Length::Indefinite, 1))
    } else if s[0] < 0x80 {
        Ok((ASN1Length::Definite(s[0] as u64), 1))
    } else {
        let k = s[0] - 0x80;
        if s.len() < 1 + k {
            Err(ErrorCode::TruncatedASN1Field)
        } else {
            let value = unsigned_be(s.subrange(1, 1 + k));
            if value > u64::MAX as nat {
                Err(ErrorCode::InvalidASN1Object)
            } else if minimal && value < 128 {
                Err(ErrorCode::UnsupportedFieldLength)
            } else if minimal && k > spec_minimal_octet_len(value as u64) {
                Err(ErrorCode::UnsupportedFieldLength)
            } else {
                Ok((ASN1Length::Definite(value as u64), 1 + k))
            }
        }
    }
}

/// A successful length read consumes at least one octet and at most the
/// whole input.
pub proof fn lemma_read_length_consumed(s: Seq<u8>, minimal: bool)
    ensures
        spec_read_length(s, minimal) matches Ok(p) ==> 1 <= p.1 <= s.len(),
{
}

/// Reads a length field from the head of `data`, as `spec_read_length`
/// describes, consuming exactly the length octets on success.
#[verifier::loop_isolation(false)]
pub fn _read_asn1_length(data: &mut Bytes, minimal_encoding: bool) -> (r: Result<
    ASN1Length,
    ASN1Error,
>)
    ensures
        match spec_read_length(bytes_view(*old(data)), minimal_encoding) {
            Ok(p) => r matches Ok(l) && l == p.0 && 0 < p.1 <= bytes_view(*old(data)).len()
                && bytes_view(*final(data)) == bytes_view(*old(data)).skip(p.1),
            Err(c) => r matches Err(e) && e.spec_code() == c,
        },
{
    let ghost origv = bytes_view(*data);
    if bytes_len(data) == 0 {
        return Err(err(ErrorCode::TruncatedASN1Field, ""));
    }
    let head = bytes_split_to(data, 1);
    let first_byte = bytes_get(&head, 0);
    assert(first_byte == origv[0]);

    if first_byte == 0x80 {
        return Ok(ASN1Length::Indefinite);
    }
    if (first_byte & 0x80) == 0x80 {
        assert(first_byte >= 0x80 && (first_byte & 0x7F) + 0x80 == first_byte) by (bit_vector)
            requires
                first_byte & 0x80 == 0x80,
        ;
        let field_length = (first_byte & 0x7F) as usize;
        if bytes_len(data) < field_length {
            return Err(err(ErrorCode::TruncatedASN1Field, ""));
        }
        let length_bytes = bytes_split_to(data, field_length);
        let ghost lbv = bytes_view(length_bytes);
        proof {
            assert(lbv =~= origv.subrange(1, 1 + field_length as int));
            assert(bytes_view(*data) =~= origv.skip(1 + field_length as int));
        }
        let mut length: u64 = 0;
        let mut i: usize = 0;
        while i < field_length
            invariant
                i <= field_length,
                field_length == lbv.len(),
                lbv == bytes_view(length_bytes),
                length as nat == unsigned_be(lbv.take(i as int)),
                origv.len() >= 1 + field_length,
                0x80 < origv[0],
                field_length as int == origv[0] - 0x80,
                lbv == origv.subrange(1, 1 + field_length as int),
            decreases field_length - i,
        {
            let b = bytes_get(&length_bytes, i);
            proof {
                lemma_unsigned_be_snoc(lbv, i as int);
            }
            if length > u64::MAX / 256 {
                proof {
                    lemma_unsigned_be_prefix_lower(lbv, i as int);
                    crate::encoding::lemma_pow256_pos((lbv.len() - i - 1) as nat);
                    let a = unsigned_be(lbv.take(i as int));
                    let p = pow256((lbv.len() - i) as nat);
                    assert(p == 256 * pow256((lbv.len() - i - 1) as nat));
                    assert(a * p >= a * 256) by (nonlinear_arith)
                        requires
                            p >= 256,
                            a >= 0,
                    ;
                    assert(unsigned_be(lbv) > u64::MAX as nat);
                    assert(field_length as int == origv[0] - 0x80);
                    assert(lbv == origv.subrange(1, 1 + (origv[0] - 0x80)));
                }
                return Err(err(ErrorCode::InvalidASN1Object, "Field length exceeds supported range"));
            }
            length = length * 256 + (b as u64);
            i = i + 1;
        }
        proof {
            assert(lbv.take(field_length as int) =~= lbv);
        }

        if minimal_encoding {
            if length < 128 {
                return Err(
                    err(
                        ErrorCode::UnsupportedFieldLength,
                        "Field length encoded in long form, but DER requires short form",
                    ),
                );
            }
            let required_bytes = minimal_octet_len(length);
            if field_length > required_bytes {
                return Err(
                    err(
                        ErrorCode::UnsupportedFieldLength,
                        "Field length encoded in excessive number of bytes",
                    ),
                );
            }
        }

        Ok(ASN1Length::Definite(length))
    } else {
        assert(first_byte < 0x80) by (bit_vector)
            requires
                first_byte & 0x80 != 0x80,
        ;
        Ok(ASN1Length::Definite(first_byte as u64))
    }
}

/// What the base-128 reader's loop yields from the head of `s`, having
/// already accumulated `acc` over `consumed` octets: octets are taken,
/// low seven bits each, until one arrives with its high bit clear; a value
/// above the 64-bit range fails, as does running out of input.
pub open spec fn spec_read_base128_loop(s: Seq<u8>, acc: nat, consumed: int) -> Result<
    (u64, int),
    ErrorCode,
>
    decreases s.len(),
{
    if s.len() == 0 {
        Err(ErrorCode::TruncatedASN1Field)
    } else {
        let acc2 = acc * 128 + (s[0] & 0x7F) as nat;
        if acc2 > u64::MAX as nat {
            Err(ErrorCode::InvalidASN1Object)
        } else if s[0] < 0x80 {
            Ok((acc2 as u64, consumed + 1))
        } else {
            spec_read_base128_loop(s.skip(1), acc2, consumed + 1)
        }
    }
}

/// What reading a base-128 unsigned integer from the head of `s` yields:
/// the value and the octets consumed, or the kind of the failure.
pub open spec fn spec_read_base128(s: Seq<u8>) -> Result<(u64, int), ErrorCode> {
    spec_read_base128_loop(s, 0, 0)
}

/// Reads a base-128 unsigned integer from the head of `data`, as
/// `spec_read_base128` describes, returning the value and how many octets
/// were consumed.
pub fn read_asn1_discipline_uint(data: &mut Bytes) -> (r: Result<(u64, usize), ASN1Error>)
    ensures
        match spec_read_base128(bytes_view(*old(data))) {
            Ok(p) => r matches Ok(q) && q.0 == p.0 && q.1 as int == p.1 && 0 < p.1 <= bytes_view(
                *old(data),
            ).len() && bytes_view(*final(data)) == bytes_view(*old(data)).skip(p.1),
            Err(c) => r matches Err(e) && e.spec_code() == c,
        },
{
    let ghost origv = bytes_view(*data);
    let _avail = bytes_len(data);
    proof {
        assert(origv.skip(0) =~= origv);
    }
    let mut value: u64 = 0;
    let mut read: usize = 0;
    loop
        invariant_except_break
            spec_read_base128(origv) == spec_read_base128_loop(
                bytes_view(*data),
                value as nat,
                read as int,
            ),
        invariant
            origv == bytes_view(*old(data)),
            origv.len() == _avail,
            read <= origv.len(),
            bytes_view(*data) == origv.skip(read as int),
        ensures
            1 <= read <= origv.len(),
            spec_read_base128(origv) == Ok::<(u64, int), ErrorCode>((value, read as int)),
            bytes_view(*data) == origv.skip(read as int),
        decreases origv.len() - read,
    {
        let ghost curv = bytes_view(*data);
        if bytes_len(data) == 0 {
            return Err(err(ErrorCode::TruncatedASN1Field, ""));
        }
        let this = bytes_split_to(data, 1);
        let byte = bytes_get(&this, 0);
        assert(byte == curv[0]);
        read = read + 1;
        let chunk = byte & 0x7F;
        proof {
            assert(spec_read_base128(origv) == spec_read_base128_loop(
                curv,
                value as nat,
                (read - 1) as int,
            ));
        }
        if value > u64::MAX / 128 {
            proof {
                assert((value as nat) * 128 + (curv[0] & 0x7F) as nat > u64::MAX as nat);
            }
            return Err(err(ErrorCode::InvalidASN1Object, "Base-128 integer exceeds u64 range"));
        }
        let shifted = value * 128;
        if (chunk as u64) > u64::MAX - shifted {
            proof {
                assert((value as nat) * 128 + (curv[0] & 0x7F) as nat > u64::MAX as nat);
            }
            return Err(err(ErrorCode::InvalidASN1Object, "Base-128 integer exceeds u64 range"));
        }
        value = shifted + (chunk as u64);
        assert((byte & 0x80 == 0) == (byte < 0x80)) by (bit_vector);
        proof {
            assert(curv.skip(1) =~= origv.skip(read as int));
        }
        if (byte & 0x80) == 0 {
            break ;
        }
    }
    Ok((value, read))
}


/// What the tree builder records for one node, at the specification level:
/// the fields of `ParserNode` with the octet buffers read off as sequences.
pub struct NodeModel {
    pub identifier: ASN1Identifier,
    pub depth: nat,
    pub is_constructed: bool,
    pub encoded: Seq<u8>,
    pub data: Option<Seq<u8>>,
}

/// The specification-level reading of an emitted node.
pub open spec fn model_of(pn: ParserNode) -> NodeModel {
    NodeModel {
        identifier: pn.identifier,
        depth: pn.depth as nat,
        is_constructed: pn.is_constructed,
        encoded: bytes_view(pn.encoded_bytes),
        data: match pn.data_bytes {
            Some(b) => Some(bytes_view(b)),
            None => None,
        },
    }
}

/// The specification-level reading of a whole node vector.
pub open spec fn models_of(pns: Seq<ParserNode>) -> Seq<NodeModel> {
    pns.map(|_i: int, p: ParserNode| model_of(p))
}

pub proof fn lemma_models_of_concat(a: Seq<ParserNode>, b: Seq<ParserNode>)
    ensures
        models_of(a + b) == models_of(a) + models_of(b),
{
    assert(models_of(a + b) =~= models_of(a) + models_of(b));
}

/// An end-of-content marker at the model level: identifier Universal 0,
/// primitive, whole encoding exactly `00 00`.
pub open spec fn is_eoc_model(m: NodeModel) -> bool {
    &&& m.identifier == universal_id(0)
    &&& !m.is_constructed
    &&& m.encoded == seq![0x00u8, 0x00u8]
}

/// The builder's end-marker test on a one-node child run agrees with the
/// model-level test on that child's model.
proof fn lemma_eoc_child_check(suffix: Seq<ParserNode>, ms: Seq<NodeModel>)
    requires
        suffix.len() >= 1,
        ms == models_of(suffix),
    ensures
        (suffix.len() == 1 && suffix.last().spec_is_end_marker()) == (ms.len() == 1 && is_eoc_model(
            ms[0],
        )),
{
    assert(ms.len() == suffix.len());
    if suffix.len() == 1 {
        assert(ms[0] == model_of(suffix[0]));
        assert(suffix.last() == suffix[0]);
        let m = model_of(suffix[0]);
        if suffix[0].spec_is_end_marker() {
            assert(m.encoded =~= seq![0x00u8, 0x00u8]);
        }
        if is_eoc_model(m) {
            assert(m.encoded.len() == 2 && m.encoded[0] == 0x00 && m.encoded[1] == 0x00);
        }
    }
}

/// What parsing one node (with its subtree) from the head of `s` at the
/// given depth yields: the node models in pre-order, the octets consumed,
/// and the node budget left, or the kind of the first rule violation.
/// `room` counts how many more nodes may be emitted before the node cap;
/// it drops by one at each emission, exactly where the builder appends.
/// The identifier octets, constructed flag, header length and length
/// field read from the head of a nonempty `s`.
pub open spec fn spec_parse_header(s: Seq<u8>, rules: EncodingRules) -> Result<
    (ASN1Identifier, bool, int, ASN1Length),
    ErrorCode,
> {
    let raw = s[0];
    let constructed = raw & 0x20 != 0;
    let idres: Result<(ASN1Identifier, int), ErrorCode> = if raw & 0x1f == 0x1f {
        match spec_read_base128(s.skip(1)) {
            Err(c) => Err(c),
            Ok(p) => if p.0 < 0x1f {
                Err(ErrorCode::InvalidASN1Object)
            } else {
                Ok(
                    (
                        ASN1Identifier {
                            tag_number: p.0,
                            tag_class: crate::asn1_types::identifier::spec_tag_class(raw),
                        },
                        1 + p.1,
                    ),
                )
            },
        }
    } else {
        Ok(
            (
                ASN1Identifier {
                    tag_number: (raw & 0x1f) as u64,
                    tag_class: crate::asn1_types::identifier::spec_tag_class(raw),
                },
                1,
            ),
        )
    };
    match idres {
        Err(c) => Err(c),
        Ok(idp) => match spec_read_length(s.skip(idp.1), rules == EncodingRules::Distinguished) {
            Err(c) => Err(c),
            Ok(lenp) => Ok((idp.0, constructed, idp.1 + lenp.1, lenp.0)),
        },
    }
}

/// A well-formed header occupies at least two octets of the input.
pub proof fn lemma_parse_header_len(s: Seq<u8>, rules: EncodingRules)
    requires
        s.len() > 0,
    ensures
        spec_parse_header(s, rules) matches Ok(h) ==> 2 <= h.2 <= s.len(),
{
    lemma_read_base128_consumed(s.skip(1), 0, 0);
    let raw = s[0];
    if raw & 0x1f == 0x1f {
        if spec_read_base128(s.skip(1)) is Ok {
            let idlen = 1 + spec_read_base128(s.skip(1))->Ok_0.1;
            lemma_read_length_consumed(s.skip(idlen), rules == EncodingRules::Distinguished);
        }
    } else {
        lemma_read_length_consumed(s.skip(1), rules == EncodingRules::Distinguished);
    }
}

/// What parsing one node (with its subtree) from the head of `s` at the
/// given depth yields: the node models in pre-order, the octets consumed,
/// and the node budget left, or the kind of the first rule violation.
/// `room` counts how many more nodes may be emitted before the node cap;
/// it drops by one at each emission, exactly where the builder appends.
pub open spec fn spec_parse_node(s: Seq<u8>, rules: EncodingRules, depth: nat, room: int) -> Result<
    (Seq<NodeModel>, int, int),
    ErrorCode,
>
    decreases s.len(), 0int,
    via spec_parse_node_decreases
{
    if depth > MAXIMUM_NODE_DEPTH {
        Err(ErrorCode::InvalidASN1Object)
    } else if s.len() == 0 {
        Err(ErrorCode::TruncatedASN1Field)
    } else {
        match spec_parse_header(s, rules) {
            Err(c) => Err(c),
            Ok(h) => {
                let identifier = h.0;
                let constructed = h.1;
                let hlen = h.2;
                match h.3 {
                    ASN1Length::Definite(length) => if s.len() - hlen < length {
                        Err(ErrorCode::TruncatedASN1Field)
                    } else if room <= 0 {
                        Err(ErrorCode::InvalidASN1Object)
                    } else {
                        let content = s.subrange(hlen, hlen + length);
                        let encoded = s.take(hlen + length);
                        if constructed {
                            let parent = NodeModel {
                                identifier,
                                depth,
                                is_constructed: true,
                                encoded,
                                data: None,
                            };
                            match spec_parse_many(content, rules, depth + 1, room - 1) {
                                Err(c) => Err(c),
                                Ok(mp) => Ok((seq![parent] + mp.0, hlen + length, mp.1)),
                            }
                        } else {
                            let node = NodeModel {
                                identifier,
                                depth,
                                is_constructed: false,
                                encoded,
                                data: Some(content),
                            };
                            Ok((seq![node], hlen + length, room - 1))
                        }
                    },
                    ASN1Length::Indefinite => if rules == EncodingRules::Distinguished {
                        Err(ErrorCode::UnsupportedFieldLength)
                    } else if !constructed {
                        Err(ErrorCode::UnsupportedFieldLength)
                    } else if room <= 0 {
                        Err(ErrorCode::InvalidASN1Object)
                    } else {
                        match spec_parse_until_eoc(s.skip(hlen), rules, depth + 1, room - 1) {
                            Err(c) => Err(c),
                            Ok(up) => {
                                let parent = NodeModel {
                                    identifier,
                                    depth,
                                    is_constructed: true,
                                    encoded: s.take(hlen + up.1),
                                    data: None,
                                };
                                Ok((seq![parent] + up.0, hlen + up.1, up.2))
                            },
                        }
                    },
                }
            },
        }
    }
}

#[via_fn]
proof fn spec_parse_node_decreases(s: Seq<u8>, rules: EncodingRules, depth: nat, room: int) {
    if depth <= MAXIMUM_NODE_DEPTH && s.len() > 0 {
        lemma_parse_header_len(s, rules);
    }
}

/// Parsing nodes until `s` is exhausted: the children of a definite-length
/// constructed node, which must fill their content exactly.
#[verifier::opaque]
pub open spec fn spec_parse_many(s: Seq<u8>, rules: EncodingRules, depth: nat, room: int) -> Result<
    (Seq<NodeModel>, int),
    ErrorCode,
>
    decreases s.len(), 1int,
{
    if s.len() == 0 {
        Ok((Seq::empty(), room))
    } else {
        match spec_parse_node(s, rules, depth, room) {
            Err(c) => Err(c),
            Ok(np) => {
                let step = if 1 <= np.1 <= s.len() {
                    np.1
                } else {
                    s.len() as int
                };
                match spec_parse_many(s.skip(step), rules, depth, np.2) {
                    Err(c) => Err(c),
                    Ok(mp) => Ok((np.0 + mp.0, mp.1)),
                }
            },
        }
    }
}

/// Parsing nodes until the end-of-content marker: the children of an
/// indefinite-length constructed node. The child just parsed must itself
/// be the marker — a two-octet primitive, never the tail of a nested
/// subtree; it is dropped again and its emission slot handed back, as the
/// builder pops it.
#[verifier::opaque]
pub open spec fn spec_parse_until_eoc(
    s: Seq<u8>,
    rules: EncodingRules,
    depth: nat,
    room: int,
) -> Result<(Seq<NodeModel>, int, int), ErrorCode>
    decreases s.len(), 1int,
{
    if s.len() == 0 {
        Err(ErrorCode::TruncatedASN1Field)
    } else {
        match spec_parse_node(s, rules, depth, room) {
            Err(c) => Err(c),
            Ok(np) => {
                let step = if 1 <= np.1 <= s.len() {
                    np.1
                } else {
                    s.len() as int
                };
                if np.0.len() == 1 && is_eoc_model(np.0[0]) {
                    Ok((np.0.drop_last(), step, np.2 + 1))
                } else {
                    match spec_parse_until_eoc(s.skip(step), rules, depth, np.2) {
                        Err(c) => Err(c),
                        Ok(up) => Ok((np.0 + up.0, step + up.1, up.2)),
                    }
                }
            },
        }
    }
}

/// Unfolding of `spec_parse_node` for a definite-length constructed node
/// whose header has been read and whose content is present.
proof fn lemma_unfold_definite(
    s: Seq<u8>,
    rules: EncodingRules,
    depth: nat,
    room: int,
    h: (ASN1Identifier, bool, int, ASN1Length),
    length: u64,
)
    requires
        1 <= depth <= MAXIMUM_NODE_DEPTH,
        s.len() > 0,
        spec_parse_header(s, rules) == Ok::<(ASN1Identifier, bool, int, ASN1Length), ErrorCode>(h),
        h.1 == true,
        h.3 == ASN1Length::Definite(length),
        s.len() - h.2 >= length,
        room > 0,
    ensures
        spec_parse_node(s, rules, depth, room) == (match spec_parse_many(
            s.subrange(h.2, h.2 + length),
            rules,
            depth + 1,
            room - 1,
        ) {
            Err(c) => Err::<(Seq<NodeModel>, int, int), ErrorCode>(c),
            Ok(mp) => Ok::<(Seq<NodeModel>, int, int), ErrorCode>(
                (
                    seq![
                        NodeModel {
                            identifier: h.0,
                            depth,
                            is_constructed: true,
                            encoded: s.take(h.2 + length),
                            data: None,
                        },
                    ] + mp.0,
                    h.2 + length,
                    mp.1,
                ),
            ),
        }),
{
    reveal(spec_parse_many);
}

/// Unfolding of `spec_parse_node` for an indefinite-length constructed
/// node whose header has been read, under rules that admit it.
proof fn lemma_unfold_indefinite(
    s: Seq<u8>,
    rules: EncodingRules,
    depth: nat,
    room: int,
    h: (ASN1Identifier, bool, int, ASN1Length),
)
    requires
        1 <= depth <= MAXIMUM_NODE_DEPTH,
        s.len() > 0,
        spec_parse_header(s, rules) == Ok::<(ASN1Identifier, bool, int, ASN1Length), ErrorCode>(h),
        h.1 == true,
        h.3 == ASN1Length::Indefinite,
        rules != EncodingRules::Distinguished,
        room > 0,
    ensures
        spec_parse_node(s, rules, depth, room) == (match spec_parse_until_eoc(
            s.skip(h.2),
            rules,
            depth + 1,
            room - 1,
        ) {
            Err(c) => Err::<(Seq<NodeModel>, int, int), ErrorCode>(c),
            Ok(up) => Ok::<(Seq<NodeModel>, int, int), ErrorCode>(
                (
                    seq![
                        NodeModel {
                            identifier: h.0,
                            depth,
                            is_constructed: true,
                            encoded: s.take(h.2 + up.1),
                            data: None,
                        },
                    ] + up.0,
                    h.2 + up.1,
                    up.2,
                ),
            ),
        }),
{
    reveal(spec_parse_until_eoc);
}

/// What parsing a whole input yields: one node with its subtree, with
/// nothing after it, inside the node cap.
pub open spec fn spec_parse(s: Seq<u8>, rules: EncodingRules) -> Result<Seq<NodeModel>, ErrorCode> {
    match spec_parse_node(s, rules, 1, MAXIMUM_NODE_COUNT as int) {
        Err(c) => Err(c),
        Ok(np) => if np.1 < s.len() {
            Err(ErrorCode::InvalidASN1Object)
        } else {
            Ok(np.0)
        },
    }
}


/// Shape of a successful spec-level parse: at least one node, the first at
/// the call's depth and the rest strictly below it, between two octets and
/// the whole input consumed, and the budget reduced by exactly the node
/// count.
pub proof fn lemma_spec_parse_node_shape(s: Seq<u8>, rules: EncodingRules, depth: nat, room: int)
    ensures
        spec_parse_node(s, rules, depth, room) matches Ok(t) ==> {
            &&& t.0.len() >= 1
            &&& t.0[0].depth == depth
            &&& t.0[0].encoded == s.take(t.1)
            &&& (forall|i: int| 1 <= i < t.0.len() ==> #[trigger] t.0[i].depth > depth)
            &&& 2 <= t.1 <= s.len()
            &&& t.2 == room - t.0.len()
            &&& (room >= 0 ==> t.2 >= 0)
        },
    decreases s.len(), 0int,
{
    reveal(spec_parse_many);
    reveal(spec_parse_until_eoc);
    if spec_parse_node(s, rules, depth, room) is Ok {
        let raw = s[0];
        lemma_read_base128_consumed(s.skip(1), 0, 0);
        let idp: (ASN1Identifier, int) = if raw & 0x1f == 0x1f {
            (
                ASN1Identifier {
                    tag_number: spec_read_base128(s.skip(1))->Ok_0.0,
                    tag_class: crate::asn1_types::identifier::spec_tag_class(raw),
                },
                1 + spec_read_base128(s.skip(1))->Ok_0.1,
            )
        } else {
            (
                ASN1Identifier {
                    tag_number: (raw & 0x1f) as u64,
                    tag_class: crate::asn1_types::identifier::spec_tag_class(raw),
                },
                1,
            )
        };
        lemma_read_length_consumed(s.skip(idp.1), rules == EncodingRules::Distinguished);
        let lenp = spec_read_length(s.skip(idp.1), rules == EncodingRules::Distinguished)->Ok_0;
        let hlen = idp.1 + lenp.1;
        match lenp.0 {
            ASN1Length::Definite(length) => {
                if s.len() - hlen >= length && room > 0 {
                    let content = s.subrange(hlen, hlen + length);
                    if raw & 0x20 != 0 {
                        lemma_spec_parse_many_shape(content, rules, depth + 1, room - 1);
                    }
                }
            },
            ASN1Length::Indefinite => {
                if rules != EncodingRules::Distinguished && raw & 0x20 != 0 && room > 0 {
                    lemma_spec_parse_until_shape(s.skip(hlen), rules, depth + 1, room - 1);
                }
            },
        }
    }
}

/// Shape of a successful child run over a definite content window: every
/// node sits at or below the call's depth, and the budget drops by the
/// node count.
pub proof fn lemma_spec_parse_many_shape(s: Seq<u8>, rules: EncodingRules, depth: nat, room: int)
    ensures
        spec_parse_many(s, rules, depth, room) matches Ok(t) ==> {
            &&& (forall|i: int| 0 <= i < t.0.len() ==> #[trigger] t.0[i].depth >= depth)
            &&& t.1 == room - t.0.len()
            &&& (room >= 0 ==> t.1 >= 0)
        },
    decreases s.len(), 1int,
{
    reveal(spec_parse_many);
    if s.len() > 0 && spec_parse_many(s, rules, depth, room) is Ok {
        lemma_spec_parse_node_shape(s, rules, depth, room);
        let np = spec_parse_node(s, rules, depth, room)->Ok_0;
        let step = if 1 <= np.1 <= s.len() {
            np.1
        } else {
            s.len() as int
        };
        lemma_spec_parse_many_shape(s.skip(step), rules, depth, np.2);
        let mp = spec_parse_many(s.skip(step), rules, depth, np.2)->Ok_0;
        assert forall|i: int|
            0 <= i < (np.0 + mp.0).len() implies #[trigger] (np.0 + mp.0)[i].depth >= depth by {
            if i < np.0.len() {
                assert((np.0 + mp.0)[i] == np.0[i]);
            } else {
                assert((np.0 + mp.0)[i] == mp.0[i - np.0.len()]);
            }
        }
    }
}

/// Shape of a successful child run of an indefinite node: every retained
/// node sits at or below the call's depth, between two octets and the
/// whole window consumed, and the budget drops by the retained node count.
pub proof fn lemma_spec_parse_until_shape(s: Seq<u8>, rules: EncodingRules, depth: nat, room: int)
    ensures
        spec_parse_until_eoc(s, rules, depth, room) matches Ok(t) ==> {
            &&& (forall|i: int| 0 <= i < t.0.len() ==> #[trigger] t.0[i].depth >= depth)
            &&& 2 <= t.1 <= s.len()
            &&& t.2 == room - t.0.len()
            &&& (room >= 0 ==> t.2 >= 0)
        },
    decreases s.len(), 1int,
{
    reveal(spec_parse_until_eoc);
    if s.len() > 0 && spec_parse_until_eoc(s, rules, depth, room) is Ok {
        lemma_spec_parse_node_shape(s, rules, depth, room);
        let np = spec_parse_node(s, rules, depth, room)->Ok_0;
        let step = if 1 <= np.1 <= s.len() {
            np.1
        } else {
            s.len() as int
        };
        if np.0.len() == 1 && is_eoc_model(np.0[0]) {
            assert forall|i: int|
                0 <= i < np.0.drop_last().len() implies #[trigger] np.0.drop_last()[i].depth
                >= depth by {
                assert(np.0.drop_last()[i] == np.0[i]);
                if i >= 1 {
                    assert(np.0[i].depth > depth);
                }
            }
        } else {
            lemma_spec_parse_until_shape(s.skip(step), rules, depth, np.2);
            let up = spec_parse_until_eoc(s.skip(step), rules, depth, np.2)->Ok_0;
            assert forall|i: int|
                0 <= i < (np.0 + up.0).len() implies #[trigger] (np.0 + up.0)[i].depth >= depth by {
                if i < np.0.len() {
                    assert((np.0 + up.0)[i] == np.0[i]);
                } else {
                    assert((np.0 + up.0)[i] == up.0[i - np.0.len()]);
                }
            }
        }
    }
}

/// A header the distinguished rules read, the basic rules read
/// identically: minimality of the length field is the only difference,
/// and it only rejects.
proof fn lemma_header_der_implies_ber(s: Seq<u8>)
    requires
        s.len() > 0,
        spec_parse_header(s, EncodingRules::Distinguished) is Ok,
    ensures
        spec_parse_header(s, EncodingRules::Basic) == spec_parse_header(
            s,
            EncodingRules::Distinguished,
        ),
{
}

/// One node (with its subtree) the distinguished rules parse, the basic
/// rules parse to the very same models, octets and budget.
pub proof fn lemma_der_node_implies_ber(s: Seq<u8>, depth: nat, room: int)
    requires
        1 <= depth,
        spec_parse_node(s, EncodingRules::Distinguished, depth, room) is Ok,
    ensures
        spec_parse_node(s, EncodingRules::Basic, depth, room) == spec_parse_node(
            s,
            EncodingRules::Distinguished,
            depth,
            room,
        ),
    decreases s.len(), 0int,
{
    let der = EncodingRules::Distinguished;
    let ber = EncodingRules::Basic;
    lemma_header_der_implies_ber(s);
    lemma_parse_header_len(s, der);
    let h = spec_parse_header(s, der)->Ok_0;
    let hlen = h.2;
    match h.3 {
        ASN1Length::Definite(length) => {
            if s.len() - hlen < length {
                assert(false);
            } else if room <= 0 {
                assert(false);
            } else {
                let content = s.subrange(hlen, hlen + length);
                if h.1 {
                    lemma_unfold_definite(s, der, depth, room, h, length);
                    lemma_unfold_definite(s, ber, depth, room, h, length);
                    assert(spec_parse_many(content, der, depth + 1, room - 1) is Ok);
                    lemma_der_many_implies_ber(content, depth + 1, room - 1);
                    assert(spec_parse_node(s, ber, depth, room) == spec_parse_node(
                        s,
                        der,
                        depth,
                        room,
                    ));
                } else {
                    assert(spec_parse_node(s, ber, depth, room) == spec_parse_node(
                        s,
                        der,
                        depth,
                        room,
                    ));
                }
            }
        },
        ASN1Length::Indefinite => {
            assert(false);
        },
    }
}

/// A child window the distinguished rules parse to the end, the basic
/// rules parse to the very same models.
proof fn lemma_der_many_implies_ber(s: Seq<u8>, depth: nat, room: int)
    requires
        1 <= depth,
        spec_parse_many(s, EncodingRules::Distinguished, depth, room) is Ok,
    ensures
        spec_parse_many(s, EncodingRules::Basic, depth, room) == spec_parse_many(
            s,
            EncodingRules::Distinguished,
            depth,
            room,
        ),
    decreases s.len(), 1int,
{
    reveal(spec_parse_many);
    let der = EncodingRules::Distinguished;
    if s.len() > 0 {
        lemma_der_node_implies_ber(s, depth, room);
        lemma_spec_parse_node_shape(s, der, depth, room);
        let np = spec_parse_node(s, der, depth, room)->Ok_0;
        let step = if 1 <= np.1 <= s.len() {
            np.1
        } else {
            s.len() as int
        };
        lemma_der_many_implies_ber(s.skip(step), depth, np.2);
    }
}

/// A whole input the distinguished rules accept, the basic rules accept
/// with exactly the same node models: distinguished parsing restricts
/// basic parsing and never alters what it reads.
pub proof fn lemma_der_parse_implies_ber(s: Seq<u8>)
    requires
        spec_parse(s, EncodingRules::Distinguished) is Ok,
    ensures
        spec_parse(s, EncodingRules::Basic) == spec_parse(s, EncodingRules::Distinguished),
{
    lemma_der_node_implies_ber(s, 1, MAXIMUM_NODE_COUNT as int);
}

/// Appends one node, enforcing the node-count cap: a decode that would emit
/// more than `MAXIMUM_NODE_COUNT` nodes is rejected.
fn push_node_checked(nodes: &mut Vec<ParserNode>, node: ParserNode) -> (r: Result<(), ASN1Error>)
    ensures
        match r {
            Ok(_) => old(nodes)@.len() < MAXIMUM_NODE_COUNT && final(nodes)@ == old(
                nodes,
            )@.push(node) && final(nodes)@.len() <= MAXIMUM_NODE_COUNT,
            Err(e) => old(nodes)@.len() >= MAXIMUM_NODE_COUNT && final(nodes)@ == old(nodes)@
                && e.spec_code() == ErrorCode::InvalidASN1Object,
        },
{
    if nodes.len() >= MAXIMUM_NODE_COUNT {
        return Err(err(ErrorCode::InvalidASN1Object, "Excessive number of ASN.1 nodes"));
    }
    nodes.push(node);
    Ok(())
}

/// The logical root node an entry point returns for a parse whose model
/// vector is `ms`: the root's identifier and encoding, with either its
/// content octets or a child cursor over the whole remaining vector.
pub open spec fn spec_root_node(ms: Seq<NodeModel>, n: ASN1Node) -> bool {
    &&& ms.len() >= 1
    &&& n.identifier == ms[0].identifier
    &&& bytes_view(n.encoded_bytes) == ms[0].encoded
    &&& n.spec_is_constructed() == ms[0].is_constructed
    &&& (ms[0].is_constructed ==> (n.content matches Content::Constructed(c) && models_of(
        c.spec_nodes(),
    ) == ms && c.spec_start() == 1 && c.spec_end() == ms.len()))
    &&& (!ms[0].is_constructed ==> (n.content matches Content::Primitive(b) && Some(
        bytes_view(b),
    ) == ms[0].data))
}

/// The flat node vector one decode produces, in pre-order.
#[derive(Debug)]
pub struct ParseResult {
    pub nodes: Vec<ParserNode>,
}

impl ParseResult {
    /// Parses the whole input into a flat node vector: one root node, whose
    /// encoding is exactly the input, with its subtree behind it; trailing
    /// octets are rejected.
    pub fn parse(data: Bytes, rules: EncodingRules) -> (r: Result<ParseResult, ASN1Error>)
        ensures
            match r {
                Ok(pr) => {
                    &&& pr.nodes@.len() >= 1
                    &&& pr.nodes@[0].depth == 1
                    &&& forall|j: int|
                        0 <= j < pr.nodes@.len() ==> wf_node(#[trigger] pr.nodes@[j])
                            && pr.nodes@[j].depth >= 1
                    &&& bytes_view(pr.nodes@[0].encoded_bytes) == bytes_view(data)
                },
                Err(_) => true,
            },
            match spec_parse(bytes_view(data), rules) {
                Ok(ms) => r matches Ok(pr) && models_of(pr.nodes@) == ms,
                Err(c) => r matches Err(e) && e.spec_code() == c,
            },
    {
        let ghost dv = bytes_view(data);
        let mut nodes: Vec<ParserNode> = Vec::with_capacity(16);
        let mut current_data = data;

        match Self::_parse_node(&mut current_data, rules, 1, &mut nodes) {
            Ok(_) => {},
            Err(e) => {
                return Err(e);
            },
        }
        proof {
            assert(nodes@.skip(0) =~= nodes@);
        }

        if bytes_len(&current_data) > 0 {
            proof {
                lemma_spec_parse_node_shape(dv, rules, 1, MAXIMUM_NODE_COUNT as int);
                let t = spec_parse_node(dv, rules, 1, MAXIMUM_NODE_COUNT as int)->Ok_0;
                assert(t.1 < dv.len());
            }
            return Err(err(ErrorCode::InvalidASN1Object, "Trailing unparsed data is present"));
        }
        proof {
            lemma_spec_parse_node_shape(dv, rules, 1, MAXIMUM_NODE_COUNT as int);
            let t = spec_parse_node(dv, rules, 1, MAXIMUM_NODE_COUNT as int)->Ok_0;
            assert(t.1 >= dv.len());
            assert(model_of(nodes@[0]) == t.0[0]);
            assert(t.0[0].encoded =~= dv);
            assert(nodes@[0].depth as nat == 1);
        }
        Ok(ParseResult { nodes })
    }

    /// Builds an indefinite-length constructed node whose header has
    /// already been read off `data`: appends the header node, parses the
    /// children until the end-of-content marker, and fills in the node's
    /// whole encoding from `original_data`.
    #[verifier::spinoff_prover]
    #[verifier::rlimit(100)]
    fn _parse_indefinite_tail(
        data: &mut Bytes,
        rules: EncodingRules,
        depth: usize,
        nodes: &mut Vec<ParserNode>,
        original_data: &Bytes,
        identifier: ASN1Identifier,
    ) -> (r: Result<(), ASN1Error>)
        requires
            1 <= depth <= MAXIMUM_NODE_DEPTH,
            old(nodes)@.len() <= MAXIMUM_NODE_COUNT,
            rules != EncodingRules::Distinguished,
            2 <= bytes_view(*original_data).len() - bytes_view(*old(data)).len(),
            bytes_view(*old(data)) == bytes_view(*original_data).skip(
                bytes_view(*original_data).len() - bytes_view(*old(data)).len(),
            ),
            spec_parse_header(bytes_view(*original_data), rules) == Ok::<
                (ASN1Identifier, bool, int, ASN1Length),
                ErrorCode,
            >(
                (
                    identifier,
                    true,
                    bytes_view(*original_data).len() - bytes_view(*old(data)).len(),
                    ASN1Length::Indefinite,
                ),
            ),
        ensures
            r matches Ok(_) ==> final(nodes)@.take(old(nodes)@.len() as int) == old(nodes)@
                && (forall|j: int|
                old(nodes)@.len() <= j < final(nodes)@.len() ==> wf_node(
                    #[trigger] final(nodes)@[j],
                ) && final(nodes)@[j].depth >= depth),
            match spec_parse_node(
                bytes_view(*original_data),
                rules,
                depth as nat,
                MAXIMUM_NODE_COUNT - old(nodes)@.len(),
            ) {
                Ok(t) => {
                    &&& r matches Ok(_)
                    &&& final(nodes)@.len() == old(nodes)@.len() + t.0.len()
                    &&& models_of(final(nodes)@.skip(old(nodes)@.len() as int)) == t.0
                    &&& bytes_view(*final(data)) == bytes_view(*original_data).skip(t.1)
                },
                Err(c) => r matches Err(e) && e.spec_code() == c,
            },
        decreases MAXIMUM_NODE_DEPTH + 1 - depth, 0int, 1int,
    {
        let ghost oldv = bytes_view(*original_data);
        let ghost oldnodes = nodes@;
        let ghost room0 = MAXIMUM_NODE_COUNT - oldnodes.len() as int;
        let ghost sm = spec_parse_node(oldv, rules, depth as nat, room0);
        let ghost hlen = oldv.len() - bytes_view(*data).len();
        proof {
            assert(bytes_view(*data) == oldv.skip(hlen as int));
        }
        let node = ParserNode {
            identifier,
            depth,
            is_constructed: true,
            encoded_bytes: crate::trusted::bytes_new(),
            data_bytes: None,
        };
        match push_node_checked(nodes, node) {
            Ok(_) => {},
            Err(e) => {
                proof {
                    assert(room0 <= 0);
                    assert(sm == Err::<(Seq<NodeModel>, int, int), ErrorCode>(
                        ErrorCode::InvalidASN1Object,
                    ));
                }
                return Err(e);
            },
        }
        let last_index = nodes.len() - 1;
        let ghost d1 = (depth + 1) as nat;
        let ghost restv = oldv.skip(hlen as int);
        let ghost total_until = spec_parse_until_eoc(restv, rules, d1, room0 - 1);
        proof {
            assert(nodes@.take(oldnodes.len() as int) =~= oldnodes);
            assert(room0 > 0);
            lemma_unfold_indefinite(
                oldv,
                rules,
                depth as nat,
                room0,
                (identifier, true, hlen, ASN1Length::Indefinite),
            );
            assert(sm == (match total_until {
                Err(c) => Err::<(Seq<NodeModel>, int, int), ErrorCode>(c),
                Ok(up) => Ok::<(Seq<NodeModel>, int, int), ErrorCode>(
                    (
                        seq![
                            NodeModel {
                                identifier,
                                depth: depth as nat,
                                is_constructed: true,
                                encoded: oldv.take(hlen + up.1),
                                data: None,
                            },
                        ] + up.0,
                        hlen + up.1,
                        up.2,
                    ),
                ),
            }));
            assert(nodes@.subrange(oldnodes.len() as int + 1, nodes@.len() as int)
                =~= Seq::<ParserNode>::empty());
            assert(models_of(Seq::<ParserNode>::empty()) =~= Seq::<NodeModel>::empty());
            if total_until is Ok {
                let t0 = total_until->Ok_0;
                assert(Seq::<NodeModel>::empty() + t0.0 =~= t0.0);
            }
            assert(restv.len() - bytes_view(*data).len() == 0);
        }

        let ghost mid_nodes = nodes@;
        proof {
            assert(bytes_view(*data) =~= restv);
            assert(mid_nodes.len() == oldnodes.len() + 1);
        }
        match Self::_parse_children_until_eoc(data, rules, depth + 1, nodes) {
            Ok(_) => {},
            Err(e) => {
                proof {
                    assert(total_until == spec_parse_until_eoc(
                        restv,
                        rules,
                        d1,
                        MAXIMUM_NODE_COUNT - mid_nodes.len() as int,
                    ));
                }
                return Err(e);
            },
        }
        proof {
            let tt = total_until->Ok_0;
            assert(total_until == spec_parse_until_eoc(
                restv,
                rules,
                d1,
                MAXIMUM_NODE_COUNT - mid_nodes.len() as int,
            ));
            assert(nodes@.take(oldnodes.len() as int) =~= mid_nodes.take(
                oldnodes.len() as int,
            ));
            assert(nodes@[oldnodes.len() as int] == nodes@.take(
                mid_nodes.len() as int,
            )[oldnodes.len() as int]);
            assert forall|j: int|
                oldnodes.len() <= j < nodes@.len() implies wf_node(#[trigger] nodes@[j])
                    && nodes@[j].depth >= depth by {
                if j == oldnodes.len() {
                    assert(wf_node(mid_nodes[oldnodes.len() as int]));
                } else {
                    assert(nodes@[j].depth >= depth + 1);
                }
            }
            assert(nodes@.subrange(oldnodes.len() as int + 1, nodes@.len() as int)
                =~= nodes@.skip(mid_nodes.len() as int));
            assert(bytes_view(*data).len() == restv.len() - tt.1);
        }

        let consumed = bytes_len(original_data) - bytes_len(data);
        let encoded_bytes = bytes_slice(original_data, 0, consumed);
        proof {
            assert(bytes_view(encoded_bytes) =~= oldv.take(consumed as int));
        }
        let ghost before_fill = nodes@;
        nodes[last_index].encoded_bytes = encoded_bytes;
        proof {
            let tt = total_until->Ok_0;
            assert(consumed as int == hlen + tt.1);
            assert(nodes@.take(oldnodes.len() as int) =~= oldnodes);
            assert forall|j: int|
                oldnodes.len() <= j < nodes@.len() implies wf_node(#[trigger] nodes@[j])
                    && nodes@[j].depth >= depth by {
                if j != last_index {
                    assert(nodes@[j] == before_fill[j]);
                }
            }
            assert(nodes@.subrange(oldnodes.len() as int + 1, nodes@.len() as int)
                =~= before_fill.subrange(
                oldnodes.len() as int + 1,
                before_fill.len() as int,
            ));
            assert(model_of(nodes@[oldnodes.len() as int]) == NodeModel {
                identifier,
                depth: depth as nat,
                is_constructed: true,
                encoded: oldv.take(hlen + tt.1),
                data: None,
            });
            assert(nodes@.skip(oldnodes.len() as int) =~= seq![
                nodes@[oldnodes.len() as int],
            ] + nodes@.subrange(oldnodes.len() as int + 1, nodes@.len() as int));
            lemma_models_of_concat(
                seq![nodes@[oldnodes.len() as int]],
                nodes@.subrange(oldnodes.len() as int + 1, nodes@.len() as int),
            );
            assert(models_of(seq![nodes@[oldnodes.len() as int]]) =~= seq![
                model_of(nodes@[oldnodes.len() as int]),
            ]);
        }
        Ok(())
    }

    /// Parses the children of an indefinite-length constructed node from
    /// the head of `data` until the end-of-content marker closes it,
    /// appending them to `nodes` in pre-order: exactly what
    /// `spec_parse_until_eoc` reads, the marker itself dropped again.
    #[verifier::spinoff_prover]
    #[verifier::rlimit(100)]
    fn _parse_children_until_eoc(
        data: &mut Bytes,
        rules: EncodingRules,
        depth: usize,
        nodes: &mut Vec<ParserNode>,
    ) -> (r: Result<(), ASN1Error>)
        requires
            2 <= depth <= MAXIMUM_NODE_DEPTH + 1,
            old(nodes)@.len() <= MAXIMUM_NODE_COUNT,
        ensures
            match spec_parse_until_eoc(
                bytes_view(*old(data)),
                rules,
                depth as nat,
                MAXIMUM_NODE_COUNT - old(nodes)@.len(),
            ) {
                Ok(t) => {
                    &&& r matches Ok(_)
                    &&& old(nodes)@.len() <= final(nodes)@.len() <= MAXIMUM_NODE_COUNT
                    &&& final(nodes)@.take(old(nodes)@.len() as int) == old(nodes)@
                    &&& forall|j: int|
                        old(nodes)@.len() <= j < final(nodes)@.len() ==> wf_node(
                            #[trigger] final(nodes)@[j],
                        ) && final(nodes)@[j].depth >= depth
                    &&& t.0 == models_of(final(nodes)@.skip(old(nodes)@.len() as int))
                    &&& 2 <= t.1 <= bytes_view(*old(data)).len()
                    &&& bytes_view(*final(data)) == bytes_view(*old(data)).skip(t.1)
                    &&& t.2 == MAXIMUM_NODE_COUNT - final(nodes)@.len()
                },
                Err(c) => r matches Err(e) && e.spec_code() == c,
            },
        decreases MAXIMUM_NODE_DEPTH + 2 - depth, 0int, 0int,
    {
        let ghost hold = bytes_view(*data);
        let ghost hnodes = nodes@;
        let ghost tu = spec_parse_until_eoc(
            hold,
            rules,
            depth as nat,
            MAXIMUM_NODE_COUNT - hnodes.len(),
        );
        proof {
            assert(hold.skip(0) =~= hold);
            assert(nodes@.take(hnodes.len() as int) =~= hnodes);
            assert(nodes@.subrange(hnodes.len() as int, nodes@.len() as int)
                =~= Seq::<ParserNode>::empty());
            assert(models_of(Seq::<ParserNode>::empty()) =~= Seq::<NodeModel>::empty());
            if tu is Ok {
                let t0 = tu->Ok_0;
                assert(Seq::<NodeModel>::empty() + t0.0 =~= t0.0);
            }
        }
        loop
            invariant_except_break
                match spec_parse_until_eoc(
                    bytes_view(*data),
                    rules,
                    depth as nat,
                    MAXIMUM_NODE_COUNT - nodes@.len(),
                ) {
                    Ok(t) => tu matches Ok(tt) && tt.0 == models_of(
                        nodes@.subrange(hnodes.len() as int, nodes@.len() as int),
                    ) + t.0 && tt.1 == (hold.len() - bytes_view(*data).len()) + t.1 && tt.2 == t.2,
                    Err(c) => tu == Err::<(Seq<NodeModel>, int, int), ErrorCode>(c),
                },
            invariant
                2 <= depth <= MAXIMUM_NODE_DEPTH + 1,
                hold == bytes_view(*old(data)),
                hnodes == old(nodes)@,
                tu == spec_parse_until_eoc(
                    hold,
                    rules,
                    depth as nat,
                    MAXIMUM_NODE_COUNT - hnodes.len(),
                ),
                bytes_view(*data).len() <= hold.len(),
                bytes_view(*data) == hold.skip(hold.len() - bytes_view(*data).len()),
                hnodes.len() <= nodes@.len() <= MAXIMUM_NODE_COUNT,
                nodes@.take(hnodes.len() as int) == hnodes,
                forall|j: int|
                    hnodes.len() <= j < nodes@.len() ==> wf_node(#[trigger] nodes@[j])
                        && nodes@[j].depth >= depth,
            ensures
                bytes_view(*data) == hold.skip(hold.len() - bytes_view(*data).len()),
                hnodes.len() <= nodes@.len() <= MAXIMUM_NODE_COUNT,
                nodes@.take(hnodes.len() as int) == hnodes,
                forall|j: int|
                    hnodes.len() <= j < nodes@.len() ==> wf_node(#[trigger] nodes@[j])
                        && nodes@[j].depth >= depth,
                tu matches Ok(tt) && tt.0 == models_of(
                    nodes@.subrange(hnodes.len() as int, nodes@.len() as int),
                ) && tt.1 == hold.len() - bytes_view(*data).len() && tt.2 == MAXIMUM_NODE_COUNT
                    - nodes@.len(),
            decreases bytes_view(*data).len(),
        {
            if bytes_len(data) == 0 {
                proof {
                    reveal(spec_parse_until_eoc);
                    assert(spec_parse_until_eoc(
                        bytes_view(*data),
                        rules,
                        depth as nat,
                        MAXIMUM_NODE_COUNT - nodes@.len(),
                    ) == Err::<(Seq<NodeModel>, int, int), ErrorCode>(
                        ErrorCode::TruncatedASN1Field,
                    ));
                }
                return Err(
                    err(
                        ErrorCode::TruncatedASN1Field,
                        "Indefinite-length field missing end-of-content marker",
                    ),
                );
            }
            let ghost pre = nodes@;
            let ghost prev = bytes_view(*data);
            let before_len = nodes.len();
            match Self::_parse_node(data, rules, depth, nodes) {
                Ok(_) => {},
                Err(e) => {
                    proof {
                        reveal(spec_parse_until_eoc);
                        let c = spec_parse_node(
                            prev,
                            rules,
                            depth as nat,
                            MAXIMUM_NODE_COUNT - pre.len(),
                        )->Err_0;
                        assert(spec_parse_until_eoc(
                            prev,
                            rules,
                            depth as nat,
                            MAXIMUM_NODE_COUNT - pre.len(),
                        ) == Err::<(Seq<NodeModel>, int, int), ErrorCode>(c));
                        assert(tu == Err::<(Seq<NodeModel>, int, int), ErrorCode>(c));
                    }
                    return Err(e);
                },
            }
            proof {
                reveal(spec_parse_until_eoc);
                let tc = spec_parse_node(
                    prev,
                    rules,
                    depth as nat,
                    MAXIMUM_NODE_COUNT - pre.len(),
                )->Ok_0;
                lemma_spec_parse_node_shape(
                    prev,
                    rules,
                    depth as nat,
                    MAXIMUM_NODE_COUNT - pre.len() as int,
                );
                assert(tc.2 == MAXIMUM_NODE_COUNT - nodes@.len());
                let cl = prev.len() - bytes_view(*data).len();
                assert(prev.skip(cl) =~= hold.skip(hold.len() - bytes_view(*data).len()));
                assert(nodes@.take(hnodes.len() as int) =~= pre.take(hnodes.len() as int));
                assert forall|j: int|
                    hnodes.len() <= j < nodes@.len() implies wf_node(#[trigger] nodes@[j])
                        && nodes@[j].depth >= depth by {
                    if j < pre.len() {
                        assert(nodes@[j] == nodes@.take(pre.len() as int)[j]);
                        assert(nodes@[j] == pre[j]);
                    }
                }
                let suffix = nodes@.skip(pre.len() as int);
                lemma_eoc_child_check(suffix, tc.0);
                assert(nodes@.last() == suffix.last());
            }
            let found_end_marker = nodes.len() == before_len + 1 && nodes[nodes.len()
                - 1].is_end_marker();
            proof {
                let tc = spec_parse_node(
                    prev,
                    rules,
                    depth as nat,
                    MAXIMUM_NODE_COUNT - pre.len(),
                )->Ok_0;
                assert(found_end_marker == (tc.0.len() == 1 && is_eoc_model(tc.0[0])));
            }
            if found_end_marker {
                let ghost before_pop = nodes@;
                let _ = nodes.pop();
                proof {
                    reveal(spec_parse_until_eoc);
                    let tc = spec_parse_node(
                        prev,
                        rules,
                        depth as nat,
                        MAXIMUM_NODE_COUNT - pre.len(),
                    )->Ok_0;
                    assert(nodes@ =~= before_pop.drop_last());
                    assert(nodes@.take(hnodes.len() as int) =~= hnodes);
                    assert forall|j: int|
                        hnodes.len() <= j < nodes@.len() implies wf_node(#[trigger] nodes@[j])
                            && nodes@[j].depth >= depth by {
                        assert(nodes@[j] == before_pop[j]);
                    }
                    assert(spec_parse_until_eoc(
                        prev,
                        rules,
                        depth as nat,
                        MAXIMUM_NODE_COUNT - pre.len(),
                    ) == Ok::<(Seq<NodeModel>, int, int), ErrorCode>(
                        (tc.0.drop_last(), tc.1, tc.2 + 1),
                    ));
                    let tt = tu->Ok_0;
                    assert(models_of(before_pop.skip(pre.len() as int)) == tc.0);
                    assert(nodes@.subrange(hnodes.len() as int, nodes@.len() as int)
                        =~= pre.subrange(hnodes.len() as int, pre.len() as int)
                        + before_pop.skip(pre.len() as int).drop_last());
                    lemma_models_of_concat(
                        pre.subrange(hnodes.len() as int, pre.len() as int),
                        before_pop.skip(pre.len() as int).drop_last(),
                    );
                    assert(models_of(before_pop.skip(pre.len() as int).drop_last())
                        =~= models_of(before_pop.skip(pre.len() as int)).drop_last());
                    assert(tt.0 == models_of(nodes@.subrange(
                        hnodes.len() as int,
                        nodes@.len() as int,
                    )));
                    assert(tt.1 == hold.len() - bytes_view(*data).len());
                    assert(tt.2 == MAXIMUM_NODE_COUNT - nodes@.len());
                }
                break ;
            }
            proof {
                reveal(spec_parse_until_eoc);
                let tc = spec_parse_node(
                    prev,
                    rules,
                    depth as nat,
                    MAXIMUM_NODE_COUNT - pre.len(),
                )->Ok_0;
                assert(spec_parse_until_eoc(
                    prev,
                    rules,
                    depth as nat,
                    MAXIMUM_NODE_COUNT - pre.len(),
                ) == (match spec_parse_until_eoc(bytes_view(*data), rules, depth as nat, tc.2) {
                    Err(c) => Err::<(Seq<NodeModel>, int, int), ErrorCode>(c),
                    Ok(up) => Ok::<(Seq<NodeModel>, int, int), ErrorCode>(
                        (tc.0 + up.0, tc.1 + up.1, up.2),
                    ),
                }));
                assert(nodes@.subrange(hnodes.len() as int, nodes@.len() as int)
                    =~= pre.subrange(hnodes.len() as int, pre.len() as int) + nodes@.skip(
                    pre.len() as int,
                ));
                lemma_models_of_concat(
                    pre.subrange(hnodes.len() as int, pre.len() as int),
                    nodes@.skip(pre.len() as int),
                );
                if spec_parse_until_eoc(
                    bytes_view(*data),
                    rules,
                    depth as nat,
                    MAXIMUM_NODE_COUNT - nodes@.len(),
                ) is Ok {
                    let t = spec_parse_until_eoc(
                        bytes_view(*data),
                        rules,
                        depth as nat,
                        MAXIMUM_NODE_COUNT - nodes@.len(),
                    )->Ok_0;
                    let tt = tu->Ok_0;
                    assert(models_of(pre.subrange(hnodes.len() as int, pre.len() as int)) + (tc.0
                        + t.0) =~= (models_of(
                        pre.subrange(hnodes.len() as int, pre.len() as int),
                    ) + tc.0) + t.0);
                }
            }
        }
        proof {
            lemma_spec_parse_until_shape(
                hold,
                rules,
                depth as nat,
                MAXIMUM_NODE_COUNT - hnodes.len() as int,
            );
            let tt = tu->Ok_0;
            assert(nodes@.subrange(hnodes.len() as int, nodes@.len() as int) =~= nodes@.skip(
                hnodes.len() as int,
            ));
            assert(bytes_view(*data) =~= hold.skip(tt.1));
        }
        Ok(())
    }

    /// Parses one node (and, when it is constructed, its whole subtree) from
    /// the head of `data` at the given depth, appending to `nodes` in
    /// pre-order. The outcome is exactly what `spec_parse_node` reads from
    /// the input octets: the same node models, octets consumed and failure
    /// kind, with the node budget counted from the vector already in hand.
    #[verifier::spinoff_prover]
    #[verifier::rlimit(100)]
    fn _parse_node(
        data: &mut Bytes,
        rules: EncodingRules,
        depth: usize,
        nodes: &mut Vec<ParserNode>,
    ) -> (r: Result<(), ASN1Error>)
        requires
            depth >= 1,
            old(nodes)@.len() <= MAXIMUM_NODE_COUNT,
        ensures
            r matches Ok(_) ==> final(nodes)@.take(old(nodes)@.len() as int) == old(nodes)@
                && (forall|j: int|
                old(nodes)@.len() <= j < final(nodes)@.len() ==> wf_node(
                    #[trigger] final(nodes)@[j],
                ) && final(nodes)@[j].depth >= depth),
            match spec_parse_node(
                bytes_view(*old(data)),
                rules,
                depth as nat,
                MAXIMUM_NODE_COUNT - old(nodes)@.len(),
            ) {
                Ok(t) => {
                    &&& r matches Ok(_)
                    &&& final(nodes)@.len() == old(nodes)@.len() + t.0.len()
                    &&& models_of(final(nodes)@.skip(old(nodes)@.len() as int)) == t.0
                    &&& bytes_view(*final(data)) == bytes_view(*old(data)).skip(t.1)
                },
                Err(c) => r matches Err(e) && e.spec_code() == c,
            },
        decreases MAXIMUM_NODE_DEPTH + 1 - depth, 1int, 0int,
    {
        if depth > MAXIMUM_NODE_DEPTH {
            return Err(err(ErrorCode::InvalidASN1Object, "Excessive stack depth was reached"));
        }
        let ghost oldv = bytes_view(*data);
        let ghost oldnodes = nodes@;
        let ghost room0 = MAXIMUM_NODE_COUNT - oldnodes.len() as int;
        let ghost sm = spec_parse_node(oldv, rules, depth as nat, room0);

        if bytes_len(data) == 0 {
            return Err(err(ErrorCode::TruncatedASN1Field, ""));
        }
        let original_data = data.clone();
        let head = bytes_split_to(data, 1);
        let raw_identifier = bytes_get(&head, 0);
        proof {
            assert(raw_identifier == oldv[0]);
            match rules {
                EncodingRules::Basic => {},
                EncodingRules::Distinguished => {},
            }
        }

        let constructed = (raw_identifier & 0x20) != 0;
        let identifier: ASN1Identifier;

        if (raw_identifier & 0x1f) == 0x1f {
            let tag_class = TagClass::from_top_byte(raw_identifier);
            let ghost afterhead = bytes_view(*data);
            let tag_number: u64;
            match read_asn1_discipline_uint(data) {
                Ok(p) => {
                    tag_number = p.0;
                    proof {
                        let n = spec_read_base128(afterhead)->Ok_0.1;
                        assert(afterhead.skip(n) =~= oldv.skip(1 + n));
                    }
                },
                Err(e) => {
                    proof {
                        let c = spec_read_base128(afterhead)->Err_0;
                        assert(sm == Err::<(Seq<NodeModel>, int, int), ErrorCode>(c));
                    }
                    return Err(e);
                },
            }
            if tag_number < 0x1f {
                proof {
                    assert(sm == Err::<(Seq<NodeModel>, int, int), ErrorCode>(
                        ErrorCode::InvalidASN1Object,
                    ));
                }
                return Err(
                    err(ErrorCode::InvalidASN1Object, "ASN.1 tag incorrectly encoded in long form"),
                );
            }
            identifier = ASN1Identifier::new(tag_number, tag_class);
        } else {
            identifier = ASN1Identifier::from_short_identifier(raw_identifier);
        }
        let ghost afterid = bytes_view(*data);
        let ghost idlen = oldv.len() - afterid.len();
        proof {
            assert(afterid == oldv.skip(idlen as int));
            assert(idlen >= 1);
        }

        let wide_length: ASN1Length;
        match _read_asn1_length(data, !rules.non_minimal_encoded_lengths_allowed()) {
            Ok(l) => {
                wide_length = l;
                proof {
                    let n = spec_read_length(afterid, rules == EncodingRules::Distinguished)->Ok_0.1;
                    assert(afterid.skip(n) =~= oldv.skip(idlen + n));
                }
            },
            Err(e) => {
                proof {
                    let c = spec_read_length(afterid, rules == EncodingRules::Distinguished)->Err_0;
                    assert(sm == Err::<(Seq<NodeModel>, int, int), ErrorCode>(c));
                }
                return Err(e);
            },
        }
        let ghost hlen = oldv.len() - bytes_view(*data).len();
        proof {
            assert(bytes_view(*data) == oldv.skip(hlen as int));
            assert(hlen >= 2);
        }

        match wide_length {
            ASN1Length::Definite(length) => {
                if length > usize::MAX as u64 {
                    proof {
                        assert(oldv.len() - hlen < length);
                        assert(sm == Err::<(Seq<NodeModel>, int, int), ErrorCode>(
                            ErrorCode::TruncatedASN1Field,
                        ));
                    }
                    return Err(err(ErrorCode::TruncatedASN1Field, ""));
                }
                let length_usize = length as usize;
                if bytes_len(data) < length_usize {
                    proof {
                        assert(sm == Err::<(Seq<NodeModel>, int, int), ErrorCode>(
                            ErrorCode::TruncatedASN1Field,
                        ));
                    }
                    return Err(err(ErrorCode::TruncatedASN1Field, ""));
                }

                let sub_data = bytes_split_to(data, length_usize);
                let total_len = bytes_len(&original_data) - bytes_len(data);
                let encoded_bytes = bytes_slice(&original_data, 0, total_len);
                let ghost consumed = hlen + length_usize as int;
                let ghost contentv = bytes_view(sub_data);
                proof {
                    assert(total_len as int == consumed);
                    assert(oldv.skip(hlen as int).skip(length_usize as int) =~= oldv.skip(
                        consumed,
                    ));
                    assert(bytes_view(encoded_bytes) =~= oldv.take(consumed));
                    assert(contentv =~= oldv.subrange(hlen as int, consumed));
                }

                if constructed {
                    let node = ParserNode {
                        identifier,
                        depth,
                        is_constructed: true,
                        encoded_bytes,
                        data_bytes: None,
                    };
                    let ghost parent_m = NodeModel {
                        identifier,
                        depth: depth as nat,
                        is_constructed: true,
                        encoded: oldv.take(consumed),
                        data: None,
                    };
                    match push_node_checked(nodes, node) {
                        Ok(_) => {},
                        Err(e) => {
                            proof {
                                assert(room0 <= 0);
                                assert(sm == Err::<(Seq<NodeModel>, int, int), ErrorCode>(
                                    ErrorCode::InvalidASN1Object,
                                ));
                            }
                            return Err(e);
                        },
                    }
                    let ghost d1 = (depth + 1) as nat;
                    let ghost total_many = spec_parse_many(contentv, rules, d1, room0 - 1);
                    proof {
                        assert(nodes@.take(oldnodes.len() as int) =~= oldnodes);
                        assert(room0 > 0);
                        lemma_unfold_definite(
                            oldv,
                            rules,
                            depth as nat,
                            room0,
                            (identifier, true, hlen, ASN1Length::Definite(length)),
                            length,
                        );
                        assert(sm == (match total_many {
                            Err(c) => Err::<(Seq<NodeModel>, int, int), ErrorCode>(c),
                            Ok(mp) => Ok::<(Seq<NodeModel>, int, int), ErrorCode>(
                                (seq![parent_m] + mp.0, consumed, mp.1),
                            ),
                        }));
                        assert(model_of(nodes@[oldnodes.len() as int]) == parent_m);
                        assert(nodes@.subrange(oldnodes.len() as int + 1, nodes@.len() as int)
                            =~= Seq::<ParserNode>::empty());
                        assert(models_of(Seq::<ParserNode>::empty()) =~= Seq::<NodeModel>::empty());
                        if spec_parse_many(contentv, rules, d1, room0 - 1) is Ok {
                            let t0 = spec_parse_many(contentv, rules, d1, room0 - 1)->Ok_0;
                            assert(Seq::<NodeModel>::empty() + t0.0 =~= t0.0);
                        }
                    }

                    let mut check_sub = sub_data;
                    while bytes_len(&check_sub) > 0
                        invariant
                            1 <= depth <= MAXIMUM_NODE_DEPTH,
                            d1 == (depth + 1) as nat,
                            oldv == bytes_view(*old(data)),
                            oldnodes == old(nodes)@,
                            sm == spec_parse_node(oldv, rules, depth as nat, room0),
                            bytes_view(*data) == oldv.skip(consumed),
                            room0 == MAXIMUM_NODE_COUNT - oldnodes.len(),
                            total_many == spec_parse_many(contentv, rules, d1, room0 - 1),
                            sm == (match total_many {
                                Err(c) => Err::<(Seq<NodeModel>, int, int), ErrorCode>(c),
                                Ok(mp) => Ok::<(Seq<NodeModel>, int, int), ErrorCode>(
                                    (seq![parent_m] + mp.0, consumed, mp.1),
                                ),
                            }),
                            oldnodes.len() < nodes@.len() <= MAXIMUM_NODE_COUNT,
                            nodes@.take(oldnodes.len() as int) == oldnodes,
                            nodes@[oldnodes.len() as int].depth == depth,
                            model_of(nodes@[oldnodes.len() as int]) == parent_m,
                            bytes_view(nodes@[oldnodes.len() as int].encoded_bytes) == oldv.take(
                                consumed,
                            ),
                            forall|j: int|
                                oldnodes.len() <= j < nodes@.len() ==> wf_node(
                                    #[trigger] nodes@[j],
                                ) && nodes@[j].depth >= depth,
                            match spec_parse_many(
                                bytes_view(check_sub),
                                rules,
                                d1,
                                MAXIMUM_NODE_COUNT - nodes@.len(),
                            ) {
                                Ok(t) => total_many matches Ok(tt) && tt.0 == models_of(
                                    nodes@.subrange(oldnodes.len() as int + 1, nodes@.len() as int),
                                ) + t.0 && tt.1 == t.1,
                                Err(c) => total_many == Err::<(Seq<NodeModel>, int), ErrorCode>(c),
                            },
                        decreases bytes_view(check_sub).len(),
                    {
                        let ghost pre = nodes@;
                        let ghost curv = bytes_view(check_sub);
                        match Self::_parse_node(&mut check_sub, rules, depth + 1, nodes) {
                            Ok(_) => {},
                            Err(e) => {
                                proof {
                                    reveal(spec_parse_many);
                                    let c = spec_parse_node(
                                        curv,
                                        rules,
                                        d1,
                                        MAXIMUM_NODE_COUNT - pre.len(),
                                    )->Err_0;
                                    assert(spec_parse_many(
                                        curv,
                                        rules,
                                        d1,
                                        MAXIMUM_NODE_COUNT - pre.len(),
                                    ) == Err::<(Seq<NodeModel>, int), ErrorCode>(c));
                                    assert(total_many == Err::<
                                        (Seq<NodeModel>, int),
                                        ErrorCode,
                                    >(c));
                                }
                                return Err(e);
                            },
                        }
                        proof {
                            reveal(spec_parse_many);
                            let tc = spec_parse_node(
                                curv,
                                rules,
                                d1,
                                MAXIMUM_NODE_COUNT - pre.len(),
                            )->Ok_0;
                            lemma_spec_parse_node_shape(
                                curv,
                                rules,
                                d1,
                                MAXIMUM_NODE_COUNT - pre.len() as int,
                            );
                            assert(tc.2 == MAXIMUM_NODE_COUNT - nodes@.len());
                            assert forall|j: int|
                                oldnodes.len() <= j < nodes@.len() implies wf_node(
                                #[trigger] nodes@[j],
                            ) && nodes@[j].depth >= depth by {
                                if j < pre.len() {
                                    assert(nodes@[j] == nodes@.take(pre.len() as int)[j]);
                                    assert(nodes@[j] == pre[j]);
                                } else {
                                    assert(nodes@[j].depth >= depth + 1);
                                }
                            }
                            assert(nodes@.take(oldnodes.len() as int) =~= pre.take(
                                oldnodes.len() as int,
                            ));
                            assert(nodes@[oldnodes.len() as int] == nodes@.take(
                                pre.len() as int,
                            )[oldnodes.len() as int]);
                            assert(nodes@.subrange(oldnodes.len() as int + 1, nodes@.len() as int)
                                =~= pre.subrange(oldnodes.len() as int + 1, pre.len() as int)
                                + nodes@.skip(pre.len() as int));
                            lemma_models_of_concat(
                                pre.subrange(oldnodes.len() as int + 1, pre.len() as int),
                                nodes@.skip(pre.len() as int),
                            );
                            if spec_parse_many(
                                bytes_view(check_sub),
                                rules,
                                d1,
                                MAXIMUM_NODE_COUNT - nodes@.len(),
                            ) is Ok {
                                let t = spec_parse_many(
                                    bytes_view(check_sub),
                                    rules,
                                    d1,
                                    MAXIMUM_NODE_COUNT - nodes@.len(),
                                )->Ok_0;
                                let tt = total_many->Ok_0;
                                assert(tt.0 == models_of(
                                    pre.subrange(oldnodes.len() as int + 1, pre.len() as int),
                                ) + (tc.0 + t.0));
                                assert(models_of(
                                    pre.subrange(oldnodes.len() as int + 1, pre.len() as int),
                                ) + (tc.0 + t.0) =~= (models_of(
                                    pre.subrange(oldnodes.len() as int + 1, pre.len() as int),
                                ) + tc.0) + t.0);
                            }
                        }
                    }
                    proof {
                        reveal(spec_parse_many);
                        assert(bytes_view(check_sub).len() == 0);
                        assert(spec_parse_many(
                            bytes_view(check_sub),
                            rules,
                            d1,
                            MAXIMUM_NODE_COUNT - nodes@.len(),
                        ) == Ok::<(Seq<NodeModel>, int), ErrorCode>(
                            (Seq::empty(), MAXIMUM_NODE_COUNT - nodes@.len()),
                        ));
                        let tt = total_many->Ok_0;
                        assert(tt.0 + Seq::<NodeModel>::empty() =~= tt.0);
                        assert(models_of(nodes@.subrange(
                            oldnodes.len() as int + 1,
                            nodes@.len() as int,
                        )) + Seq::<NodeModel>::empty() =~= models_of(nodes@.subrange(
                            oldnodes.len() as int + 1,
                            nodes@.len() as int,
                        )));
                        assert(nodes@.skip(oldnodes.len() as int) =~= seq![
                            nodes@[oldnodes.len() as int],
                        ] + nodes@.subrange(oldnodes.len() as int + 1, nodes@.len() as int));
                        lemma_models_of_concat(
                            seq![nodes@[oldnodes.len() as int]],
                            nodes@.subrange(oldnodes.len() as int + 1, nodes@.len() as int),
                        );
                        assert(models_of(seq![nodes@[oldnodes.len() as int]]) =~= seq![parent_m]);
                        assert(models_of(nodes@.skip(oldnodes.len() as int)) == seq![parent_m]
                            + tt.0);
                    }
                    Ok(())
                } else {
                    let node = ParserNode {
                        identifier,
                        depth,
                        is_constructed: false,
                        encoded_bytes,
                        data_bytes: Some(sub_data),
                    };
                    match push_node_checked(nodes, node) {
                        Ok(_) => {},
                        Err(e) => {
                            proof {
                                assert(room0 <= 0);
                                assert(sm == Err::<(Seq<NodeModel>, int, int), ErrorCode>(
                                    ErrorCode::InvalidASN1Object,
                                ));
                            }
                            return Err(e);
                        },
                    }
                    proof {
                        assert(nodes@.take(oldnodes.len() as int) =~= oldnodes);
                        assert(nodes@.skip(oldnodes.len() as int) =~= seq![
                            nodes@[oldnodes.len() as int],
                        ]);
                        assert(models_of(nodes@.skip(oldnodes.len() as int)) =~= seq![
                            model_of(nodes@[oldnodes.len() as int]),
                        ]);
                        assert(sm == Ok::<(Seq<NodeModel>, int, int), ErrorCode>(
                            (
                                seq![model_of(nodes@[oldnodes.len() as int])],
                                consumed,
                                room0 - 1,
                            ),
                        ));
                    }
                    Ok(())
                }
            },
            ASN1Length::Indefinite => {
                if !rules.indefinite_length_allowed() {
                    proof {
                        assert(sm == Err::<(Seq<NodeModel>, int, int), ErrorCode>(
                            ErrorCode::UnsupportedFieldLength,
                        ));
                    }
                    return Err(
                        err(
                            ErrorCode::UnsupportedFieldLength,
                            "Indefinite form of field length not supported in DER.",
                        ),
                    );
                }
                if !constructed {
                    proof {
                        assert(sm == Err::<(Seq<NodeModel>, int, int), ErrorCode>(
                            ErrorCode::UnsupportedFieldLength,
                        ));
                    }
                    return Err(
                        err(
                            ErrorCode::UnsupportedFieldLength,
                            "Indefinite-length field must have constructed identifier",
                        ),
                    );
                }

                Self::_parse_indefinite_tail(
                    data,
                    rules,
                    depth,
                    nodes,
                    &original_data,
                    identifier,
                )
            },
        }
    }
}


/// The first index at or after `j` (but not past `end`) whose node does not
/// sit strictly below depth `d`; `end` when there is none. Nodes between a
/// parent and this index form the parent's subtree in the flat vector.
pub open spec fn scan_end(nodes: Seq<ParserNode>, d: int, j: int, end: int) -> int
    decreases end - j,
{
    if j >= end {
        end
    } else if nodes[j].depth <= d {
        j
    } else {
        scan_end(nodes, d, j + 1, end)
    }
}

/// Where the subtree of the node at `i` ends inside the window closing at
/// `end`.
pub open spec fn spec_subtree_end(nodes: Seq<ParserNode>, i: int, end: int) -> int {
    scan_end(nodes, nodes[i].depth as int, i + 1, end)
}

pub proof fn lemma_scan_end_bounds(nodes: Seq<ParserNode>, d: int, j: int, end: int)
    requires
        j <= end,
    ensures
        j <= scan_end(nodes, d, j, end) <= end,
    decreases end - j,
{
    if j < end && nodes[j].depth > d {
        lemma_scan_end_bounds(nodes, d, j + 1, end);
    }
}

/// Where the `k`-th logical child of the window from `start` to `end`
/// begins: each child's subtree is skipped in turn.
pub open spec fn spec_nth_child_start(nodes: Seq<ParserNode>, start: int, end: int, k: int) -> int
    decreases k,
{
    if k <= 0 {
        start
    } else {
        spec_subtree_end(nodes, spec_nth_child_start(nodes, start, end, k - 1), end)
    }
}

/// How many logical children the window from `start` to `end` holds.
pub open spec fn spec_child_count(nodes: Seq<ParserNode>, start: int, end: int) -> int
    decreases end - start,
    via spec_child_count_decreases
{
    if start >= end {
        0
    } else {
        1 + spec_child_count(nodes, spec_subtree_end(nodes, start, end), end)
    }
}

#[via_fn]
proof fn spec_child_count_decreases(nodes: Seq<ParserNode>, start: int, end: int) {
    if start < end {
        lemma_scan_end_bounds(nodes, nodes[start].depth as int, start + 1, end);
    }
}

/// A shared view of one contiguous range of the flat node vector: the
/// logical children of one constructed node.
#[derive(Debug)]
pub struct ASN1NodeCollection {
    nodes: Arc<Vec<ParserNode>>,
    start: usize,
    end: usize,
    depth: usize,
}

/// A cursor over such a range, yielding one logical node per step.
#[derive(Debug)]
pub struct ASN1NodeCollectionIterator {
    nodes: Arc<Vec<ParserNode>>,
    start: usize,
    end: usize,
    _depth: usize,
}

impl ASN1NodeCollection {
    pub closed spec fn spec_nodes(&self) -> Seq<ParserNode> {
        self.nodes@
    }

    pub closed spec fn spec_start(&self) -> usize {
        self.start
    }

    pub closed spec fn spec_end(&self) -> usize {
        self.end
    }

    pub closed spec fn spec_depth(&self) -> usize {
        self.depth
    }

    /// The range lies inside the vector and every node in it is
    /// structurally sound.
    pub open spec fn wf(&self) -> bool {
        &&& self.spec_start() <= self.spec_end() <= self.spec_nodes().len()
        &&& forall|i: int|
            self.spec_start() <= i < self.spec_end() ==> wf_node(#[trigger] self.spec_nodes()[i])
    }

    pub fn new(nodes: Arc<Vec<ParserNode>>, range_start: usize, range_end: usize, depth: usize) -> (r:
        Self)
        ensures
            r.spec_nodes() == nodes@,
            r.spec_start() == range_start,
            r.spec_end() == range_end,
            r.spec_depth() == depth,
    {
        ASN1NodeCollection { nodes, start: range_start, end: range_end, depth }
    }

    /// Turns the collection into a cursor over the same range.
    pub fn into_iter(self) -> (r: ASN1NodeCollectionIterator)
        ensures
            r.spec_nodes() == self.spec_nodes(),
            r.spec_start() == self.spec_start(),
            r.spec_end() == self.spec_end(),
    {
        ASN1NodeCollectionIterator {
            nodes: self.nodes,
            start: self.start,
            end: self.end,
            _depth: self.depth,
        }
    }
}

impl Clone for ASN1NodeCollection {
    fn clone(&self) -> (r: Self)
        ensures
            r.spec_nodes() == self.spec_nodes(),
            r.spec_start() == self.spec_start(),
            r.spec_end() == self.spec_end(),
            r.spec_depth() == self.spec_depth(),
    {
        ASN1NodeCollection {
            nodes: arc_vec_clone(&self.nodes),
            start: self.start,
            end: self.end,
            depth: self.depth,
        }
    }
}

/// A logical node: its identifier, its content (primitive octets or a
/// cursor range over its children), and the octets of its whole encoding.
#[derive(Debug)]
pub struct ASN1Node {
    pub identifier: ASN1Identifier,
    pub content: Content,
    pub encoded_bytes: Bytes,
}

/// The content of a logical node.
#[derive(Debug)]
pub enum Content {
    Constructed(ASN1NodeCollection),
    Primitive(Bytes),
}

/// Two contents carry the same data.
pub open spec fn content_equiv(a: Content, b: Content) -> bool {
    match (a, b) {
        (Content::Primitive(x), Content::Primitive(y)) => bytes_view(x) == bytes_view(y),
        (Content::Constructed(c), Content::Constructed(d)) => {
            &&& c.spec_nodes() == d.spec_nodes()
            &&& c.spec_start() == d.spec_start()
            &&& c.spec_end() == d.spec_end()
            &&& c.spec_depth() == d.spec_depth()
        },
        _ => false,
    }
}

impl Clone for Content {
    fn clone(&self) -> (r: Self)
        ensures
            content_equiv(*self, r),
    {
        match self {
            Content::Constructed(c) => Content::Constructed(c.clone()),
            Content::Primitive(b) => Content::Primitive(b.clone()),
        }
    }
}

impl ASN1Node {
    /// The child range of a constructed node is sound.
    pub open spec fn wf(&self) -> bool {
        match self.content {
            Content::Constructed(c) => c.wf(),
            Content::Primitive(_) => true,
        }
    }

    pub open spec fn spec_is_constructed(&self) -> bool {
        self.content matches Content::Constructed(_)
    }

    pub fn is_constructed(&self) -> (r: bool)
        ensures
            r == self.spec_is_constructed(),
    {
        match self.content {
            Content::Constructed(_) => true,
            Content::Primitive(_) => false,
        }
    }
}

impl Clone for ASN1Node {
    fn clone(&self) -> (r: Self)
        ensures
            r.identifier == self.identifier,
            content_equiv(self.content, r.content),
            bytes_view(r.encoded_bytes) == bytes_view(self.encoded_bytes),
            r.wf() == self.wf(),
    {
        ASN1Node {
            identifier: self.identifier,
            content: self.content.clone(),
            encoded_bytes: self.encoded_bytes.clone(),
        }
    }
}

/// A bound on how much of the flat vector a logical node's children cover;
/// a child node's size is always strictly below its parent's.
pub open spec fn node_size(n: ASN1Node) -> nat {
    match n.content {
        Content::Primitive(_) => 0,
        Content::Constructed(c) => if c.spec_start() <= c.spec_end() {
            (c.spec_end() - c.spec_start() + 1) as nat
        } else {
            1
        },
    }
}

/// The logical node that the cursor position `i` denotes, with `se` the end
/// of its subtree: the identifier and encoding of the flat node, and either
/// its content octets or the cursor range of its children.
pub open spec fn node_at(nodes: Seq<ParserNode>, i: int, se: int, n: ASN1Node) -> bool {
    &&& n.identifier == nodes[i].identifier
    &&& bytes_view(n.encoded_bytes) == bytes_view(nodes[i].encoded_bytes)
    &&& if nodes[i].is_constructed {
        &&& n.content matches Content::Constructed(c)
        &&& c.spec_nodes() == nodes
        &&& c.spec_start() == i + 1
        &&& c.spec_end() == se
        &&& c.spec_depth() == nodes[i].depth
    } else {
        &&& n.content matches Content::Primitive(b)
        &&& bytes_view(b) == bytes_view(nodes[i].data_bytes->Some_0)
    }
}

impl ASN1NodeCollectionIterator {
    pub closed spec fn spec_nodes(&self) -> Seq<ParserNode> {
        self.nodes@
    }

    pub closed spec fn spec_start(&self) -> usize {
        self.start
    }

    pub closed spec fn spec_end(&self) -> usize {
        self.end
    }

    /// The remaining range lies inside the vector and every node in it is
    /// structurally sound.
    pub open spec fn wf(&self) -> bool {
        &&& self.spec_start() <= self.spec_end() <= self.spec_nodes().len()
        &&& forall|i: int|
            self.spec_start() <= i < self.spec_end() ==> wf_node(#[trigger] self.spec_nodes()[i])
    }

    /// The next logical node, without advancing the cursor.
    pub fn peek(&self) -> (r: Option<ASN1Node>)
        requires
            self.wf(),
        ensures
            match r {
                None => self.spec_start() >= self.spec_end(),
                Some(n) => {
                    &&& self.spec_start() < self.spec_end()
                    &&& node_at(
                        self.spec_nodes(),
                        self.spec_start() as int,
                        spec_subtree_end(
                            self.spec_nodes(),
                            self.spec_start() as int,
                            self.spec_end() as int,
                        ),
                        n,
                    )
                    &&& n.wf()
                },
            },
    {
        if self.start >= self.end {
            return None;
        }
        let index = self.start;
        let end_index = self.subtree_end_index(index);
        Some(self.clone_node(index, end_index))
    }

    /// The end of the subtree of the node at `index`: the first later index
    /// in the window that does not sit strictly below it.
    fn subtree_end_index(&self, index: usize) -> (r: usize)
        requires
            self.wf(),
            self.spec_start() <= index < self.spec_end(),
        ensures
            r == spec_subtree_end(self.spec_nodes(), index as int, self.spec_end() as int),
            index < r <= self.spec_end(),
    {
        let nodes = arc_vec_ref(&self.nodes);
        let node_depth = nodes[index].depth;
        let mut search_index = index + 1;
        proof {
            lemma_scan_end_bounds(self.spec_nodes(), node_depth as int, index as int + 1, self.spec_end() as int);
        }
        while search_index < self.end
            invariant
                self.wf(),
                nodes@ == self.spec_nodes(),
                self.end == self.spec_end(),
                index < search_index <= self.spec_end(),
                node_depth == self.spec_nodes()[index as int].depth,
                scan_end(
                    self.spec_nodes(),
                    node_depth as int,
                    search_index as int,
                    self.spec_end() as int,
                ) == spec_subtree_end(self.spec_nodes(), index as int, self.spec_end() as int),
            ensures
                index < search_index <= self.spec_end(),
                search_index as int == spec_subtree_end(
                    self.spec_nodes(),
                    index as int,
                    self.spec_end() as int,
                ),
            decreases self.spec_end() - search_index,
        {
            if nodes[search_index].depth <= node_depth {
                break ;
            }
            search_index += 1;
        }
        proof {
            lemma_scan_end_bounds(
                self.spec_nodes(),
                node_depth as int,
                search_index as int,
                self.spec_end() as int,
            );
        }
        search_index
    }

    /// Builds the logical node for position `index`, whose subtree ends at
    /// `end_index`.
    fn clone_node(&self, index: usize, end_index: usize) -> (r: ASN1Node)
        requires
            self.wf(),
            self.spec_start() <= index < self.spec_end(),
            index < end_index <= self.spec_end(),
        ensures
            node_at(self.spec_nodes(), index as int, end_index as int, r),
            r.wf(),
    {
        let nodes = arc_vec_ref(&self.nodes);
        let node = &nodes[index];
        if node.is_constructed {
            let collection = ASN1NodeCollection::new(
                arc_vec_clone(&self.nodes),
                index + 1,
                end_index,
                node.depth,
            );
            ASN1Node {
                identifier: node.identifier,
                content: Content::Constructed(collection),
                encoded_bytes: node.encoded_bytes.clone(),
            }
        } else {
            match &node.data_bytes {
                Some(db) => ASN1Node {
                    identifier: node.identifier,
                    content: Content::Primitive(db.clone()),
                    encoded_bytes: node.encoded_bytes.clone(),
                },
                None => vstd::pervasive::unreached(),
            }
        }
    }

    /// The next logical node, advancing the cursor past its subtree.
    pub fn next(&mut self) -> (r: Option<ASN1Node>)
        requires
            old(self).wf(),
        ensures
            final(self).wf(),
            final(self).spec_nodes() == old(self).spec_nodes(),
            final(self).spec_end() == old(self).spec_end(),
            match r {
                None => {
                    &&& old(self).spec_start() >= old(self).spec_end()
                    &&& final(self).spec_start() == old(self).spec_start()
                },
                Some(n) => {
                    &&& old(self).spec_start() < old(self).spec_end()
                    &&& final(self).spec_start() as int == spec_subtree_end(
                        old(self).spec_nodes(),
                        old(self).spec_start() as int,
                        old(self).spec_end() as int,
                    )
                    &&& old(self).spec_start() < final(self).spec_start()
                    &&& node_at(
                        old(self).spec_nodes(),
                        old(self).spec_start() as int,
                        final(self).spec_start() as int,
                        n,
                    )
                    &&& n.wf()
                },
            },
    {
        if self.start >= self.end {
            return None;
        }
        let index = self.start;
        let end_index = self.subtree_end_index(index);
        self.start = end_index;
        Some(self.clone_node_after_advance(index, end_index))
    }

    /// As `clone_node`, after the cursor start has moved to `end_index`.
    fn clone_node_after_advance(&self, index: usize, end_index: usize) -> (r: ASN1Node)
        requires
            index < self.spec_end() <= self.spec_nodes().len(),
            index < end_index <= self.spec_end(),
            self.spec_start() == end_index,
            forall|i: int|
                index <= i < self.spec_end() ==> wf_node(#[trigger] self.spec_nodes()[i]),
        ensures
            node_at(self.spec_nodes(), index as int, end_index as int, r),
            r.wf(),
    {
        let nodes = arc_vec_ref(&self.nodes);
        let node = &nodes[index];
        if node.is_constructed {
            let collection = ASN1NodeCollection::new(
                arc_vec_clone(&self.nodes),
                index + 1,
                end_index,
                node.depth,
            );
            ASN1Node {
                identifier: node.identifier,
                content: Content::Constructed(collection),
                encoded_bytes: node.encoded_bytes.clone(),
            }
        } else {
            match &node.data_bytes {
                Some(db) => ASN1Node {
                    identifier: node.identifier,
                    content: Content::Primitive(db.clone()),
                    encoded_bytes: node.encoded_bytes.clone(),
                },
                None => vstd::pervasive::unreached(),
            }
        }
    }
}


/// A successful base-128 read consumes at least one octet and at most the
/// whole input.
pub proof fn lemma_read_base128_consumed(s: Seq<u8>, acc: nat, consumed: int)
    ensures
        spec_read_base128_loop(s, acc, consumed) matches Ok(p) ==> consumed < p.1 <= consumed
            + s.len(),
    decreases s.len(),
{
    if s.len() > 0 {
        let acc2 = acc * 128 + (s[0] & 0x7F) as nat;
        if acc2 <= u64::MAX as nat && s[0] >= 0x80 {
            lemma_read_base128_consumed(s.skip(1), acc2, consumed + 1);
        }
    }
}

/// Reading from a well-formed base-128 string followed by anything stops
/// exactly at its end, folding its value onto the accumulator.
pub proof fn lemma_read_base128_of_vlq(t: Seq<u8>, rest: Seq<u8>, acc: nat, consumed: int)
    requires
        crate::encoding::is_vlq(t),
        acc * crate::encoding::pow128(t.len()) + crate::encoding::vlq_value(t) <= u64::MAX as nat,
    ensures
        spec_read_base128_loop(t + rest, acc, consumed) == Ok::<(u64, int), ErrorCode>(
            (
                (acc * crate::encoding::pow128(t.len()) + crate::encoding::vlq_value(t)) as u64,
                consumed + t.len(),
            ),
        ),
    decreases t.len(),
{
    let s = t + rest;
    assert(s.len() > 0);
    assert(s[0] == t[0]);
    let acc2 = acc * 128 + (s[0] & 0x7F) as nat;
    crate::encoding::lemma_vlq_value_head(t);
    let p1 = crate::encoding::pow128((t.len() - 1) as nat);
    assert(crate::encoding::pow128(t.len()) == 128 * p1);
    crate::encoding::lemma_pow128_pos((t.len() - 1) as nat);
    assert(acc2 * p1 == (acc * 128) * p1 + ((t[0] & 0x7F) as nat) * p1) by (nonlinear_arith)
        requires
            acc2 == acc * 128 + (t[0] & 0x7F) as nat,
    ;
    assert((acc * 128) * p1 == acc * (128 * p1)) by (nonlinear_arith);
    assert(acc2 * p1 + crate::encoding::vlq_value(t.skip(1)) == acc * crate::encoding::pow128(
        t.len(),
    ) + crate::encoding::vlq_value(t));
    assert(acc2 <= acc2 * p1) by (nonlinear_arith)
        requires
            p1 >= 1,
            acc2 >= 0,
    ;
    if t.len() == 1 {
        assert(t.last() == t[0]);
        assert(t[0] < 0x80);
        assert(t.skip(1) =~= Seq::<u8>::empty());
        assert(crate::encoding::vlq_value(t) == (t[0] & 0x7F) as nat);
        assert(acc2 * 1 == acc2) by (nonlinear_arith);
        assert(acc2 == acc * crate::encoding::pow128(t.len()) + crate::encoding::vlq_value(t));
    } else {
        assert(t[0] >= 0x80);
        assert(crate::encoding::is_vlq(t.skip(1))) by {
            assert(t.skip(1).len() >= 1);
            assert(t.skip(1).last() == t.last());
            assert forall|i: int| 0 <= i < t.skip(1).len() - 1 implies #[trigger] t.skip(1)[i]
                >= 0x80 by {
                assert(t.skip(1)[i] == t[i + 1]);
            }
        }
        assert(s.skip(1) =~= t.skip(1) + rest);
        lemma_read_base128_of_vlq(t.skip(1), rest, acc2, consumed + 1);
    }
}

/// Reading the canonical base-128 encoding of `n` (with anything after it)
/// yields `n` and consumes exactly that encoding.
pub proof fn lemma_read_base128_roundtrip(n: u64, rest: Seq<u8>)
    ensures
        spec_read_base128(crate::encoding::vlq_encode(n as nat) + rest) == Ok::<
            (u64, int),
            ErrorCode,
        >((n, crate::encoding::vlq_encode(n as nat).len() as int)),
{
    crate::encoding::lemma_vlq_encode_canonical(n as nat);
    crate::encoding::lemma_vlq_encode_value(n as nat);
    let t = crate::encoding::vlq_encode(n as nat);
    assert(0 * crate::encoding::pow128(t.len()) == 0) by (nonlinear_arith);
    lemma_read_base128_of_vlq(t, rest, 0, 0);
}


/// The emitted length field reads back as the same definite length, under
/// DER and BER alike, consuming exactly the field.
pub proof fn lemma_length_field_round_trip(n: u64, rest: Seq<u8>, minimal: bool)
    ensures
        spec_read_length(crate::encoding::length_field_bytes(n as nat) + rest, minimal) == Ok::<
            (ASN1Length, int),
            ErrorCode,
        >(
            (
                ASN1Length::Definite(n),
                crate::encoding::length_field_bytes(n as nat).len() as int,
            ),
        ),
{
    let f = crate::encoding::length_field_bytes(n as nat);
    let s = f + rest;
    if n <= 0x7F {
        assert(s[0] == n as u8);
        assert(s[0] < 0x80);
    } else {
        lemma_min_be_bytes_value(n as nat);
        lemma_min_be_bytes_len_eq(n);
        let mb = crate::encoding::min_be_bytes(n as nat);
        let k = mb.len() as int;
        crate::asn1::lemma_minimal_octet_len_bound(n);
        assert(s[0] == (0x80 + k) as u8);
        assert(1 <= k <= 8);
        assert(s[0] > 0x80);
        assert(s.len() >= 1 + k);
        assert(s.subrange(1, 1 + k) =~= mb);
        assert(s[0] - 0x80 == k);
    }
}

/// The shortest big-endian form of `n` reads back as `n`.
pub proof fn lemma_min_be_bytes_value(n: nat)
    ensures
        unsigned_be(crate::encoding::min_be_bytes(n)) == n,
    decreases n,
{
    if n > 0 {
        lemma_min_be_bytes_value(n / 256);
        let mb = crate::encoding::min_be_bytes(n);
        assert(mb.drop_last() =~= crate::encoding::min_be_bytes(n / 256));
        assert(mb.last() == (n % 256) as u8);
    }
}

/// For a positive value, the shortest big-endian form is exactly as long
/// as the minimal octet count.
pub proof fn lemma_min_be_bytes_len_eq(n: u64)
    requires
        n >= 1,
    ensures
        crate::encoding::min_be_bytes(n as nat).len() == spec_minimal_octet_len(n),
    decreases n,
{
    if n >= 256 {
        lemma_min_be_bytes_len_eq(n / 256);
    } else {
        assert(crate::encoding::min_be_bytes((n / 256) as nat) =~= Seq::<u8>::empty());
    }
}

/// A one-octet length below 128 written in the two-octet long form is
/// rejected under DER but accepted, with the same value, under BER.
pub proof fn lemma_nonminimal_length(n: u8, rest: Seq<u8>)
    requires
        n < 128,
    ensures
        spec_read_length(seq![0x81u8, n] + rest, true) == Err::<(ASN1Length, int), ErrorCode>(
            ErrorCode::UnsupportedFieldLength,
        ),
        spec_read_length(seq![0x81u8, n] + rest, false) == Ok::<(ASN1Length, int), ErrorCode>(
            (ASN1Length::Definite(n as u64), 2),
        ),
{
    let s = seq![0x81u8, n] + rest;
    assert(s[0] == 0x81);
    assert(s.subrange(1, 2) =~= seq![n]);
    assert(seq![n].drop_last() =~= Seq::<u8>::empty());
    assert(seq![n].last() == n);
    assert(unsigned_be(seq![n]) == unsigned_be(seq![n].drop_last()) * 256 + n as nat);
    assert(0 * 256 == 0) by (nonlinear_arith);
    assert(unsigned_be(seq![n]) == n);
}

/// A leading `0x80` length octet always reads as the indefinite marker,
/// whatever the rules; the tree builder then rejects it under DER.
pub proof fn lemma_indefinite_marker(s: Seq<u8>, minimal: bool)
    requires
        s.len() >= 1,
        s[0] == 0x80,
    ensures
        spec_read_length(s, minimal) == Ok::<(ASN1Length, int), ErrorCode>(
            (ASN1Length::Indefinite, 1),
        ),
{
}

} // verus!
