use vstd::prelude::*;
use bytes::Bytes;
use crate::asn1::{
    lemma_read_base128_consumed, lemma_read_base128_roundtrip, spec_read_base128, ASN1Node, Content,
};
use crate::asn1_types::identifier::{universal_id, ASN1Identifier};
use crate::ber::{BERImplicitlyTaggable, BERParseable, BERSerializable};
use crate::der::{DERImplicitlyTaggable, DERParseable, DERSerializable, Serializer};
use crate::encoding::{encoded_tlv, lemma_vlq_encode_canonical, vlq_encode};
use crate::errors::{err, ASN1Error, ErrorCode};
use crate::trusted::{bytes_as_slice, bytes_from_vec, bytes_len, bytes_view};

verus! {

/// What reading one OID sub-identifier from the head of `s` yields: a
/// base-128 unsigned integer whose encoding must be canonical (a leading
/// `0x80` octet is rejected).
pub open spec fn spec_read_oid_subid(s: Seq<u8>) -> Result<(u64, int), ErrorCode> {
    if s.len() == 0 {
        Err(ErrorCode::TruncatedASN1Field)
    } else if s[0] == 0x80 {
        Err(ErrorCode::InvalidASN1Object)
    } else {
        spec_read_base128(s)
    }
}

/// What parsing a whole OID content string into sub-identifier values
/// yields (the empty string parses to no values).
pub open spec fn spec_oid_parse(s: Seq<u8>) -> Result<Seq<u64>, ErrorCode>
    decreases s.len(),
    via spec_oid_parse_decreases
{
    if s.len() == 0 {
        Ok(Seq::empty())
    } else {
        match spec_read_oid_subid(s) {
            Err(c) => Err(c),
            Ok(p) => match spec_oid_parse(s.skip(p.1)) {
                Err(c) => Err(c),
                Ok(rest) => Ok(seq![p.0] + rest),
            },
        }
    }
}

#[via_fn]
proof fn spec_oid_parse_decreases(s: Seq<u8>) {
    if s.len() > 0 {
        lemma_read_base128_consumed(s, 0, 0);
    }
}

/// The tail of an OID content string: the canonical encodings of the
/// components from position `i` on.
pub open spec fn oid_tail(cs: Seq<u64>, i: int) -> Seq<u8>
    decreases cs.len() - i,
{
    if i < 0 || i >= cs.len() {
        Seq::empty()
    } else {
        vlq_encode(cs[i] as nat) + oid_tail(cs, i + 1)
    }
}

/// The content octets of an object identifier with the given components:
/// the first two components fold into one sub-identifier, the rest follow.
pub open spec fn oid_content(cs: Seq<u64>) -> Seq<u8> {
    vlq_encode((40 * cs[0] + cs[1]) as nat) + oid_tail(cs, 2)
}

/// What decoding a node as a DER OBJECT IDENTIFIER against `identifier`
/// yields: nonempty primitive content, each sub-identifier canonically
/// encoded, stored verbatim.
pub open spec fn spec_oid_from_der(
    node: ASN1Node,
    identifier: ASN1Identifier,
    r: Result<ASN1ObjectIdentifier, ASN1Error>,
) -> bool {
    match r {
        Ok(v) => node.identifier == identifier && (node.content matches Content::Primitive(b)
            && bytes_view(b).len() >= 1 && spec_oid_parse(bytes_view(b)) is Ok && v.spec_bytes()
            == bytes_view(b)),
        Err(e) => {
            ||| (node.identifier != identifier && e.spec_code() == ErrorCode::UnexpectedFieldType)
            ||| (node.identifier == identifier && node.spec_is_constructed() && e.spec_code()
                == ErrorCode::UnexpectedFieldType)
            ||| (node.identifier == identifier && (node.content matches Content::Primitive(b)
                && bytes_view(b).len() == 0 && e.spec_code() == ErrorCode::InvalidASN1Object))
            ||| (node.identifier == identifier && (node.content matches Content::Primitive(b)
                && (spec_oid_parse(bytes_view(b)) matches Err(c) && e.spec_code() == c)))
        },
    }
}

/// An ASN.1 OBJECT IDENTIFIER, stored as its encoded content octets.
#[derive(Debug, Clone)]
pub struct ASN1ObjectIdentifier {
    bytes: Bytes,
}

impl ASN1ObjectIdentifier {
    /// The content octets this object identifier holds.
    pub closed spec fn spec_bytes(&self) -> Seq<u8> {
        bytes_view(self.bytes)
    }

    /// Builds an object identifier from its component values. At least two
    /// components are needed; the first is 0, 1 or 2, and below 2 the
    /// second is at most 39. (The second component must also leave the
    /// folded first sub-identifier within the 64-bit range.)
    pub fn new(components: &[u64]) -> (r: Result<Self, ASN1Error>)
        requires
            components@.len() >= 2 ==> components@[1] <= u64::MAX - 80,
        ensures
            match r {
                Ok(v) => components@.len() >= 2 && components@[0] <= 2 && (components@[0] < 2
                    ==> components@[1] <= 39) && v.spec_bytes() == oid_content(components@),
                Err(e) => {
                    ||| (components@.len() < 2 && e.spec_code() == ErrorCode::TooFewOIDComponents)
                    ||| (components@.len() >= 2 && components@[0] > 2 && e.spec_code()
                        == ErrorCode::InvalidASN1Object)
                    ||| (components@.len() >= 2 && components@[0] < 2 && components@[1] > 39
                        && e.spec_code() == ErrorCode::InvalidASN1Object)
                },
            },
    {
        if components.len() < 2 {
            return Err(err(ErrorCode::TooFewOIDComponents, "Must have at least 2 components"));
        }

        let first = components[0];
        let second = components[1];

        if first > 2 {
            return Err(err(ErrorCode::InvalidASN1Object, "First OID component must be 0, 1, or 2"));
        }
        if first < 2 && second > 39 {
            return Err(
                err(
                    ErrorCode::InvalidASN1Object,
                    "Second OID component must be <= 39 if first is 0 or 1",
                ),
            );
        }

        let mut buffer: Vec<u8> = Vec::new();
        let first_byte_val = first * 40 + second;
        write_oid_subidentifier(first_byte_val, &mut buffer);

        let mut i: usize = 2;
        proof {
            assert(buffer@ + oid_tail(components@, 2) =~= oid_content(components@));
        }
        while i < components.len()
            invariant
                2 <= i <= components@.len(),
                buffer@ + oid_tail(components@, i as int) =~= oid_content(components@),
            decreases components@.len() - i,
        {
            let ghost pre = buffer@;
            write_oid_subidentifier(components[i], &mut buffer);
            proof {
                assert(oid_tail(components@, i as int) =~= vlq_encode(components@[i as int] as nat)
                    + oid_tail(components@, i + 1));
                assert(buffer@ + oid_tail(components@, i + 1) =~= pre + oid_tail(
                    components@,
                    i as int,
                ));
            }
            i += 1;
        }
        proof {
            assert(oid_tail(components@, components@.len() as int) =~= Seq::<u8>::empty());
            assert(buffer@ =~= oid_content(components@));
        }

        Ok(ASN1ObjectIdentifier { bytes: bytes_from_vec(buffer) })
    }

    /// Reads the component values back out of the stored octets: the first
    /// sub-identifier splits by division into the first two components.
    pub fn oid_components(&self) -> (r: Result<Vec<u64>, ASN1Error>)
        ensures
            match r {
                Ok(cs) => self.spec_bytes().len() >= 1 && (spec_oid_parse(self.spec_bytes())
                    matches Ok(vs) && cs@ == seq![vs[0] / 40, vs[0] % 40] + vs.skip(1)),
                Err(e) => {
                    ||| (self.spec_bytes().len() == 0 && e.spec_code()
                        == ErrorCode::InvalidASN1Object)
                    ||| (spec_oid_parse(self.spec_bytes()) matches Err(c) && e.spec_code() == c)
                },
            },
    {
        let ghost bv = self.spec_bytes();
        let mut components: Vec<u64> = Vec::new();
        let mut data = self.bytes.clone();

        if bytes_len(&data) == 0 {
            return Err(err(ErrorCode::InvalidASN1Object, "Zero components in OID"));
        }

        let first_val: u64;
        match read_oid_subidentifier(&mut data) {
            Ok(v) => {
                first_val = v;
            },
            Err(e) => {
                proof {
                    assert(spec_oid_parse(bv) matches Err(c) && c == e.spec_code());
                }
                return Err(e);
            },
        }

        let first = first_val / 40;
        let second = first_val % 40;
        components.push(first);
        components.push(second);

        let ghost consumed_vals: Seq<u64> = seq![first_val];
        proof {
            let n = spec_read_oid_subid(bv)->Ok_0.1;
            lemma_read_base128_consumed(bv, 0, 0);
            assert(bytes_view(data) == bv.skip(n));
        }

        loop
            invariant
                bv == self.spec_bytes(),
                consumed_vals.len() >= 1,
                consumed_vals[0] == first_val,
                components@ == seq![first_val / 40, first_val % 40] + consumed_vals.skip(1),
                match spec_oid_parse(bytes_view(data)) {
                    Ok(rest) => spec_oid_parse(bv) == Ok::<Seq<u64>, ErrorCode>(
                        consumed_vals + rest,
                    ),
                    Err(c) => spec_oid_parse(bv) == Err::<Seq<u64>, ErrorCode>(c),
                },
            ensures
                bytes_view(data).len() == 0,
                consumed_vals.len() >= 1,
                consumed_vals[0] == first_val,
                components@ == seq![first_val / 40, first_val % 40] + consumed_vals.skip(1),
                spec_oid_parse(bv) == Ok::<Seq<u64>, ErrorCode>(consumed_vals + Seq::empty()),
            decreases bytes_view(data).len(),
        {
            if bytes_len(&data) == 0 {
                break ;
            }
            let ghost prev = bytes_view(data);
            match read_oid_subidentifier(&mut data) {
                Ok(v) => {
                    components.push(v);
                    proof {
                        let n = spec_read_oid_subid(prev)->Ok_0.1;
                        lemma_read_base128_consumed(prev, 0, 0);
                        assert(bytes_view(data) == prev.skip(n));
                        let nv = consumed_vals + seq![v];
                        assert(nv.skip(1) =~= consumed_vals.skip(1) + seq![v]);
                        assert(components@ =~= seq![first_val / 40, first_val % 40] + nv.skip(1));
                        if spec_oid_parse(bytes_view(data)) is Ok {
                            let rest = spec_oid_parse(bytes_view(data))->Ok_0;
                            assert(spec_oid_parse(prev) == Ok::<Seq<u64>, ErrorCode>(
                                seq![v] + rest,
                            ));
                            assert(consumed_vals + (seq![v] + rest) =~= nv + rest);
                        }
                        consumed_vals = nv;
                    }
                },
                Err(e) => {
                    return Err(e);
                },
            }
        }
        proof {
            assert(spec_oid_parse(bytes_view(data)) == Ok::<Seq<u64>, ErrorCode>(Seq::empty()));
            assert(consumed_vals + Seq::<u64>::empty() =~= consumed_vals);
            let vs = spec_oid_parse(bv)->Ok_0;
            assert(vs == consumed_vals);
            assert(vs.skip(1) =~= consumed_vals.skip(1));
        }
        Ok(components)
    }
}

impl DERParseable for ASN1ObjectIdentifier {
    fn from_der_node(node: ASN1Node) -> (r: Result<Self, ASN1Error>)
        ensures
            spec_oid_from_der(node, universal_id(0x06), r),
    {
        Self::from_der_node_with_identifier(node, ASN1ObjectIdentifier::default_identifier())
    }
}

impl DERSerializable for ASN1ObjectIdentifier {
    fn serialize(&self, serializer: &mut Serializer) -> (r: Result<(), ASN1Error>)
        ensures
            r matches Ok(_),
            final(serializer).spec_buffer() == old(serializer).spec_buffer() + encoded_tlv(
                universal_id(0x06),
                false,
                self.spec_bytes(),
            ),
    {
        serializer.append_node(
            ASN1ObjectIdentifier::default_identifier(),
            false,
            bytes_as_slice(&self.bytes),
        )
    }
}

impl DERImplicitlyTaggable for ASN1ObjectIdentifier {
    open spec fn spec_default_identifier() -> ASN1Identifier {
        universal_id(0x06)
    }

    fn default_identifier() -> (r: ASN1Identifier)
        ensures
            r == universal_id(0x06),
    {
        proof {
            assert(<ASN1ObjectIdentifier as DERImplicitlyTaggable>::spec_default_identifier()
                == universal_id(0x06));
        }
        ASN1Identifier::object_identifier()
    }

    fn from_der_node_with_identifier(node: ASN1Node, identifier: ASN1Identifier) -> (r: Result<
        Self,
        ASN1Error,
    >)
        ensures
            spec_oid_from_der(node, identifier, r),
    {
        if node.identifier != identifier {
            return Err(err(ErrorCode::UnexpectedFieldType, "Unexpected field type"));
        }
        match node.content {
            Content::Primitive(bytes) => {
                let ghost bv = bytes_view(bytes);
                if bytes_len(&bytes) == 0 {
                    return Err(err(ErrorCode::InvalidASN1Object, "Zero components in OID"));
                }

                let mut check = bytes.clone();
                loop
                    invariant
                        node.identifier == identifier,
                        node.content == Content::Primitive(bytes),
                        bv == bytes_view(bytes),
                        bv.len() >= 1,
                        match spec_oid_parse(bytes_view(check)) {
                            Ok(_) => spec_oid_parse(bv) is Ok,
                            Err(c) => spec_oid_parse(bv) matches Err(c2) && c2 == c,
                        },
                    ensures
                        bytes_view(check).len() == 0,
                        spec_oid_parse(bv) is Ok,
                    decreases bytes_view(check).len(),
                {
                    if bytes_len(&check) == 0 {
                        break ;
                    }
                    let ghost prev = bytes_view(check);
                    match read_oid_subidentifier(&mut check) {
                        Ok(_) => {
                            proof {
                                let n = spec_read_oid_subid(prev)->Ok_0.1;
                                lemma_read_base128_consumed(prev, 0, 0);
                                assert(bytes_view(check) == prev.skip(n));
                            }
                        },
                        Err(e) => {
                            return Err(e);
                        },
                    }
                }

                Ok(ASN1ObjectIdentifier { bytes })
            },
            Content::Constructed(_) => Err(
                err(ErrorCode::UnexpectedFieldType, "OID must be primitive"),
            ),
        }
    }
}

impl BERParseable for ASN1ObjectIdentifier {
    fn from_ber_node(node: ASN1Node) -> (r: Result<Self, ASN1Error>)
        ensures
            spec_oid_from_der(node, universal_id(0x06), r),
    {
        Self::from_ber_node_with_identifier(node, ASN1ObjectIdentifier::default_identifier())
    }
}

impl BERSerializable for ASN1ObjectIdentifier {

}

impl BERImplicitlyTaggable for ASN1ObjectIdentifier {
    fn from_ber_node_with_identifier(node: ASN1Node, identifier: ASN1Identifier) -> (r: Result<
        Self,
        ASN1Error,
    >)
        ensures
            spec_oid_from_der(node, identifier, r),
    {
        Self::from_der_node_with_identifier(node, identifier)
    }
}

/// Appends the canonical base-128 encoding of one OID sub-identifier.
pub fn write_oid_subidentifier(value: u64, buf: &mut Vec<u8>)
    ensures
        final(buf)@ == old(buf)@ + vlq_encode(value as nat),
{
    crate::der::write_asn1_discipline_uint(buf, value)
}

/// Reads one OID sub-identifier from the head of `data`, as
/// `spec_read_oid_subid` describes: base-128, canonical, within 64 bits.
pub fn read_oid_subidentifier(data: &mut Bytes) -> (r: Result<u64, ASN1Error>)
    ensures
        match spec_read_oid_subid(bytes_view(*old(data))) {
            Ok(p) => r matches Ok(v) && v == p.0 && bytes_view(*final(data)) == bytes_view(
                *old(data),
            ).skip(p.1),
            Err(c) => r matches Err(e) && e.spec_code() == c,
        },
{
    if bytes_len(data) == 0 {
        return Err(err(ErrorCode::TruncatedASN1Field, ""));
    }
    let first = crate::trusted::bytes_get(data, 0);
    if first == 0x80 {
        return Err(
            err(ErrorCode::InvalidASN1Object, "OID subidentifier encoded with leading 0 byte"),
        );
    }
    match crate::asn1::read_asn1_discipline_uint(data) {
        Ok(p) => Ok(p.0),
        Err(e) => Err(e),
    }
}

/// The content octets an object identifier is built from always parse back
/// into the folded sub-identifier values.
pub proof fn lemma_oid_content_parses(cs: Seq<u64>)
    requires
        cs.len() >= 2,
        cs[0] <= 2,
        cs[1] <= u64::MAX - 80,
    ensures
        spec_oid_parse(oid_content(cs)) == Ok::<Seq<u64>, ErrorCode>(
            seq![(40 * cs[0] + cs[1]) as u64] + cs.skip(2),
        ),
{
    lemma_oid_tail_parses(cs, 2);
    let v0 = (40 * cs[0] + cs[1]) as u64;
    lemma_read_base128_roundtrip(v0, oid_tail(cs, 2));
    lemma_vlq_encode_canonical(v0 as nat);
    let t = vlq_encode(v0 as nat);
    let s = oid_content(cs);
    assert(s == t + oid_tail(cs, 2));
    assert(s.len() >= 1);
    assert(s[0] == t[0]);
    assert(s[0] != 0x80);
    assert(s.skip(t.len() as int) =~= oid_tail(cs, 2));
}

/// Each suffix of the component list encodes to octets that parse back to
/// exactly those components.
proof fn lemma_oid_tail_parses(cs: Seq<u64>, i: int)
    requires
        0 <= i <= cs.len(),
    ensures
        spec_oid_parse(oid_tail(cs, i)) == Ok::<Seq<u64>, ErrorCode>(cs.skip(i)),
    decreases cs.len() - i,
{
    if i == cs.len() {
        assert(oid_tail(cs, i) =~= Seq::<u8>::empty());
        assert(cs.skip(i) =~= Seq::<u64>::empty());
    } else {
        lemma_oid_tail_parses(cs, i + 1);
        let t = vlq_encode(cs[i] as nat);
        let rest = oid_tail(cs, i + 1);
        let s = oid_tail(cs, i);
        assert(s == t + rest);
        lemma_read_base128_roundtrip(cs[i], rest);
        lemma_vlq_encode_canonical(cs[i] as nat);
        assert(s.len() >= 1);
        assert(s[0] == t[0]);
        assert(s[0] != 0x80);
        assert(s.skip(t.len() as int) =~= rest);
        assert(seq![cs[i]] + cs.skip(i + 1) =~= cs.skip(i));
    }
}

/// Round trip on object identifiers: an identifier built from valid
/// components serializes to content that decodes back to the same stored
/// octets.
pub proof fn lemma_oid_round_trip(
    cs: Seq<u64>,
    node: ASN1Node,
    r: Result<ASN1ObjectIdentifier, ASN1Error>,
)
    requires
        cs.len() >= 2,
        cs[0] <= 2,
        cs[1] <= u64::MAX - 80,
        node.identifier == universal_id(0x06),
        node.content matches Content::Primitive(b) && bytes_view(b) == oid_content(cs),
        spec_oid_from_der(node, universal_id(0x06), r),
    ensures
        r matches Ok(v) && v.spec_bytes() == oid_content(cs),
{
    lemma_oid_content_parses(cs);
    crate::encoding::lemma_vlq_encode_canonical((40 * cs[0] + cs[1]) as nat);
    assert(oid_content(cs).len() >= 1);
}

/// Reading the components back recovers the originals whenever the second
/// component stays below 40, whatever the first: the folded sub-identifier
/// splits by division.
pub proof fn lemma_oid_components_recover(cs: Seq<u64>)
    requires
        cs.len() >= 2,
        cs[0] <= 2,
        cs[1] <= 39,
    ensures
        ({
            let vs = spec_oid_parse(oid_content(cs))->Ok_0;
            seq![vs[0] / 40, vs[0] % 40] + vs.skip(1) == cs
        }),
{
    lemma_oid_content_parses(cs);
    let v0 = (40 * cs[0] + cs[1]) as u64;
    let vs = spec_oid_parse(oid_content(cs))->Ok_0;
    assert(v0 / 40 == cs[0] && v0 % 40 == cs[1]) by (nonlinear_arith)
        requires
            v0 == 40 * cs[0] + cs[1],
            cs[0] <= 2,
            cs[1] <= 39,
    ;
    assert(vs.skip(1) =~= cs.skip(2));
    assert(seq![vs[0] / 40, vs[0] % 40] + vs.skip(1) =~= cs);
}

} // verus!
