use vstd::prelude::*;
use crate::asn1_types::identifier::{spec_class_flags, ASN1Identifier};

verus! {

/// 256 to the power `n`.
pub open spec fn pow256(n: nat) -> nat
    decreases n,
{
    if n == 0 {
        1
    } else {
        256 * pow256((n - 1) as nat)
    }
}

/// The unsigned big-endian value of a byte string (zero when empty).
pub open spec fn unsigned_be(s: Seq<u8>) -> nat
    decreases s.len(),
{
    if s.len() == 0 {
        0
    } else {
        unsigned_be(s.drop_last()) * 256 + s.last() as nat
    }
}

pub proof fn lemma_pow256_pos(n: nat)
    ensures
        pow256(n) >= 1,
    decreases n,
{
    if n > 0 {
        lemma_pow256_pos((n - 1) as nat);
    }
}

/// Extending a prefix by one octet multiplies its value by 256 and adds
/// that octet.
pub proof fn lemma_unsigned_be_snoc(s: Seq<u8>, i: int)
    requires
        0 <= i < s.len(),
    ensures
        unsigned_be(s.take(i + 1)) == unsigned_be(s.take(i)) * 256 + s[i],
{
    assert(s.take(i + 1).drop_last() =~= s.take(i));
    assert(s.take(i + 1).last() == s[i]);
}

/// A byte string's value is at least the value of any of its prefixes
/// scaled by the remaining octets.
pub proof fn lemma_unsigned_be_prefix_lower(s: Seq<u8>, i: int)
    requires
        0 <= i <= s.len(),
    ensures
        unsigned_be(s) >= unsigned_be(s.take(i)) * pow256((s.len() - i) as nat),
    decreases s.len() - i,
{
    if i == s.len() {
        assert(s.take(i) =~= s);
        assert(pow256((s.len() - i) as nat) == 1);
        assert(unsigned_be(s.take(i)) * 1 == unsigned_be(s.take(i))) by (nonlinear_arith);
    } else {
        lemma_unsigned_be_prefix_lower(s, i + 1);
        lemma_unsigned_be_snoc(s, i);
        let a = unsigned_be(s.take(i));
        let b = unsigned_be(s.take(i + 1));
        let p = pow256((s.len() - i - 1) as nat);
        assert(pow256((s.len() - i) as nat) == 256 * p);
        assert(b * p >= (a * 256) * p) by (nonlinear_arith)
            requires
                b >= a * 256,
                p >= 0,
        ;
        assert((a * 256) * p == a * (256 * p)) by (nonlinear_arith);
        assert(unsigned_be(s) >= b * p);
        assert(unsigned_be(s) >= a * pow256((s.len() - i) as nat));
    }
}

/// A byte string's value is below 256 to the power of its length.
pub proof fn lemma_unsigned_be_bound(s: Seq<u8>)
    ensures
        unsigned_be(s) < pow256(s.len()),
    decreases s.len(),
{
    if s.len() == 0 {
    } else {
        lemma_unsigned_be_bound(s.drop_last());
        let a = unsigned_be(s.drop_last());
        let p = pow256((s.len() - 1) as nat);
        assert(a * 256 + 256 <= p * 256) by (nonlinear_arith)
            requires
                a < p,
        ;
        assert(pow256(s.len()) == 256 * p);
    }
}

/// The two's-complement big-endian value of a byte string (zero when empty).
pub open spec fn signed_be(s: Seq<u8>) -> int {
    if s.len() == 0 {
        0
    } else if s[0] >= 0x80 {
        unsigned_be(s) - pow256(s.len())
    } else {
        unsigned_be(s) as int
    }
}

/// DER's minimality rule for two's-complement content: at least one octet,
/// and no redundant leading `0x00` or `0xFF` octet.
pub open spec fn min_signed(s: Seq<u8>) -> bool {
    &&& s.len() >= 1
    &&& s.len() >= 2 ==> !(s[0] == 0x00 && s[1] < 0x80) && !(s[0] == 0xFF && s[1] >= 0x80)
}

/// The value of a base-128 byte string, taking the low seven bits of each
/// octet as one big-endian digit.
pub open spec fn vlq_value(s: Seq<u8>) -> nat
    decreases s.len(),
{
    if s.len() == 0 {
        0
    } else {
        vlq_value(s.drop_last()) * 128 + (s.last() & 0x7F) as nat
    }
}

/// A well-formed base-128 encoding: nonempty, every octet but the last has
/// its continuation bit set, and the last has it clear.
pub open spec fn is_vlq(s: Seq<u8>) -> bool {
    &&& s.len() >= 1
    &&& forall|i: int| 0 <= i < s.len() - 1 ==> #[trigger] s[i] >= 0x80
    &&& s.last() < 0x80
}

/// A canonical base-128 encoding additionally forbids a leading `0x80`
/// octet, whose high-order seven-bit group would be zero.
pub open spec fn canonical_vlq(s: Seq<u8>) -> bool {
    &&& is_vlq(s)
    &&& s.len() >= 2 ==> s[0] != 0x80
}

/// The continuation octets above the lowest seven-bit group of `m`.
pub open spec fn vlq_prefix(m: nat) -> Seq<u8>
    decreases m,
{
    if m == 0 {
        Seq::empty()
    } else {
        vlq_prefix(m / 128) + seq![(m % 128 + 128) as u8]
    }
}

/// The canonical base-128 encoding of `n`.
pub open spec fn vlq_encode(n: nat) -> Seq<u8> {
    vlq_prefix(n / 128) + seq![(n % 128) as u8]
}

/// The shortest big-endian representation of `n` (empty for zero).
pub open spec fn min_be_bytes(n: nat) -> Seq<u8>
    decreases n,
{
    if n == 0 {
        Seq::empty()
    } else {
        min_be_bytes(n / 256) + seq![(n % 256) as u8]
    }
}

/// The DER length field for a content of `n` octets: short form up to 127,
/// otherwise the minimal long form.
pub open spec fn length_field_bytes(n: nat) -> Seq<u8> {
    if n <= 0x7F {
        seq![n as u8]
    } else {
        seq![(0x80 + min_be_bytes(n).len()) as u8] + min_be_bytes(n)
    }
}

/// The identifier octets for a tag, with the constructed bit folded in:
/// short form below tag number 31, else the long-form marker followed by the
/// canonical base-128 tag number.
pub open spec fn id_header_bytes(id: ASN1Identifier, constructed: bool) -> Seq<u8> {
    let cons: u8 = if constructed {
        0x20
    } else {
        0x00
    };
    if id.tag_number < 0x1F {
        seq![(id.tag_number + spec_class_flags(id.tag_class) + cons) as u8]
    } else {
        seq![(0x1F + spec_class_flags(id.tag_class) + cons) as u8] + vlq_encode(
            id.tag_number as nat,
        )
    }
}

/// The full DER encoding of one node: identifier octets, length octets,
/// then the content octets.
pub open spec fn encoded_tlv(id: ASN1Identifier, constructed: bool, content: Seq<u8>) -> Seq<u8> {
    id_header_bytes(id, constructed) + length_field_bytes(content.len()) + content
}


/// 128 to the power `n`.
pub open spec fn pow128(n: nat) -> nat
    decreases n,
{
    if n == 0 {
        1
    } else {
        128 * pow128((n - 1) as nat)
    }
}

pub proof fn lemma_pow128_pos(n: nat)
    ensures
        pow128(n) >= 1,
    decreases n,
{
    if n > 0 {
        lemma_pow128_pos((n - 1) as nat);
    }
}

/// The continuation octets of `m` carry exactly the value `m`.
pub proof fn lemma_vlq_prefix_value(m: nat)
    ensures
        vlq_value(vlq_prefix(m)) == m,
    decreases m,
{
    if m > 0 {
        lemma_vlq_prefix_value(m / 128);
        let d = (m % 128 + 128) as u8;
        assert(vlq_prefix(m).drop_last() =~= vlq_prefix(m / 128));
        assert(vlq_prefix(m).last() == d);
        assert(d & 0x7F == d - 0x80) by (bit_vector)
            requires
                0x80 <= d,
        ;
    }
}

/// The canonical encoding of `n` carries exactly the value `n`.
pub proof fn lemma_vlq_encode_value(n: nat)
    ensures
        vlq_value(vlq_encode(n)) == n,
{
    lemma_vlq_prefix_value(n / 128);
    let low = (n % 128) as u8;
    assert(vlq_encode(n).drop_last() =~= vlq_prefix(n / 128));
    assert(vlq_encode(n).last() == low);
    assert(low & 0x7F == low) by (bit_vector)
        requires
            low < 0x80,
    ;
}

/// Every continuation octet has its high bit set, and the first one is
/// never the degenerate `0x80`.
pub proof fn lemma_vlq_prefix_bytes(m: nat)
    ensures
        forall|i: int| 0 <= i < vlq_prefix(m).len() ==> #[trigger] vlq_prefix(m)[i] >= 0x80,
        m > 0 ==> vlq_prefix(m).len() >= 1 && vlq_prefix(m)[0] > 0x80,
    decreases m,
{
    if m > 0 {
        lemma_vlq_prefix_bytes(m / 128);
        let pre = vlq_prefix(m / 128);
        let d = (m % 128 + 128) as u8;
        assert(vlq_prefix(m) == pre + seq![d]);
        assert forall|i: int| 0 <= i < vlq_prefix(m).len() implies #[trigger] vlq_prefix(m)[i]
            >= 0x80 by {
            if i < pre.len() {
                assert(vlq_prefix(m)[i] == pre[i]);
            } else {
                assert(vlq_prefix(m)[i] == d);
            }
        }
        if m / 128 == 0 {
            assert(pre =~= Seq::<u8>::empty());
            assert(m % 128 == m);
            assert(vlq_prefix(m)[0] == d);
        } else {
            assert(vlq_prefix(m)[0] == pre[0]);
        }
    }
}

/// The canonical base-128 encoding is indeed canonical.
pub proof fn lemma_vlq_encode_canonical(n: nat)
    ensures
        canonical_vlq(vlq_encode(n)),
        vlq_encode(n).last() < 0x80,
{
    lemma_vlq_prefix_bytes(n / 128);
}

/// Head decomposition of a base-128 value.
pub proof fn lemma_vlq_value_head(s: Seq<u8>)
    requires
        s.len() >= 1,
    ensures
        vlq_value(s) == (s[0] & 0x7F) * pow128((s.len() - 1) as nat) + vlq_value(s.skip(1)),
    decreases s.len(),
{
    if s.len() == 1 {
        assert(s.skip(1) =~= Seq::<u8>::empty());
        assert(s.drop_last() =~= Seq::<u8>::empty());
        assert(s.last() == s[0]);
        assert(pow128(0) == 1);
        assert(vlq_value(s.drop_last()) == 0);
        assert(vlq_value(s) == vlq_value(s.drop_last()) * 128 + (s.last() & 0x7F) as nat);
        assert(0 * 128 == 0) by (nonlinear_arith);
        assert(vlq_value(s) == (s[0] & 0x7F) as nat);
        assert(((s[0] & 0x7F) as nat) * 1 == (s[0] & 0x7F) as nat) by (nonlinear_arith);
    } else {
        lemma_vlq_value_head(s.drop_last());
        assert(s.drop_last()[0] == s[0]);
        assert(s.drop_last().skip(1) =~= s.skip(1).drop_last());
        assert(s.skip(1).last() == s.last());
        let h = (s[0] & 0x7F) as nat;
        let p = pow128((s.len() - 2) as nat);
        assert(vlq_value(s) == vlq_value(s.drop_last()) * 128 + (s.last() & 0x7F));
        assert(vlq_value(s.drop_last()) == h * p + vlq_value(s.skip(1).drop_last()));
        assert((h * p + vlq_value(s.skip(1).drop_last())) * 128 == h * (p * 128) + vlq_value(
            s.skip(1).drop_last(),
        ) * 128) by (nonlinear_arith);
        assert(pow128((s.len() - 1) as nat) == 128 * p);
        assert(128 * p == pow128((s.len() - 1) as nat));
        assert(h * (p * 128) == h * pow128((s.len() - 1) as nat)) by (nonlinear_arith)
            requires
                128 * p == pow128((s.len() - 1) as nat),
        ;
        assert(vlq_value(s.skip(1)) == vlq_value(s.skip(1).drop_last()) * 128 + (s.skip(
            1,
        ).last() & 0x7F));
        assert(vlq_value(s) == h * pow128((s.len() - 1) as nat) + vlq_value(s.skip(1)));
    }
}


pub proof fn lemma_pow256_mono(m: nat, n: nat)
    requires
        m <= n,
    ensures
        pow256(m) <= pow256(n),
    decreases n,
{
    if m < n {
        lemma_pow256_mono(m, (n - 1) as nat);
        lemma_pow256_pos((n - 1) as nat);
    }
}

/// Head decomposition of an unsigned big-endian value.
pub proof fn lemma_unsigned_be_head(s: Seq<u8>)
    requires
        s.len() >= 1,
    ensures
        unsigned_be(s) == s[0] * pow256((s.len() - 1) as nat) + unsigned_be(s.skip(1)),
    decreases s.len(),
{
    if s.len() == 1 {
        assert(s.skip(1) =~= Seq::<u8>::empty());
        assert(s.drop_last() =~= Seq::<u8>::empty());
        assert(s.last() == s[0]);
        assert(pow256(0) == 1);
        assert(unsigned_be(s) == unsigned_be(s.drop_last()) * 256 + s.last() as nat);
        assert(0 * 256 == 0) by (nonlinear_arith);
        assert((s[0] as nat) * 1 == s[0] as nat) by (nonlinear_arith);
    } else {
        lemma_unsigned_be_head(s.drop_last());
        assert(s.drop_last()[0] == s[0]);
        assert(s.drop_last().skip(1) =~= s.skip(1).drop_last());
        assert(s.skip(1).last() == s.last());
        let h = s[0] as nat;
        let p = pow256((s.len() - 2) as nat);
        assert(unsigned_be(s) == unsigned_be(s.drop_last()) * 256 + s.last() as nat);
        assert(unsigned_be(s.drop_last()) == h * p + unsigned_be(s.skip(1).drop_last()));
        assert((h * p + unsigned_be(s.skip(1).drop_last())) * 256 == h * (256 * p) + unsigned_be(
            s.skip(1).drop_last(),
        ) * 256) by (nonlinear_arith);
        assert(pow256((s.len() - 1) as nat) == 256 * p);
        assert(unsigned_be(s.skip(1)) == unsigned_be(s.skip(1).drop_last()) * 256 + s.skip(
            1,
        ).last() as nat);
    }
}

/// The value of a two's-complement string of length `n` lies in the usual
/// signed range for `n` octets.
pub proof fn lemma_signed_be_range(s: Seq<u8>)
    requires
        s.len() >= 1,
    ensures
        -pow256(s.len()) <= 2 * signed_be(s) < pow256(s.len()),
{
    lemma_unsigned_be_bound(s);
    lemma_unsigned_be_head(s);
    lemma_unsigned_be_bound(s.skip(1));
    let p = pow256((s.len() - 1) as nat);
    assert(pow256(s.len()) == 256 * p);
    if s[0] >= 0x80 {
        assert(unsigned_be(s) >= 128 * p) by (nonlinear_arith)
            requires
                unsigned_be(s) == s[0] * p + unsigned_be(s.skip(1)),
                s[0] >= 128,
                p >= 0,
                unsigned_be(s.skip(1)) >= 0,
        ;
    } else {
        assert(unsigned_be(s) < 128 * p) by (nonlinear_arith)
            requires
                unsigned_be(s) == s[0] * p + unsigned_be(s.skip(1)),
                s[0] <= 127,
                p >= 0,
                unsigned_be(s.skip(1)) < p,
        ;
    }
}

/// A minimal two's-complement string of two or more octets holds a value
/// too wide for one octet fewer.
pub proof fn lemma_min_signed_tight(s: Seq<u8>)
    requires
        min_signed(s),
        s.len() >= 2,
    ensures
        2 * signed_be(s) < -pow256((s.len() - 1) as nat) || 2 * signed_be(s) >= pow256(
            (s.len() - 1) as nat,
        ),
{
    lemma_unsigned_be_head(s);
    lemma_unsigned_be_head(s.skip(1));
    lemma_unsigned_be_bound(s.skip(1));
    lemma_unsigned_be_bound(s.skip(1).skip(1));
    let p = pow256((s.len() - 1) as nat);
    let q = pow256((s.len() - 2) as nat);
    assert(p == 256 * q);
    assert(pow256(s.len()) == 256 * p);
    lemma_pow256_pos((s.len() - 2) as nat);
    let u1 = unsigned_be(s.skip(1));
    let s1 = s.skip(1)[0];
    assert(s1 == s[1]);
    assert(u1 == s1 * q + unsigned_be(s.skip(1).skip(1)));
    if s[0] == 0x00 {
        assert(s[1] >= 0x80);
        assert(u1 >= 128 * q) by (nonlinear_arith)
            requires
                u1 == s1 * q + unsigned_be(s.skip(1).skip(1)),
                s1 >= 128,
                q >= 0,
                unsigned_be(s.skip(1).skip(1)) >= 0,
        ;
        assert(unsigned_be(s) == 0 * p + u1);
        assert(0 * p == 0) by (nonlinear_arith);
        assert(2 * signed_be(s) >= p);
    } else if s[0] < 0x80 {
        assert(unsigned_be(s) >= 1 * p) by (nonlinear_arith)
            requires
                unsigned_be(s) == s[0] * p + u1,
                s[0] >= 1,
                p >= 0,
                u1 >= 0,
        ;
        assert(2 * signed_be(s) >= p);
    } else if s[0] == 0xFF {
        assert(s[1] < 0x80);
        assert(u1 < 128 * q) by (nonlinear_arith)
            requires
                u1 == s1 * q + unsigned_be(s.skip(1).skip(1)),
                s1 <= 127,
                q >= 0,
                unsigned_be(s.skip(1).skip(1)) < q,
        ;
        assert(unsigned_be(s) == 255 * p + u1);
        assert(2 * signed_be(s) == 2 * (255 * p + u1) - 2 * (256 * p));
        assert(2 * signed_be(s) < -p);
    } else {
        assert(0x80 <= s[0] <= 0xFE);
        assert(unsigned_be(s) <= 254 * p + u1) by (nonlinear_arith)
            requires
                unsigned_be(s) == s[0] * p + u1,
                s[0] <= 254,
                p >= 0,
        ;
        assert(u1 < p);
        assert(2 * signed_be(s) < -p);
    }
}

/// Two byte strings of equal length with the same unsigned value are the
/// same string.
pub proof fn lemma_unsigned_be_inj(a: Seq<u8>, b: Seq<u8>)
    requires
        a.len() == b.len(),
        unsigned_be(a) == unsigned_be(b),
    ensures
        a == b,
    decreases a.len(),
{
    if a.len() == 0 {
        assert(a =~= b);
    } else {
        let la = a.last() as nat;
        let lb = b.last() as nat;
        let ua = unsigned_be(a.drop_last());
        let ub = unsigned_be(b.drop_last());
        assert(la == lb && ua == ub) by (nonlinear_arith)
            requires
                ua * 256 + la == ub * 256 + lb,
                0 <= la < 256,
                0 <= lb < 256,
        ;
        lemma_unsigned_be_inj(a.drop_last(), b.drop_last());
        assert(a.last() == b.last());
        assert forall|i: int| 0 <= i < a.len() implies a[i] == b[i] by {
            if i < a.len() - 1 {
                assert(a[i] == a.drop_last()[i]);
                assert(b[i] == b.drop_last()[i]);
            } else {
                assert(a[i] == a.last());
                assert(b[i] == b.last());
            }
        }
        assert(a =~= b);
    }
}

/// There is only one minimal two's-complement encoding of each value: what
/// a decoder accepted is exactly what the encoder will emit again.
pub proof fn lemma_min_signed_unique(a: Seq<u8>, b: Seq<u8>)
    requires
        min_signed(a),
        min_signed(b),
        signed_be(a) == signed_be(b),
    ensures
        a == b,
{
    if a.len() < b.len() {
        lemma_min_signed_shorter(a, b);
    } else if b.len() < a.len() {
        lemma_min_signed_shorter(b, a);
    } else {
        lemma_unsigned_be_bound(a);
        lemma_unsigned_be_bound(b);
        if a[0] >= 0x80 && b[0] < 0x80 {
            assert(signed_be(a) < 0 <= signed_be(b));
        } else if a[0] < 0x80 && b[0] >= 0x80 {
            assert(signed_be(b) < 0 <= signed_be(a));
        } else {
            assert(unsigned_be(a) == unsigned_be(b));
            lemma_unsigned_be_inj(a, b);
        }
    }
}

proof fn lemma_min_signed_shorter(a: Seq<u8>, b: Seq<u8>)
    requires
        min_signed(a),
        min_signed(b),
        a.len() < b.len(),
    ensures
        signed_be(a) != signed_be(b),
{
    lemma_signed_be_range(a);
    lemma_min_signed_tight(b);
    lemma_pow256_mono(a.len(), (b.len() - 1) as nat);
}

} // verus!
