use vstd::prelude::*;
use crate::asn1::{ASN1Node, Content};
use crate::asn1_types::identifier::{universal_id, ASN1Identifier};
use crate::ber::{BERImplicitlyTaggable, BERParseable, BERSerializable};
use crate::der::{DERImplicitlyTaggable, DERParseable, DERSerializable, Serializer};
use crate::encoding::encoded_tlv;
use crate::errors::{err, ASN1Error, ErrorCode};
use crate::trusted::{bytes_get, bytes_len, bytes_view};

verus! {

/// An ASN.1 REAL in binary (base two) form: zero, an infinity, or a sign
/// with a binary exponent and mantissa. The floating-point view of such a
/// value is outside this crate's scope.
#[derive(Debug, Clone, Copy, PartialEq, Eq, Hash, Structural)]
pub enum ASN1Real {
    Zero,
    PositiveInfinity,
    NegativeInfinity,
    Binary { negative: bool, exponent: i64, mantissa: u64 },
}

/// The exponent octets read big-endian, folding each octet onto the
/// accumulator.
pub open spec fn spec_exp_acc(s: Seq<u8>, i: int, acc: i64) -> i64
    decreases s.len() - i,
{
    if i < 0 || i >= s.len() {
        acc
    } else {
        spec_exp_acc(s, i + 1, (acc << 8) | (s[i] as i64))
    }
}

/// The mantissa octets read big-endian onto a 64-bit accumulator; high
/// octets beyond eight fall off.
pub open spec fn spec_mant_acc(s: Seq<u8>, i: int, acc: u64) -> u64
    decreases s.len() - i,
{
    if i < 0 || i >= s.len() {
        acc
    } else {
        spec_mant_acc(s, i + 1, (acc << 8) | (s[i] as u64))
    }
}

/// The sign-extension mask applied when the leading exponent octet has its
/// high bit set.
pub open spec fn spec_exp_extend(e: i64, exp_len: int, first: u8) -> i64 {
    if first & 0x80 != 0 {
        e | ((!0i64) << (exp_len * 8))
    } else {
        e
    }
}

/// What decoding a node as a REAL against `identifier` yields: empty
/// content is zero, `0x40`/`0x41` are the infinities, and a leading octet
/// with its high bit set opens the binary form (sign bit, exponent-length
/// field, exponent octets, mantissa octets). The decimal form is not in
/// scope and is rejected.
pub open spec fn spec_real_from_der(
    node: ASN1Node,
    identifier: ASN1Identifier,
    r: Result<ASN1Real, ASN1Error>,
) -> bool {
    match r {
        Ok(v) => node.identifier == identifier && (node.content matches Content::Primitive(b) && {
            let c = bytes_view(b);
            if c.len() == 0 {
                v == ASN1Real::Zero
            } else if c[0] == 0x40 {
                v == ASN1Real::PositiveInfinity
            } else if c[0] == 0x41 {
                v == ASN1Real::NegativeInfinity
            } else {
                let exp_len = (c[0] & 0x03) as int + 1;
                &&& c[0] & 0x80 != 0
                &&& c.len() >= 1 + exp_len
                &&& v == (ASN1Real::Binary {
                    negative: c[0] & 0x40 != 0,
                    exponent: spec_exp_extend(
                        spec_exp_acc(c.subrange(1, 1 + exp_len), 0, 0),
                        exp_len,
                        c[1],
                    ),
                    mantissa: spec_mant_acc(c.skip(1 + exp_len), 0, 0),
                })
            }
        }),
        Err(e) => {
            ||| (node.identifier != identifier && e.spec_code() == ErrorCode::UnexpectedFieldType)
            ||| (node.identifier == identifier && node.spec_is_constructed() && e.spec_code()
                == ErrorCode::UnexpectedFieldType)
            ||| (node.identifier == identifier && (node.content matches Content::Primitive(b)
                && e.spec_code() == ErrorCode::InvalidASN1Object && {
                let c = bytes_view(b);
                &&& c.len() >= 1
                &&& c[0] != 0x40
                &&& c[0] != 0x41
                &&& (c[0] & 0x80 == 0 || c.len() < 1 + (c[0] & 0x03) as int + 1)
            }))
        },
    }
}

impl DERParseable for ASN1Real {
    fn from_der_node(node: ASN1Node) -> (r: Result<Self, ASN1Error>)
        ensures
            spec_real_from_der(node, universal_id(0x09), r),
    {
        Self::from_der_node_with_identifier(node, ASN1Real::default_identifier())
    }
}

/// The octets of the fixed eight-octet big-endian form of `m`.
pub open spec fn spec_fixed_be8(m: nat, k: nat) -> Seq<u8>
    decreases k,
{
    if k == 0 {
        Seq::empty()
    } else {
        spec_fixed_be8(m / 256, (k - 1) as nat) + seq![(m % 256) as u8]
    }
}

/// Those octets with trailing zero octets removed, the first kept.
pub open spec fn spec_trim_trailing(s: Seq<u8>) -> Seq<u8>
    decreases s.len(),
{
    if s.len() <= 1 {
        s
    } else if s.last() == 0 {
        spec_trim_trailing(s.drop_last())
    } else {
        s
    }
}

/// The exponent octets a binary REAL serializes to: one octet when the
/// exponent fits a signed octet, two otherwise.
pub open spec fn spec_exp_bytes(e: i64) -> Seq<u8> {
    if -128 <= e <= 127 {
        seq![(e & 0xFF) as u8]
    } else {
        seq![((e >> 8) & 0xFF) as u8, (e & 0xFF) as u8]
    }
}

/// The content octets a REAL serializes to.
pub open spec fn spec_real_content(v: ASN1Real) -> Seq<u8> {
    match v {
        ASN1Real::Zero => Seq::empty(),
        ASN1Real::PositiveInfinity => seq![0x40u8],
        ASN1Real::NegativeInfinity => seq![0x41u8],
        ASN1Real::Binary { negative, exponent, mantissa } => seq![
            if negative {
                0xC0u8
            } else {
                0x80u8
            },
        ] + spec_exp_bytes(exponent) + spec_trim_trailing(spec_fixed_be8(mantissa as nat, 8)),
    }
}

impl DERSerializable for ASN1Real {
    fn serialize(&self, serializer: &mut Serializer) -> (r: Result<(), ASN1Error>)
        ensures
            r matches Ok(_),
            final(serializer).spec_buffer() == old(serializer).spec_buffer() + encoded_tlv(
                universal_id(0x09),
                false,
                spec_real_content(*self),
            ),
    {
        let mut content: Vec<u8> = Vec::new();
        match self {
            ASN1Real::Zero => {},
            ASN1Real::PositiveInfinity => {
                content.push(0x40);
            },
            ASN1Real::NegativeInfinity => {
                content.push(0x41);
            },
            ASN1Real::Binary { negative, exponent, mantissa } => {
                let e: i64 = *exponent;
                let m: u64 = *mantissa;
                if *negative {
                    content.push(0xC0);
                } else {
                    content.push(0x80);
                }

                if -128 <= e && e <= 127 {
                    content.push((e & 0xFF) as u8);
                } else {
                    content.push(((e >> 8) & 0xFF) as u8);
                    content.push((e & 0xFF) as u8);
                }

                let mut mant: Vec<u8> = Vec::new();
                let mut tmp: u64 = m;
                let mut k: usize = 0;
                while k < 8
                    invariant
                        k <= 8,
                        spec_fixed_be8(m as nat, 8) == spec_fixed_be8(tmp as nat, (8 - k) as nat)
                            + mant@,
                    decreases 8 - k,
                {
                    let ghost pre = mant@;
                    let digit: u8 = (tmp % 256) as u8;
                    mant.insert(0, digit);
                    proof {
                        assert(mant@ =~= seq![digit] + pre);
                        assert(spec_fixed_be8(tmp as nat, (8 - k) as nat) =~= spec_fixed_be8(
                            (tmp / 256) as nat,
                            (8 - k - 1) as nat,
                        ) + seq![digit]);
                        assert(spec_fixed_be8((tmp / 256) as nat, (8 - k - 1) as nat) + mant@
                            =~= spec_fixed_be8(tmp as nat, (8 - k) as nat) + pre);
                    }
                    tmp = tmp / 256;
                    k += 1;
                }
                proof {
                    assert(spec_fixed_be8(tmp as nat, 0) =~= Seq::<u8>::empty());
                    assert(mant@ =~= spec_fixed_be8(m as nat, 8));
                }

                while mant.len() > 1 && mant[mant.len() - 1] == 0
                    invariant
                        mant@.len() >= 1,
                        spec_trim_trailing(mant@) == spec_trim_trailing(spec_fixed_be8(m as nat, 8)),
                    decreases mant@.len(),
                {
                    let ghost pre = mant@;
                    let _ = mant.pop();
                    proof {
                        assert(mant@ =~= pre.drop_last());
                    }
                }
                proof {
                    assert(spec_trim_trailing(mant@) == mant@);
                }
                content.append(&mut mant);
            },
        }
        proof {
            assert(content@ =~= spec_real_content(*self));
        }
        serializer.append_node(ASN1Real::default_identifier(), false, content.as_slice())
    }
}

impl DERImplicitlyTaggable for ASN1Real {
    open spec fn spec_default_identifier() -> ASN1Identifier {
        universal_id(0x09)
    }

    fn default_identifier() -> (r: ASN1Identifier)
        ensures
            r == universal_id(0x09),
    {
        proof {
            assert(<ASN1Real as DERImplicitlyTaggable>::spec_default_identifier()
                == universal_id(0x09));
        }
        ASN1Identifier::real_type()
    }

    fn from_der_node_with_identifier(node: ASN1Node, identifier: ASN1Identifier) -> (r: Result<
        Self,
        ASN1Error,
    >)
        ensures
            spec_real_from_der(node, identifier, r),
    {
        if node.identifier != identifier {
            return Err(err(ErrorCode::UnexpectedFieldType, "Unexpected field type"));
        }
        match node.content {
            Content::Primitive(bytes) => {
                let n = bytes_len(&bytes);
                if n == 0 {
                    return Ok(ASN1Real::Zero);
                }
                let first = bytes_get(&bytes, 0);
                if first == 0x40 {
                    return Ok(ASN1Real::PositiveInfinity);
                }
                if first == 0x41 {
                    return Ok(ASN1Real::NegativeInfinity);
                }
                if (first & 0x80) != 0 {
                    proof {
                        assert(first & 0x03 <= 3) by (bit_vector);
                    }
                    let exp_len = ((first & 0x03) + 1) as usize;
                    if n < 1 + exp_len {
                        return Err(err(ErrorCode::InvalidASN1Object, "REAL encoding too short"));
                    }

                    let ghost expv = bytes_view(bytes).subrange(1, 1 + exp_len as int);
                    let mut exponent: i64 = 0;
                    let mut i: usize = 0;
                    while i < exp_len
                        invariant
                            i <= exp_len,
                            exp_len <= 4,
                            1 + exp_len <= bytes_view(bytes).len() <= usize::MAX,
                            expv == bytes_view(bytes).subrange(1, 1 + exp_len as int),
                            0 <= exponent < crate::encoding::pow256(i as nat),
                            spec_exp_acc(expv, 0, 0) == spec_exp_acc(expv, i as int, exponent),
                        decreases exp_len - i,
                    {
                        let b = bytes_get(&bytes, 1 + i);
                        proof {
                            assert(crate::encoding::pow256(0) == 1);
                            assert(crate::encoding::pow256(1) == 0x100);
                            assert(crate::encoding::pow256(2) == 0x10000);
                            assert(crate::encoding::pow256(3) == 0x1000000);
                            assert(crate::encoding::pow256(4) == 0x100000000);
                            assert(expv[i as int] == bytes_view(bytes)[1 + i]);
                            assert((exponent << 8) | (b as i64) == exponent * 256 + b && exponent
                                << 8 == exponent * 256) by (bit_vector)
                                requires
                                    0 <= exponent < 0x1000000,
                            ;
                        }
                        exponent = (exponent << 8) | (b as i64);
                        i += 1;
                    }
                    proof {
                        assert(spec_exp_acc(expv, exp_len as int, exponent) == exponent);
                    }

                    let first_exp = bytes_get(&bytes, 1);
                    proof {
                        assert(expv[0] == bytes_view(bytes)[1]);
                    }
                    if (first_exp & 0x80) != 0 {
                        let shift: u64 = (exp_len as u64) * 8;
                        exponent = exponent | ((!0i64) << shift);
                    }

                    let ghost mantv = bytes_view(bytes).skip(1 + exp_len as int);
                    let mut mantissa: u64 = 0;
                    let mut j: usize = 1 + exp_len;
                    while j < n
                        invariant
                            1 + exp_len <= j <= n,
                            n == bytes_view(bytes).len(),
                            mantv == bytes_view(bytes).skip(1 + exp_len as int),
                            spec_mant_acc(mantv, 0, 0) == spec_mant_acc(
                                mantv,
                                j - (1 + exp_len) as int,
                                mantissa,
                            ),
                        decreases n - j,
                    {
                        let b = bytes_get(&bytes, j);
                        proof {
                            assert(mantv[j - (1 + exp_len) as int] == bytes_view(bytes)[j as int]);
                        }
                        mantissa = (mantissa << 8) | (b as u64);
                        j += 1;
                    }
                    proof {
                        assert(spec_mant_acc(mantv, mantv.len() as int, mantissa) == mantissa);
                    }

                    return Ok(
                        ASN1Real::Binary {
                            negative: (first & 0x40) != 0,
                            exponent,
                            mantissa,
                        },
                    );
                }

                Err(err(ErrorCode::InvalidASN1Object, "Decimal REAL encoding not supported"))
            },
            Content::Constructed(_) => Err(
                err(ErrorCode::UnexpectedFieldType, "REAL must be primitive"),
            ),
        }
    }
}

impl BERParseable for ASN1Real {
    fn from_ber_node(node: ASN1Node) -> (r: Result<Self, ASN1Error>)
        ensures
            spec_real_from_der(node, universal_id(0x09), r),
    {
        Self::from_ber_node_with_identifier(node, ASN1Real::default_identifier())
    }
}

impl BERSerializable for ASN1Real {

}

impl BERImplicitlyTaggable for ASN1Real {
    fn from_ber_node_with_identifier(node: ASN1Node, identifier: ASN1Identifier) -> (r: Result<
        Self,
        ASN1Error,
    >)
        ensures
            spec_real_from_der(node, identifier, r),
    {
        Self::from_der_node_with_identifier(node, identifier)
    }
}

} // verus!
