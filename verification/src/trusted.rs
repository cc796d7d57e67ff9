//! The crate's trusted boundary: declarations of the outside types the
//! library stores, and thin wrappers around the outside calls it makes.
//! Everything else in the crate is verified against the contracts here.

use vstd::prelude::*;
use bytes::{Bytes, BytesMut};
use num_bigint::BigInt;
use num_traits::ToPrimitive;
use std::sync::Arc;
use crate::encoding::{min_signed, signed_be};

verus! {

#[verifier::external_type_specification]
#[verifier::external_body]
pub struct ExBytes(Bytes);

#[verifier::external_type_specification]
#[verifier::external_body]
pub struct ExBytesMut(BytesMut);

#[verifier::external_type_specification]
#[verifier::external_body]
pub struct ExBigInt(BigInt);

/// The octets a `bytes::Bytes` buffer holds.
pub uninterp spec fn bytes_view(b: Bytes) -> Seq<u8>;

/// The octets a `bytes::BytesMut` buffer holds.
pub uninterp spec fn bytesmut_view(b: BytesMut) -> Seq<u8>;

/// The mathematical value of a `num_bigint::BigInt`.
pub uninterp spec fn bigint_value(b: BigInt) -> int;

/// What `String::from_utf8` decodes a byte string to: the character string
/// when the bytes are valid UTF-8, `None` otherwise.
pub uninterp spec fn utf8_decode(s: Seq<u8>) -> Option<Seq<char>>;

/// Relies on `Bytes::len`.
#[verifier::external_body]
pub(crate) fn bytes_len(b: &Bytes) -> (n: usize)
    ensures
        n == bytes_view(*b).len(),
{
    b.len()
}

/// Relies on `Bytes`'s deref to the underlying octet slice.
#[verifier::external_body]
pub(crate) fn bytes_get(b: &Bytes, i: usize) -> (x: u8)
    requires
        i < bytes_view(*b).len(),
    ensures
        x == bytes_view(*b)[i as int],
{
    b.as_ref()[i]
}

/// Relies on `Bytes::split_to`: splits off and returns the first `at`
/// octets, leaving the rest. Panics when `at` is out of range, so that is
/// excluded here.
#[verifier::external_body]
pub(crate) fn bytes_split_to(b: &mut Bytes, at: usize) -> (r: Bytes)
    requires
        at <= bytes_view(*old(b)).len(),
    ensures
        bytes_view(r) == bytes_view(*old(b)).take(at as int),
        bytes_view(*final(b)) == bytes_view(*old(b)).skip(at as int),
{
    b.split_to(at)
}

/// Relies on `Bytes::slice`: a shared view of the given sub-range. Panics
/// when the range is out of bounds, so that is excluded here.
#[verifier::external_body]
pub(crate) fn bytes_slice(b: &Bytes, start: usize, end: usize) -> (r: Bytes)
    requires
        start <= end <= bytes_view(*b).len(),
    ensures
        bytes_view(r) == bytes_view(*b).subrange(start as int, end as int),
{
    b.slice(start..end)
}

/// Relies on `Bytes::clone`: a shared handle over the same octets.
pub assume_specification[ <Bytes as Clone>::clone ](b: &Bytes) -> (r: Bytes)
    ensures
        bytes_view(r) == bytes_view(*b),
;

/// Relies on `Bytes::from(Vec<u8>)`: takes ownership of the vector's octets.
#[verifier::external_body]
pub(crate) fn bytes_from_vec(v: Vec<u8>) -> (r: Bytes)
    ensures
        bytes_view(r) == v@,
{
    Bytes::from(v)
}

/// Relies on `Bytes::copy_from_slice`.
#[verifier::external_body]
pub(crate) fn bytes_copy_from_slice(s: &[u8]) -> (r: Bytes)
    ensures
        bytes_view(r) == s@,
{
    Bytes::copy_from_slice(s)
}

/// Relies on `Bytes::new`: an empty buffer.
#[verifier::external_body]
pub(crate) fn bytes_new() -> (r: Bytes)
    ensures
        bytes_view(r) == Seq::<u8>::empty(),
{
    Bytes::new()
}

/// Relies on `Bytes`'s deref to the underlying octet slice.
#[verifier::external_body]
pub(crate) fn bytes_as_slice(b: &Bytes) -> (r: &[u8])
    ensures
        r@ == bytes_view(*b),
{
    b.as_ref()
}

/// Relies on `Bytes`'s deref to the underlying octet slice, copying it out.
#[verifier::external_body]
pub(crate) fn bytes_to_vec(b: &Bytes) -> (r: Vec<u8>)
    ensures
        r@ == bytes_view(*b),
{
    b.as_ref().to_vec()
}

/// Relies on `BytesMut::with_capacity`: a buffer that starts empty.
#[verifier::external_body]
pub(crate) fn bytesmut_new() -> (r: BytesMut)
    ensures
        bytesmut_view(r) == Seq::<u8>::empty(),
{
    BytesMut::with_capacity(1024)
}

/// Relies on `BytesMut::extend_from_slice`: appends the octets.
#[verifier::external_body]
pub(crate) fn bytesmut_extend(b: &mut BytesMut, s: &[u8])
    ensures
        bytesmut_view(*final(b)) == bytesmut_view(*old(b)) + s@,
{
    b.extend_from_slice(s)
}

/// Relies on `BytesMut::clone`.
pub assume_specification[ <BytesMut as Clone>::clone ](b: &BytesMut) -> (r: BytesMut)
    ensures
        bytesmut_view(r) == bytesmut_view(*b),
;

/// Relies on `BigInt::clone`.
pub assume_specification[ <BigInt as Clone>::clone ](b: &BigInt) -> (r: BigInt)
    ensures
        bigint_value(r) == bigint_value(*b),
;

/// Relies on `BytesMut::freeze`: the same octets as an immutable buffer.
#[verifier::external_body]
pub(crate) fn bytesmut_freeze(b: BytesMut) -> (r: Bytes)
    ensures
        bytes_view(r) == bytesmut_view(b),
{
    b.freeze()
}

/// Relies on `Arc::as_ref` (std), which borrows the shared value.
#[verifier::external_body]
pub(crate) fn arc_vec_ref<T>(a: &Arc<Vec<T>>) -> (r: &Vec<T>)
    ensures
        r@ == a@,
{
    a.as_ref()
}

/// Relies on `Arc::clone` (std), which returns a handle to the same value.
#[verifier::external_body]
pub(crate) fn arc_vec_clone<T>(a: &Arc<Vec<T>>) -> (r: Arc<Vec<T>>)
    ensures
        r@ == a@,
{
    a.clone()
}

/// Relies on `BigInt::from_signed_bytes_be`: reads a two's-complement
/// big-endian value (the empty string reads as zero).
#[verifier::external_body]
pub(crate) fn bigint_from_signed_bytes_be(s: &[u8]) -> (r: BigInt)
    ensures
        bigint_value(r) == signed_be(s@),
{
    BigInt::from_signed_bytes_be(s)
}

/// Relies on `BigInt::to_signed_bytes_be`: writes the value in
/// two's-complement big-endian form without redundant leading octets
/// (zero becomes the single octet `0x00`).
#[verifier::external_body]
pub(crate) fn bigint_to_signed_bytes_be(b: &BigInt) -> (r: Vec<u8>)
    ensures
        signed_be(r@) == bigint_value(*b),
        min_signed(r@),
{
    b.to_signed_bytes_be()
}

/// Relies on `BigInt`'s equality, which compares the numeric values.
pub assume_specification[ <BigInt as PartialEq>::eq ](a: &BigInt, b: &BigInt) -> (r: bool)
    ensures
        r == (bigint_value(*a) == bigint_value(*b)),
;

/// Relies on `BigInt::from(i128)`.
#[verifier::external_body]
pub(crate) fn bigint_from_i128(v: i128) -> (r: BigInt)
    ensures
        bigint_value(r) == v,
{
    BigInt::from(v)
}

/// Relies on `BigInt::from(u128)`.
#[verifier::external_body]
pub(crate) fn bigint_from_u128(v: u128) -> (r: BigInt)
    ensures
        bigint_value(r) == v,
{
    BigInt::from(v)
}

/// Relies on `num_traits::ToPrimitive::to_i128` for `BigInt`: the value
/// exactly when it fits.
#[verifier::external_body]
pub(crate) fn bigint_to_i128(b: &BigInt) -> (r: Option<i128>)
    ensures
        match r {
            Some(v) => v == bigint_value(*b),
            None => bigint_value(*b) < i128::MIN || bigint_value(*b) > i128::MAX,
        },
{
    b.to_i128()
}

/// Relies on `num_traits::ToPrimitive::to_u128` for `BigInt`: the value
/// exactly when it fits.
#[verifier::external_body]
pub(crate) fn bigint_to_u128(b: &BigInt) -> (r: Option<u128>)
    ensures
        match r {
            Some(v) => v == bigint_value(*b),
            None => bigint_value(*b) < 0 || bigint_value(*b) > u128::MAX,
        },
{
    b.to_u128()
}

/// Relies on `String::from_utf8` (std): decodes exactly the valid UTF-8
/// byte strings; UTF-8 extends ASCII, so an all-ASCII byte string decodes
/// to the same characters, and an all-ASCII character string comes only
/// from its own octets.
#[verifier::external_body]
pub(crate) fn string_from_utf8(v: Vec<u8>) -> (r: Option<String>)
    ensures
        match r {
            Some(s) => utf8_decode(v@) == Some(s@),
            None => utf8_decode(v@) is None,
        },
        (forall|i: int| 0 <= i < v@.len() ==> v@[i] < 128) ==> match r {
            Some(s) => s@.len() == v@.len() && forall|i: int|
                0 <= i < v@.len() ==> (#[trigger] s@[i]) as u32 == v@[i] as u32,
            None => false,
        },
        match r {
            Some(s) => (forall|i: int| 0 <= i < s@.len() ==> (s@[i] as u32) < 128) ==> (v@.len()
                == s@.len() && forall|i: int|
                0 <= i < v@.len() ==> (#[trigger] v@[i]) as u32 == s@[i] as u32),
            None => true,
        },
{
    String::from_utf8(v).ok()
}

/// Relies on `String::from_utf8_lossy` (std): on valid UTF-8 input it
/// returns exactly the decoded string.
#[verifier::external_body]
pub(crate) fn string_from_utf8_lossy(v: Vec<u8>) -> (r: String)
    ensures
        utf8_decode(v@) matches Some(cs) ==> r@ == cs,
{
    String::from_utf8_lossy(&v).into_owned()
}

/// Relies on `str::as_bytes` (std): the octets of a string are the unique
/// UTF-8 encoding of its characters, and an all-ASCII string's octets are
/// its characters' codes.
#[verifier::external_body]
pub(crate) fn string_bytes(s: &String) -> (r: Vec<u8>)
    ensures
        utf8_decode(r@) == Some(s@),
        (forall|i: int| 0 <= i < s@.len() ==> (s@[i] as u32) < 128) ==> (r@.len() == s@.len()
            && forall|i: int| 0 <= i < r@.len() ==> (#[trigger] r@[i]) as u32 == s@[i] as u32),
        (forall|i: int| 0 <= i < r@.len() ==> r@[i] < 128) ==> (s@.len() == r@.len() && forall|
            i: int,
        | 0 <= i < s@.len() ==> (#[trigger] s@[i]) as u32 == r@[i] as u32),
        forall|b: Seq<u8>| utf8_decode(b) == Some(s@) ==> b == r@,
{
    s.as_bytes().to_vec()
}

} // verus!
