//! Numbers and bytes as they go over the wire.

use std::num::NonZeroU128;

use base64::prelude::BASE64_STANDARD;
use base64::Engine;
use vstd::prelude::*;
use vstd::utf8::{decode_utf8, valid_utf8};

use crate::decimal::bytes_value;

verus! {

/// The four bytes of a number, the least first.
pub open spec fn le_bytes(n: u32) -> Seq<u8> {
    seq![
        (n as int % 0x100) as u8,
        (n as int / 0x100 % 0x100) as u8,
        (n as int / 0x1_0000 % 0x100) as u8,
        (n as int / 0x100_0000) as u8,
    ]
}

/// `borsh::to_vec` on a `u32`: borsh writes an integer as its bytes, the
/// least first, and a `Vec` takes every write.
#[verifier::external_body]
pub(crate) fn borsh_u32(n: u32) -> (r: Vec<u8>)
    ensures
        r@ == le_bytes(n),
{
    borsh::to_vec(&n).unwrap()
}

/// The number that four bytes stand for; none where there are not four.
pub open spec fn read_u32(bytes: Seq<u8>) -> Option<u32> {
    if bytes.len() == 4 {
        Some(bytes_value(bytes) as u32)
    } else {
        None
    }
}

/// `borsh::from_slice` on a `u32`: the number that the bytes stand for, the
/// least first; none where there are not exactly four.
#[verifier::external_body]
pub(crate) fn borsh_read_u32(bytes: &Vec<u8>) -> (r: Option<u32>)
    ensures
        r == read_u32(bytes@),
{
    borsh::from_slice::<u32>(bytes).ok()
}

/// An optional number that is not zero: a zero byte where there is none, or a
/// one and the sixteen bytes of the number.
pub open spec fn read_bound(bytes: Seq<u8>) -> Option<Option<u128>> {
    if bytes.len() == 1 && bytes[0] == 0 {
        Some(None)
    } else if bytes.len() == 17 && bytes[0] == 1 && bytes_value(bytes.skip(1)) != 0 {
        Some(Some(bytes_value(bytes.skip(1)) as u128))
    } else {
        None
    }
}

/// A pool and an optional number that is not zero, one behind the other.
pub open spec fn read_pool_and_bound(bytes: Seq<u8>) -> Option<(u32, Option<u128>)> {
    if bytes.len() < 4 {
        None
    } else {
        match read_bound(bytes.skip(4)) {
            Some(bound) => Some((bytes_value(bytes.take(4)) as u32, bound)),
            None => None,
        }
    }
}

/// `borsh::from_slice` on a `u32` and an optional `NonZeroU128`: borsh reads
/// them one behind the other, an option by its first byte, and refuses a zero
/// and bytes that are left over.
#[verifier::external_body]
pub(crate) fn borsh_read_pool_and_bound(bytes: &Vec<u8>) -> (r: Option<(u32, Option<u128>)>)
    ensures
        r == read_pool_and_bound(bytes@),
{
    let (pool, bound) = borsh::from_slice::<(u32, Option<NonZeroU128>)>(bytes).ok()?;
    Some((pool, bound.map(NonZeroU128::get)))
}

/// An optional pair of numbers: a zero byte where there is none, or a one and
/// the sixteen bytes of each.
pub open spec fn read_pair(bytes: Seq<u8>) -> Option<Option<(u128, u128)>> {
    if bytes.len() == 1 && bytes[0] == 0 {
        Some(None)
    } else if bytes.len() == 33 && bytes[0] == 1 {
        Some(Some((bytes_value(bytes.subrange(1, 17)) as u128, bytes_value(bytes.subrange(17, 33)) as u128)))
    } else {
        None
    }
}

/// A pool, an optional number that is not zero, and an optional pair of
/// numbers, one behind the other.
pub open spec fn read_pool_bound_and_pair(bytes: Seq<u8>) -> Option<(u32, Option<u128>, Option<(u128, u128)>)> {
    let end: int = if bytes.len() > 4 && bytes[4] == 0 {
        5
    } else {
        21
    };
    if bytes.len() < end {
        None
    } else {
        match (read_pool_and_bound(bytes.take(end)), read_pair(bytes.skip(end))) {
            (Some((pool, bound)), Some(pair)) => Some((pool, bound, pair)),
            _ => None,
        }
    }
}

/// `borsh::from_slice` on a `u32`, an optional `NonZeroU128` and an optional
/// pair of `u128`: read one behind the other, as above.
#[verifier::external_body]
pub(crate) fn borsh_read_pool_bound_and_pair(bytes: &Vec<u8>) -> (r: Option<
    (u32, Option<u128>, Option<(u128, u128)>),
>)
    ensures
        r == read_pool_bound_and_pair(bytes@),
{
    let (pool, bound, pair) =
        borsh::from_slice::<(u32, Option<NonZeroU128>, Option<(u128, u128)>)>(bytes).ok()?;
    Some((pool, bound.map(NonZeroU128::get), pair))
}

/// A byte at the front, and what is behind it.
pub open spec fn next_byte(bytes: Seq<u8>) -> Option<(u8, Seq<u8>)> {
    if bytes.len() == 0 {
        None
    } else {
        Some((bytes[0], bytes.skip(1)))
    }
}

/// `u8::deserialize` of borsh: takes one byte off the front, and fails where
/// there is none.
#[verifier::external_body]
pub(crate) fn borsh_byte(bytes: &[u8]) -> (r: Option<(u8, &[u8])>)
    ensures
        match r {
            Some((byte, rest)) => next_byte(bytes@) == Some((byte, rest@)),
            None => next_byte(bytes@) is None,
        },
{
    let mut rest: &[u8] = bytes;
    let byte: u8 = borsh::BorshDeserialize::deserialize(&mut rest).ok()?;
    Some((byte, rest))
}

/// A flag at the front, a byte that is one or zero, and what is behind it.
pub open spec fn next_flag(bytes: Seq<u8>) -> Option<(bool, Seq<u8>)> {
    if bytes.len() == 0 || bytes[0] > 1 {
        None
    } else {
        Some((bytes[0] == 1, bytes.skip(1)))
    }
}

/// `bool::deserialize` of borsh: takes one byte off the front, and fails where
/// there is none, or where it is neither zero nor one.
#[verifier::external_body]
pub(crate) fn borsh_flag(bytes: &[u8]) -> (r: Option<(bool, &[u8])>)
    ensures
        match r {
            Some((flag, rest)) => next_flag(bytes@) == Some((flag, rest@)),
            None => next_flag(bytes@) is None,
        },
{
    let mut rest: &[u8] = bytes;
    let flag: bool = borsh::BorshDeserialize::deserialize(&mut rest).ok()?;
    Some((flag, rest))
}

/// A number at the front, and what is behind it.
pub open spec fn next_number(bytes: Seq<u8>) -> Option<(u32, Seq<u8>)> {
    if bytes.len() < 4 {
        None
    } else {
        Some((bytes_value(bytes.take(4)) as u32, bytes.skip(4)))
    }
}

/// `u32::deserialize` of borsh: takes four bytes off the front, the least
/// first, and fails where there are fewer.
#[verifier::external_body]
pub(crate) fn borsh_number(bytes: &[u8]) -> (r: Option<(u32, &[u8])>)
    ensures
        match r {
            Some((number, rest)) => next_number(bytes@) == Some((number, rest@)),
            None => next_number(bytes@) is None,
        },
{
    let mut rest: &[u8] = bytes;
    let number: u32 = borsh::BorshDeserialize::deserialize(&mut rest).ok()?;
    Some((number, rest))
}

/// A text at the front, the number of its bytes before it, and what is behind
/// it.
pub open spec fn next_text(bytes: Seq<u8>) -> Option<(Seq<char>, Seq<u8>)> {
    match next_number(bytes) {
        Some((length, rest)) => if length <= rest.len() && valid_utf8(rest.take(length as int)) {
            Some((decode_utf8(rest.take(length as int)), rest.skip(length as int)))
        } else {
            None
        },
        None => None,
    }
}

/// `String::deserialize` of borsh: takes a number off the front and that many
/// bytes behind it, and fails where there are fewer, or where they are not
/// UTF-8.
#[verifier::external_body]
pub(crate) fn borsh_text(bytes: &[u8]) -> (r: Option<(String, &[u8])>)
    ensures
        match r {
            Some((text, rest)) => next_text(bytes@) == Some((text@, rest@)),
            None => next_text(bytes@) is None,
        },
{
    let mut rest: &[u8] = bytes;
    let text: String = borsh::BorshDeserialize::deserialize(&mut rest).ok()?;
    Some((text, rest))
}

/// What is written of a number reads back as the number.
pub proof fn number_reads_back(n: u32)
    ensures
        read_u32(le_bytes(n)) == Some(n),
{
    let bytes = le_bytes(n);
    let one = bytes.subrange(1, 4);
    let two = one.subrange(1, 3);
    let three = two.subrange(1, 2);
    assert(bytes_value(three.subrange(1, 1)) == 0);
    assert(bytes_value(three) == bytes[3]);
    assert(bytes_value(two) == bytes[2] + 256 * bytes[3]);
    assert(bytes_value(one) == bytes[1] + 256 * (bytes[2] + 256 * bytes[3]));
    assert(bytes_value(bytes) == bytes[0] + 256 * (bytes[1] + 256 * (bytes[2] + 256 * bytes[3])));
}

/// Bytes in base64: what the standard engine of the `base64` crate writes.
pub uninterp spec fn base64_text(bytes: Seq<u8>) -> Seq<char>;

/// `BASE64_STANDARD.encode` of the `base64` crate: a function of the bytes, by
/// name.
#[verifier::external_body]
pub(crate) fn base64_encode(bytes: &Vec<u8>) -> (r: String)
    ensures
        r@ == base64_text(bytes@),
{
    BASE64_STANDARD.encode(bytes)
}

/// The bytes that a text in base64 stands for, where it is one: what the
/// standard engine of the `base64` crate reads.
pub uninterp spec fn base64_bytes(text: Seq<char>) -> Option<Seq<u8>>;

/// `BASE64_STANDARD.decode` of the `base64` crate: a function of the text, by
/// name.
#[verifier::external_body]
pub(crate) fn base64_decode(text: &str) -> (r: Option<Vec<u8>>)
    ensures
        match r {
            Some(bytes) => base64_bytes(text@) == Some(bytes@),
            None => base64_bytes(text@) is None,
        },
{
    BASE64_STANDARD.decode(text).ok()
}

} // verus!
