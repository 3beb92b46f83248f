//! Wide unsigned integers for products of 128-bit balances.

use crypto_bigint::{CheckedAdd, CheckedMul, CheckedSub};
use vstd::prelude::*;

verus! {

/// Number of values that fit in 128 bits.
pub open spec fn u128_limit() -> nat {
    0x1_0000_0000_0000_0000_0000_0000_0000_0000nat
}

/// Number of values that fit in 256 bits.
pub open spec fn u256_limit() -> nat {
    0x1_0000_0000_0000_0000_0000_0000_0000_0000_0000_0000_0000_0000_0000_0000_0000_0000nat
}

/// Number of values that fit in 384 bits.
pub open spec fn u384_limit() -> nat {
    0x1_0000_0000_0000_0000_0000_0000_0000_0000_0000_0000_0000_0000_0000_0000_0000_0000_0000_0000_0000_0000_0000_0000_0000_0000nat
}

/// A 384-bit unsigned integer, least significant word first.
#[derive(Clone, Copy, Debug)]
pub struct U384 {
    pub words: [u64; 6],
}

impl View for U384 {
    type V = nat;

    /// The number that the words stand for.
    open spec fn view(&self) -> nat {
        (self.words[0] as nat) + (self.words[1] as nat) * 0x1_0000_0000_0000_0000 + (self.words[2] as nat)
            * 0x1_0000_0000_0000_0000_0000_0000_0000_0000nat + (self.words[3] as nat)
            * 0x1_0000_0000_0000_0000_0000_0000_0000_0000_0000_0000_0000_0000nat + (self.words[4] as nat)
            * 0x1_0000_0000_0000_0000_0000_0000_0000_0000_0000_0000_0000_0000_0000_0000_0000_0000nat + (
        self.words[5] as nat)
            * 0x1_0000_0000_0000_0000_0000_0000_0000_0000_0000_0000_0000_0000_0000_0000_0000_0000_0000_0000_0000_0000nat
    }
}

/// `a + b`, by `CheckedAdd::checked_add` of `crypto_bigint::U384`: `None`
/// exactly when the sum needs more than 384 bits.
#[verifier::external_body]
fn wide_add(a: U384, b: U384) -> (r: Option<U384>)
    ensures
        r is Some <==> a@ + b@ < u384_limit(),
        r matches Some(sum) ==> sum@ == a@ + b@,
{
    let a = crypto_bigint::U384::from_words(a.words);
    let b = crypto_bigint::U384::from_words(b.words);
    Option::from(a.checked_add(&b)).map(|v: crypto_bigint::U384| U384 { words: v.to_words() })
}

/// `a - b`, by `CheckedSub::checked_sub` of `crypto_bigint::U384`: `None`
/// exactly when `b` is the larger number.
#[verifier::external_body]
fn wide_sub(a: U384, b: U384) -> (r: Option<U384>)
    ensures
        r is Some <==> a@ >= b@,
        r matches Some(difference) ==> difference@ == a@ - b@,
{
    let a = crypto_bigint::U384::from_words(a.words);
    let b = crypto_bigint::U384::from_words(b.words);
    Option::from(a.checked_sub(&b)).map(|v: crypto_bigint::U384| U384 { words: v.to_words() })
}

/// `a * b`, by `CheckedMul::checked_mul` of `crypto_bigint::U384`: `None`
/// exactly when the product needs more than 384 bits.
#[verifier::external_body]
fn wide_mul(a: U384, b: U384) -> (r: Option<U384>)
    ensures
        r is Some <==> a@ * b@ < u384_limit(),
        r matches Some(product) ==> product@ == a@ * b@,
{
    let a = crypto_bigint::U384::from_words(a.words);
    let b = crypto_bigint::U384::from_words(b.words);
    Option::from(a.checked_mul(&b)).map(|v: crypto_bigint::U384| U384 { words: v.to_words() })
}

/// `a / b` rounded down, by `checked_div` of `crypto_bigint::U384`: `None`
/// exactly when `b` is zero.
#[verifier::external_body]
fn wide_div(a: U384, b: U384) -> (r: Option<U384>)
    ensures
        r is Some <==> b@ != 0,
        r matches Some(quotient) ==> quotient@ == a@ / b@,
{
    let a = crypto_bigint::U384::from_words(a.words);
    let b = crypto_bigint::U384::from_words(b.words);
    Option::from(a.checked_div(&b)).map(|v: crypto_bigint::U384| U384 { words: v.to_words() })
}

/// The width that a computation must stay within.
#[derive(Clone, Copy, Debug, PartialEq, Eq, Structural)]
pub enum Width {
    Bits256,
    Bits384,
}

/// Number of values that fit in the width.
pub open spec fn width_limit(width: Width) -> nat {
    match width {
        Width::Bits256 => u256_limit(),
        Width::Bits384 => u384_limit(),
    }
}

/// The number itself where it is a natural number within the width.
pub open spec fn checked(n: int, width: Width) -> Option<nat> {
    if 0 <= n && n < width_limit(width) {
        Some(n as nat)
    } else {
        None
    }
}

/// The quotient, rounded down, where the divisor is not zero.
pub open spec fn checked_quotient(a: nat, b: nat) -> Option<nat> {
    if b == 0 {
        None
    } else {
        Some(a / b)
    }
}

/// The number that an optional wide integer stands for.
pub open spec fn opt_value(n: Option<U384>) -> Option<nat> {
    match n {
        Some(n) => Some(n@),
        None => None,
    }
}

impl U384 {
    /// The wide form of a 128-bit number.
    pub fn from_u128(n: u128) -> (r: U384)
        ensures
            r@ == n,
    {
        let low: u64 = (n % 0x1_0000_0000_0000_0000) as u64;
        let high: u64 = (n / 0x1_0000_0000_0000_0000) as u64;
        U384 { words: [low, high, 0, 0, 0, 0] }
    }

    /// The 128-bit form, where the number fits.
    pub fn to_u128(self) -> (r: Option<u128>)
        ensures
            r is Some <==> self@ < u128_limit(),
            r matches Some(n) ==> n == self@,
    {
        if self.words[2] == 0 && self.words[3] == 0 && self.words[4] == 0 && self.words[5] == 0 {
            Some(self.words[0] as u128 + self.words[1] as u128 * 0x1_0000_0000_0000_0000)
        } else {
            None
        }
    }

    /// Whether the number fits in the width.
    pub fn fits(self, width: Width) -> (r: bool)
        ensures
            r == (self@ < width_limit(width)),
    {
        match width {
            Width::Bits256 => self.words[4] == 0 && self.words[5] == 0,
            Width::Bits384 => true,
        }
    }

    /// `self + other`, where it fits in the width.
    pub fn checked_add(self, other: U384, width: Width) -> (r: Option<U384>)
        ensures
            opt_value(r) == checked((self@ + other@) as int, width),
    {
        match wide_add(self, other) {
            Some(sum) => if sum.fits(width) {
                Some(sum)
            } else {
                None
            },
            None => None,
        }
    }

    /// `self - other`, where `other` is not the larger number.
    pub fn checked_sub(self, other: U384) -> (r: Option<U384>)
        ensures
            r is Some <==> self@ >= other@,
            r matches Some(difference) ==> difference@ == self@ - other@,
    {
        wide_sub(self, other)
    }

    /// `self * other`, where it fits in the width.
    pub fn checked_mul(self, other: U384, width: Width) -> (r: Option<U384>)
        ensures
            opt_value(r) == checked((self@ * other@) as int, width),
    {
        match wide_mul(self, other) {
            Some(product) => if product.fits(width) {
                Some(product)
            } else {
                None
            },
            None => None,
        }
    }

    /// `self / other` rounded down, where `other` is not zero.
    pub fn checked_div(self, other: U384) -> (r: Option<U384>)
        ensures
            opt_value(r) == checked_quotient(self@, other@),
    {
        wide_div(self, other)
    }

    /// Whether the two numbers differ by at most one.
    pub fn within_one(self, other: U384) -> (r: bool)
        ensures
            r == (-1 <= self@ - other@ <= 1),
    {
        let gap: U384 = match self.checked_sub(other) {
            Some(gap) => gap,
            None => match other.checked_sub(self) {
                Some(gap) => gap,
                None => { return false; },
            },
        };
        match gap.to_u128() {
            Some(gap) => gap <= 1,
            None => false,
        }
    }
}

/// The product of two 128-bit numbers needs at most 256 bits.
pub proof fn lemma_product_fits(a: nat, b: nat)
    requires
        a < u128_limit(),
        b < u128_limit(),
    ensures
        a * b < u256_limit(),
        a * b <= (u128_limit() - 1) * (u128_limit() - 1),
{
    assert(a * b <= (u128_limit() - 1) * (u128_limit() - 1)) by (nonlinear_arith)
        requires
            a <= u128_limit() - 1,
            b <= u128_limit() - 1,
    ;
}

/// `a * b / c` rounded down, for a result of 128 bits: `None` where `c` is
/// zero or the result is larger than that.
pub open spec fn ratio(a: nat, b: nat, c: nat) -> Option<u128> {
    if c == 0 || a * b / c >= u128_limit() {
        None
    } else {
        Some((a * b / c) as u128)
    }
}

/// `a * b / c` rounded down, computed without overflow in between.
pub fn mul_div(a: u128, b: u128, c: u128) -> (r: Option<u128>)
    ensures
        r == ratio(a as nat, b as nat, c as nat),
{
    proof {
        lemma_product_fits(a as nat, b as nat);
    }
    match U384::from_u128(a).checked_mul(U384::from_u128(b), Width::Bits256) {
        Some(product) => match product.checked_div(U384::from_u128(c)) {
            Some(quotient) => quotient.to_u128(),
            None => None,
        },
        None => None,
    }
}

/// `a * num / denom` rounded down.
pub fn u128_ratio(a: u128, num: u128, denom: u128) -> (r: u128)
    requires
        denom != 0,
        a * num / (denom as int) <= u128::MAX,
    ensures
        r == a * num / (denom as int),
{
    match mul_div(a, num, denom) {
        Some(r) => r,
        None => 0,
    }
}

} // verus!
