//! Decimal numbers of any length.

use bigdecimal::num_bigint::{BigInt, Sign};
use bigdecimal::{BigDecimal, RoundingMode};
use num_traits::ToPrimitive;
use vstd::arithmetic::div_mod::{
    lemma_div_multiples_vanish_quotient, lemma_div_pos_is_pos, lemma_fundamental_div_mod, lemma_mod_bound,
};
use vstd::arithmetic::power::{lemma_pow0, lemma_pow1, lemma_pow_adds, lemma_pow_increases, lemma_pow_positive, pow};
use vstd::prelude::*;

use crate::ident::copy_all;
use crate::wide::ratio;

verus! {

/// The largest scale, either way, of a decimal that calculations start from.
pub const MAX_INPUT_SCALE: i64 = 10_000_000;

/// The most bytes of the digits of a short decimal.
pub const MAX_INPUT_BYTES: usize = 3_000_000;

/// The largest scale, either way, of a decimal that is calculated with.
pub const MAX_SCALE: i64 = 50_000_000;

/// A decimal number: a whole number over a power of ten.
#[derive(Clone, Debug, PartialEq, Eq)]
pub struct Decimal {
    /// Whether the whole number is below zero.
    pub negative: bool,
    /// The bytes of the whole number, least significant first.
    pub magnitude: Vec<u8>,
    /// The exponent of the power of ten.
    pub scale: i64,
}

/// What a decimal is: `digits` over ten to the power of `scale`.
pub struct DecimalView {
    pub digits: int,
    pub scale: int,
}

/// The number that the bytes stand for, least significant first.
pub open spec fn bytes_value(bytes: Seq<u8>) -> nat
    decreases bytes.len(),
{
    if bytes.len() == 0 {
        0
    } else {
        bytes[0] as nat + 256 * bytes_value(bytes.subrange(1, bytes.len() as int))
    }
}

impl View for Decimal {
    type V = DecimalView;

    open spec fn view(&self) -> DecimalView {
        let n = bytes_value(self.magnitude@) as int;
        DecimalView {
            digits: if self.negative {
                -n
            } else {
                n
            },
            scale: self.scale as int,
        }
    }
}

/// Ten to the power of `n`.
pub open spec fn ten_to(n: int) -> real {
    if n >= 0 {
        pow(10, n as nat) as real
    } else {
        (1 as real) / (pow(10, (-n) as nat) as real)
    }
}

impl DecimalView {
    /// The number itself.
    pub open spec fn value(self) -> real {
        (self.digits as real) / ten_to(self.scale)
    }

    /// Whether the scale is one that calculations can start from.
    pub open spec fn usable(self) -> bool {
        -MAX_INPUT_SCALE <= self.scale <= MAX_INPUT_SCALE
    }

    /// Whether there are no more digits than the largest such scale.
    pub open spec fn short(self) -> bool {
        magnitude_of(self.digits) < pow(10, MAX_INPUT_SCALE as nat)
    }

    /// Whether the scale is within the bounds for calculating.
    pub open spec fn bounded(self) -> bool {
        -MAX_SCALE <= self.scale <= MAX_SCALE
    }
}

/// Powers of ten are positive.
pub proof fn lemma_ten_to_positive(n: int)
    ensures
        ten_to(n) > 0 as real,
{
    if n >= 0 {
        lemma_pow_positive(10, n as nat);
    } else {
        lemma_pow_positive(10, (-n) as nat);
        let p = pow(10, (-n) as nat) as real;
        assert((1 as real) / p > 0 as real) by (nonlinear_arith)
            requires
                p > 0 as real,
        ;
    }
}

/// A power of ten is the product of two.
proof fn lemma_ten_to_adds(n: int, k: nat)
    ensures
        ten_to(n + k) == ten_to(n) * (pow(10, k) as real),
{
    let pk = pow(10, k) as real;
    lemma_pow_positive(10, k);
    if n >= 0 {
        lemma_pow_adds(10, n as nat, k);
        let a = pow(10, n as nat);
        let b = pow(10, k);
        assert((a * b) as real == (a as real) * (b as real)) by (nonlinear_arith);
    } else {
        let m = (-n) as nat;
        lemma_pow_positive(10, m);
        let pm = pow(10, m) as real;
        if n + k >= 0 {
            let r = (n + k) as nat;
            lemma_pow_adds(10, m, r);
            let a = pow(10, m);
            let b = pow(10, r);
            assert((a * b) as real == (a as real) * (b as real)) by (nonlinear_arith);
            let pr = b as real;
            assert(pr == ((1 as real) / pm) * pk) by (nonlinear_arith)
                requires
                    pk == pm * pr,
                    pm > 0 as real,
            ;
        } else {
            let r = (-(n + k)) as nat;
            lemma_pow_positive(10, r);
            lemma_pow_adds(10, r, k);
            let a = pow(10, r);
            let b = pow(10, k);
            assert((a * b) as real == (a as real) * (b as real)) by (nonlinear_arith);
            let pr = a as real;
            assert((1 as real) / pr == ((1 as real) / pm) * pk) by (nonlinear_arith)
                requires
                    pm == pr * pk,
                    pr > 0 as real,
                    pk > 0 as real,
            ;
        }
    }
}

/// A decimal of scale zero is its digits.
pub proof fn lemma_whole_value(d: DecimalView)
    requires
        d.scale == 0,
    ensures
        d.value() == d.digits as real,
{
    lemma_pow0(10);
    assert(ten_to(0) == 1 as real);
    let x = d.digits as real;
    assert(x / (1 as real) == x);
}

/// The digits of a decimal at a larger scale.
pub open spec fn aligned(d: DecimalView, scale: int) -> int {
    d.digits * pow(10, (scale - d.scale) as nat)
}

/// Aligning does not change the number.
proof fn lemma_aligned_value(d: DecimalView, scale: int)
    requires
        d.scale <= scale,
    ensures
        (aligned(d, scale) as real) / ten_to(scale) == d.value(),
{
    let k = (scale - d.scale) as nat;
    lemma_ten_to_adds(d.scale, k);
    lemma_ten_to_positive(d.scale);
    lemma_pow_positive(10, k);
    let x = d.digits as real;
    let t = ten_to(d.scale);
    let a = d.digits;
    let b = pow(10, k);
    assert((a * b) as real == (a as real) * (b as real)) by (nonlinear_arith);
    let p = b as real;
    assert((x * p) / (t * p) == x / t) by (nonlinear_arith)
        requires
            t > 0 as real,
            p > 0 as real,
    ;
}

/// The larger of two scales.
pub open spec fn common_scale(a: DecimalView, b: DecimalView) -> int {
    if a.scale >= b.scale {
        a.scale
    } else {
        b.scale
    }
}

/// The sum of two decimals, at the larger scale.
pub open spec fn sum_of(a: DecimalView, b: DecimalView) -> DecimalView {
    let scale = common_scale(a, b);
    DecimalView { digits: aligned(a, scale) + aligned(b, scale), scale }
}

/// The difference of two decimals: at the larger scale, or at that of the
/// only one that is not zero.
pub open spec fn difference_of(a: DecimalView, b: DecimalView) -> DecimalView {
    if b.digits == 0 {
        a
    } else if a.digits == 0 {
        DecimalView { digits: -b.digits, scale: b.scale }
    } else {
        let scale = common_scale(a, b);
        DecimalView { digits: aligned(a, scale) - aligned(b, scale), scale }
    }
}

/// Whether a decimal is one, with no more than 38 zeros written out.
pub open spec fn plainly_one(d: DecimalView) -> bool {
    0 <= d.scale <= 38 && d.digits == pow(10, d.scale as nat)
}

/// The product of two decimals, at the sum of the scales; the other one where
/// one is plainly one.
pub open spec fn product_of(a: DecimalView, b: DecimalView) -> DecimalView {
    if plainly_one(a) {
        b
    } else if plainly_one(b) {
        a
    } else {
        DecimalView { digits: a.digits * b.digits, scale: a.scale + b.scale }
    }
}

/// Ten to the power of 99, the least number of a hundred digits.
pub open spec fn hundred_digits() -> nat {
    pow(10, 99) as nat
}

/// Whether `t` more zeros behind the numerator are enough: the quotient is
/// whole, or has a hundred digits.
pub open spec fn shifted_enough(num: nat, den: nat, t: nat) -> bool {
    let shifted = num * pow(10, t);
    shifted >= den && (shifted % (den as int) == 0 || shifted >= hundred_digits() * den)
}

/// The least number of zeros that are enough.
pub open spec fn division_shift(num: nat, den: nat) -> nat {
    choose|t: nat| #[trigger]
        shifted_enough(num, den, t) && forall|u: nat| u < t ==> !#[trigger] shifted_enough(num, den, u)
}

/// The quotient of two whole numbers after a shift, rounded to the nearest
/// whole number, up from the middle.
pub open spec fn rounded_quotient(num: nat, den: nat, t: nat) -> nat {
    ((2 * (num * pow(10, t)) + den) / (2 * den as int)) as nat
}

/// The number without its sign.
pub open spec fn magnitude_of(n: int) -> nat {
    if n < 0 {
        (-n) as nat
    } else {
        n as nat
    }
}

/// The quotient of two decimals: as many digits as it has, up to a hundred,
/// rounded to the nearest.
pub open spec fn quotient_of(a: DecimalView, b: DecimalView) -> DecimalView {
    if a.digits == 0 || plainly_one(b) {
        a
    } else {
        let t = division_shift(magnitude_of(a.digits), magnitude_of(b.digits));
        let q = rounded_quotient(magnitude_of(a.digits), magnitude_of(b.digits), t) as int;
        DecimalView {
            digits: if (a.digits < 0) == (b.digits < 0) {
                q
            } else {
                -q
            },
            scale: a.scale - b.scale + t,
        }
    }
}

/// What a text stands for as a decimal: the outcome of the `FromStr` of
/// `bigdecimal::BigDecimal`.
pub uninterp spec fn decimal_of_text(s: Seq<char>) -> Option<DecimalView>;

/// The sum is the sum of the numbers.
pub proof fn lemma_sum_value(a: DecimalView, b: DecimalView)
    ensures
        sum_of(a, b).value() == a.value() + b.value(),
{
    let scale = common_scale(a, b);
    lemma_aligned_value(a, scale);
    lemma_aligned_value(b, scale);
    lemma_ten_to_positive(scale);
    let x = aligned(a, scale) as real;
    let y = aligned(b, scale) as real;
    let t = ten_to(scale);
    assert((x + y) / t == x / t + y / t) by (nonlinear_arith)
        requires
            t > 0 as real,
    ;
}

/// The difference is the difference of the numbers.
pub proof fn lemma_difference_value(a: DecimalView, b: DecimalView)
    ensures
        difference_of(a, b).value() == a.value() - b.value(),
{
    let scale = common_scale(a, b);
    lemma_ten_to_positive(scale);
    lemma_ten_to_positive(a.scale);
    lemma_ten_to_positive(b.scale);
    if b.digits == 0 {
        let t = ten_to(b.scale);
        assert((0 as real) / t == 0 as real) by (nonlinear_arith)
            requires
                t > 0 as real,
        ;
    } else if a.digits == 0 {
        let t = ten_to(a.scale);
        let u = ten_to(b.scale);
        let y = b.digits as real;
        assert((0 as real) / t == 0 as real) by (nonlinear_arith)
            requires
                t > 0 as real,
        ;
        assert((-b.digits) as real == -y);
        assert((-y) / u == -(y / u)) by (nonlinear_arith)
            requires
                u > 0 as real,
        ;
    } else {
        lemma_aligned_value(a, scale);
        lemma_aligned_value(b, scale);
        let x = aligned(a, scale) as real;
        let y = aligned(b, scale) as real;
        let t = ten_to(scale);
        assert((x - y) / t == x / t - y / t) by (nonlinear_arith)
            requires
                t > 0 as real,
        ;
    }
}

/// Powers of ten add up.
pub(crate) proof fn lemma_ten_to_sum(m: int, n: int)
    ensures
        ten_to(m + n) == ten_to(m) * ten_to(n),
{
    if n >= 0 {
        lemma_ten_to_adds(m, n as nat);
    } else {
        lemma_ten_to_adds(m + n, (-n) as nat);
        lemma_pow_positive(10, (-n) as nat);
        let x = ten_to(m + n);
        let p = pow(10, (-n) as nat) as real;
        let y = ten_to(m);
        assert(x == y * ((1 as real) / p)) by (nonlinear_arith)
            requires
                y == x * p,
                p > 0 as real,
        ;
    }
}

/// What is plainly one is one.
proof fn lemma_plainly_one(d: DecimalView)
    requires
        plainly_one(d),
    ensures
        d.value() == 1 as real,
{
    let p = pow(10, d.scale as nat) as real;
    lemma_pow_positive(10, d.scale as nat);
    assert(p / p == 1 as real) by (nonlinear_arith)
        requires
            p > 0 as real,
    ;
}

/// The product is the product of the numbers.
pub proof fn lemma_product_value(a: DecimalView, b: DecimalView)
    ensures
        product_of(a, b).value() == a.value() * b.value(),
{
    if plainly_one(a) {
        lemma_plainly_one(a);
    } else if plainly_one(b) {
        lemma_plainly_one(b);
    } else {
        lemma_ten_to_sum(a.scale, b.scale);
        lemma_ten_to_positive(a.scale);
        lemma_ten_to_positive(b.scale);
        let (i, j) = (a.digits, b.digits);
        let (x, y) = (i as real, j as real);
        let (t, u) = (ten_to(a.scale), ten_to(b.scale));
        assert((i * j) as real == (i as real) * (j as real)) by (nonlinear_arith);
        assert((x * y) / (t * u) == (x / t) * (y / u)) by (nonlinear_arith)
            requires
                t > 0 as real,
                u > 0 as real,
        ;
    }
}

/// Where some number of zeros is enough, there is a least one.
proof fn lemma_least_shift(num: nat, den: nat, t: nat) -> (least: nat)
    requires
        shifted_enough(num, den, t),
    ensures
        least <= t,
        shifted_enough(num, den, least),
        forall|u: nat| u < least ==> !#[trigger] shifted_enough(num, den, u),
    decreases t,
{
    if exists|u: nat| u < t && #[trigger] shifted_enough(num, den, u) {
        let u = choose|u: nat| u < t && #[trigger] shifted_enough(num, den, u);
        lemma_least_shift(num, den, u)
    } else {
        t
    }
}

/// The shift is enough, and no more than any that is.
proof fn lemma_shift(num: nat, den: nat, t: nat)
    requires
        shifted_enough(num, den, t),
    ensures
        shifted_enough(num, den, division_shift(num, den)),
        division_shift(num, den) <= t,
{
    let least = lemma_least_shift(num, den, t);
    assert(shifted_enough(num, den, least) && forall|u: nat| u < least ==> !#[trigger] shifted_enough(num, den, u));
    let chosen = division_shift(num, den);
    if chosen > t {
        assert(!shifted_enough(num, den, t));
    }
}

/// The bytes of a number bound it.
proof fn lemma_bytes_bound(bytes: Seq<u8>)
    ensures
        bytes_value(bytes) < pow(10, 3 * bytes.len()),
    decreases bytes.len(),
{
    if bytes.len() == 0 {
        lemma_pow0(10);
    } else {
        let rest = bytes.subrange(1, bytes.len() as int);
        lemma_bytes_bound(rest);
        let k = (3 * rest.len()) as nat;
        lemma_pow_adds(10, k, 3);
        lemma_small_powers();
        let v = bytes_value(rest);
        let p = pow(10, k);
        assert(bytes[0] as nat + 256 * v < p * 1000) by (nonlinear_arith)
            requires
                bytes[0] as nat <= 255,
                v < p,
                v >= 0,
        ;
    }
}

/// A divisor below a power of ten needs that many zeros and 99 at most.
proof fn lemma_shift_bound(num: nat, den: nat, zeros: nat)
    requires
        num > 0,
        0 < den < pow(10, zeros),
    ensures
        shifted_enough(num, den, division_shift(num, den)),
        division_shift(num, den) <= zeros + 99,
{
    let t = (zeros + 99) as nat;
    let p = pow(10, zeros);
    let h = pow(10, 99);
    lemma_pow_adds(10, zeros, 99);
    lemma_pow_positive(10, 99);
    lemma_pow_positive(10, zeros);
    let shifted = num * pow(10, t);
    assert(shifted >= h * den && h * den >= den) by (nonlinear_arith)
        requires
            shifted == num * (p * h),
            num >= 1,
            0 < den < p,
            h >= 1,
    ;
    assert(shifted_enough(num, den, t));
    lemma_shift(num, den, t);
}

/// The scale of a quotient by a number below a power of ten.
pub(crate) proof fn lemma_quotient_scale(a: DecimalView, b: DecimalView, zeros: nat)
    requires
        b.digits != 0,
        magnitude_of(b.digits) < pow(10, zeros),
    ensures
        ({
            let scale = quotient_of(a, b).scale;
            scale == a.scale || a.scale - b.scale <= scale <= a.scale - b.scale + zeros + 99
        }),
{
    if a.digits != 0 {
        lemma_shift_bound(magnitude_of(a.digits), magnitude_of(b.digits), zeros);
    }
}

/// The digits of a product with a number of 128 bits.
pub(crate) proof fn lemma_product_short(n: u128, b: DecimalView)
    requires
        b.short(),
    ensures
        magnitude_of(product_of(whole(n), b).digits) < pow(10, (MAX_INPUT_SCALE + 48) as nat),
{
    let p = pow(10, MAX_INPUT_SCALE as nat);
    let e = pow(10, 48);
    let m = magnitude_of(b.digits) as int;
    lemma_small_powers();
    lemma_pow_adds(10, MAX_INPUT_SCALE as nat, 48);
    assert(n * m < p * e && n < p * e && m < p * e) by (nonlinear_arith)
        requires
            0 <= n < e,
            0 <= m < p,
            e >= 1,
    {
        assert(n * m <= n * p);
        assert(n * p < e * p);
        assert(e * p >= e);
        assert(e * p >= p);
        assert(p >= 1);
    }
    assert(magnitude_of(n * b.digits) == n * m) by (nonlinear_arith)
        requires
            m == magnitude_of(b.digits),
            n >= 0,
    ;
}

/// A number has the sign of its digits.
pub proof fn lemma_sign(d: DecimalView)
    ensures
        (d.value() < 0 as real) == (d.digits < 0),
        (d.value() > 0 as real) == (d.digits > 0),
{
    lemma_ten_to_positive(d.scale);
    let x = d.digits as real;
    let t = ten_to(d.scale);
    assert((x / t < 0 as real) == (x < 0 as real) && (x / t > 0 as real) == (x > 0 as real)) by (nonlinear_arith)
        requires
            t > 0 as real,
    ;
}

/// What the shift and the quotient of two positive numbers are like: exact, or
/// with a hundred digits.
proof fn lemma_quotient_parts(num: nat, den: nat)
    requires
        num > 0,
        den > 0,
    ensures
        ({
            let t = division_shift(num, den);
            let shifted = num * pow(10, t);
            let q = rounded_quotient(num, den, t);
            &&& q * den == shifted || (shifted >= hundred_digits() * den && q >= hundred_digits())
            &&& 2 * shifted - den < 2 * (q * den) <= 2 * shifted + den
            &&& q * den != shifted ==> shifted % (den as int) != 0
        }),
{
    lemma_den_below(den);
    lemma_shift_bound(num, den, 3 * den);
    let t = division_shift(num, den);
    lemma_pow_positive(10, t);
    lemma_pow_positive(10, 99);
    let shifted = num * pow(10, t);
    assert(shifted >= 0) by (nonlinear_arith)
        requires
            shifted == num * pow(10, t),
            pow(10, t) > 0,
            num > 0,
    ;
    let top = 2 * shifted + den;
    let bottom = 2 * den as int;
    let q = top / bottom;
    lemma_fundamental_div_mod(top, bottom);
    lemma_mod_bound(top, bottom);
    assert(q >= 0) by {
        lemma_div_pos_is_pos(top, bottom);
    }
    assert(bottom * q == 2 * (q * den)) by (nonlinear_arith)
        requires
            bottom == 2 * den,
    ;
    if shifted % (den as int) == 0 {
        lemma_fundamental_div_mod(shifted, den as int);
        let k = shifted / (den as int);
        assert(q * den == shifted) by (nonlinear_arith)
            requires
                2 * shifted - den < 2 * (q * den) <= 2 * shifted + den,
                shifted == den * k,
                den > 0,
        {
            if q < k {
                assert(q * den <= (k - 1) * den);
                assert((k - 1) * den == den * k - den);
            } else if q > k {
                assert(q * den >= (k + 1) * den);
                assert((k + 1) * den == den * k + den);
            }
        }
    } else {
        let h = hundred_digits();
        assert(q >= h) by (nonlinear_arith)
            requires
                shifted >= h * den,
                2 * shifted - den < 2 * (q * den),
                den > 0,
        {
            if q < h {
                assert(q * den <= (h - 1) * den);
                assert((h - 1) * den == h * den - den);
            }
        }
    }
}

/// A number is below ten to a power of it.
proof fn lemma_den_below(den: nat)
    ensures
        den < pow(10, 3 * den),
    decreases den,
{
    if den == 0 {
        lemma_pow0(10);
    } else {
        let less = (den - 1) as nat;
        lemma_den_below(less);
        lemma_small_powers();
        lemma_pow_known(3 * less, 3, pow(10, 3 * less), 1000);
        assert(3 * less + 3 == 3 * den);
    }
}

/// A power of ten as the product of two that are known.
proof fn lemma_pow_known(i: nat, j: nat, a: int, b: int)
    requires
        pow(10, i) == a,
        pow(10, j) == b,
    ensures
        pow(10, i + j) == a * b,
{
    lemma_pow_adds(10, i, j);
}

/// The small powers of ten.
pub(crate) proof fn lemma_small_powers()
    ensures
        pow(10, 0) == 1,
        pow(10, 3) == 1000,
        pow(10, 4) == 10_000,
        pow(10, 8) == 100_000_000,
        pow(10, 24) == 1_000_000_000_000_000_000_000_000,
        pow(10, 48) == 1_000_000_000_000_000_000_000_000_000_000_000_000_000_000_000_000,
{
    lemma_pow0(10);
    lemma_pow1(10);
    lemma_pow_known(1, 1, 10, 10);
    lemma_pow_known(2, 1, 100, 10);
    lemma_pow_known(2, 2, 100, 100);
    lemma_pow_known(4, 4, 10_000, 10_000);
    lemma_pow_known(8, 8, 100_000_000, 100_000_000);
    lemma_pow_known(16, 8, 10_000_000_000_000_000, 100_000_000);
    lemma_pow_known(24, 24, 1_000_000_000_000_000_000_000_000, 1_000_000_000_000_000_000_000_000);
}

/// A number of 128 bits has less than a hundred digits, and so has ten to the
/// power of 48 times as much.
pub(crate) proof fn lemma_short()
    ensures
        hundred_digits() > 0x1_0000_0000_0000_0000_0000_0000_0000_0000int * pow(10, 48),
        pow(10, 48) > 0,
        hundred_digits() > 0x1_0000_0000_0000_0000_0000_0000_0000_0000int,
{
    lemma_small_powers();
    let e = pow(10, 48);
    lemma_pow_known(48, 48, e, e);
    lemma_pow_known(96, 3, e * e, 1000);
    assert(e * e * 1000 > 0x1_0000_0000_0000_0000_0000_0000_0000_0000int * e) by (nonlinear_arith)
        requires
            e > 0x1_0000_0000_0000_0000_0000_0000_0000_0000int,
    ;
}

/// The value of a quotient of two positive numbers, in terms of its parts.
proof fn lemma_quotient_value(num: nat, b: DecimalView)
    requires
        num > 0,
        b.digits > 0,
        !plainly_one(b),
    ensures
        ({
            let t = division_shift(num, b.digits as nat);
            let q = rounded_quotient(num, b.digits as nat, t);
            &&& quotient_of(DecimalView { digits: num as int, scale: 0 }, b).value() * (pow(10, t) as real) == (
            q as real) * ten_to(b.scale)
        }),
{
    let t = division_shift(num, b.digits as nat);
    let q = rounded_quotient(num, b.digits as nat, t);
    lemma_quotient_parts(num, b.digits as nat);
    lemma_ten_to_sum(t - b.scale, b.scale);
    lemma_ten_to_positive(t - b.scale);
    let y = q as real;
    let u = ten_to(t - b.scale);
    let s = ten_to(b.scale);
    assert((y / u) * (u * s) == y * s) by (nonlinear_arith)
        requires
            u > 0 as real,
    ;
    assert(quotient_of(DecimalView { digits: num as int, scale: 0 }, b).value() == y / u);
}

/// A positive number times another compares as the other does.
proof fn lemma_scaled_order(v: real, w: real, x: real)
    requires
        x > 0 as real,
        v * x >= w * x,
    ensures
        v >= w,
{
    assert(v >= w) by (nonlinear_arith)
        requires
            x > 0 as real,
            v * x >= w * x,
    ;
}

/// A whole number of 128 bits over a number up to one is no less.
proof fn lemma_quotient_by_less(amount: u128, by: DecimalView)
    requires
        by.digits > 0,
        by.value() <= 1 as real,
    ensures
        quotient_of(whole(amount), by).value() >= amount as real,
{
    lemma_whole_value(whole(amount));
    if amount == 0 || plainly_one(by) {
        return ;
    }
    let num = amount as nat;
    let den = by.digits as nat;
    let t = division_shift(num, den);
    let q = rounded_quotient(num, den, t);
    lemma_quotient_parts(num, den);
    lemma_quotient_value(num, by);
    lemma_short();
    lemma_ten_to_positive(by.scale);
    lemma_pow_positive(10, t);
    let p = pow(10, t);
    let shifted = num * p;
    let s = ten_to(by.scale);
    let d = den as real;
    assert(d <= s) by (nonlinear_arith)
        requires
            d / s <= 1 as real,
            s > 0 as real,
    ;
    if by.scale < 0 {
        let u = pow(10, (-by.scale) as nat);
        lemma_pow_positive(10, (-by.scale) as nat);
        let w = u as real;
        assert(w > 1 as real) by {
            lemma_pow_adds(10, 1, (-by.scale - 1) as nat);
            lemma_pow1(10);
            lemma_pow_positive(10, (-by.scale - 1) as nat);
        }
        assert((1 as real) / w < 1 as real) by (nonlinear_arith)
            requires
                w > 1 as real,
        ;
        assert(false);
    }
    let g = pow(10, by.scale as nat);
    assert(s == g as real);
    assert(den <= g);
    assert(q * g >= shifted) by {
        if q * den == shifted {
            assert(q * g >= q * den) by (nonlinear_arith)
                requires
                    den <= g,
                    q >= 0,
            ;
        } else if t >= by.scale {
            let k = (t - by.scale) as nat;
            lemma_pow_adds(10, by.scale as nat, k);
            let m = num * pow(10, k);
            let pk = pow(10, k);
            assert(shifted == m * g) by (nonlinear_arith)
                requires
                    shifted == num * p,
                    p == g * pk,
                    m == num * pk,
            ;
            lemma_pow_positive(10, k);
            assert(m >= 0) by (nonlinear_arith)
                requires
                    m == num * pk,
                    num >= 0,
                    pk >= 0,
            ;
            assert(q >= m) by (nonlinear_arith)
                requires
                    2 * shifted - den < 2 * (q * den),
                    shifted == m * g,
                    den <= g,
                    den > 0,
                    m >= 0,
            {
                if q < m {
                    assert(q * den <= (m - 1) * den);
                    assert((m - 1) * den == m * den - den);
                    assert(m * g >= m * den);
                }
            }
            assert(q * g >= m * g) by (nonlinear_arith)
                requires
                    q >= m,
                    g >= 0,
            ;
        } else {
            let k = (by.scale - t) as nat;
            lemma_pow_adds(10, t, k);
            lemma_pow_positive(10, k);
            let pk = pow(10, k);
            assert(q * g >= num * p) by (nonlinear_arith)
                requires
                    q >= num,
                    g == p * pk,
                    pk >= 1,
                    p >= 1,
                    num >= 0,
            {
                assert(p * pk >= p);
                assert(q * g >= num * g);
                assert(num * g >= num * p);
            }
        }
    }
    let v = quotient_of(whole(amount), by).value();
    let x = p as real;
    assert((q * g) as real == (q as real) * (g as real)) by (nonlinear_arith);
    assert((num * p) as real == (num as real) * (p as real)) by (nonlinear_arith);
    lemma_scaled_order(v, amount as real, x);
}

/// A whole number of 128 bits over one or more is no more.
proof fn lemma_quotient_by_more(amount: u128, by: DecimalView)
    requires
        by.digits > 0,
        by.value() >= 1 as real,
    ensures
        quotient_of(whole(amount), by).value() <= amount as real,
{
    lemma_whole_value(whole(amount));
    if amount == 0 || plainly_one(by) {
        return ;
    }
    let num = amount as nat;
    let den = by.digits as nat;
    let t = division_shift(num, den);
    let q = rounded_quotient(num, den, t);
    lemma_quotient_parts(num, den);
    lemma_quotient_value(num, by);
    lemma_short();
    lemma_ten_to_positive(by.scale);
    lemma_pow_positive(10, t);
    let p = pow(10, t);
    let shifted = num * p;
    let s = ten_to(by.scale);
    let d = den as real;
    assert(d >= s) by (nonlinear_arith)
        requires
            d / s >= 1 as real,
            s > 0 as real,
    ;
    let y = q as real;
    assert(shifted >= 1) by (nonlinear_arith)
        requires
            shifted == num * p,
            num >= 1,
            p >= 1,
    ;
    assert(y * s <= shifted as real) by {
        if q * den == shifted {
            assert((q * den) as real == (q as real) * (den as real)) by (nonlinear_arith);
            assert(y * s <= y * d) by (nonlinear_arith)
                requires
                    s <= d,
                    y >= 0 as real,
            ;
        } else if by.scale >= 0 {
            let g = pow(10, by.scale as nat);
            lemma_pow_positive(10, by.scale as nat);
            let h = hundred_digits();
            assert(t >= by.scale) by {
                if t < by.scale {
                    lemma_pow_adds(10, t, (by.scale - t) as nat);
                    lemma_pow_positive(10, (by.scale - t) as nat);
                    let pk = pow(10, (by.scale - t) as nat);
                    assert(false) by (nonlinear_arith)
                        requires
                            num * p >= h * den,
                            den >= g,
                            g == p * pk,
                            pk >= 1,
                            p >= 1,
                            h > num,
                            num >= 0,
                    {
                        assert(p * pk >= p);
                        assert(h * den >= h * p);
                        assert(h * p > num * p);
                    }
                }
            }
            let k = (t - by.scale) as nat;
            lemma_pow_adds(10, by.scale as nat, k);
            lemma_pow_positive(10, k);
            let pk = pow(10, k);
            let m = num * pk;
            assert(shifted == m * g) by (nonlinear_arith)
                requires
                    shifted == num * p,
                    p == g * pk,
                    m == num * pk,
            ;
            assert(m >= 0) by (nonlinear_arith)
                requires
                    m == num * pk,
                    num >= 0,
                    pk >= 0,
            ;
            assert(q <= m) by (nonlinear_arith)
                requires
                    2 * (q * den) <= 2 * shifted + den,
                    shifted == m * g,
                    den >= g,
                    den > 0,
                    m >= 0,
            {
                if q > m {
                    assert(q * den >= (m + 1) * den);
                    assert((m + 1) * den == m * den + den);
                    assert(m * g <= m * den);
                }
            }
            assert(q * g <= m * g) by (nonlinear_arith)
                requires
                    q <= m,
                    g >= 0,
            ;
            assert((q * g) as real == (q as real) * (g as real)) by (nonlinear_arith);
        } else {
            let u = pow(10, (-by.scale) as nat);
            lemma_pow_positive(10, (-by.scale) as nat);
            let w = u as real;
            assert((1 as real) / w <= 1 as real) by (nonlinear_arith)
                requires
                    w >= 1 as real,
            ;
            assert(q <= shifted) by (nonlinear_arith)
                requires
                    2 * (q * den) <= 2 * shifted + den,
                    den >= 1,
                    shifted >= 1,
            {
                if q > shifted {
                    assert(q * den >= (shifted + 1) * den);
                    assert((shifted + 1) * den == shifted * den + den);
                    assert(shifted * den >= shifted);
                }
            }
            assert(y * s <= y) by (nonlinear_arith)
                requires
                    s <= 1 as real,
                    y >= 0 as real,
            ;
        }
    }
    let v = quotient_of(whole(amount), by).value();
    assert((num * p) as real == (num as real) * (p as real)) by (nonlinear_arith);
    lemma_scaled_order(amount as real, v, p as real);
}

/// `a + b`, by the addition of `bigdecimal::BigDecimal`: exact, at the larger
/// of the two scales.
#[verifier::external_body]
pub(crate) fn sum(a: &Decimal, b: &Decimal) -> (r: Decimal)
    requires
        a@.bounded(),
        b@.bounded(),
    ensures
        r@ == sum_of(a@, b@),
{
    let a_sign = if a.negative { Sign::Minus } else { Sign::Plus };
    let b_sign = if b.negative { Sign::Minus } else { Sign::Plus };
    let x = BigDecimal::new(BigInt::from_bytes_le(a_sign, &a.magnitude), a.scale);
    let y = BigDecimal::new(BigInt::from_bytes_le(b_sign, &b.magnitude), b.scale);
    let (digits, scale) = (x + y).into_bigint_and_scale();
    let (sign, magnitude) = digits.to_bytes_le();
    Decimal { negative: sign == Sign::Minus, magnitude, scale }
}

/// `a - b`, by the subtraction of `bigdecimal::BigDecimal`: exact, at the
/// larger of the two scales, or at that of the only one that is not zero.
#[verifier::external_body]
pub(crate) fn difference(a: &Decimal, b: &Decimal) -> (r: Decimal)
    requires
        a@.bounded(),
        b@.bounded(),
    ensures
        r@ == difference_of(a@, b@),
{
    let a_sign = if a.negative { Sign::Minus } else { Sign::Plus };
    let b_sign = if b.negative { Sign::Minus } else { Sign::Plus };
    let x = BigDecimal::new(BigInt::from_bytes_le(a_sign, &a.magnitude), a.scale);
    let y = BigDecimal::new(BigInt::from_bytes_le(b_sign, &b.magnitude), b.scale);
    let (digits, scale) = (x - y).into_bigint_and_scale();
    let (sign, magnitude) = digits.to_bytes_le();
    Decimal { negative: sign == Sign::Minus, magnitude, scale }
}

/// `a * b`, by the multiplication of `bigdecimal::BigDecimal`: exact, at the
/// sum of the scales, or the other factor where one is plainly one.
#[verifier::external_body]
fn big_product(a: &Decimal, b: &Decimal) -> (r: Decimal)
    requires
        a@.bounded(),
        b@.bounded(),
    ensures
        r@ == product_of(a@, b@),
{
    let a_sign = if a.negative { Sign::Minus } else { Sign::Plus };
    let b_sign = if b.negative { Sign::Minus } else { Sign::Plus };
    let x = BigDecimal::new(BigInt::from_bytes_le(a_sign, &a.magnitude), a.scale);
    let y = BigDecimal::new(BigInt::from_bytes_le(b_sign, &b.magnitude), b.scale);
    let (digits, scale) = (x * y).into_bigint_and_scale();
    let (sign, magnitude) = digits.to_bytes_le();
    Decimal { negative: sign == Sign::Minus, magnitude, scale }
}

/// Whether the scale of a quotient is sure to stay within 64 bits: both scales
/// are close to zero, or the divisor is a whole number of at most 128 bits and
/// the scale of the number is not at the end of its range.
pub open spec fn scales_divide(a: Decimal, b: Decimal) -> bool {
    (a@.bounded() && b@.bounded()) || (b@.scale == 0 && b.magnitude@.len() <= 16 && a@.scale <= i64::MAX - 200)
}

/// `a / b`, by the division of `bigdecimal::BigDecimal`: `a` itself where it is
/// zero or `b` is plainly one; otherwise the numerator is shifted until the
/// quotient is whole or has a hundred digits, the crate's default precision,
/// and the last digit is rounded to the nearest, up from the middle. Its
/// digits take at most fifty bytes more than those of `a`.
#[verifier::external_body]
fn big_quotient(a: &Decimal, b: &Decimal) -> (r: Decimal)
    requires
        scales_divide(*a, *b),
        b@.digits != 0,
    ensures
        r@ == quotient_of(a@, b@),
        r.magnitude@.len() <= a.magnitude@.len() + 50,
{
    let a_sign = if a.negative { Sign::Minus } else { Sign::Plus };
    let b_sign = if b.negative { Sign::Minus } else { Sign::Plus };
    let x = BigDecimal::new(BigInt::from_bytes_le(a_sign, &a.magnitude), a.scale);
    let y = BigDecimal::new(BigInt::from_bytes_le(b_sign, &b.magnitude), b.scale);
    let (digits, scale) = (x / y).into_bigint_and_scale();
    let (sign, magnitude) = digits.to_bytes_le();
    Decimal { negative: sign == Sign::Minus, magnitude, scale }
}

/// `a * b`.
pub(crate) fn product(a: &Decimal, b: &Decimal) -> (r: Decimal)
    requires
        a@.bounded(),
        b@.bounded(),
    ensures
        r@ == product_of(a@, b@),
        r@.value() == a@.value() * b@.value(),
        r@.scale == a@.scale + b@.scale || r@.scale == a@.scale || r@.scale == b@.scale,
{
    proof {
        lemma_product_value(a@, b@);
    }
    big_product(a, b)
}

/// `a / b`, to a hundred digits.
pub(crate) fn quotient(a: &Decimal, b: &Decimal) -> (r: Decimal)
    requires
        scales_divide(*a, *b),
        b@.digits != 0,
    ensures
        r@ == quotient_of(a@, b@),
        r@.scale >= a@.scale - b@.scale || r@.scale >= a@.scale,
        r@.scale <= a@.scale - b@.scale + 3 * b.magnitude@.len() + 100 || r@.scale <= a@.scale,
        r.magnitude@.len() <= a.magnitude@.len() + 50,
{
    proof {
        if a@.digits != 0 {
            lemma_bytes_bound(b.magnitude@);
            lemma_shift_bound(magnitude_of(a@.digits), magnitude_of(b@.digits), 3 * b.magnitude@.len());
        }
    }
    big_quotient(a, b)
}

/// Whether `a` is less than `b`, by the order of `bigdecimal::BigDecimal`:
/// that of the numbers. Scales that are far apart are left out, since the
/// crate estimates the powers of ten between them in floating point.
#[verifier::external_body]
pub(crate) fn less(a: &Decimal, b: &Decimal) -> (r: bool)
    requires
        a@.bounded(),
        b@.bounded(),
    ensures
        r == (a@.value() < b@.value()),
{
    let a_sign = if a.negative { Sign::Minus } else { Sign::Plus };
    let b_sign = if b.negative { Sign::Minus } else { Sign::Plus };
    let x = BigDecimal::new(BigInt::from_bytes_le(a_sign, &a.magnitude), a.scale);
    let y = BigDecimal::new(BigInt::from_bytes_le(b_sign, &b.magnitude), b.scale);
    x < y
}

/// Whether `n` is what is left of a number when its fraction is cut off.
pub open spec fn cut_off(x: real, n: int) -> bool {
    if x >= 0 as real {
        (n as real) <= x < (n as real) + (1 as real)
    } else {
        (n as real) - (1 as real) < x <= (n as real)
    }
}

/// The number without its fraction, by `with_scale_round` of
/// `bigdecimal::BigDecimal` to scale zero, rounding down: towards zero. A
/// scale far below zero is left out, since the crate writes its zeros out.
#[verifier::external_body]
pub(crate) fn truncated(d: &Decimal) -> (r: Decimal)
    requires
        d@.scale >= -MAX_SCALE,
    ensures
        r@.scale == 0,
        cut_off(d@.value(), r@.digits),
{
    let d_sign = if d.negative { Sign::Minus } else { Sign::Plus };
    let x = BigDecimal::new(BigInt::from_bytes_le(d_sign, &d.magnitude), d.scale);
    let (digits, scale) = x.with_scale_round(0, RoundingMode::Down).into_bigint_and_scale();
    let (sign, magnitude) = digits.to_bytes_le();
    Decimal { negative: sign == Sign::Minus, magnitude, scale }
}

/// Whether the number, without its fraction, is one of 128 bits.
pub open spec fn fits_u128(x: real) -> bool {
    0 as real <= x && x < 0x1_0000_0000_0000_0000_0000_0000_0000_0000int as real
}

/// The number as a `u128`, by `to_u128` of `bigdecimal::BigDecimal`: without
/// its fraction; none where it is negative or too large. A scale far from
/// zero is left out, since the crate writes that power of ten out.
#[verifier::external_body]
pub(crate) fn to_u128(d: &Decimal) -> (r: Option<u128>)
    requires
        d@.bounded(),
    ensures
        r is Some <==> fits_u128(d@.value()),
        r matches Some(n) ==> cut_off(d@.value(), n as int),
{
    let d_sign = if d.negative { Sign::Minus } else { Sign::Plus };
    let x = BigDecimal::new(BigInt::from_bytes_le(d_sign, &d.magnitude), d.scale);
    ToPrimitive::to_u128(&x)
}

/// Reads a decimal, by the `FromStr` of `bigdecimal::BigDecimal`.
#[verifier::external_body]
fn read_decimal(s: &str) -> (r: Option<Decimal>)
    ensures
        r is None <==> decimal_of_text(s@) is None,
        r matches Some(d) ==> decimal_of_text(s@) == Some(d@),
{
    let (digits, scale) = s.parse::<BigDecimal>().ok()?.into_bigint_and_scale();
    let (sign, magnitude) = digits.to_bytes_le();
    Some(Decimal { negative: sign == Sign::Minus, magnitude, scale })
}

/// A decimal as text: what the `Display` of `bigdecimal::BigDecimal` writes.
pub uninterp spec fn text_of_decimal(d: DecimalView) -> Seq<char>;

/// Writes a decimal, by the `Display` of `bigdecimal::BigDecimal`: a function
/// of the digits and the scale, by name.
#[verifier::external_body]
fn write_decimal(d: &Decimal) -> (r: String)
    ensures
        r@ == text_of_decimal(d@),
{
    let d_sign = if d.negative { Sign::Minus } else { Sign::Plus };
    BigDecimal::new(BigInt::from_bytes_le(d_sign, &d.magnitude), d.scale).to_string()
}

/// The bytes of a longer list.
proof fn lemma_bytes_push(bytes: Seq<u8>, byte: u8)
    ensures
        bytes_value(bytes.push(byte)) == bytes_value(bytes) + byte * pow(256, bytes.len()),
    decreases bytes.len(),
{
    let longer = bytes.push(byte);
    if bytes.len() == 0 {
        lemma_pow0(256);
        assert(longer.subrange(1, 1) =~= Seq::<u8>::empty());
        assert(bytes_value(longer.subrange(1, 1)) == 0);
    } else {
        let rest = bytes.subrange(1, bytes.len() as int);
        assert(longer.subrange(1, longer.len() as int) =~= rest.push(byte));
        lemma_bytes_push(rest, byte);
        reveal(pow);
        assert(pow(256, bytes.len()) == 256 * pow(256, rest.len()));
        let p = pow(256, rest.len());
        assert(256 * (byte * p) == byte * (256 * p)) by (nonlinear_arith);
    }
}

impl Decimal {
    /// Reads a decimal.
    pub fn parse(s: &str) -> (r: Option<Decimal>)
        ensures
            match r {
                Some(d) => decimal_of_text(s@) == Some(d@),
                None => decimal_of_text(s@) is None,
            },
    {
        read_decimal(s)
    }

    /// The decimal as text.
    pub fn to_text(&self) -> (r: String)
        ensures
            r@ == text_of_decimal(self@),
    {
        write_decimal(self)
    }

    /// A whole number.
    pub fn from_u128(n: u128) -> (r: Decimal)
        ensures
            r@ == (DecimalView { digits: n as int, scale: 0 }),
            r@.value() == n as real,
            r.magnitude@.len() <= 16,
    {
        let mut magnitude: Vec<u8> = Vec::new();
        let mut rest: u128 = n;
        proof {
            lemma_pow0(256);
            assert(pow(256, 16) == 0x1_0000_0000_0000_0000_0000_0000_0000_0000int) by {
                reveal(pow);
                assert(pow(256, 1) == 256);
                assert(pow(256, 2) == 0x1_0000);
                assert(pow(256, 3) == 0x100_0000);
                assert(pow(256, 4) == 0x1_0000_0000);
                assert(pow(256, 5) == 0x100_0000_0000);
                assert(pow(256, 6) == 0x1_0000_0000_0000);
                assert(pow(256, 7) == 0x100_0000_0000_0000);
                assert(pow(256, 8) == 0x1_0000_0000_0000_0000);
                assert(pow(256, 9) == 0x100_0000_0000_0000_0000);
                assert(pow(256, 10) == 0x1_0000_0000_0000_0000_0000);
                assert(pow(256, 11) == 0x100_0000_0000_0000_0000_0000);
                assert(pow(256, 12) == 0x1_0000_0000_0000_0000_0000_0000);
                assert(pow(256, 13) == 0x100_0000_0000_0000_0000_0000_0000);
                assert(pow(256, 14) == 0x1_0000_0000_0000_0000_0000_0000_0000);
                assert(pow(256, 15) == 0x100_0000_0000_0000_0000_0000_0000_0000);
            }
        }
        while rest > 0
            invariant
                bytes_value(magnitude@) + rest * pow(256, magnitude@.len()) == n,
                magnitude@.len() <= 16,
                rest < pow(256, (16 - magnitude@.len()) as nat),
            decreases rest,
        {
            let ghost before = magnitude@;
            let ghost whole = rest;
            if magnitude.len() == 16 {
                proof {
                    lemma_pow0(256);
                }
                assert(false);
            }
            let byte: u8 = (rest % 256) as u8;
            magnitude.push(byte);
            rest = rest / 256;
            proof {
                let p = pow(256, before.len());
                lemma_bytes_push(before, byte);
                reveal(pow);
                assert(pow(256, (before.len() + 1) as nat) == 256 * p);
                assert(whole * p == byte * p + rest * (256 * p)) by (nonlinear_arith)
                    requires
                        whole == byte + 256 * rest,
                ;
                assert(pow(256, (16 - before.len()) as nat) == 256 * pow(
                    256,
                    (16 - before.len() - 1) as nat,
                ));
            }
        }
        let r = Decimal { negative: false, magnitude, scale: 0 };
        proof {
            assert(0 * pow(256, magnitude@.len()) == 0);
            lemma_whole_value(r@);
        }
        r
    }

    /// The number without its sign.
    pub fn abs(&self) -> (r: Decimal)
        ensures
            r@.scale == self@.scale,
            r@.digits == if self@.digits < 0 {
                -self@.digits
            } else {
                self@.digits
            },
    {
        Decimal { negative: false, magnitude: copy_all(&self.magnitude), scale: self.scale }
    }

    /// Another value for the same decimal.
    pub fn duplicate(&self) -> (r: Decimal)
        ensures
            r@ == self@,
            r.magnitude@ == self.magnitude@,
    {
        Decimal { negative: self.negative, magnitude: copy_all(&self.magnitude), scale: self.scale }
    }

    /// Whether the number is below zero.
    pub fn is_negative(&self) -> (r: bool)
        ensures
            r == (self@.value() < 0 as real),
    {
        proof {
            lemma_sign(self@);
        }
        self.negative && !self.is_zero()
    }

    /// Whether the scale is one that calculations can start from.
    pub fn is_usable(&self) -> (r: bool)
        ensures
            r == self@.usable(),
    {
        -MAX_INPUT_SCALE <= self.scale && self.scale <= MAX_INPUT_SCALE
    }

    /// Whether the digits take so few bytes that the number is short.
    pub fn is_short(&self) -> (r: bool)
        ensures
            r == (self.magnitude@.len() <= MAX_INPUT_BYTES),
            r ==> self@.short(),
    {
        proof {
            lemma_bytes_bound(self.magnitude@);
            if self.magnitude@.len() <= MAX_INPUT_BYTES {
                lemma_pow_increases(10, 3 * self.magnitude@.len(), MAX_INPUT_SCALE as nat);
            }
        }
        self.magnitude.len() <= MAX_INPUT_BYTES
    }

    /// Whether the number is zero.
    pub fn is_zero(&self) -> (r: bool)
        ensures
            r == (self@.digits == 0),
    {
        let n: usize = self.magnitude.len();
        let mut i: usize = n;
        assert(self.magnitude@.subrange(n as int, n as int) =~= Seq::<u8>::empty());
        while i > 0
            invariant
                i <= n,
                n == self.magnitude@.len(),
                bytes_value(self.magnitude@.subrange(i as int, n as int)) == 0,
            decreases i,
        {
            let ghost tail = self.magnitude@.subrange(i - 1, n as int);
            assert(tail.subrange(1, tail.len() as int) =~= self.magnitude@.subrange(i as int, n as int));
            assert(tail[0] == self.magnitude@[i - 1]);
            if self.magnitude[i - 1] != 0 {
                proof {
                    lemma_bytes_tail(self.magnitude@, i - 1);
                }
                return false;
            }
            i = i - 1;
        }
        assert(self.magnitude@.subrange(0, n as int) =~= self.magnitude@);
        true
    }
}

/// Bytes with a tail that is not zero are not zero.
proof fn lemma_bytes_tail(bytes: Seq<u8>, i: int)
    requires
        0 <= i <= bytes.len(),
        bytes_value(bytes.subrange(i, bytes.len() as int)) > 0,
    ensures
        bytes_value(bytes) > 0,
    decreases i,
{
    if i == 0 {
        assert(bytes.subrange(0, bytes.len() as int) =~= bytes);
    } else {
        let rest = bytes.subrange(1, bytes.len() as int);
        assert(rest.subrange(i - 1, rest.len() as int) =~= bytes.subrange(i, bytes.len() as int));
        lemma_bytes_tail(rest, i - 1);
    }
}

/// One half.
pub open spec fn half() -> DecimalView {
    DecimalView { digits: 5, scale: 1 }
}

/// `m`, halved that many times.
pub open spec fn halved(m: u64, halvings: nat) -> DecimalView
    decreases halvings,
{
    if halvings == 0 {
        whole(m as u128)
    } else {
        product_of(halved(m, (halvings - 1) as nat), half())
    }
}

/// `m` over two to the power of `halvings`.
pub fn dyadic(m: u64, halvings: u32) -> (r: Decimal)
    requires
        halvings <= 100,
    ensures
        r@ == halved(m, halvings as nat),
        r@.value() * (pow(2, halvings as nat) as real) == m as real,
        0 <= r@.scale <= 101,
{
    let mut five: Vec<u8> = Vec::new();
    five.push(5);
    let half: Decimal = Decimal { negative: false, magnitude: five, scale: 1 };
    proof {
        assert(half.magnitude@.subrange(1, 1) =~= Seq::<u8>::empty());
        assert(bytes_value(half.magnitude@.subrange(1, 1)) == 0);
        assert(half@.digits == 5);
        vstd::arithmetic::power::lemma_pow1(10);
        assert(ten_to(1) == 10 as real);
        assert(half@.value() == (5 as real) / (10 as real));
        lemma_pow0(2);
    }
    let mut r: Decimal = Decimal::from_u128(m as u128);
    let mut i: u32 = 0;
    while i < halvings
        invariant
            i <= halvings,
            halvings <= 100,
            0 <= r@.scale <= i + 1,
            r@ == halved(m, i as nat),
            half@ == self::half(),
            half@.value() * (2 as real) == 1 as real,
            r@.value() * (pow(2, i as nat) as real) == m as real,
        decreases halvings - i,
    {
        let ghost v = r@.value();
        let ghost h = half@.value();
        r = product(&r, &half);
        proof {
            reveal(pow);
            assert(pow(2, (i + 1) as nat) == 2 * pow(2, i as nat));
            let p = pow(2, i as nat) as real;
            assert((2 * pow(2, i as nat)) as real == (2 as real) * p);
            assert((v * h) * ((2 as real) * p) == v * p) by (nonlinear_arith)
                requires
                    h * (2 as real) == 1 as real,
            ;
        }
        i = i + 1;
    }
    r
}

/// The larger of two decimals; the second where they are equal.
pub fn larger(a: Decimal, b: Decimal) -> (r: Decimal)
    requires
        a@.bounded(),
        b@.bounded(),
    ensures
        r == if b@.value() < a@.value() {
            a
        } else {
            b
        },
{
    if less(&b, &a) {
        a
    } else {
        b
    }
}

/// The number kept between two bounds.
pub open spec fn clamp_of(d: DecimalView, low: DecimalView, high: DecimalView) -> DecimalView {
    if d.value() < low.value() {
        low
    } else if high.value() < d.value() {
        high
    } else {
        d
    }
}

/// Keeps a number between two bounds.
pub fn clamp(d: Decimal, low: &Decimal, high: &Decimal) -> (r: Decimal)
    requires
        d@.bounded(),
        low@.bounded(),
        high@.bounded(),
    ensures
        r@ == clamp_of(d@, low@, high@),
{
    if less(&d, low) {
        low.duplicate()
    } else if less(high, &d) {
        high.duplicate()
    } else {
        d
    }
}

/// The number without its fraction, where it is one of 128 bits.
pub open spec fn whole_part(x: real) -> Option<u128> {
    if fits_u128(x) {
        Some(choose|n: u128| cut_off(x, n as int))
    } else {
        None
    }
}

/// The fraction can be cut off in one way only.
pub proof fn lemma_cut_off_unique(x: real, m: int, n: int)
    requires
        x >= 0 as real,
        cut_off(x, m),
        cut_off(x, n),
    ensures
        m == n,
{
    if m < n {
        assert((m + 1) as real <= n as real);
    } else if n < m {
        assert((n + 1) as real <= m as real);
    }
}

/// What is cut off is the whole part.
pub proof fn lemma_whole_part(x: real, n: u128)
    requires
        x >= 0 as real,
        cut_off(x, n as int),
    ensures
        whole_part(x) == Some(n),
{
    assert((n + 1) as real <= 0x1_0000_0000_0000_0000_0000_0000_0000_0000int as real);
    let m = choose|m: u128| cut_off(x, m as int);
    lemma_cut_off_unique(x, m as int, n as int);
}

/// Cuts the fraction off.
pub(crate) fn whole_u128(d: &Decimal) -> (r: Option<u128>)
    requires
        d@.bounded(),
    ensures
        r == whole_part(d@.value()),
{
    let r: Option<u128> = to_u128(d);
    proof {
        match r {
            Some(n) => {
                lemma_whole_part(d@.value(), n);
            },
            None => {},
        }
    }
    r
}

/// Cuts the fraction off, and takes what is left as a `u128`; a number
/// between minus one and zero leaves zero.
pub(crate) fn rounded_u128(d: &Decimal) -> (r: Option<u128>)
    requires
        d@.scale >= -MAX_SCALE,
        d@.value() >= 0 as real,
    ensures
        r == whole_part(d@.value()),
{
    let whole: Decimal = truncated(d);
    let r: Option<u128> = to_u128(&whole);
    proof {
        lemma_whole_value(whole@);
        let x = d@.value();
        let n = whole@.digits;
        assert(n >= 0) by {
            if n < 0 {
                assert((n + 1) as real <= 0 as real);
            }
        }
        match r {
            Some(m) => {
                assert(cut_off(n as real, n));
                lemma_cut_off_unique(n as real, m as int, n);
                lemma_whole_part(x, m);
            },
            None => {
                assert(n as real >= 0x1_0000_0000_0000_0000_0000_0000_0000_0000int as real);
            },
        }
    }
    r
}

/// `1 - d`.
pub(crate) fn one_minus(d: &Decimal) -> (r: Decimal)
    requires
        d@.bounded(),
    ensures
        r@ == difference_of(whole(1), d@),
        r@.value() == (1 as real) - d@.value(),
        r@.bounded(),
{
    let one: Decimal = Decimal::from_u128(1);
    proof {
        lemma_difference_value(one@, d@);
    }
    difference(&one, d)
}

/// The whole number of 128 bits as a decimal.
pub open spec fn whole(n: u128) -> DecimalView {
    DecimalView { digits: n as int, scale: 0 }
}

/// The least output that a slippage allows in place of an estimate: the
/// estimate less the slippage, rounded down.
pub open spec fn least_output(estimate: u128, slippage: DecimalView) -> Option<u128> {
    whole_part((estimate as real) * ((1 as real) - slippage.value()))
}

/// An amount over a number, rounded down; none where the number is nothing,
/// or the outcome is below nothing or too large.
pub open spec fn divided(amount: u128, by: DecimalView) -> Option<u128> {
    if by.digits == 0 || quotient_of(whole(amount), by).value() < 0 as real {
        None
    } else {
        whole_part(quotient_of(whole(amount), by).value())
    }
}

/// An amount over a number.
pub(crate) fn divide(amount: u128, by: &Decimal) -> (r: Option<u128>)
    requires
        by@.bounded(),
    ensures
        r == divided(amount, by@),
        by@.value() > 0 as real && by@.value() <= 1 as real ==> (r matches Some(n) ==> n >= amount),
        by@.value() >= 1 as real ==> (r matches Some(n) ==> n <= amount),
{
    if by.is_zero() {
        return None;
    }
    let outcome: Decimal = quotient(&Decimal::from_u128(amount), by);
    if outcome.is_negative() {
        return None;
    }
    let r: Option<u128> = rounded_u128(&outcome);
    proof {
        let b = by@.value();
        lemma_sign(by@);
        if b > 0 as real && b <= 1 as real && r is Some {
            let n = r->0;
            let x = outcome@.value();
            lemma_quotient_by_less(amount, by@);
            assert(x >= amount as real);
            assert(cut_off(x, n as int)) by {
                lemma_fits_has_whole(x);
            }
            if n < amount {
                assert((n + 1) as real <= amount as real);
            }
        }
        if b >= 1 as real && r is Some {
            let n = r->0;
            let x = outcome@.value();
            lemma_quotient_by_more(amount, by@);
            assert(x <= amount as real);
            assert(cut_off(x, n as int)) by {
                lemma_fits_has_whole(x);
            }
            if n > amount {
                assert((amount + 1) as real <= n as real);
            }
        }
    }
    r
}

/// One more than a number.
pub(crate) fn one_plus(d: &Decimal) -> (r: Decimal)
    requires
        d@.bounded(),
    ensures
        r@ == sum_of(whole(1), d@),
        r@.value() == (1 as real) + d@.value(),
        r@.bounded(),
{
    proof {
        lemma_whole_value(whole(1));
        lemma_sum_value(whole(1), d@);
    }
    sum(&Decimal::from_u128(1), d)
}

/// The largest input that a slippage allows in place of an estimate: the
/// estimate over one less the slippage, rounded down.
pub open spec fn largest_input(estimate: u128, slippage: DecimalView) -> Option<u128> {
    divided(estimate, difference_of(whole(1), slippage))
}

/// The least output that a slippage allows in place of an estimate.
pub fn min_output(estimate: u128, slippage: &Decimal) -> (r: Option<u128>)
    requires
        slippage@.bounded(),
        slippage@.value() <= 1 as real,
    ensures
        r == least_output(estimate, slippage@),
        slippage@.value() >= 0 as real ==> (r matches Some(least) && least <= estimate),
{
    proof {
        if slippage@.value() >= 0 as real {
            least_output_is_no_more(estimate, slippage@);
        }
    }
    let kept: Decimal = one_minus(slippage);
    let amount: Decimal = Decimal::from_u128(estimate);
    let least: Decimal = product(&amount, &kept);
    proof {
        let x = estimate as real;
        let k = kept@.value();
        assert(x * k >= 0 as real) by (nonlinear_arith)
            requires
                x >= 0 as real,
                k >= 0 as real,
        ;
    }
    rounded_u128(&least)
}

/// The largest input that a slippage allows in place of an estimate.
pub fn max_input(estimate: u128, slippage: &Decimal) -> (r: Option<u128>)
    requires
        slippage@.bounded(),
    ensures
        r == largest_input(estimate, slippage@),
        0 as real <= slippage@.value() && slippage@.value() < 1 as real ==> (r matches Some(most) ==> most >= estimate),
{
    divide(estimate, &one_minus(slippage))
}

/// A decimal whose digits are those of a quotient is that quotient.
proof fn lemma_scaled_value(r: DecimalView, num: int, g: int)
    requires
        r.scale >= 0,
        r.digits * g == num * pow(10, r.scale as nat),
    ensures
        r.value() * (g as real) == num as real,
{
    let q = r.digits;
    let p = pow(10, r.scale as nat);
    lemma_pow_positive(10, r.scale as nat);
    let (y, w, x, n) = (q as real, g as real, p as real, num as real);
    assert((q * g) as real == (q as real) * (g as real)) by (nonlinear_arith);
    assert((num * p) as real == (num as real) * (p as real)) by (nonlinear_arith);
    assert((y / x) * w == n) by (nonlinear_arith)
        requires
            y * w == n * x,
            x > 0 as real,
    ;
}

/// A whole number over a power of ten is exact, with no more decimals than
/// that power has zeros.
pub(crate) proof fn lemma_quotient_exact(num: nat, k: nat)
    requires
        num < hundred_digits(),
        k > 0,
    ensures
        ({
            let r = quotient_of(
                DecimalView { digits: num as int, scale: 0 },
                DecimalView { digits: pow(10, k), scale: 0 },
            );
            &&& 0 <= r.scale <= k
            &&& r.digits * pow(10, k) == num * pow(10, r.scale as nat)
            &&& r.digits >= 0
            &&& r.digits == 0 <==> num == 0
            &&& r.value() * (pow(10, k) as real) == num as real
        }),
{
    let r = quotient_of(DecimalView { digits: num as int, scale: 0 }, DecimalView { digits: pow(10, k), scale: 0 });
    let g = pow(10, k);
    lemma_pow_positive(10, k);
    lemma_pow0(10);
    assert(g > 1) by {
        lemma_pow1(10);
        lemma_pow_adds(10, 1, (k - 1) as nat);
        lemma_pow_positive(10, (k - 1) as nat);
    }
    if num > 0 {
        assert(num * g >= g) by (nonlinear_arith)
            requires
                num >= 1,
                g >= 1,
        ;
        assert((num * g) % g == 0) by {
            vstd::arithmetic::div_mod::lemma_mod_multiples_basic(num as int, g);
        }
        assert(shifted_enough(num, g as nat, k));
        lemma_shift(num, g as nat, k);
        lemma_quotient_parts(num, g as nat);
        let t = division_shift(num, g as nat);
        let p = pow(10, t);
        lemma_pow_positive(10, t);
        lemma_pow_adds(10, t, (k - t) as nat);
        lemma_pow_positive(10, (k - t) as nat);
        let rest = pow(10, (k - t) as nat);
        let h = hundred_digits();
        assert(num * p < h * g) by (nonlinear_arith)
            requires
                num < h,
                g == p * rest,
                rest >= 1,
                p >= 1,
                num >= 0,
        {
            assert(p * rest >= p);
            assert(num * p < h * p);
            assert(h * p <= h * g);
        }
        assert(r.digits * g == num * p);
        assert(num * p > 0) by (nonlinear_arith)
            requires
                num >= 1,
                p >= 1,
        ;
        assert(r.digits > 0) by (nonlinear_arith)
            requires
                r.digits * g == num * p,
                num * p > 0,
                g > 0,
        ;
    } else {
        assert(r.digits == 0 && r.scale == 0);
        assert(r.digits * g == 0 && num * pow(10, 0) == 0) by (nonlinear_arith)
            requires
                r.digits == 0,
                num == 0,
        ;
    }
    lemma_scaled_value(r, num as int, g);
}

/// Where the numerator stays below a hundred digits, the whole part of the
/// rounded quotient is that of the true one.
pub(crate) proof fn lemma_quotient_floor(num: nat, b: DecimalView)
    requires
        b.digits > 0,
        b.scale >= 0,
        num * pow(10, b.scale as nat) < hundred_digits(),
    ensures
        quotient_of(DecimalView { digits: num as int, scale: 0 }, b).value() >= 0 as real,
        cut_off(
            quotient_of(DecimalView { digits: num as int, scale: 0 }, b).value(),
            num * pow(10, b.scale as nat) / b.digits,
        ),
{
    let a = DecimalView { digits: num as int, scale: 0 };
    let v = quotient_of(a, b).value();
    let den = b.digits;
    let g = pow(10, b.scale as nat);
    lemma_pow_positive(10, b.scale as nat);
    let top = num * g;
    let n = top / den;
    lemma_whole_value(a);
    if num == 0 {
        assert(top == 0);
        vstd::arithmetic::div_mod::lemma_div_basics(den);
        return ;
    }
    if plainly_one(b) {
        vstd::arithmetic::div_mod::lemma_div_multiples_vanish(num as int, g);
        assert(g * num == num * g) by (nonlinear_arith);
        return ;
    }
    lemma_fundamental_div_mod(top, den);
    lemma_mod_bound(top, den);
    assert(top >= num && top >= 1) by (nonlinear_arith)
        requires
            top == num * g,
            num >= 1,
            g >= 1,
    ;
    lemma_div_pos_is_pos(top, den);
    assert(n * den <= top && top + 1 <= (n + 1) * den) by (nonlinear_arith)
        requires
            top == den * n + top % den,
            0 <= top % den < den,
    ;
    let t = division_shift(num, den as nat);
    let p = pow(10, t);
    lemma_pow_positive(10, t);
    let q = rounded_quotient(num, den as nat, t);
    let shifted = num * p;
    lemma_quotient_parts(num, den as nat);
    lemma_quotient_value(num, b);
    let (x, s, y, d) = (p as real, g as real, q as real, den as real);
    assert(v * x == y * s);
    if q * den == shifted {
        assert((q * den) as real == (q as real) * (den as real)) by (nonlinear_arith);
        assert((num * p) as real == (num as real) * (p as real)) by (nonlinear_arith);
        assert((num * g) as real == (num as real) * (g as real)) by (nonlinear_arith);
        let c = num as real;
        let w = top as real;
        assert(v * d == w) by (nonlinear_arith)
            requires
                v * x == y * s,
                y * d == c * x,
                w == c * s,
                x > 0 as real,
        {
            assert((v * d) * x == (y * s) * d);
            assert((y * s) * d == (c * x) * s);
            assert((c * x) * s == w * x);
        }
        let z = n as real;
        assert((n * den) as real == (n as real) * (den as real)) by (nonlinear_arith);
        assert(((n + 1) * den) as real == ((n + 1) as real) * (den as real)) by (nonlinear_arith);
        let z1 = (n + 1) as real;
        assert(z <= v && v < z1) by (nonlinear_arith)
            requires
                v * d == w,
                z * d <= w,
                w < z1 * d,
                d > 0 as real,
        ;
        assert(cut_off(v, n));
        return ;
    }
    let h = hundred_digits();
    if t < b.scale {
        lemma_pow_adds(10, t, (b.scale - t) as nat);
        lemma_pow_positive(10, (b.scale - t) as nat);
        let rest = pow(10, (b.scale - t) as nat);
        assert(false) by (nonlinear_arith)
            requires
                num * p >= h * den,
                den >= 1,
                h > num * g,
                h >= 0,
                g == p * rest,
                rest >= 1,
                p >= 1,
                num >= 0,
        {
            assert(h * den >= h);
            assert(p * rest >= p);
            assert(num * g >= num * p);
        }
    }
    let k = (t - b.scale) as nat;
    lemma_pow_adds(10, b.scale as nat, k);
    lemma_pow_positive(10, k);
    let m = pow(10, k);
    assert(shifted == top * m) by (nonlinear_arith)
        requires
            shifted == num * p,
            p == g * m,
            top == num * g,
    ;
    assert(q >= n * m) by (nonlinear_arith)
        requires
            2 * shifted - den < 2 * (q * den),
            shifted == top * m,
            n * den <= top,
            m >= 0,
            den > 0,
    {
        if q < n * m {
            assert(q * den <= (n * m - 1) * den);
            assert((n * m - 1) * den == (n * den) * m - den);
            assert((n * den) * m <= top * m);
        }
    }
    assert(m > den) by (nonlinear_arith)
        requires
            top * m >= h * den,
            h > top,
            top >= 1,
            den > 0,
    {
        if m <= den {
            assert(top * m <= top * den);
            assert(top * den < h * den);
        }
    }
    assert(q < (n + 1) * m) by (nonlinear_arith)
        requires
            2 * (q * den) <= 2 * shifted + den,
            shifted == top * m,
            top + 1 <= (n + 1) * den,
            m > den,
            den > 0,
    {
        if q >= (n + 1) * m {
            assert(q * den >= ((n + 1) * m) * den);
            assert(((n + 1) * m) * den == ((n + 1) * den) * m);
            assert(((n + 1) * den) * m >= (top + 1) * m);
            assert((top + 1) * m == top * m + m);
        }
    }
    assert((g * m) as real == (g as real) * (m as real)) by (nonlinear_arith);
    assert((n * m) as real == (n as real) * (m as real)) by (nonlinear_arith);
    assert(((n + 1) * m) as real == ((n + 1) as real) * (m as real)) by (nonlinear_arith);
    let (z, z1, w) = (n as real, (n + 1) as real, m as real);
    assert(z <= v && v < z1) by (nonlinear_arith)
        requires
            v * x == y * s,
            x == s * w,
            z * w <= y,
            y < z1 * w,
            s > 0 as real,
            w > 0 as real,
    {
        assert((v * w) * s == y * s);
        assert(v * w == y);
    }
}

/// The whole part of a number whose fraction leaves `n`.
pub(crate) proof fn lemma_whole_of_floor(x: real, n: int)
    requires
        n >= 0,
        cut_off(x, n),
        x >= 0 as real,
    ensures
        whole_part(x) == if n <= u128::MAX {
            Some(n as u128)
        } else {
            None::<u128>
        },
{
    if n <= u128::MAX {
        lemma_whole_part(x, n as u128);
    } else {
        assert(n as real >= 0x1_0000_0000_0000_0000_0000_0000_0000_0000int as real);
    }
}

/// A true quotient of whole numbers leaves what their division does.
pub(crate) proof fn lemma_floor_of_quotient(x: real, top: nat, den: nat)
    requires
        den > 0,
        x * (den as real) == top as real,
    ensures
        x >= 0 as real,
        cut_off(x, (top / den) as int),
{
    let n = (top / den) as int;
    lemma_fundamental_div_mod(top as int, den as int);
    lemma_mod_bound(top as int, den as int);
    let rest = (top as int) % (den as int);
    assert(n * den <= top < (n + 1) * den) by (nonlinear_arith)
        requires
            top == den * n + rest,
            0 <= rest < den,
    ;
    let d = den;
    assert((n * d) as real == (n as real) * (d as real)) by (nonlinear_arith);
    assert(((n + 1) * d) as real == ((n + 1) as real) * (d as real)) by (nonlinear_arith);
    let (z, z1, w, t) = (n as real, (n + 1) as real, den as real, top as real);
    assert(x >= 0 as real && z <= x && x < z1) by (nonlinear_arith)
        requires
            x * w == t,
            z * w <= t,
            t < z1 * w,
            w > 0 as real,
            t >= 0 as real,
    ;
}

/// A whole number over a decimal that is `down` over `up`, rounded down, is
/// what the whole numbers come to.
pub(crate) proof fn lemma_quotient_ratio(amount: u128, by: DecimalView, up: nat, down: nat)
    requires
        0 <= by.scale <= 48,
        by.digits > 0,
        by.digits * up == down * pow(10, by.scale as nat),
        up > 0,
        down > 0,
    ensures
        quotient_of(whole(amount), by).value() >= 0 as real,
        whole_part(quotient_of(whole(amount), by).value()) == ratio(amount as nat, up, down),
{
    let s = by.scale as nat;
    let g = pow(10, s);
    lemma_short();
    lemma_pow_positive(10, s);
    lemma_pow_increases(10, s, 48);
    let top = amount * g;
    assert(0 <= top && top < hundred_digits()) by (nonlinear_arith)
        requires
            top == amount * g,
            0 <= amount <= u128::MAX,
            0 <= g <= pow(10, 48),
            hundred_digits() > 0x1_0000_0000_0000_0000_0000_0000_0000_0000int * pow(10, 48),
    ;
    lemma_quotient_floor(amount as nat, by);
    let n = top / by.digits;
    assert(n == amount * up / (down as int)) by {
        lemma_div_multiples_vanish_quotient(up as int, top, by.digits);
        lemma_div_multiples_vanish_quotient(g, amount * up, down as int);
        assert(up * top == g * (amount * up)) by (nonlinear_arith)
            requires
                top == amount * g,
        ;
        assert(up * by.digits == g * down) by (nonlinear_arith)
            requires
                by.digits * up == down * g,
        ;
    }
    lemma_div_pos_is_pos(top, by.digits);
    lemma_whole_of_floor(quotient_of(whole(amount), by).value(), n);
}

/// A number that fits has a whole part.
pub(crate) proof fn lemma_fits_has_whole(x: real)
    requires
        fits_u128(x),
    ensures
        whole_part(x) matches Some(n) && cut_off(x, n as int),
{
    lemma_floor_exists(x, 0, 0x1_0000_0000_0000_0000_0000_0000_0000_0000int);
    let n = choose|n: int| cut_off(x, n) && 0 <= n <= 0x1_0000_0000_0000_0000_0000_0000_0000_0000int;
    assert(cut_off(x, n as u128 as int));
}

/// The least output that a slippage allows is no more than the estimate.
pub proof fn least_output_is_no_more(estimate: u128, slippage: DecimalView)
    requires
        slippage.value() >= 0 as real,
        slippage.value() <= 1 as real,
    ensures
        least_output(estimate, slippage) matches Some(least) && least <= estimate,
{
    let x = estimate as real;
    let s = slippage.value();
    let y = x * ((1 as real) - s);
    assert(0 as real <= y && y <= x) by (nonlinear_arith)
        requires
            x >= 0 as real,
            0 as real <= s,
            s <= 1 as real,
            y == x * ((1 as real) - s),
    ;
    assert(fits_u128(y));
    lemma_floor_exists(y, 0, estimate as int);
    let n = choose|n: int| cut_off(y, n) && 0 <= n <= estimate;
    lemma_whole_part(y, n as u128);
}

/// A number between two whole numbers has a whole part between them.
proof fn lemma_floor_exists(x: real, low: int, high: int)
    requires
        0 <= low <= high,
        (low as real) <= x,
        x <= (high as real),
    ensures
        exists|n: int| cut_off(x, n) && low <= n <= high,
    decreases high - low,
{
    if x < (low as real) + (1 as real) {
        assert(cut_off(x, low));
    } else {
        assert((low + 1) as real == (low as real) + (1 as real));
        lemma_floor_exists(x, low + 1, high);
        let n = choose|n: int| cut_off(x, n) && low + 1 <= n <= high;
        assert(cut_off(x, n));
    }
}

/// A slippage in basis points, rounded down; none where it is not between
/// nothing and the whole.
pub open spec fn slippage_bp(slippage: DecimalView) -> Option<u128> {
    let s = slippage.value();
    if s < 0 as real || s > 1 as real {
        None
    } else {
        whole_part(s * (10_000 as real))
    }
}

/// A slippage in basis points.
pub fn bp_of(slippage: &Decimal) -> (r: Option<u128>)
    requires
        slippage@.bounded(),
    ensures
        r == slippage_bp(slippage@),
        r matches Some(bp) ==> bp <= 10_000,
{
    let one: Decimal = Decimal::from_u128(1);
    if slippage.is_negative() || less(&one, slippage) {
        return None;
    }
    let scaled: Decimal = product(slippage, &Decimal::from_u128(10_000));
    proof {
        let s = slippage@.value();
        assert(0 as real <= s * (10_000 as real) && s * (10_000 as real) <= 10_000 as real);
    }
    let r: Option<u128> = rounded_u128(&scaled);
    proof {
        let x = scaled@.value();
        lemma_fits_has_whole(x);
        let n = r->0;
        if n > 10_000 {
            assert(10_001 as real <= n as real);
        }
    }
    r
}

} // verus!
