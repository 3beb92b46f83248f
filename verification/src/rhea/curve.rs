//! The stable-swap invariant and its Newton iterations, in checked arithmetic.
//!
//! Every number is a natural number below the limit of a width; an operation
//! whose result is not has none, and neither has anything computed from it.

use vstd::arithmetic::div_mod::lemma_div_multiples_vanish;
use vstd::arithmetic::power::{lemma_pow0, lemma_pow_increases, pow};
use vstd::prelude::*;

use crate::wide::{checked, checked_quotient, opt_value, u128_limit, width_limit, Width, U384};

verus! {

/// How often an iteration is repeated at most.
pub const MAX_ITERATIONS: u32 = 256;

/// The product of two checked numbers.
pub open spec fn opt_mul(a: Option<nat>, b: Option<nat>, width: Width) -> Option<nat> {
    match (a, b) {
        (Some(a), Some(b)) => checked((a * b) as int, width),
        _ => None,
    }
}

/// The sum of two checked numbers.
pub open spec fn opt_add(a: Option<nat>, b: Option<nat>, width: Width) -> Option<nat> {
    match (a, b) {
        (Some(a), Some(b)) => checked((a + b) as int, width),
        _ => None,
    }
}

/// The difference of two checked numbers.
pub open spec fn opt_sub(a: Option<nat>, b: Option<nat>) -> Option<nat> {
    match (a, b) {
        (Some(a), Some(b)) => if a >= b {
            Some((a - b) as nat)
        } else {
            None
        },
        _ => None,
    }
}

/// The quotient of two checked numbers, rounded down.
pub open spec fn opt_div(a: Option<nat>, b: Option<nat>) -> Option<nat> {
    match (a, b) {
        (Some(a), Some(b)) => checked_quotient(a, b),
        _ => None,
    }
}

/// The number itself where it fits in 128 bits.
pub open spec fn opt_u128(n: int) -> Option<nat> {
    if 0 <= n < u128_limit() {
        Some(n as nat)
    } else {
        None
    }
}

/// The view of an optional 128-bit number.
pub open spec fn opt_nat(n: Option<u128>) -> Option<nat> {
    match n {
        Some(n) => Some(n as nat),
        None => None,
    }
}

/// The sum of the first `k` amounts.
pub open spec fn partial_sum(amounts: Seq<u128>, k: int) -> int
    decreases k,
{
    if k <= 0 {
        0
    } else {
        partial_sum(amounts, k - 1) + amounts[k - 1]
    }
}

/// Partial sums grow.
proof fn lemma_partial_sum_grows(amounts: Seq<u128>, i: int, j: int)
    requires
        0 <= i <= j,
    ensures
        0 <= partial_sum(amounts, i) <= partial_sum(amounts, j),
    decreases j,
{
    if i < j {
        lemma_partial_sum_grows(amounts, i, j - 1);
    } else if i > 0 {
        lemma_partial_sum_grows(amounts, i - 1, i - 1);
    }
}

/// The sum of the amounts, where it fits in 128 bits.
pub fn sum_amounts(amounts: &[u128]) -> (r: Option<u128>)
    ensures
        opt_nat(r) == opt_u128(partial_sum(amounts@, amounts@.len() as int)),
{
    let n: usize = amounts.len();
    let mut total: u128 = 0;
    let mut i: usize = 0;
    while i < n
        invariant
            i <= n,
            n == amounts@.len(),
            total == partial_sum(amounts@, i as int),
        decreases n - i,
    {
        proof {
            lemma_partial_sum_grows(amounts@, i + 1, n as int);
        }
        match total.checked_add(amounts[i]) {
            Some(t) => {
                total = t;
            },
            None => {
                return None;
            },
        }
        i = i + 1;
    }
    Some(total)
}

/// `base` to the power of `exp`, where it fits in 128 bits.
pub fn checked_pow(base: u128, exp: u32) -> (r: Option<u128>)
    ensures
        opt_nat(r) == opt_u128(pow(base as int, exp as nat)),
{
    let mut acc: u128 = 1;
    let mut i: u32 = 0;
    proof {
        lemma_pow0(base as int);
    }
    while i < exp
        invariant
            i <= exp,
            acc == pow(base as int, i as nat),
        decreases exp - i,
    {
        proof {
            reveal(pow);
            assert(pow(base as int, (i + 1) as nat) == base * pow(base as int, i as nat));
            assert(acc * base == base * acc) by (nonlinear_arith);
            if base > 0 {
                lemma_pow_increases(base as nat, (i + 1) as nat, exp as nat);
            } else {
                assert(acc * base == 0) by (nonlinear_arith)
                    requires
                        base == 0,
                ;
            }
        }
        match acc.checked_mul(base) {
            Some(a) => {
                acc = a;
            },
            None => {
                return None;
            },
        }
        i = i + 1;
    }
    Some(acc)
}

/// The number of coins to its own power, where it fits in 128 bits; the
/// exponent is a 32-bit number.
pub open spec fn coins_power(n: nat) -> Option<nat> {
    opt_u128(pow(n as int, n % 0x1_0000_0000))
}

/// The number of coins to its own power.
fn coins_power_of(n: usize) -> (r: Option<u128>)
    ensures
        opt_nat(r) == coins_power(n as nat),
{
    let exp: u32 = (n as u64 % 0x1_0000_0000) as u32;
    checked_pow(n as u128, exp)
}

/// The amplification times the number of coins to its own power.
pub open spec fn amplification(amp: nat, n: nat) -> Option<nat> {
    match coins_power(n) {
        Some(p) => opt_u128((amp * p) as int),
        None => None,
    }
}

/// The amplification times the number of coins to its own power.
fn amplification_of(amp: u128, n: usize) -> (r: Option<u128>)
    ensures
        opt_nat(r) == amplification(amp as nat, n as nat),
{
    match coins_power_of(n) {
        Some(p) => amp.checked_mul(p),
        None => None,
    }
}

/// `d` to the power of `k + 1`, divided step by step by `n` times each of the
/// first `k` amounts.
pub open spec fn d_product(amounts: Seq<u128>, d: nat, k: int, width: Width) -> Option<nat>
    decreases k,
{
    if k <= 0 {
        Some(d)
    } else {
        opt_div(
            opt_mul(d_product(amounts, d, k - 1, width), Some(d), width),
            opt_u128((amounts[k - 1] * amounts.len()) as int),
        )
    }
}

/// The next approximation of the invariant `D`:
/// `(ann * sum + n * prod) * d / ((ann - 1) * d + (n + 1) * prod)`.
pub open spec fn d_next(amp: nat, amounts: Seq<u128>, d: nat, width: Width) -> Option<nat> {
    let n = amounts.len();
    let sum = partial_sum(amounts, n as int) as nat;
    let prod = d_product(amounts, d, n as int, width);
    let ann = amplification(amp, n);
    opt_div(
        opt_mul(Some(d), opt_add(opt_mul(prod, Some(n), width), opt_mul(Some(sum), ann, width), width), width),
        opt_add(
            opt_mul(Some(d), opt_sub(ann, Some(1)), width),
            opt_mul(prod, Some(n + 1), width),
            width,
        ),
    )
}

/// The invariant after at most `rounds` more approximations, which stop when
/// one differs from the one before by at most one.
pub open spec fn d_iterate(amp: nat, amounts: Seq<u128>, d: nat, rounds: nat, width: Width) -> Option<nat>
    decreases rounds,
{
    if rounds == 0 {
        Some(d)
    } else {
        match d_next(amp, amounts, d, width) {
            Some(next) => if -1 <= next - d <= 1 {
                Some(next)
            } else {
                d_iterate(amp, amounts, next, (rounds - 1) as nat, width)
            },
            None => None,
        }
    }
}

/// The stable-swap invariant `D` of the amounts, approximated from their sum.
pub open spec fn invariant_d(amp: nat, amounts: Seq<u128>, width: Width) -> Option<nat> {
    match opt_u128(partial_sum(amounts, amounts.len() as int)) {
        Some(sum) => if sum == 0 {
            Some(0)
        } else {
            d_iterate(amp, amounts, sum, MAX_ITERATIONS as nat, width)
        },
        None => None,
    }
}

fn d_product_of(amounts: &[u128], d: U384, width: Width) -> (r: Option<U384>)
    ensures
        opt_value(r) == d_product(amounts@, d@, amounts@.len() as int, width),
{
    let n: usize = amounts.len();
    let mut prod: U384 = d;
    let mut i: usize = 0;
    while i < n
        invariant
            i <= n,
            n == amounts@.len(),
            d_product(amounts@, d@, i as int, width) == Some(prod@),
        decreases n - i,
    {
        proof {
            lemma_d_product_none(amounts@, d@, i + 1, n as int, width);
        }
        let scaled: u128 = match amounts[i].checked_mul(n as u128) {
            Some(scaled) => scaled,
            None => {
                return None;
            },
        };
        let product: U384 = match prod.checked_mul(d, width) {
            Some(product) => product,
            None => {
                return None;
            },
        };
        match product.checked_div(U384::from_u128(scaled)) {
            Some(p) => {
                prod = p;
            },
            None => {
                return None;
            },
        }
        i = i + 1;
    }
    Some(prod)
}

/// A product that has no value after `i` amounts has none after more.
proof fn lemma_d_product_none(amounts: Seq<u128>, d: nat, i: int, j: int, width: Width)
    requires
        0 <= i <= j,
    ensures
        d_product(amounts, d, i, width) is None ==> d_product(amounts, d, j, width) is None,
    decreases j,
{
    if i < j {
        lemma_d_product_none(amounts, d, i, j - 1, width);
    }
}

/// The next approximation of the invariant.
fn d_next_of(amp: u128, amounts: &[u128], sum: u128, d: U384, width: Width) -> (r: Option<U384>)
    requires
        sum == partial_sum(amounts@, amounts@.len() as int),
    ensures
        opt_value(r) == d_next(amp as nat, amounts@, d@, width),
{
    let n: usize = amounts.len();
    let prod: U384 = match d_product_of(amounts, d, width) {
        Some(prod) => prod,
        None => { return None; },
    };
    let ann: u128 = match amplification_of(amp, n) {
        Some(ann) => ann,
        None => { return None; },
    };
    let leverage: U384 = match U384::from_u128(sum).checked_mul(U384::from_u128(ann), width) {
        Some(leverage) => leverage,
        None => { return None; },
    };
    let weighted: U384 = match prod.checked_mul(U384::from_u128(n as u128), width) {
        Some(weighted) => weighted,
        None => { return None; },
    };
    let factor: U384 = match weighted.checked_add(leverage, width) {
        Some(factor) => factor,
        None => { return None; },
    };
    let numerator: U384 = match d.checked_mul(factor, width) {
        Some(numerator) => numerator,
        None => { return None; },
    };
    let ann_minus_one: u128 = match ann.checked_sub(1) {
        Some(a) => a,
        None => { return None; },
    };
    let damped: U384 = match d.checked_mul(U384::from_u128(ann_minus_one), width) {
        Some(damped) => damped,
        None => { return None; },
    };
    let widened: U384 = match prod.checked_mul(U384::from_u128(n as u128 + 1), width) {
        Some(widened) => widened,
        None => { return None; },
    };
    let denominator: U384 = match damped.checked_add(widened, width) {
        Some(denominator) => denominator,
        None => { return None; },
    };
    numerator.checked_div(denominator)
}

/// Approximates the stable-swap invariant of the amounts.
pub fn compute_d(amp: u128, amounts: &[u128], width: Width) -> (r: Option<U384>)
    ensures
        opt_value(r) == invariant_d(amp as nat, amounts@, width),
{
    let sum: u128 = match sum_amounts(amounts) {
        Some(sum) => sum,
        None => { return None; },
    };
    if sum == 0 {
        return Some(U384::from_u128(0));
    }
    let mut d: U384 = U384::from_u128(sum);
    let mut rounds: u32 = MAX_ITERATIONS;
    while rounds > 0
        invariant
            sum == partial_sum(amounts@, amounts@.len() as int),
            invariant_d(amp as nat, amounts@, width) == d_iterate(
                amp as nat,
                amounts@,
                d@,
                rounds as nat,
                width,
            ),
        decreases rounds,
    {
        match d_next_of(amp, amounts, sum, d, width) {
            Some(next) => {
                if next.within_one(d) {
                    return Some(next);
                }
                d = next;
            },
            None => { return None; },
        }
        rounds = rounds - 1;
    }
    Some(d)
}

/// Whether the amount at `i` is neither the one that changes nor the one
/// that is solved for.
pub open spec fn is_other(i: int, index_x: int, index_y: int) -> bool {
    i != index_x && i != index_y
}

/// The new amount of `x` and the first `k` of the other amounts, added up.
pub open spec fn y_sum(amounts: Seq<u128>, x: int, index_x: int, index_y: int, k: int) -> int
    decreases k,
{
    if k <= 0 {
        x
    } else {
        y_sum(amounts, x, index_x, index_y, k - 1) + if is_other(k - 1, index_x, index_y) {
            amounts[k - 1] as int
        } else {
            0
        }
    }
}

/// `d` squared over the new amount of `x`, then times `d` over each of the
/// first `k` of the other amounts.
pub open spec fn y_coefficient(
    amounts: Seq<u128>,
    d: nat,
    x: nat,
    index_x: int,
    index_y: int,
    k: int,
    width: Width,
) -> Option<nat>
    decreases k,
{
    if k <= 0 {
        opt_div(opt_mul(Some(d), Some(d), width), Some(x))
    } else {
        let before = y_coefficient(amounts, d, x, index_x, index_y, k - 1, width);
        if is_other(k - 1, index_x, index_y) {
            opt_div(opt_mul(before, Some(d), width), Some(amounts[k - 1] as nat))
        } else {
            before
        }
    }
}

/// The next approximation of `y` in `y * y + b * y = c`, where `b` still
/// holds `d`: `(y * y + c) / (2 * y + b - d)`.
pub open spec fn y_next(y: nat, b: nat, c: nat, d: nat, width: Width) -> Option<nat> {
    opt_div(
        opt_add(opt_mul(Some(y), Some(y), width), Some(c), width),
        opt_sub(opt_add(opt_mul(Some(y), Some(2), width), Some(b), width), Some(d)),
    )
}

/// The solution after at most `rounds` more approximations, which stop when
/// one differs from the one before by at most one.
pub open spec fn y_iterate(y: nat, b: nat, c: nat, d: nat, rounds: nat, width: Width) -> Option<nat>
    decreases rounds,
{
    if rounds == 0 {
        Some(y)
    } else {
        match y_next(y, b, c, d, width) {
            Some(next) => if -1 <= next - y <= 1 {
                Some(next)
            } else {
                y_iterate(next, b, c, d, (rounds - 1) as nat, width)
            },
            None => None,
        }
    }
}

/// The amount of the coin at `index_y` that keeps the invariant when the coin
/// at `index_x` has the amount `x`.
pub open spec fn balance_y(
    amp: nat,
    amounts: Seq<u128>,
    x: nat,
    index_x: int,
    index_y: int,
    width: Width,
) -> Option<nat> {
    let n = amounts.len();
    let ann = amplification(amp, n);
    match invariant_d(amp, amounts, width) {
        Some(d) => {
            let c = opt_div(
                opt_mul(y_coefficient(amounts, d, x, index_x, index_y, n as int, width), Some(d), width),
                match (ann, coins_power(n)) {
                    (Some(ann), Some(p)) => opt_u128((ann * p) as int),
                    _ => None,
                },
            );
            let b = opt_add(
                opt_div(Some(d), ann),
                opt_u128(y_sum(amounts, x as int, index_x, index_y, n as int)),
                width,
            );
            match (b, c) {
                (Some(b), Some(c)) => y_iterate(d, b, c, d, MAX_ITERATIONS as nat, width),
                _ => None,
            }
        },
        None => None,
    }
}

/// The sum of amounts only grows.
proof fn lemma_y_sum_grows(amounts: Seq<u128>, x: int, index_x: int, index_y: int, i: int, j: int)
    requires
        0 <= i <= j,
        0 <= x,
    ensures
        0 <= y_sum(amounts, x, index_x, index_y, i) <= y_sum(amounts, x, index_x, index_y, j),
    decreases j,
{
    if i < j {
        lemma_y_sum_grows(amounts, x, index_x, index_y, i, j - 1);
    } else if i > 0 {
        lemma_y_sum_grows(amounts, x, index_x, index_y, i - 1, i - 1);
    }
}

/// A coefficient that has no value after `i` amounts has none after more.
proof fn lemma_y_coefficient_none(
    amounts: Seq<u128>,
    d: nat,
    x: nat,
    index_x: int,
    index_y: int,
    i: int,
    j: int,
    width: Width,
)
    requires
        0 <= i <= j,
    ensures
        y_coefficient(amounts, d, x, index_x, index_y, i, width) is None ==> y_coefficient(
            amounts,
            d,
            x,
            index_x,
            index_y,
            j,
            width,
        ) is None,
    decreases j,
{
    if i < j {
        lemma_y_coefficient_none(amounts, d, x, index_x, index_y, i, j - 1, width);
    }
}

/// The sum and the coefficient over all the amounts.
fn y_terms(
    amounts: &[u128],
    d: U384,
    x: u128,
    index_x: usize,
    index_y: usize,
    width: Width,
) -> (r: Option<(u128, U384)>)
    ensures
        ({
            let s = opt_u128(
                y_sum(amounts@, x as int, index_x as int, index_y as int, amounts@.len() as int),
            );
            let c = y_coefficient(
                amounts@,
                d@,
                x as nat,
                index_x as int,
                index_y as int,
                amounts@.len() as int,
                width,
            );
            match r {
                Some(terms) => s == Some(terms.0 as nat) && c == Some(terms.1@),
                None => s is None || c is None,
            }
        }),
{
    let n: usize = amounts.len();
    let mut s: u128 = x;
    let ghost ix = index_x as int;
    let ghost iy = index_y as int;
    proof {
        lemma_y_coefficient_none(amounts@, d@, x as nat, ix, iy, 0, n as int, width);
    }
    let squared: U384 = match d.checked_mul(d, width) {
        Some(squared) => squared,
        None => { return None; },
    };
    let mut c: U384 = match squared.checked_div(U384::from_u128(x)) {
        Some(c) => c,
        None => { return None; },
    };
    let mut i: usize = 0;
    while i < n
        invariant
            i <= n,
            n == amounts@.len(),
            ix == index_x,
            iy == index_y,
            s == y_sum(amounts@, x as int, ix, iy, i as int),
            y_coefficient(amounts@, d@, x as nat, ix, iy, i as int, width) == Some(c@),
        decreases n - i,
    {
        if i != index_x && i != index_y {
            proof {
                lemma_y_sum_grows(amounts@, x as int, ix, iy, i + 1, n as int);
                lemma_y_coefficient_none(amounts@, d@, x as nat, ix, iy, i + 1, n as int, width);
            }
            match s.checked_add(amounts[i]) {
                Some(t) => {
                    s = t;
                },
                None => { return None; },
            }
            let product: U384 = match c.checked_mul(d, width) {
                Some(product) => product,
                None => { return None; },
            };
            match product.checked_div(U384::from_u128(amounts[i])) {
                Some(q) => {
                    c = q;
                },
                None => { return None; },
            }
        }
        i = i + 1;
    }
    Some((s, c))
}

/// The next approximation of `y`.
fn y_next_of(y: U384, b: U384, c: U384, d: U384, width: Width) -> (r: Option<U384>)
    ensures
        opt_value(r) == y_next(y@, b@, c@, d@, width),
{
    let squared: U384 = match y.checked_mul(y, width) {
        Some(squared) => squared,
        None => { return None; },
    };
    let numerator: U384 = match squared.checked_add(c, width) {
        Some(numerator) => numerator,
        None => { return None; },
    };
    let doubled: U384 = match y.checked_mul(U384::from_u128(2), width) {
        Some(doubled) => doubled,
        None => { return None; },
    };
    let shifted: U384 = match doubled.checked_add(b, width) {
        Some(shifted) => shifted,
        None => { return None; },
    };
    let denominator: U384 = match shifted.checked_sub(d) {
        Some(denominator) => denominator,
        None => { return None; },
    };
    numerator.checked_div(denominator)
}

/// Approximates the amount of the coin at `index_y` that keeps the invariant
/// when the coin at `index_x` has the amount `x`.
pub fn compute_y(
    amp: u128,
    amounts: &[u128],
    x: u128,
    index_x: usize,
    index_y: usize,
    width: Width,
) -> (r: Option<U384>)
    ensures
        opt_value(r) == balance_y(
            amp as nat,
            amounts@,
            x as nat,
            index_x as int,
            index_y as int,
            width,
        ),
{
    let n: usize = amounts.len();
    let d: U384 = match compute_d(amp, amounts, width) {
        Some(d) => d,
        None => { return None; },
    };
    let p: u128 = match coins_power_of(n) {
        Some(p) => p,
        None => { return None; },
    };
    let ann: u128 = match amp.checked_mul(p) {
        Some(ann) => ann,
        None => { return None; },
    };
    let (s, c): (u128, U384) = match y_terms(amounts, d, x, index_x, index_y, width) {
        Some(terms) => terms,
        None => { return None; },
    };
    let product: U384 = match c.checked_mul(d, width) {
        Some(product) => product,
        None => { return None; },
    };
    let divisor: u128 = match ann.checked_mul(p) {
        Some(divisor) => divisor,
        None => { return None; },
    };
    let c: U384 = match product.checked_div(U384::from_u128(divisor)) {
        Some(c) => c,
        None => { return None; },
    };
    let share: U384 = match d.checked_div(U384::from_u128(ann)) {
        Some(share) => share,
        None => { return None; },
    };
    let b: U384 = match share.checked_add(U384::from_u128(s), width) {
        Some(b) => b,
        None => { return None; },
    };
    let ghost target = y_iterate(d@, b@, c@, d@, MAX_ITERATIONS as nat, width);
    let mut y: U384 = d;
    let mut rounds: u32 = MAX_ITERATIONS;
    while rounds > 0
        invariant
            target == y_iterate(y@, b@, c@, d@, rounds as nat, width),
            target == balance_y(
                amp as nat,
                amounts@,
                x as nat,
                index_x as int,
                index_y as int,
                width,
            ),
        decreases rounds,
    {
        match y_next_of(y, b, c, d, width) {
            Some(next) => {
                if next.within_one(y) {
                    return Some(next);
                }
                y = next;
            },
            None => { return None; },
        }
        rounds = rounds - 1;
    }
    Some(y)
}

/// The sum of equal amounts.
proof fn lemma_equal_sum(amounts: Seq<u128>, x: u128, k: int)
    requires
        0 <= k <= amounts.len(),
        forall|i: int| 0 <= i < amounts.len() ==> #[trigger] amounts[i] == x,
    ensures
        partial_sum(amounts, k) == k * x,
    decreases k,
{
    if k > 0 {
        lemma_equal_sum(amounts, x, k - 1);
        assert(k * x == (k - 1) * x + x) by (nonlinear_arith);
        assert(amounts[k - 1] == x);
    } else {
        assert(k * x == 0) by (nonlinear_arith)
            requires
                k == 0,
        ;
    }
}

/// The product over equal amounts stays at their sum.
proof fn lemma_equal_product(amounts: Seq<u128>, x: u128, k: int, width: Width)
    requires
        0 <= k <= amounts.len(),
        forall|i: int| 0 <= i < amounts.len() ==> #[trigger] amounts[i] == x,
        0 < x,
        x * amounts.len() < u128_limit(),
    ensures
        ({
            let d = (x * amounts.len()) as nat;
            let product = d_product(amounts, d, k, width);
            &&& product matches Some(p) ==> p == d
            &&& d * d < width_limit(width) ==> product is Some
        }),
    decreases k,
{
    let d = (x * amounts.len()) as nat;
    if k > 0 {
        lemma_equal_product(amounts, x, k - 1, width);
        assert(d > 0) by (nonlinear_arith)
            requires
                d == x * amounts.len(),
                x > 0,
                amounts.len() > 0,
        ;
        lemma_div_multiples_vanish(d as int, d as int);
        assert(d * d / d == d);
        assert(amounts[k - 1] * amounts.len() == d);
    }
}

/// Whether the numbers fit for `n` equal amounts whose sum is `d`.
pub open spec fn equal_fits(amp: nat, n: nat, d: nat, width: Width) -> bool {
    amplification(amp, n) matches Some(ann) && ann >= 1 && d * (d * n + d * ann) < width_limit(width)
}

/// The next approximation of equal amounts is their sum again.
proof fn lemma_equal_next(amp: nat, amounts: Seq<u128>, x: u128, width: Width)
    requires
        forall|i: int| 0 <= i < amounts.len() ==> #[trigger] amounts[i] == x,
        amounts.len() > 0,
        0 < x,
        x * amounts.len() < u128_limit(),
    ensures
        ({
            let d = (x * amounts.len()) as nat;
            let n = amounts.len();
            let next = d_next(amp, amounts, d, width);
            &&& next matches Some(next) ==> next == d
            &&& equal_fits(amp, n, d, width) ==> next is Some
        }),
{
    let n = amounts.len();
    let d = (x * n) as nat;
    lemma_equal_sum(amounts, x, n as int);
    lemma_equal_product(amounts, x, n as int, width);
    assert(d > 0) by (nonlinear_arith)
        requires
            d == x * n,
            x > 0,
            n > 0,
    ;
    assert(n * x == x * n) by (nonlinear_arith);
    match amplification(amp, n) {
        Some(ann) => {
            let top = d * (d * n + d * ann);
            let bottom = d * (ann - 1) + d * (n + 1);
            if ann >= 1 {
                assert(bottom == d * n + d * ann) by (nonlinear_arith)
                    requires
                        bottom == d * (ann - 1) + d * (n + 1),
                ;
                assert(bottom > 0 && top == d * bottom) by (nonlinear_arith)
                    requires
                        top == d * (d * n + d * ann),
                        bottom == d * (ann - 1) + d * (n + 1),
                        d > 0,
                        ann >= 1,
                        n > 0,
                ;
                lemma_div_multiples_vanish(d as int, bottom);
                assert(bottom * d == d * bottom) by (nonlinear_arith);
                assert(top as int / bottom == d);
                assert(d * d <= top && d * n + d * ann <= top && bottom <= top && d * n <= top && d * ann <= top && d
                    * (ann - 1) <= top && d * (n + 1) <= top) by (nonlinear_arith)
                    requires
                        top == d * bottom,
                        bottom == d * n + d * ann,
                        d >= 1,
                        ann >= 1,
                        n >= 1,
                {
                    assert(d * n >= d);
                    assert(d * ann >= d);
                    assert(bottom <= d * bottom);
                    assert(d * (ann - 1) == d * ann - d);
                    assert(d * (n + 1) == d * n + d);
                }
            }
        },
        None => {},
    }
}

/// The stable-swap invariant of equal amounts is their sum, wherever the
/// numbers fit.
pub proof fn invariant_of_equal_amounts(amp: nat, amounts: Seq<u128>, x: u128, width: Width)
    requires
        forall|i: int| 0 <= i < amounts.len() ==> #[trigger] amounts[i] == x,
    ensures
        ({
            let n = amounts.len();
            let d = (x * n) as nat;
            &&& invariant_d(amp, amounts, width) matches Some(found) ==> found == d
            &&& x * n < u128_limit() && (d == 0 || equal_fits(amp, n, d, width)) ==> invariant_d(
                amp,
                amounts,
                width,
            ) is Some
        }),
{
    let n = amounts.len();
    lemma_equal_sum(amounts, x, n as int);
    assert(n * x == x * n) by (nonlinear_arith);
    assert(x * n >= 0) by (nonlinear_arith)
        requires
            x >= 0,
            n >= 0,
    ;
    if 0 < x * n < u128_limit() {
        assert(x > 0 && n > 0) by (nonlinear_arith)
            requires
                x * n > 0,
                x >= 0,
                n >= 0,
        ;
        lemma_equal_next(amp, amounts, x, width);
    }
}

} // verus!
