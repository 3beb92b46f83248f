//! What the curve of stable and rated pools solves.

use vstd::arithmetic::power::pow;
use vstd::prelude::*;

use super::curve::{
    amplification, balance_y, coins_power, d_iterate, d_next, d_product, invariant_d, is_other, partial_sum,
    y_coefficient, y_iterate, y_sum,
};
use super::laws::{
    lemma_stands, rated_amounts_are_brought_to_twenty_four_decimals, rounds_come_to_the_solution, stands_at,
};
use super::pool::{rated_comparable, rated_pool_swap, CurvePoolView};
use super::rated::{rated, rated_amounts, rated_swap, unrated};
use super::stable::swapped_amount;
use crate::wide::Width;

verus! {

/// Amounts, added up.
pub open spec fn total(amounts: Seq<u128>) -> int
    decreases amounts.len(),
{
    if amounts.len() == 0 {
        0
    } else {
        total(amounts.drop_last()) + amounts.last()
    }
}

/// The first amounts, added up.
proof fn lemma_total(amounts: Seq<u128>, k: int)
    requires
        0 <= k <= amounts.len(),
    ensures
        partial_sum(amounts, k) == total(amounts.take(k)),
        total(amounts.take(k)) >= 0,
    decreases k,
{
    if k > 0 {
        lemma_total(amounts, k - 1);
        assert(amounts.take(k).drop_last() =~= amounts.take(k - 1));
    }
}

/// Whether a number is a quotient, rounded down.
pub open spec fn is_quotient(q: int, top: int, bottom: int) -> bool {
    q * bottom <= top < (q + 1) * bottom
}

/// A quotient that is rounded down.
proof fn lemma_is_quotient(top: int, bottom: int)
    requires
        top >= 0,
        bottom > 0,
    ensures
        is_quotient(top / bottom, top, bottom),
        top / bottom >= 0,
{
    vstd::arithmetic::div_mod::lemma_fundamental_div_mod(top, bottom);
    vstd::arithmetic::div_mod::lemma_mod_bound(top, bottom);
    vstd::arithmetic::div_mod::lemma_div_pos_is_pos(top, bottom);
    let q = top / bottom;
    assert(q * bottom <= top < (q + 1) * bottom) by (nonlinear_arith)
        requires
            bottom * q + top % bottom == top,
            0 <= top % bottom < bottom,
    ;
}

/// The product that a round goes by starts with `d`, and for every amount it
/// is multiplied by `d` and divided by the amount times the number of coins,
/// rounded down.
pub proof fn products_go_amount_by_amount(amounts: Seq<u128>, d: nat, k: int, width: Width)
    requires
        0 <= k <= amounts.len(),
    ensures
        d_product(amounts, d, 0, width) == Some(d),
        k > 0 ==> (d_product(amounts, d, k, width) matches Some(product) ==> {
            &&& d_product(amounts, d, k - 1, width) matches Some(before)
            &&& is_quotient(product as int, (before * d) as int, amounts[k - 1] * amounts.len())
        }),
{
    if k > 0 && d_product(amounts, d, k, width) is Some {
        let before = d_product(amounts, d, k - 1, width)->0;
        let top = before * d;
        let bottom = amounts[k - 1] * amounts.len();
        assert(top >= 0) by (nonlinear_arith)
            requires
                top == before * d,
                before >= 0,
                d >= 0,
        ;
        lemma_is_quotient(top as int, bottom);
    }
}

/// One round towards the sum that equal amounts would have: with `a` the
/// amplification times the number of coins to its own power, `s` the sum of
/// the amounts and `p` the product, the next number is
/// `d * (a * s + n * p) / ((a - 1) * d + (n + 1) * p)`, rounded down.
#[verifier::rlimit(50)]
pub proof fn rounds_follow_the_curve(amp: nat, amounts: Seq<u128>, d: nat, width: Width)
    requires
        amounts.len() < 0x1_0000_0000,
    ensures
        d_next(amp, amounts, d, width) matches Some(next) ==> {
            let n = amounts.len();
            let a = amp * pow(n as int, n);
            let s = total(amounts);
            &&& d_product(amounts, d, n as int, width) matches Some(p)
            &&& is_quotient(next as int, d * (a * s + n * p), (a - 1) * d + (n + 1) * p)
        },
{
    let n = amounts.len();
    lemma_total(amounts, n as int);
    assert(amounts.take(n as int) =~= amounts);
    vstd::arithmetic::div_mod::lemma_small_mod(n, 0x1_0000_0000);
    match d_next(amp, amounts, d, width) {
        Some(next) => {
            let p = d_product(amounts, d, n as int, width)->0;
            let ann = amplification(amp, n)->0;
            let a = amp * pow(n as int, n);
            assert(ann == a);
            let s = total(amounts);
            assert(p * n == n * p) by (nonlinear_arith);
            assert(s * ann == a * s) by (nonlinear_arith)
                requires
                    ann == a,
            ;
            assert(d * (ann - 1) == (a - 1) * d) by (nonlinear_arith)
                requires
                    ann == a,
            ;
            assert(p * (n + 1) == (n + 1) * p) by (nonlinear_arith);
            let top = d * (a * s + n * p);
            let bottom = (a - 1) * d + (n + 1) * p;
            assert(n * p + a * s == a * s + n * p);
            assert(top >= 0) by (nonlinear_arith)
                requires
                    top == d * (n * p + s * ann),
                    d >= 0,
                    n >= 0,
                    p >= 0,
                    s >= 0,
                    ann >= 0,
            ;
            assert(bottom > 0);
            lemma_is_quotient(top, bottom);
        },
        None => {},
    }
}

/// Whether a number is what a round makes of another that is off by no more
/// than one.
pub open spec fn has_settled(amp: nat, amounts: Seq<u128>, d: nat, before: nat, width: Width) -> bool {
    -1 <= d - before <= 1 && d_next(amp, amounts, before, width) == Some(d)
}

/// Where one more round changes nothing, the rounds have settled.
pub proof fn rounds_settle(amp: nat, amounts: Seq<u128>, start: nat, rounds: nat, width: Width)
    requires
        d_iterate(amp, amounts, start, rounds, width) == d_iterate(amp, amounts, start, rounds + 1, width),
    ensures
        d_iterate(amp, amounts, start, rounds, width) matches Some(d) ==> exists|before: nat| #[trigger]
            has_settled(amp, amounts, d, before, width),
    decreases rounds,
{
    match d_next(amp, amounts, start, width) {
        Some(next) => {
            if -1 <= next - start <= 1 {
                assert(d_iterate(amp, amounts, start, rounds + 1, width) == Some(next));
                assert(has_settled(amp, amounts, next, start, width));
            } else if rounds > 0 {
                rounds_settle(amp, amounts, next, (rounds - 1) as nat, width);
            } else {
                assert(d_iterate(amp, amounts, start, 0, width) == Some(start));
                assert(d_iterate(amp, amounts, next, 0, width) == Some(next));
                assert(d_iterate(amp, amounts, start, 1, width) == Some(next));
            }
        },
        None => {
            assert(d_iterate(amp, amounts, start, rounds + 1, width) is None);
        },
    }
}

/// The sum that equal amounts would have is looked for from the sum of the
/// amounts, in two hundred and fifty-six rounds at most; that of nothing is
/// nothing.
pub proof fn rounds_start_from_the_sum(amp: nat, amounts: Seq<u128>, width: Width)
    ensures
        total(amounts) > u128::MAX ==> invariant_d(amp, amounts, width) is None,
        total(amounts) == 0 ==> invariant_d(amp, amounts, width) == Some(0nat),
        0 < total(amounts) <= u128::MAX ==> invariant_d(amp, amounts, width) == d_iterate(
            amp,
            amounts,
            total(amounts) as nat,
            256,
            width,
        ),
{
    lemma_total(amounts, amounts.len() as int);
    assert(amounts.take(amounts.len() as int) =~= amounts);
}

/// The amounts besides two of them, added up.
pub open spec fn total_besides(amounts: Seq<u128>, i: int, j: int) -> int {
    total(amounts) - amounts[i] - amounts[j]
}

/// The sum that the solution goes by.
proof fn lemma_besides(amounts: Seq<u128>, x: int, i: int, j: int, k: int)
    requires
        0 <= k <= amounts.len(),
        i != j,
    ensures
        y_sum(amounts, x, i, j, k) == x + total(amounts.take(k)) - (if 0 <= i < k {
            amounts[i] as int
        } else {
            0
        }) - (if 0 <= j < k {
            amounts[j] as int
        } else {
            0
        }),
    decreases k,
{
    if k > 0 {
        lemma_besides(amounts, x, i, j, k - 1);
        assert(amounts.take(k).drop_last() =~= amounts.take(k - 1));
    } else {
        assert(amounts.take(0) =~= Seq::empty());
    }
}

/// The coefficient of the solution starts with `d` squared over the new
/// amount, and for every amount but the two it is multiplied by `d` and divided
/// by the amount, each rounded down.
pub proof fn coefficients_go_amount_by_amount(
    amounts: Seq<u128>,
    d: nat,
    x: nat,
    i: int,
    j: int,
    k: int,
    width: Width,
)
    requires
        0 <= k <= amounts.len(),
    ensures
        y_coefficient(amounts, d, x, i, j, k, width) matches Some(coefficient) ==> {
            &&& k == 0 ==> is_quotient(coefficient as int, (d * d) as int, x as int)
            &&& k > 0 ==> {
                &&& y_coefficient(amounts, d, x, i, j, k - 1, width) matches Some(before)
                &&& k - 1 == i || k - 1 == j ==> coefficient == before
                &&& k - 1 != i && k - 1 != j ==> is_quotient(
                    coefficient as int,
                    (before * d) as int,
                    amounts[k - 1] as int,
                )
            }
        },
{
    if y_coefficient(amounts, d, x, i, j, k, width) is Some {
        if k == 0 {
            let top = d * d;
            assert(top >= 0) by (nonlinear_arith)
                requires
                    top == d * d,
            ;
            lemma_is_quotient(top as int, x as int);
        } else if is_other(k - 1, i, j) {
            let before = y_coefficient(amounts, d, x, i, j, k - 1, width)->0;
            let top = before * d;
            assert(top >= 0) by (nonlinear_arith)
                requires
                    top == before * d,
                    before >= 0,
                    d >= 0,
            ;
            lemma_is_quotient(top as int, amounts[k - 1] as int);
        }
    }
}

/// Whether a number solves the quadratic equation of the curve: with `a` the
/// amplification times the number of coins to its own power, `b` the new amount
/// and those besides the two plus `d` over `a`, and `c` the coefficient times
/// `d` over `a` and the number of coins to its own power, each rounded down,
/// `y * y + (b - d) * y` comes to `c`, as near as whole numbers can, wherever
/// one more round would change nothing.
pub open spec fn solves(
    amp: nat,
    amounts: Seq<u128>,
    d: nat,
    x: nat,
    i: int,
    j: int,
    coefficient: nat,
    b: int,
    c: int,
    y: int,
    width: Width,
) -> bool {
    let n = amounts.len();
    let power = pow(n as int, n);
    let a = amp * power;
    &&& is_quotient(b - x - total_besides(amounts, i, j), d as int, a)
    &&& is_quotient(c, (coefficient * d) as int, a * power)
    &&& b >= 0 && c >= 0
    &&& y_iterate(d, b as nat, c as nat, d, 257, width) == Some(y as nat) ==> {
        &&& y * y + (b - d) * y <= c + 1
        &&& c < (y + 1) * (y + 1) + (b - d) * (y + 1)
    }
}

/// The amount that a coin has when another has a new one solves the equation
/// of the curve.
#[verifier::rlimit(50)]
pub proof fn kept_amounts_solve_the_equation(
    amp: nat,
    amounts: Seq<u128>,
    x: nat,
    i: int,
    j: int,
    width: Width,
)
    requires
        amounts.len() < 0x1_0000_0000,
        0 <= i < amounts.len(),
        0 <= j < amounts.len(),
        i != j,
    ensures
        balance_y(amp, amounts, x, i, j, width) matches Some(y) ==> {
            let n = amounts.len() as int;
            &&& invariant_d(amp, amounts, width) matches Some(d)
            &&& y_coefficient(amounts, d, x, i, j, n, width) matches Some(coefficient)
            &&& exists|b: int, c: int| #[trigger]
                solves(amp, amounts, d, x, i, j, coefficient, b, c, y as int, width)
        },
{
    let n = amounts.len();
    vstd::arithmetic::div_mod::lemma_small_mod(n, 0x1_0000_0000);
    match balance_y(amp, amounts, x, i, j, width) {
        Some(y) => {
            let d = invariant_d(amp, amounts, width)->0;
            let coefficient = y_coefficient(amounts, d, x, i, j, n as int, width)->0;
            let power = coins_power(n)->0;
            let ann = amplification(amp, n)->0;
            lemma_besides(amounts, x as int, i, j, n as int);
            assert(amounts.take(n as int) =~= amounts);
            let top = coefficient * d;
            assert(top >= 0) by (nonlinear_arith)
                requires
                    top == coefficient * d,
                    coefficient >= 0,
                    d >= 0,
            ;
            lemma_is_quotient(top as int, (ann * power) as int);
            lemma_is_quotient(d as int, ann as int);
            let c = top / (ann * power);
            let b = d / ann + (x + total_besides(amounts, i, j)) as nat;
            assert(y_iterate(d, b, c, d, 256, width) == Some(y));
            if y_iterate(d, b, c, d, 257, width) == Some(y) {
                rounds_come_to_the_solution(d, b, c, d, 256, width);
            }
            assert(solves(amp, amounts, d, x, i, j, coefficient, b as int, c as int, y as int, width));
        },
        None => {},
    }
}

/// What a rated amount is: the amount times its rate, in parts of ten to the
/// twenty-fourth, rounded down; and back.
proof fn lemma_rated(amount: nat, rate: nat)
    ensures
        rated(amount, rate) matches Some(value) ==> is_quotient(
            value as int,
            (amount * rate) as int,
            1_000_000_000_000_000_000_000_000,
        ),
        unrated(amount, rate) matches Some(value) ==> rate > 0 && is_quotient(
            value as int,
            amount * 1_000_000_000_000_000_000_000_000int,
            rate as int,
        ),
{
    let top = amount * rate;
    assert(top >= 0) by (nonlinear_arith)
        requires
            top == amount * rate,
            amount >= 0,
            rate >= 0,
    ;
    lemma_is_quotient(top as int, 1_000_000_000_000_000_000_000_000);
    if rate > 0 {
        lemma_is_quotient(amount * 1_000_000_000_000_000_000_000_000int, rate as int);
    }
}

/// Rating two amounts and taking the rate off their sum again gives the sum of
/// the amounts, or less by no more than what rounding loses.
proof fn lemma_sum_unrated(a: int, b: int, rate: int, p: int, x: int, y: int, after: int)
    requires
        p > 0,
        rate > 0,
        is_quotient(x, a * rate, p),
        is_quotient(y, b * rate, p),
        is_quotient(after, (x + y) * p, rate),
    ensures
        after <= a + b,
        (a + b - after - 1) * rate < 2 * p,
{
    assert((x + y) * p <= (a + b) * rate) by (nonlinear_arith)
        requires
            x * p <= a * rate,
            y * p <= b * rate,
    ;
    assert(after <= a + b) by (nonlinear_arith)
        requires
            after * rate <= (x + y) * p,
            (x + y) * p <= (a + b) * rate,
            rate > 0,
    ;
    assert((a + b - after - 1) * rate < 2 * p) by (nonlinear_arith)
        requires
            a * rate < (x + 1) * p,
            b * rate < (y + 1) * p,
            (x + y) * p < (after + 1) * rate,
    ;
}

/// Taking the rate off the two parts of a rated amount gives parts of the
/// amount, less by no more than what rounding loses.
proof fn lemma_parts_unrated(a: int, rate: int, p: int, x: int, part: int, given: int, left: int)
    requires
        p > 0,
        rate > 0,
        is_quotient(x, a * rate, p),
        is_quotient(given, part * p, rate),
        is_quotient(left, (x - part) * p, rate),
    ensures
        given + left <= a,
        (a - given - left - 2) * rate < p,
{
    assert(given + left <= a) by (nonlinear_arith)
        requires
            x * p <= a * rate,
            given * rate <= part * p,
            left * rate <= (x - part) * p,
            rate > 0,
    ;
    assert((a - given - left - 2) * rate < p) by (nonlinear_arith)
        requires
            a * rate < (x + 1) * p,
            part * p < (given + 1) * rate,
            (x - part) * p < (left + 1) * rate,
    ;
}

/// A swap in a rated pool that comes about raises the amount of the coin that
/// is sold by what is sold, in twenty-four decimals, and gives what the pool
/// loses of the other coin, in the decimals of that coin, rounded down; both up
/// to what rounding by the rates loses, which stays in the pool.
#[verifier::rlimit(50)]
pub proof fn rated_swap_takes_and_gives(
    pool: CurvePoolView,
    token_in: Seq<char>,
    token_out: Seq<char>,
    amount: u128,
    i: int,
    o: int,
)
    requires
        stands_at(pool.tokens, token_in, i),
        stands_at(pool.tokens, token_out, o),
        i != o,
        i < pool.rates.len() && o < pool.rates.len(),
    ensures
        rated_pool_swap(pool, token_in, token_out, amount) matches (after, Ok(given)) ==> {
            let p = 1_000_000_000_000_000_000_000_000int;
            let added = amount * pow(10, (24 - pool.decimals[i]) as nat);
            let factor = pow(10, (24 - pool.decimals[o]) as nat);
            let before = pool.c_amounts[i] + added;
            &&& pool.decimals[i] <= 24 && pool.decimals[o] <= 24
            &&& after.c_amounts[i] <= before
            &&& (before - after.c_amounts[i] - 1) * pool.rates[i] < 2 * p
            &&& given * factor + after.c_amounts[o] <= pool.c_amounts[o]
            &&& (pool.c_amounts[o] - after.c_amounts[o] - (given + 1) * factor - 1) * pool.rates[o] < p
            &&& after.c_amounts[o] >= 1_000_000_000_000_000_000_000
            &&& after.c_amounts.len() == pool.c_amounts.len()
            &&& forall|j: int|
                0 <= j < pool.c_amounts.len() && j != i && j != o ==> #[trigger] after.c_amounts[j]
                    == pool.c_amounts[j]
            &&& after == (CurvePoolView { c_amounts: after.c_amounts, ..pool })
        },
{
    lemma_stands(pool.tokens, token_in, i);
    lemma_stands(pool.tokens, token_out, o);
    let outcome = rated_pool_swap(pool, token_in, token_out, amount);
    if outcome.1 is Ok {
        let p = 1_000_000_000_000_000_000_000_000int;
        rated_amounts_are_brought_to_twenty_four_decimals(amount, pool.decimals[i]);
        let comparable = rated_comparable(amount as nat, pool.decimals[i])->0;
        let result = rated_swap(
            pool.amp as nat,
            pool.rates,
            pool.c_amounts,
            i,
            comparable,
            o,
            pool.total_fee as nat,
        )->Ok_0;
        rated_amounts_are_brought_to_twenty_four_decimals(result.amount_swapped, pool.decimals[o]);
        let current = rated_amounts(pool.c_amounts, pool.rates);
        let (rate_i, rate_o) = (pool.rates[i] as nat, pool.rates[o] as nat);
        lemma_rated(pool.c_amounts[i] as nat, rate_i);
        lemma_rated(comparable, rate_i);
        lemma_rated(pool.c_amounts[o] as nat, rate_o);
        assert(rated(pool.c_amounts[i] as nat, rate_i) is Some);
        assert(rated(pool.c_amounts[o] as nat, rate_o) is Some);
        let sold = rated(comparable, rate_i)->0;
        let x = current[i] as nat + sold as nat;
        let y = balance_y(pool.amp as nat, current, x, i, o, Width::Bits384)->0;
        let swapped = swapped_amount(current[o] as nat, y, pool.total_fee as nat)->0;
        lemma_rated(x, rate_i);
        lemma_rated((current[o] - swapped) as nat, rate_o);
        lemma_rated(swapped, rate_o);
        lemma_sum_unrated(
            pool.c_amounts[i] as int,
            comparable as int,
            rate_i as int,
            p,
            current[i] as int,
            sold as int,
            result.new_source_amount as int,
        );
        lemma_parts_unrated(
            pool.c_amounts[o] as int,
            rate_o as int,
            p,
            current[o] as int,
            swapped as int,
            result.amount_swapped as int,
            result.new_destination_amount as int,
        );
        let given = outcome.1->Ok_0;
        let factor = pow(10, (24 - pool.decimals[o]) as nat);
        let lost = pool.c_amounts[o] - result.new_destination_amount;
        assert(given * factor <= result.amount_swapped < (given + 1) * factor);
        assert((lost - (given + 1) * factor - 1) * rate_o < p) by (nonlinear_arith)
            requires
                (lost - result.amount_swapped - 2) * rate_o < p,
                result.amount_swapped + 1 <= (given + 1) * factor,
                rate_o > 0,
        ;
        assert(outcome.0.c_amounts[i] == result.new_source_amount);
        assert(outcome.0.c_amounts[o] == result.new_destination_amount);
    }
}

} // verus!
