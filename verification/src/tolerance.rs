//! What a slippage allows in place of an estimate.

use vstd::arithmetic::power::{lemma_pow_increases, lemma_pow_positive, pow};
use vstd::prelude::*;

use crate::decimal::{
    difference_of, divided, hundred_digits, largest_input, least_output, least_output_is_no_more,
    lemma_difference_value, lemma_fits_has_whole, lemma_quotient_floor, lemma_short, lemma_sum_value,
    lemma_whole_of_floor, lemma_whole_value, quotient_of, slippage_bp, sum_of, whole, DecimalView,
};

verus! {

/// The least output that is accepted is the estimate less the slippage,
/// rounded down.
pub proof fn the_least_output_is_less_by_the_slippage(estimate: u128, slippage: DecimalView)
    requires
        0real <= slippage.value() <= 1real,
    ensures
        least_output(estimate, slippage) is Some,
        ({
            let least = least_output(estimate, slippage)->0 as real;
            least <= (estimate as real) * (1real - slippage.value()) < least + 1real
        }),
{
    least_output_is_no_more(estimate, slippage);
    let x = estimate as real;
    let s = slippage.value();
    let y = x * (1real - s);
    assert(0real <= y <= x) by (nonlinear_arith)
        requires
            x >= 0real,
            0real <= s <= 1real,
            y == x * (1real - s),
    ;
    lemma_fits_has_whole(y);
}

/// A whole number over a decimal of not too many places is their quotient,
/// rounded down.
proof fn lemma_divided(amount: u128, by: DecimalView)
    requires
        0 <= by.scale <= 48,
        by.value() > 0real,
    ensures
        divided(amount, by) matches Some(n) ==> (n as real) * by.value() <= (amount as real) < ((n as real) + 1real)
            * by.value(),
        by.value() >= 1real ==> divided(amount, by) is Some,
{
    let k = by.scale as nat;
    let g = pow(10, k);
    lemma_pow_positive(10, k);
    lemma_pow_increases(10, k, 48);
    lemma_short();
    let d = by.digits;
    let w = g as real;
    assert(d > 0) by {
        if d <= 0 {
            let z = d as real;
            assert(z / w <= 0real) by (nonlinear_arith)
                requires
                    z <= 0real,
                    w > 0real,
            ;
        }
    }
    let top = amount * g;
    assert(0 <= top && top < hundred_digits()) by (nonlinear_arith)
        requires
            top == amount * g,
            0 <= amount <= u128::MAX,
            0 <= g <= pow(10, 48),
            hundred_digits() > 0x1_0000_0000_0000_0000_0000_0000_0000_0000int * pow(10, 48),
    ;
    lemma_quotient_floor(amount as nat, by);
    let n = top / d;
    vstd::arithmetic::div_mod::lemma_fundamental_div_mod(top, d);
    vstd::arithmetic::div_mod::lemma_mod_bound(top, d);
    vstd::arithmetic::div_mod::lemma_div_pos_is_pos(top, d);
    lemma_whole_of_floor(quotient_of(whole(amount), by).value(), n);
    assert(n * d <= top < (n + 1) * d) by (nonlinear_arith)
        requires
            d * n + top % d == top,
            0 <= top % d < d,
    ;
    let (x, y, z, a) = (n as real, (n + 1) as real, d as real, amount as real);
    assert((n * d) as real == (n as real) * (d as real)) by (nonlinear_arith);
    assert(((n + 1) * d) as real == ((n + 1) as real) * (d as real)) by (nonlinear_arith);
    assert((amount * g) as real == (amount as real) * (g as real)) by (nonlinear_arith);
    let v = by.value();
    assert(v == z / w);
    assert(x * v <= a < y * v) by (nonlinear_arith)
        requires
            v == z / w,
            w > 0real,
            x * z <= a * w < y * z,
    ;
    if v >= 1real {
        assert(x <= a) by (nonlinear_arith)
            requires
                x * v <= a,
                v >= 1real,
                x >= 0real,
        ;
    }
}

/// The largest input that is accepted is the one that the slippage brings
/// down to the estimate, rounded down, for slippages of not too many places.
pub proof fn the_largest_input_is_more_by_the_slippage(estimate: u128, slippage: DecimalView)
    requires
        0 <= slippage.scale <= 48,
        0real <= slippage.value() < 1real,
    ensures
        largest_input(estimate, slippage) matches Some(most) ==> {
            let left = 1real - slippage.value();
            (most as real) * left <= (estimate as real) < ((most as real) + 1real) * left
        },
{
    let by = difference_of(whole(1), slippage);
    lemma_whole_value(whole(1));
    lemma_difference_value(whole(1), slippage);
    lemma_divided(estimate, by);
}

/// An amount over one and a slippage of not too many places is their quotient,
/// rounded down.
pub proof fn an_amount_is_divided_by_one_and_the_slippage(amount: u128, slippage: DecimalView)
    requires
        0 <= slippage.scale <= 48,
        0real <= slippage.value(),
    ensures
        divided(amount, sum_of(whole(1), slippage)) matches Some(least) && ({
            let more = 1real + slippage.value();
            (least as real) * more <= (amount as real) < ((least as real) + 1real) * more
        }),
{
    let by = sum_of(whole(1), slippage);
    lemma_whole_value(whole(1));
    lemma_sum_value(whole(1), slippage);
    lemma_divided(amount, by);
}

/// A slippage from nothing to one is so many hundredths of a percent, rounded
/// down; any other is none.
pub proof fn slippages_are_in_hundredths_of_a_percent(slippage: DecimalView)
    ensures
        slippage_bp(slippage) is Some <==> 0real <= slippage.value() <= 1real,
        slippage_bp(slippage) matches Some(bp) ==> (bp as real) <= slippage.value() * 10_000real < (bp as real) + 1real,
{
    let s = slippage.value();
    if 0real <= s <= 1real {
        let x = s * 10_000real;
        lemma_fits_has_whole(x);
    }
}

} // verus!
