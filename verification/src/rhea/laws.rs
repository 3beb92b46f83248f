//! What swaps in the pools of Rhea are worth.

use vstd::arithmetic::div_mod::{
    lemma_div_multiples_vanish, lemma_div_pos_is_pos, lemma_fundamental_div_mod, lemma_mod_bound,
};
use vstd::arithmetic::power::{lemma_pow0, lemma_pow_adds, lemma_pow_increases, lemma_pow_positive, pow};
use vstd::prelude::*;

use super::curve::{y_iterate, y_next};
use super::pool::{
    detail_swap, pool_swap, product_out, rated_comparable, rated_native, simple_swap, stable_comparable, stable_native,
    stable_pool_swap, CurvePoolView, PoolView, SimplePoolView,
};
use super::stable::{stable_swap, swapped_amount};
use crate::ident::{lemma_found, position};
use crate::wide::{u128_limit, Width};

verus! {

/// Whether a token is the one at a place of a list, and at none before.
pub open spec fn stands_at(tokens: Seq<Seq<char>>, token: Seq<char>, i: int) -> bool {
    0 <= i < tokens.len() && tokens[i] == token && forall|j: int| 0 <= j < i ==> #[trigger] tokens[j] != token
}

/// The place that is found is the one where the token stands.
pub(crate) proof fn lemma_stands(tokens: Seq<Seq<char>>, token: Seq<char>, i: int)
    requires
        stands_at(tokens, token, i),
    ensures
        position(tokens, token) == Some(i),
{
    lemma_found(tokens, token, tokens.len() as int);
    match position(tokens, token) {
        Some(p) => {
            if p < i {
                assert(tokens[p] != token);
            } else if p > i {
                assert(tokens[i] != token);
            }
        },
        None => {},
    }
}

/// Small powers of ten fit in 128 bits.
proof fn lemma_ten_fits(n: nat)
    requires
        n <= 38,
    ensures
        0 < pow(10, n) < u128_limit(),
{
    lemma_pow_positive(10, n);
    lemma_pow_increases(10, n, 38);
    lemma_pow0(10);
    reveal(pow);
    assert(pow(10, 1) == 10 * pow(10, 0));
    lemma_pow_adds(10, 1, 1);
    assert(pow(10, 2) == 100);
    lemma_pow_adds(10, 2, 2);
    assert(pow(10, 4) == 10_000);
    lemma_pow_adds(10, 4, 4);
    assert(pow(10, 8) == 100_000_000);
    lemma_pow_adds(10, 8, 8);
    assert(pow(10, 16) == 10_000_000_000_000_000);
    lemma_pow_adds(10, 16, 16);
    assert(pow(10, 32) == 100_000_000_000_000_000_000_000_000_000_000int);
    lemma_pow_adds(10, 32, 4);
    assert(pow(10, 36) == 1_000_000_000_000_000_000_000_000_000_000_000_000int);
    lemma_pow_adds(10, 36, 2);
    assert(pow(10, 38) == 100_000_000_000_000_000_000_000_000_000_000_000_000int);
}

/// An amount of a coin of a stable pool with up to eighteen decimals is
/// multiplied until it has eighteen, wherever that fits in 128 bits, and one of
/// a coin with more is divided, rounded down. An amount that was multiplied is
/// the same again when it is brought back.
pub proof fn stable_amounts_are_brought_to_eighteen_decimals(amount: u128, decimals: u8)
    ensures
        decimals <= 18 ==> ({
            let factor = pow(10, (18 - decimals) as nat);
            match stable_comparable(amount as nat, decimals) {
                Some(comparable) => {
                    &&& comparable == amount * factor
                    &&& comparable <= u128::MAX
                    &&& stable_native(comparable, decimals) == Some(amount as nat)
                },
                None => amount * factor > u128::MAX,
            }
        }),
        18 < decimals <= 56 ==> ({
            let factor = pow(10, (decimals - 18) as nat);
            match stable_comparable(amount as nat, decimals) {
                Some(comparable) => comparable * factor <= amount < (comparable + 1) * factor,
                None => false,
            }
        }),
        decimals == 18 ==> stable_comparable(amount as nat, decimals) == Some(amount as nat),
{
    if decimals <= 18 {
        let n = (18 - decimals) as nat;
        lemma_ten_fits(n);
        let factor = pow(10, n);
        assert(amount * factor >= 0) by (nonlinear_arith)
            requires
                factor > 0,
                amount >= 0,
        ;
        lemma_div_multiples_vanish(amount as int, factor);
        assert(factor * amount == amount * factor) by (nonlinear_arith);
        lemma_pow0(10);
    } else if decimals <= 56 {
        let n = (decimals - 18) as nat;
        lemma_ten_fits(n);
        lemma_cut(amount as int, pow(10, n));
    }
}

/// A quotient that is rounded down.
proof fn lemma_cut(amount: int, factor: int)
    requires
        amount >= 0,
        factor > 0,
    ensures
        0 <= amount / factor <= amount,
        amount / factor * factor <= amount < (amount / factor + 1) * factor,
{
    lemma_fundamental_div_mod(amount, factor);
    lemma_mod_bound(amount, factor);
    lemma_div_pos_is_pos(amount, factor);
    let q = amount / factor;
    assert(q * factor <= amount < (q + 1) * factor) by (nonlinear_arith)
        requires
            amount == factor * q + amount % factor,
            0 <= amount % factor < factor,
    ;
    assert(q <= amount) by (nonlinear_arith)
        requires
            q * factor <= amount,
            factor >= 1,
            q >= 0,
    ;
}

/// What a comparable amount of a stable pool is in the decimals of its coin:
/// divided and rounded down for a coin with up to eighteen, multiplied for one
/// with more.
pub proof fn stable_amounts_are_brought_back(comparable: u128, decimals: u8)
    ensures
        decimals <= 18 ==> (stable_native(comparable as nat, decimals) matches Some(native) && native * pow(
            10,
            (18 - decimals) as nat,
        ) <= comparable < (native + 1) * pow(10, (18 - decimals) as nat) && native <= comparable),
        18 < decimals <= 56 ==> match stable_native(comparable as nat, decimals) {
            Some(native) => {
                &&& native == comparable * pow(10, (decimals - 18) as nat)
                &&& stable_comparable(native, decimals) == Some(comparable as nat)
            },
            None => comparable * pow(10, (decimals - 18) as nat) > u128::MAX,
        },
{
    if decimals <= 18 {
        let n = (18 - decimals) as nat;
        lemma_ten_fits(n);
        lemma_cut(comparable as int, pow(10, n));
    } else if decimals <= 56 {
        let n = (decimals - 18) as nat;
        lemma_ten_fits(n);
        let factor = pow(10, n);
        assert(comparable * factor >= 0) by (nonlinear_arith)
            requires
                factor > 0,
                comparable >= 0,
        ;
        lemma_div_multiples_vanish(comparable as int, factor);
        assert(factor * comparable == comparable * factor) by (nonlinear_arith);
    }
}

/// An amount of a coin of a rated pool is multiplied until it has twenty-four
/// decimals, and is the same again when it is brought back, rounded down. A
/// coin has no more decimals.
pub proof fn rated_amounts_are_brought_to_twenty_four_decimals(amount: u128, decimals: u8)
    ensures
        decimals <= 24 ==> ({
            let factor = pow(10, (24 - decimals) as nat);
            &&& match rated_comparable(amount as nat, decimals) {
                Some(comparable) => {
                    &&& comparable == amount * factor
                    &&& comparable <= u128::MAX
                    &&& rated_native(comparable, decimals) == Some(amount as nat)
                },
                None => amount * factor > u128::MAX,
            }
            &&& rated_native(amount as nat, decimals) matches Some(native)
            &&& native * factor <= amount < (native + 1) * factor
        }),
        decimals > 24 ==> rated_comparable(amount as nat, decimals) is None && rated_native(amount as nat, decimals)
            is None,
{
    if decimals <= 24 {
        let n = (24 - decimals) as nat;
        lemma_ten_fits(n);
        let factor = pow(10, n);
        assert(amount * factor >= 0) by (nonlinear_arith)
            requires
                factor > 0,
                amount >= 0,
        ;
        lemma_div_multiples_vanish(amount as int, factor);
        assert(factor * amount == amount * factor) by (nonlinear_arith);
        lemma_cut(amount as int, factor);
    }
}

/// A swap in a stable pool that comes about raises the comparable amount of the
/// coin that is sold by exactly what is sold, in eighteen decimals, and gives
/// what the pool loses of the other coin, in the decimals of that coin, rounded
/// down.
#[verifier::rlimit(50)]
pub proof fn stable_swap_takes_and_gives(
    pool: CurvePoolView,
    token_in: Seq<char>,
    token_out: Seq<char>,
    amount: u128,
    i: int,
    o: int,
)
    requires
        stands_at(pool.tokens, token_in, i),
        stands_at(pool.tokens, token_out, o),
        i != o,
    ensures
        stable_pool_swap(pool, token_in, token_out, amount) matches (after, Ok(given)) ==> {
            let lost = pool.c_amounts[o] - after.c_amounts[o];
            &&& pool.decimals[i] <= 18 ==> after.c_amounts[i] == pool.c_amounts[i] + amount * pow(
                10,
                (18 - pool.decimals[i]) as nat,
            )
            &&& 18 < pool.decimals[i] <= 56 ==> {
                let added = after.c_amounts[i] - pool.c_amounts[i];
                let factor = pow(10, (pool.decimals[i] - 18) as nat);
                added * factor <= amount < (added + 1) * factor
            }
            &&& 0 <= lost
            &&& pool.decimals[o] <= 18 ==> {
                let factor = pow(10, (18 - pool.decimals[o]) as nat);
                given * factor <= lost < (given + 1) * factor
            }
            &&& 18 < pool.decimals[o] <= 56 ==> given == lost * pow(10, (pool.decimals[o] - 18) as nat)
            &&& after.c_amounts[o] >= 1_000_000_000_000_000
            &&& after.c_amounts.len() == pool.c_amounts.len()
            &&& forall|j: int|
                0 <= j < pool.c_amounts.len() && j != i && j != o ==> #[trigger] after.c_amounts[j]
                    == pool.c_amounts[j]
            &&& after == (CurvePoolView { c_amounts: after.c_amounts, ..pool })
        },
{
    lemma_stands(pool.tokens, token_in, i);
    lemma_stands(pool.tokens, token_out, o);
    if i < pool.decimals.len() && o < pool.decimals.len() && i < pool.c_amounts.len() && o < pool.c_amounts.len() {
        stable_amounts_are_brought_to_eighteen_decimals(amount, pool.decimals[i]);
        match stable_comparable(amount as nat, pool.decimals[i]) {
            Some(comparable) => match stable_swap(
                pool.amp as nat,
                pool.c_amounts,
                i,
                comparable,
                o,
                pool.total_fee as nat,
            ) {
                Some(result) => {
                    stable_amounts_are_brought_back(result.amount_swapped, pool.decimals[o]);
                    assert(result.new_source_amount == pool.c_amounts[i] + comparable);
                    assert(result.new_destination_amount + result.amount_swapped == pool.c_amounts[o]);
                    let outcome = stable_pool_swap(pool, token_in, token_out, amount);
                    match stable_native(result.amount_swapped as nat, pool.decimals[o]) {
                        Some(given) => {
                            assert(outcome.0.c_amounts[i] == result.new_source_amount);
                            assert(outcome.0.c_amounts[o] == result.new_destination_amount);
                        },
                        None => {},
                    }
                },
                None => {},
            },
            None => {},
        }
    }
}

/// What a coin whose amount falls to `y` gives: all that it falls by, less one
/// for rounding, less the fee, which is rounded down.
pub proof fn the_fall_is_given_less_the_fee(before: nat, y: nat, fee: nat)
    requires
        fee <= 10_000,
        y < before,
    ensures
        swapped_amount(before, y, fee) matches Some(given) && {
            let fallen = before - y - 1;
            &&& given * 10_000 >= fallen * (10_000 - fee)
            &&& given * 10_000 < fallen * (10_000 - fee) + 10_000
        },
{
    let fallen = (before - y - 1) as nat;
    let product = fallen * fee;
    assert(0 <= product <= fallen * 10_000) by (nonlinear_arith)
        requires
            product == fallen * fee,
            fallen >= 0,
            0 <= fee <= 10_000,
    ;
    lemma_cut(product as int, 10_000);
    assert(fallen * (10_000 - fee) == fallen * 10_000 - product) by (nonlinear_arith)
        requires
            product == fallen * fee,
    ;
}

/// Where one more round changes nothing, the amount that the rounds come to
/// solves `y * y + (b - d) * y = c`: it is the whole part of the solution, or
/// the next number where that is off by no more than one.
pub proof fn rounds_come_to_the_solution(start: nat, b: nat, c: nat, d: nat, rounds: nat, width: Width)
    requires
        y_iterate(start, b, c, d, rounds, width) == y_iterate(start, b, c, d, rounds + 1, width),
    ensures
        y_iterate(start, b, c, d, rounds, width) matches Some(y) ==> {
            &&& y * y + (b - d) * y <= c + 1
            &&& c < (y + 1) * (y + 1) + (b - d) * (y + 1)
        },
    decreases rounds,
{
    match y_next(start, b, c, d, width) {
        Some(next) => {
            if -1 <= next - start <= 1 {
                lemma_solution(start, next, b, c, d, width);
            } else if rounds > 0 {
                rounds_come_to_the_solution(next, b, c, d, (rounds - 1) as nat, width);
            } else {
                assert(y_iterate(start, b, c, d, 0, width) == Some(start));
                assert(y_iterate(next, b, c, d, 0, width) == Some(next));
                assert(y_iterate(start, b, c, d, 1, width) == Some(next));
            }
        },
        None => {
            assert(y_iterate(start, b, c, d, 1, width) is None);
        },
    }
}

/// A round that moves by no more than one has come to the solution.
proof fn lemma_solution(y: nat, next: nat, b: nat, c: nat, d: nat, width: Width)
    requires
        y_next(y, b, c, d, width) == Some(next),
        -1 <= next - y <= 1,
    ensures
        next * next + (b - d) * next <= c + 1,
        c < (next + 1) * (next + 1) + (b - d) * (next + 1),
{
    let top = y * y + c;
    let bottom = 2 * y + b - d;
    assert(y * 2 == 2 * y);
    assert(bottom > 0 && next == top as int / bottom);
    assert(y * y >= 0) by (nonlinear_arith);
    lemma_cut(top as int, bottom);
    let e = next - y;
    assert(next * next + (b - d) * next <= c + 1) by (nonlinear_arith)
        requires
            next * bottom <= top,
            top == y * y + c,
            bottom == 2 * y + b - d,
            e == next - y,
            -1 <= e <= 1,
    {
        assert(y == next - e);
        assert(e * e <= 1);
        assert(next * bottom == 2 * (next * next) - 2 * (e * next) + (b - d) * next);
        assert(y * y == next * next - 2 * (e * next) + e * e);
    }
    assert(c < (next + 1) * (next + 1) + (b - d) * (next + 1)) by (nonlinear_arith)
        requires
            top < (next + 1) * bottom,
            top == y * y + c,
            bottom == 2 * y + b - d,
            e == next - y,
            -1 <= e <= 1,
    {
        assert(y == next - e);
        assert((1 + e) * (1 + e) >= 0);
        assert(y * y == next * next - 2 * (e * next) + e * e);
        assert((next + 1) * bottom == 2 * (next * next) - 2 * (e * next) + (b - d) * next + 2 * next - 2 * e + (b
            - d));
    }
}

/// A swap in a constant-product pool gives as much as the product allows after
/// the fee, and not one unit more.
#[verifier::rlimit(50)]
pub proof fn simple_swap_gives_all_it_can(
    pool: SimplePoolView,
    token_in: Seq<char>,
    token_out: Seq<char>,
    amount: u128,
    i: int,
    o: int,
)
    requires
        stands_at(pool.tokens, token_in, i),
        stands_at(pool.tokens, token_out, o),
        i < pool.amounts.len(),
        o < pool.amounts.len(),
        pool.total_fee <= 10_000,
    ensures
        ({
            let x = pool.amounts[i] as int;
            let y = pool.amounts[o] as int;
            let counted = amount * (10_000 - pool.total_fee);
            &&& simple_swap(pool, token_in, token_out, amount) matches Ok((after, given)) ==> {
                &&& i != o && x > 0 && y > 0 && amount > 0
                &&& after.amounts[i] == x + amount
                &&& after.amounts[o] == y - given
                &&& (x * 10_000 + counted) * (y - given) >= x * 10_000 * y
                &&& (x * 10_000 + counted) * (y - given - 1) < x * 10_000 * y
            }
            &&& i != o && x > 0 && y > 0 && amount > 0 && x + amount <= u128::MAX && counted * y <= u128::MAX
                ==> simple_swap(pool, token_in, token_out, amount) is Ok
        }),
{
    lemma_stands(pool.tokens, token_in, i);
    lemma_stands(pool.tokens, token_out, o);
    let x = pool.amounts[i] as int;
    let y = pool.amounts[o] as int;
    let counted = amount * (10_000 - pool.total_fee);
    assert(counted >= 0) by (nonlinear_arith)
        requires
            counted == amount * (10_000 - pool.total_fee),
            amount >= 0,
            pool.total_fee <= 10_000,
    ;
    if x > 0 {
        let top = counted * y;
        let bottom = 10_000 * x + counted;
        assert(top >= 0) by (nonlinear_arith)
            requires
                top == counted * y,
                counted >= 0,
                y >= 0,
        ;
        lemma_cut(top, bottom);
        let given = top / bottom;
        assert(given == product_out(x as nat, y as nat, amount as nat, pool.total_fee as nat));
        super::pool::product_does_not_fall(x as nat, y as nat, amount as nat, pool.total_fee as nat);
        assert((x * 10_000 + counted) * (y - given) >= x * 10_000 * y) by (nonlinear_arith)
            requires
                given * bottom <= counted * y,
                bottom == 10_000 * x + counted,
        ;
        assert((x * 10_000 + counted) * (y - given - 1) < x * 10_000 * y) by (nonlinear_arith)
            requires
                counted * y < (given + 1) * bottom,
                bottom == 10_000 * x + counted,
        ;
    }
}

/// A pool sells what its detail does, and its listing follows: it rises by what
/// is sold and falls by what is given.
pub proof fn listing_follows_the_swap(
    pool: PoolView,
    token_in: Seq<char>,
    token_out: Seq<char>,
    amount: u128,
    i: int,
    o: int,
)
    requires
        stands_at(pool.info.tokens, token_in, i),
        stands_at(pool.info.tokens, token_out, o),
        i != o,
    ensures
        pool_swap(pool, token_in, token_out, amount) matches Some((after, given)) ==> {
            &&& detail_swap(pool.detail, token_in, token_out, amount) == (
                after.detail,
                Ok::<u128, super::pool::SwapError>(given),
            )
            &&& after.id == pool.id
            &&& after.info.amounts[i] == pool.info.amounts[i] + amount
            &&& after.info.amounts[o] + given == pool.info.amounts[o]
            &&& after.info.tokens == pool.info.tokens
            &&& forall|j: int|
                0 <= j < pool.info.amounts.len() && j != i && j != o ==> #[trigger] after.info.amounts[j]
                    == pool.info.amounts[j]
        },
{
    lemma_stands(pool.info.tokens, token_in, i);
    lemma_stands(pool.info.tokens, token_out, o);
}

} // verus!
