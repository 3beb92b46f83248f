//! What swaps in the pools of Intear Plach are worth.

use vstd::prelude::*;

use super::fees::FeeReceiverView;
use super::pool::{pool_purchase, pool_sale, PoolView};
use crate::asset::AssetIdView;
use crate::product::{
    after_fees, fee_on, fee_sum, fraction_sum, input_before_fees, input_with_fees, lemma_output_bound,
    purchase_covers_the_need, purchase_raises_the_product, sale_keeps_the_product, FeeFraction,
};

verus! {

/// How much of one of its two assets a pool holds.
pub open spec fn balance_of(pool: PoolView, asset: AssetIdView) -> int {
    if pool.first.asset == asset {
        pool.first.balance as int
    } else {
        pool.second.balance as int
    }
}

/// Whether a pool trades the two assets for each other: they are its two, and
/// not the same.
pub open spec fn trades(pool: PoolView, a: AssetIdView, b: AssetIdView) -> bool {
    &&& a != b
    &&& (pool.first.asset == a && pool.second.asset == b) || (pool.first.asset == b && pool.second.asset == a)
}

/// The fees of a pool, added up, in millionths.
pub open spec fn whole_fee(fees: Seq<(FeeReceiverView, FeeFraction)>) -> int
    decreases fees.len(),
{
    if fees.len() == 0 {
        0
    } else {
        whole_fee(fees.drop_last()) + fees.last().1
    }
}

/// The same pool seen from its other side.
pub open spec fn mirrored(pool: PoolView) -> PoolView {
    PoolView { first: pool.second, second: pool.first, ..pool }
}

/// Whether nothing but the two balances differs.
pub open spec fn same_terms(before: PoolView, after: PoolView) -> bool {
    &&& after.id == before.id
    &&& after.first.asset == before.first.asset
    &&& after.second.asset == before.second.asset
    &&& after.fees == before.fees
    &&& after.fee_configuration == before.fee_configuration
    &&& after.terms == before.terms
}

/// Whether an amount of fees is what the fractions make of an amount: no more
/// than their sum does, and short of it by less than one unit for each.
pub open spec fn fair_fees(fees: Seq<(FeeReceiverView, FeeFraction)>, amount: int, charged: int) -> bool {
    &&& 0 <= charged
    &&& charged * 1_000_000 <= amount * whole_fee(fees)
    &&& fees.len() == 0 ==> charged == 0
    &&& fees.len() > 0 ==> amount * whole_fee(fees) < (charged + fees.len()) * 1_000_000
}

/// The sum of the fractions is that of the fees.
proof fn lemma_whole_fee(fees: Seq<(FeeReceiverView, FeeFraction)>, fractions: Seq<FeeFraction>, k: int)
    requires
        0 <= k <= fees.len(),
        fractions.len() == fees.len(),
        forall|i: int| 0 <= i < fees.len() ==> fractions[i] == (#[trigger] fees[i]).1,
    ensures
        whole_fee(fees.take(k)) == fraction_sum(fractions, k),
        whole_fee(fees.take(k)) >= 0,
    decreases k,
{
    if k > 0 {
        lemma_whole_fee(fees, fractions, k - 1);
        assert(fees.take(k).drop_last() =~= fees.take(k - 1));
        assert(fees.take(k).last() == fees[k - 1]);
    }
}

/// What is charged is what the fractions make of the amount.
proof fn lemma_fair_fees(amount: nat, fractions: Seq<FeeFraction>, k: int)
    requires
        0 <= k <= fractions.len(),
    ensures
        fee_sum(amount, fractions, k) * 1_000_000 <= amount * fraction_sum(fractions, k),
        k == 0 ==> fee_sum(amount, fractions, k) == 0,
        k > 0 ==> amount * fraction_sum(fractions, k) < (fee_sum(amount, fractions, k) + k) * 1_000_000,
    decreases k,
{
    if k > 0 {
        lemma_fair_fees(amount, fractions, k - 1);
        let f = fractions[k - 1] as nat;
        let before = fee_sum(amount, fractions, k - 1);
        let sum = fraction_sum(fractions, k - 1);
        let fee = fee_on(amount, f);
        assert(amount * f >= 0) by (nonlinear_arith);
        vstd::arithmetic::div_mod::lemma_fundamental_div_mod((amount * f) as int, 1_000_000);
        vstd::arithmetic::div_mod::lemma_mod_bound((amount * f) as int, 1_000_000);
        assert(amount * (sum + f) == amount * sum + amount * f) by (nonlinear_arith);
        if k == 1 {
            assert(amount * 0 == 0) by (nonlinear_arith);
        }
    } else {
        assert(amount * 0 == 0) by (nonlinear_arith);
    }
}

/// What the fees leave of an amount, in terms of the fees of a pool.
proof fn lemma_kept(fees: Seq<(FeeReceiverView, FeeFraction)>, fractions: Seq<FeeFraction>, amount: nat)
    requires
        fractions.len() == fees.len(),
        forall|i: int| 0 <= i < fees.len() ==> fractions[i] == (#[trigger] fees[i]).1,
    ensures
        whole_fee(fees) == fraction_sum(fractions, fractions.len() as int),
        whole_fee(fees) >= 0,
        after_fees(amount, fractions) matches Some(kept) ==> kept <= amount && fair_fees(
            fees,
            amount as int,
            amount - kept,
        ),
        whole_fee(fees) <= 1_000_000 ==> after_fees(amount, fractions) is Some,
{
    let n = fees.len() as int;
    assert(fees.take(n) =~= fees);
    lemma_whole_fee(fees, fractions, n);
    lemma_fair_fees(amount, fractions, n);
    let charged = fee_sum(amount, fractions, n);
    if whole_fee(fees) <= 1_000_000 {
        assert(charged <= amount) by (nonlinear_arith)
            requires
                charged * 1_000_000 <= amount * whole_fee(fees),
                0 <= whole_fee(fees) <= 1_000_000,
                amount >= 0,
        ;
    }
}

/// A sale takes the amount less its fees, gives exactly what the pool loses,
/// and prices by the product of the balances: the product does not fall, and
/// would if one unit more were given. It comes about wherever the pool trades
/// the assets, holds some of the one that is sold, charges no more than the
/// whole and can hold the sum.
#[verifier::rlimit(50)]
pub proof fn sale_prices_by_the_product(
    pool: PoolView,
    token_in: AssetIdView,
    token_out: AssetIdView,
    amount: u128,
)
    ensures
        pool_sale(pool, token_in, token_out, amount) matches Some((after, given)) ==> {
            let x = balance_of(pool, token_in);
            let y = balance_of(pool, token_out);
            let new_x = balance_of(after, token_in);
            let new_y = balance_of(after, token_out);
            &&& trades(pool, token_in, token_out)
            &&& new_y + given == y
            &&& x <= new_x <= x + amount
            &&& fair_fees(pool.fees, amount as int, x + amount - new_x)
            &&& new_x * new_y >= x * y
            &&& new_x * (new_y - 1) < x * y
            &&& same_terms(pool, after)
        },
        trades(pool, token_in, token_out) && balance_of(pool, token_in) > 0 && whole_fee(pool.fees) <= 1_000_000
            && balance_of(pool, token_in) + amount <= u128::MAX ==> pool_sale(
            pool,
            token_in,
            token_out,
            amount,
        ) is Some,
{
    let fractions = super::fees::view_fractions(pool.fees);
    lemma_kept(pool.fees, fractions, amount as nat);
    match after_fees(amount as nat, fractions) {
        Some(kept) => {
            if trades(pool, token_in, token_out) && balance_of(pool, token_in) + kept > 0 {
                let x = balance_of(pool, token_in) as nat;
                let y = balance_of(pool, token_out) as nat;
                let out = crate::product::output_for(x, y, kept);
                lemma_output_bound(x, y, kept);
                sale_keeps_the_product(x, y, kept);
                let den = (x + kept) as int;
                let num = (kept * y) as int;
                vstd::arithmetic::div_mod::lemma_fundamental_div_mod(num, den);
                vstd::arithmetic::div_mod::lemma_mod_bound(num, den);
                assert(den * (y - out - 1) < x * y) by (nonlinear_arith)
                    requires
                        num == kept * y,
                        den == x + kept,
                        num < den * out + den,
                ;
            }
        },
        None => {},
    }
}

/// Which side of a pool an asset is on does not matter.
pub proof fn sides_do_not_matter(pool: PoolView, token_in: AssetIdView, token_out: AssetIdView, amount: u128)
    ensures
        pool_sale(mirrored(pool), token_in, token_out, amount) == match pool_sale(pool, token_in, token_out, amount) {
            Some((after, given)) => Some((mirrored(after), given)),
            None => None,
        },
        pool_purchase(mirrored(pool), token_in, token_out, amount) == match pool_purchase(
            pool,
            token_in,
            token_out,
            amount,
        ) {
            Some((after, taken)) => Some((mirrored(after), taken)),
            None => None,
        },
{
}

/// A purchase gives exactly the amount, adds what it takes less the fees, and
/// prices by the product of the balances: the product rises, and what is taken
/// is the least that a price of one unit over the exact one allows. It comes
/// about wherever the pool trades the assets, holds more than the amount,
/// charges less than the whole, and the numbers are small enough.
#[verifier::rlimit(50)]
pub proof fn purchase_prices_by_the_product(
    pool: PoolView,
    token_in: AssetIdView,
    token_out: AssetIdView,
    amount: u128,
)
    ensures
        pool_purchase(pool, token_in, token_out, amount) matches Some((after, taken)) ==> {
            let x = balance_of(pool, token_in);
            let y = balance_of(pool, token_out);
            let new_x = balance_of(after, token_in);
            let new_y = balance_of(after, token_out);
            let left = 1_000_000 - whole_fee(pool.fees);
            &&& trades(pool, token_in, token_out)
            &&& 0 < amount < y
            &&& new_y + amount == y
            &&& x <= new_x <= x + taken
            &&& fair_fees(pool.fees, taken as int, x + taken - new_x)
            &&& new_x * new_y > x * y
            &&& 0 < left
            &&& (taken - 1) * left * (y - amount) < (x * amount + (y - amount)) * 1_000_000
            &&& same_terms(pool, after)
        },
        trades(pool, token_in, token_out) && 0 < amount < balance_of(pool, token_out) && whole_fee(pool.fees)
            < 1_000_000 && balance_of(pool, token_in) + (balance_of(pool, token_in) * amount + 1) * 1_000_000
            <= u128::MAX ==> pool_purchase(pool, token_in, token_out, amount) is Some,
{
    if trades(pool, token_in, token_out) && 0 < amount < balance_of(pool, token_out) && whole_fee(pool.fees)
        < 1_000_000 {
        let fractions = super::fees::view_fractions(pool.fees);
        let x = balance_of(pool, token_in) as nat;
        let y = balance_of(pool, token_out) as nat;
        lemma_kept(pool.fees, fractions, 0);
        let left = 1_000_000 - whole_fee(pool.fees);
        let num = (x * amount) as int;
        let den = y - amount;
        assert(num >= 0) by (nonlinear_arith)
            requires
                num == x * amount,
                x >= 0,
                amount >= 0,
        ;
        vstd::arithmetic::div_mod::lemma_fundamental_div_mod(num, den);
        vstd::arithmetic::div_mod::lemma_mod_bound(num, den);
        vstd::arithmetic::div_mod::lemma_div_pos_is_pos(num, den);
        let q = num / den;
        assert(q <= num) by (nonlinear_arith)
            requires
                den * q <= num,
                den >= 1,
                q >= 0,
        ;
        let needed = input_before_fees(x, y, amount as nat);
        assert(needed == q + 1);
        let all = needed * 1_000_000 + (left - 1);
        vstd::arithmetic::div_mod::lemma_fundamental_div_mod(all, left);
        vstd::arithmetic::div_mod::lemma_mod_bound(all, left);
        let taken = input_with_fees(needed, fractions);
        assert(taken == all / left);
        assert(taken <= needed * 1_000_000) by (nonlinear_arith)
            requires
                left * taken <= all,
                all == needed * 1_000_000 + (left - 1),
                left >= 1,
                needed >= 1,
        ;
        lemma_kept(pool.fees, fractions, taken);
    }
    match pool_purchase(pool, token_in, token_out, amount) {
        Some((after, taken)) => {
            let fractions = super::fees::view_fractions(pool.fees);
            let x = balance_of(pool, token_in) as nat;
            let y = balance_of(pool, token_out) as nat;
            let a = amount as nat;
            lemma_kept(pool.fees, fractions, taken as nat);
            purchase_raises_the_product(x, y, fractions, a);
            let needed = input_before_fees(x, y, a);
            purchase_covers_the_need(needed, fractions);
            let left = 1_000_000 - whole_fee(pool.fees);
            let num = needed * 1_000_000 + (left - 1);
            assert(taken == input_with_fees(needed, fractions));
            vstd::arithmetic::div_mod::lemma_fundamental_div_mod(num, left);
            vstd::arithmetic::div_mod::lemma_mod_bound(num, left);
            assert((taken - 1) * left < needed * 1_000_000) by (nonlinear_arith)
                requires
                    left * taken <= num,
                    num == needed * 1_000_000 + (left - 1),
            ;
            let den = y - a;
            vstd::arithmetic::div_mod::lemma_fundamental_div_mod((x * a) as int, den);
            vstd::arithmetic::div_mod::lemma_mod_bound((x * a) as int, den);
            let q = (x * a) as int / den;
            assert(needed == q + 1);
            assert(needed * den <= x * a + den) by (nonlinear_arith)
                requires
                    needed == q + 1,
                    den * q <= x * a,
            ;
            assert((taken - 1) * left * den < (x * a + den) * 1_000_000) by (nonlinear_arith)
                requires
                    (taken - 1) * left < needed * 1_000_000,
                    needed * den <= x * a + den,
                    den > 0,
            ;
        },
        None => {},
    }
}

} // verus!
