//! Amounts at a price, and what all routes have in common.

use vstd::arithmetic::div_mod::lemma_div_pos_is_pos;
use vstd::arithmetic::power::pow;
use vstd::prelude::*;

use crate::account::{opt_account, AccountId};
use crate::decimal::{
    hundred_digits, lemma_floor_of_quotient, lemma_quotient_exact, lemma_quotient_floor, lemma_short,
    lemma_small_powers, lemma_whole_of_floor, product, quotient, whole, whole_u128, Decimal, DecimalView,
};
use crate::ident::Ident;
use crate::shared_utils::DEFAULT_REFERRER_ID;
use crate::types::{Amount, DexId, ExecutionInstruction, InstructionView, Route, RouteView, TokenId, TokenIdView};
use crate::wide::ratio;

verus! {

/// The smallest units of one coin with 24 decimals.
pub const ONE_24: u128 = 1_000_000_000_000_000_000_000_000;

/// What units of a token are worth at a price per coin, rounded down.
pub open spec fn worth_at(units: u128, price: u128) -> Option<u128> {
    ratio(units as nat, price as nat, ONE_24 as nat)
}

/// What units of a token are worth at a price per coin.
pub fn units_worth(units: u128, price: u128) -> (r: Option<u128>)
    ensures
        r == worth_at(units, price),
{
    let coins: Decimal = quotient(&Decimal::from_u128(units), &Decimal::from_u128(ONE_24));
    proof {
        lemma_short();
        lemma_small_powers();
        lemma_quotient_exact(units as nat, 24);
        let c = coins@.value();
        let (u, p, o) = (units as real, price as real, ONE_24 as real);
        let x = c * p;
        assert((units * price) as real == (units as real) * (price as real)) by (nonlinear_arith);
        assert(x * o == u * p) by (nonlinear_arith)
            requires
                x == c * p,
                c * o == u,
        ;
        lemma_floor_of_quotient(x, (units * price) as nat, ONE_24 as nat);
        assert(units * price / (ONE_24 as int) >= 0) by {
            lemma_div_pos_is_pos(units * price, ONE_24 as int);
        }
        lemma_whole_of_floor(x, units * price / (ONE_24 as int));
    }
    whole_u128(&product(&coins, &Decimal::from_u128(price)))
}

/// What a sum buys at a price per coin, rounded down; none where the price is
/// nothing.
pub open spec fn bought_at(sum: u128, price: u128) -> Option<u128> {
    ratio(sum as nat, ONE_24 as nat, price as nat)
}

/// What a sum buys at a price per coin.
pub fn units_bought(sum: u128, price: u128) -> (r: Option<u128>)
    ensures
        r == bought_at(sum, price),
{
    if price == 0 {
        return None;
    }
    let scaled: Decimal = product(&Decimal::from_u128(sum), &Decimal::from_u128(ONE_24));
    let bought: Decimal = quotient(&scaled, &Decimal::from_u128(price));
    proof {
        lemma_short();
        lemma_small_powers();
        let top = sum * ONE_24;
        assert(scaled@ == (DecimalView { digits: top, scale: 0 })) by {
            assert(sum * 1 == sum && 1 * ONE_24 == ONE_24) by (nonlinear_arith);
        }
        assert(0 <= top && top * pow(10, 0) < hundred_digits()) by (nonlinear_arith)
            requires
                top == sum * ONE_24,
                0 <= sum <= u128::MAX,
                pow(10, 0) == 1,
                0 <= ONE_24 <= pow(10, 48),
                hundred_digits() > 0x1_0000_0000_0000_0000_0000_0000_0000_0000int * pow(10, 48),
        ;
        lemma_quotient_floor(top as nat, whole(price));
        let n = top / (price as int);
        lemma_div_pos_is_pos(top, price as int);
        let x = bought@.value();
        assert(top * pow(10, 0) == top);
        assert(x >= 0 as real);
        lemma_whole_of_floor(x, n);
    }
    whole_u128(&bought)
}

/// One less, no less than nothing.
pub open spec fn less_one(n: Option<u128>) -> Option<u128> {
    match n {
        Some(n) => if n > 0 {
            Some((n - 1) as u128)
        } else {
            Some(0)
        },
        None => None,
    }
}

/// One less, no less than nothing.
pub fn one_less(n: Option<u128>) -> (r: Option<u128>)
    ensures
        r == less_one(n),
{
    match n {
        Some(n) => Some(n.saturating_sub(1)),
        None => None,
    }
}

/// The amount on the side that the request leaves open.
pub open spec fn open_side(amount: Amount, taken: u128, given: u128) -> Amount {
    match amount {
        Amount::AmountIn(_) => Amount::AmountOut(given),
        Amount::AmountOut(_) => Amount::AmountIn(taken),
    }
}

/// The amount on the side that the request leaves open.
pub fn other_side(amount: Amount, taken: u128, given: u128) -> (r: Amount)
    ensures
        r == open_side(amount, taken, given),
{
    match amount {
        Amount::AmountIn(_) => Amount::AmountOut(given),
        Amount::AmountOut(_) => Amount::AmountIn(taken),
    }
}

/// The amount that a request fixes.
pub open spec fn fixed_amount(amount: Amount) -> u128 {
    match amount {
        Amount::AmountIn(amount) => amount,
        Amount::AmountOut(amount) => amount,
    }
}

/// Whether the worst case of a route is no better than its estimate: it gives
/// no more, or takes no less.
pub open spec fn worst_is_no_better(route: RouteView) -> bool {
    match (route.estimated, route.worst_case) {
        (Amount::AmountOut(estimated), Amount::AmountOut(worst)) => worst <= estimated,
        (Amount::AmountIn(estimated), Amount::AmountIn(worst)) => worst >= estimated,
        _ => false,
    }
}

/// Whether a route answers a request: it says what comes out where the request
/// fixes what goes in, and the other way round.
pub open spec fn answers(amount: Amount, route: RouteView) -> bool {
    match amount {
        Amount::AmountIn(_) => route.estimated is AmountOut && route.worst_case is AmountOut,
        Amount::AmountOut(_) => route.estimated is AmountIn && route.worst_case is AmountIn,
    }
}

/// Whether a route is exact: its worst case is its estimate.
pub open spec fn exact(route: RouteView) -> bool {
    !route.has_slippage && route.worst_case == route.estimated
}

/// A route without a deadline.
pub open spec fn route_of(
    dex_id: DexId,
    has_slippage: bool,
    estimated: Amount,
    worst_case: Amount,
    instructions: Seq<InstructionView>,
    token_output: TokenIdView,
) -> RouteView {
    RouteView {
        dex_id,
        deadline: None,
        has_slippage,
        estimated,
        worst_case,
        instructions,
        needs_unwrap: false,
        token_output,
    }
}

/// A route without a deadline.
pub fn make_route(
    dex_id: DexId,
    has_slippage: bool,
    estimated_amount: Amount,
    worst_case_amount: Amount,
    execution_instructions: Vec<ExecutionInstruction>,
    token_output: TokenId,
) -> (r: Route)
    ensures
        r@ == route_of(
            dex_id,
            has_slippage,
            estimated_amount,
            worst_case_amount,
            crate::types::instruction_views(execution_instructions@),
            token_output@,
        ),
{
    Route {
        dex_id,
        deadline: None,
        has_slippage,
        estimated_amount,
        worst_case_amount,
        execution_instructions,
        deprecated_needs_unwrap_always_false: false,
        token_output,
    }
}

/// Who refers the swap.
pub open spec fn referrer_of(referrer: Option<Seq<char>>) -> Seq<char> {
    match referrer {
        Some(referrer) => referrer,
        None => DEFAULT_REFERRER_ID@,
    }
}

/// Who refers the swap.
pub fn referrer(referrer_id: &Option<AccountId>) -> (r: AccountId)
    ensures
        r@ == referrer_of(opt_account(*referrer_id)),
{
    match referrer_id {
        Some(referrer) => referrer.duplicate(),
        None => AccountId::new_unvalidated(DEFAULT_REFERRER_ID),
    }
}

/// The account that the token is kept by in the wallet.
pub open spec fn nep141(contract: Seq<char>) -> TokenIdView {
    TokenIdView::Nep141(contract)
}

/// A fungible token in the wallet.
pub fn wallet_nep141(contract: &AccountId) -> (r: TokenId)
    ensures
        r@ == nep141(contract@),
{
    TokenId::Nep141(contract.duplicate())
}

} // verus!
