//! What following a route comes to, step by step.

use vstd::prelude::*;

use super::market::{SwapPool, TokenView};
use super::route::{buy_steps, route_purchase, route_sale, sell_steps, DeltaView, RouteView, StepView};

verus! {

/// The pool of a step as the swaps so far have left it.
pub open spec fn as_left<P: SwapPool>(step: StepView<P>, changed: DeltaView<P>) -> P::V {
    if changed.contains_key(P::number(step.pool)) {
        changed[P::number(step.pool)]
    } else {
        step.pool
    }
}

/// Selling through one pool is a sale on it as the swaps so far have left it,
/// and afterwards it is as that sale leaves it.
pub proof fn one_step_is_a_sale<P: SwapPool>(step: StepView<P>, amount: u128, changed: DeltaView<P>)
    ensures
        route_sale::<P>(seq![step], step.token_in, step.token_out, amount, changed) == match P::sale(
            as_left::<P>(step, changed),
            step.token_in,
            step.token_out,
            amount,
        ) {
            Some((pool, given)) => Some((given, changed.insert(P::number(pool), pool))),
            None => None,
        },
{
    reveal_with_fuel(sell_steps, 3);
}

/// Buying through one pool is a purchase on it as the swaps so far have left
/// it, and afterwards it is as that purchase leaves it.
pub proof fn one_step_is_a_purchase<P: SwapPool>(step: StepView<P>, amount: u128, changed: DeltaView<P>)
    ensures
        route_purchase::<P>(seq![step], step.token_in, step.token_out, amount, changed) == match P::purchase(
            as_left::<P>(step, changed),
            step.token_in,
            step.token_out,
            amount,
        ) {
            Some((pool, taken)) => Some((taken, seq![(taken, amount)], changed.insert(P::number(pool), pool))),
            None => None,
        },
{
    reveal_with_fuel(buy_steps, 3);
    match P::purchase(as_left::<P>(step, changed), step.token_in, step.token_out, amount) {
        Some((pool, taken)) => {
            assert(seq![(taken, amount)] + Seq::<(u128, u128)>::empty() =~= seq![(taken, amount)]);
        },
        None => {},
    }
}

/// The first steps of a longer route.
proof fn lemma_sell_prefix<P: SwapPool>(
    first: RouteView<P>,
    second: RouteView<P>,
    k: int,
    token_in: TokenView<P>,
    amount: u128,
    changed: DeltaView<P>,
)
    requires
        0 <= k <= first.len(),
    ensures
        sell_steps::<P>(first + second, k, token_in, amount, changed) == sell_steps::<P>(
            first,
            k,
            token_in,
            amount,
            changed,
        ),
        sell_steps::<P>(first, k, token_in, amount, changed) matches Some((token, _, _)) ==> token == if k == 0 {
            token_in
        } else {
            first[k - 1].token_out
        },
    decreases k,
{
    if k > 0 {
        lemma_sell_prefix::<P>(first, second, k - 1, token_in, amount, changed);
    }
}

/// The later steps of a longer route.
proof fn lemma_sell_rest<P: SwapPool>(
    first: RouteView<P>,
    second: RouteView<P>,
    k: int,
    token_in: TokenView<P>,
    amount: u128,
    changed: DeltaView<P>,
)
    requires
        0 <= k <= second.len(),
    ensures
        sell_steps::<P>(first + second, first.len() + k, token_in, amount, changed) == match sell_steps::<P>(
            first,
            first.len() as int,
            token_in,
            amount,
            changed,
        ) {
            Some((token, held, changed)) => sell_steps::<P>(second, k, token, held, changed),
            None => None,
        },
    decreases k,
{
    if k > 0 {
        lemma_sell_rest::<P>(first, second, k - 1, token_in, amount, changed);
    } else {
        lemma_sell_prefix::<P>(first, second, first.len() as int, token_in, amount, changed);
    }
}

/// Selling along two routes, one behind the other, is selling along the first
/// and then what that gives along the second, on the pools as the first has
/// left them.
pub proof fn routes_are_sold_one_after_the_other<P: SwapPool>(
    first: RouteView<P>,
    second: RouteView<P>,
    token_in: TokenView<P>,
    token_out: TokenView<P>,
    amount: u128,
    changed: DeltaView<P>,
)
    requires
        first.len() > 0,
    ensures
        route_sale::<P>(first + second, token_in, token_out, amount, changed) == match route_sale::<P>(
            first,
            token_in,
            first.last().token_out,
            amount,
            changed,
        ) {
            Some((held, changed)) => route_sale::<P>(second, first.last().token_out, token_out, held, changed),
            None => None,
        },
{
    lemma_sell_rest::<P>(first, second, second.len() as int, token_in, amount, changed);
    lemma_sell_prefix::<P>(first, second, first.len() as int, token_in, amount, changed);
}

/// The last steps of a longer route.
proof fn lemma_buy_suffix<P: SwapPool>(
    first: RouteView<P>,
    second: RouteView<P>,
    k: int,
    token_out: TokenView<P>,
    amount: u128,
    changed: DeltaView<P>,
)
    requires
        0 <= k <= second.len(),
    ensures
        buy_steps::<P>(first + second, k, token_out, amount, changed) == buy_steps::<P>(
            second,
            k,
            token_out,
            amount,
            changed,
        ),
        buy_steps::<P>(second, k, token_out, amount, changed) matches Some((token, _, _, _)) ==> token == if k == 0 {
            token_out
        } else {
            second[second.len() - k].token_in
        },
    decreases k,
{
    if k > 0 {
        lemma_buy_suffix::<P>(first, second, k - 1, token_out, amount, changed);
        assert((first + second)[(first + second).len() - k] == second[second.len() - k]);
    }
}

/// The earlier steps of a longer route.
proof fn lemma_buy_rest<P: SwapPool>(
    first: RouteView<P>,
    second: RouteView<P>,
    k: int,
    token_out: TokenView<P>,
    amount: u128,
    changed: DeltaView<P>,
)
    requires
        0 <= k <= first.len(),
    ensures
        buy_steps::<P>(first + second, second.len() + k, token_out, amount, changed) == match buy_steps::<P>(
            second,
            second.len() as int,
            token_out,
            amount,
            changed,
        ) {
            Some((token, owed, later, changed)) => match buy_steps::<P>(first, k, token, owed, changed) {
                Some((token, owed, amounts, changed)) => Some((token, owed, amounts + later, changed)),
                None => None,
            },
            None => None,
        },
    decreases k,
{
    if k > 0 {
        lemma_buy_rest::<P>(first, second, k - 1, token_out, amount, changed);
        let whole = first + second;
        assert(whole[whole.len() - (second.len() + k)] == first[first.len() - k]);
        match buy_steps::<P>(second, second.len() as int, token_out, amount, changed) {
            Some((token, owed, later, changed)) => match buy_steps::<P>(first, k - 1, token, owed, changed) {
                Some((_, held, amounts, changed)) => {
                    assert forall|taken: u128| #[trigger] seq![(taken, held)] + (amounts + later) == seq![(taken, held)]
                        + amounts + later by {
                        assert(seq![(taken, held)] + (amounts + later) =~= seq![(taken, held)] + amounts + later);
                    }
                },
                None => {},
            },
            None => {},
        }
    } else {
        lemma_buy_suffix::<P>(first, second, second.len() as int, token_out, amount, changed);
        match buy_steps::<P>(second, second.len() as int, token_out, amount, changed) {
            Some((token, owed, later, changed)) => {
                assert(Seq::<(u128, u128)>::empty() + later =~= later);
            },
            None => {},
        }
    }
}

/// Buying along two routes, one behind the other, is buying along the second
/// and then what that takes along the first, on the pools as the second has
/// left them.
pub proof fn routes_are_bought_from_the_end<P: SwapPool>(
    first: RouteView<P>,
    second: RouteView<P>,
    token_in: TokenView<P>,
    token_out: TokenView<P>,
    amount: u128,
    changed: DeltaView<P>,
)
    requires
        second.len() > 0,
    ensures
        route_purchase::<P>(first + second, token_in, token_out, amount, changed) == match route_purchase::<P>(
            second,
            second[0].token_in,
            token_out,
            amount,
            changed,
        ) {
            Some((owed, later, changed)) => match route_purchase::<P>(
                first,
                token_in,
                second[0].token_in,
                owed,
                changed,
            ) {
                Some((taken, amounts, changed)) => Some((taken, amounts + later, changed)),
                None => None,
            },
            None => None,
        },
{
    lemma_buy_rest::<P>(first, second, first.len() as int, token_out, amount, changed);
    lemma_buy_suffix::<P>(first, second, second.len() as int, token_out, amount, changed);
}

} // verus!
