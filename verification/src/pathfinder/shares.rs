//! What a split of an amount comes to, and where its slices go.

use vstd::prelude::*;

use super::choice::{choice_beats_every_route, chosen_split, RouteError};
use super::laws::lemma_member_ranked;
use super::market::{SwapPool, TokenView};
use super::route::{route_amount, route_purchase, route_sale, QuoteAmount, RouteView};
use super::split::{
    best_slice, best_split, buy_shares, final_weights, sell_shares, share, slice_amount, slice_start,
    sliced_weights, split_amount, step_weights, used_count, used_steps, weight_sum, weighted_split, worst_amount,
    SplitStepView, SplitView,
};
use super::top::{lemma_ranked_len, ranked};

verus! {

/// Whether a part is a number of percent of an amount, rounded down.
pub open spec fn percent_of(part: int, amount: int, percent: int) -> bool {
    part * 100 <= amount * percent < (part + 1) * 100
}

/// A share is a number of percent.
proof fn lemma_share(amount: u128, weight: u32)
    requires
        weight <= 100,
    ensures
        share(amount, weight) is Some,
        percent_of(share(amount, weight)->0 as int, amount as int, weight as int),
{
    let num = amount * weight;
    assert(0 <= num <= amount * 100) by (nonlinear_arith)
        requires
            num == amount * weight,
            0 <= weight <= 100,
            amount >= 0,
    ;
    vstd::arithmetic::div_mod::lemma_fundamental_div_mod(num, 100);
}

/// What two shares come to: the second goes through the pools as the first has
/// left them, and they add up.
pub proof fn shares_follow_each_other<P: SwapPool>(
    first: SplitStepView<P>,
    second: SplitStepView<P>,
    token_in: TokenView<P>,
    token_out: TokenView<P>,
    quote: QuoteAmount,
) -> (parts: (u128, u128))
    requires
        first.weight <= 100,
        second.weight <= 100,
    ensures
        ({
            let whole = match quote {
                QuoteAmount::ExactIn(amount) => amount,
                QuoteAmount::ExactOut(amount) => amount,
            };
            &&& percent_of(parts.0 as int, whole as int, first.weight as int)
            &&& percent_of(parts.1 as int, whole as int, second.weight as int)
        }),
        quote is ExactIn ==> split_amount::<P>(seq![first, second], token_in, token_out, quote) == match route_sale::<P>(
            first.route,
            token_in,
            token_out,
            parts.0,
            Map::empty(),
        ) {
            Some((one, changed)) => match route_sale::<P>(second.route, token_in, token_out, parts.1, changed) {
                Some((two, _)) if one + two <= u128::MAX => Some((one + two) as u128),
                _ => None,
            },
            None => None,
        },
        quote is ExactOut ==> split_amount::<P>(seq![first, second], token_in, token_out, quote)
            == match route_purchase::<P>(first.route, token_in, token_out, parts.0, Map::empty()) {
            Some((one, _, changed)) => match route_purchase::<P>(
                second.route,
                token_in,
                token_out,
                parts.1,
                changed,
            ) {
                Some((two, _, _)) if one + two <= u128::MAX => Some((one + two) as u128),
                _ => None,
            },
            None => None,
        },
{
    let whole = match quote {
        QuoteAmount::ExactIn(amount) => amount,
        QuoteAmount::ExactOut(amount) => amount,
    };
    lemma_share(whole, first.weight);
    lemma_share(whole, second.weight);
    reveal_with_fuel(sell_shares, 4);
    reveal_with_fuel(buy_shares, 4);
    (share(whole, first.weight)->0, share(whole, second.weight)->0)
}

/// Whether a route can take one more slice: it takes no more than the whole,
/// and no more than two routes are used.
pub open spec fn can_take(weights: Seq<u32>, idx: int, step: u32) -> bool {
    &&& 0 <= idx < weights.len()
    &&& weights[idx] + step <= 100
    &&& weights[idx] > 0 || forall|i: int, j: int|
        0 <= i < j < weights.len() ==> #[trigger] weights[i] == 0 || #[trigger] weights[j] == 0
}

/// The weights with one more slice.
pub open spec fn one_more(weights: Seq<u32>, idx: int, step: u32) -> Seq<u32> {
    weights.update(idx, (weights[idx] + step) as u32)
}

/// The weights after a number of slices.
pub open spec fn weights_after<P: SwapPool>(
    routes: Seq<RouteView<P>>,
    slices: nat,
    step: u32,
    quote: QuoteAmount,
    token_in: TokenView<P>,
    token_out: TokenView<P>,
) -> Seq<u32> {
    sliced_weights::<P>(
        routes,
        Seq::new(routes.len(), |i: int| 0u32),
        worst_amount(quote),
        slices,
        step,
        quote,
        token_in,
        token_out,
    )
}

/// Fewer than two routes are used exactly where no two are.
proof fn lemma_used_count(weights: Seq<u32>, k: int)
    requires
        0 <= k <= weights.len(),
    ensures
        used_count(weights, k) == 0 <==> forall|i: int| 0 <= i < k ==> #[trigger] weights[i] == 0,
        used_count(weights, k) < 2 <==> forall|i: int, j: int|
            0 <= i < j < k ==> #[trigger] weights[i] == 0 || #[trigger] weights[j] == 0,
    decreases k,
{
    if k > 0 {
        lemma_used_count(weights, k - 1);
        let before = used_count(weights, k - 1);
        if weights[k - 1] > 0 && before > 0 {
            let i = choose|i: int| 0 <= i < k - 1 && #[trigger] weights[i] != 0;
            assert(weights[i] != 0 && weights[k - 1] != 0);
        }
        if used_count(weights, k) < 2 {
            assert forall|i: int, j: int| 0 <= i < j < k implies #[trigger] weights[i] == 0 || #[trigger] weights[j]
                == 0 by {
                if j == k - 1 && weights[j] > 0 {
                    assert(before == 0);
                }
            }
        } else if before >= 2 {
            let (i, j) = choose|i: int, j: int|
                0 <= i < j < k - 1 && #[trigger] weights[i] != 0 && #[trigger] weights[j] != 0;
            assert(weights[i] != 0 && weights[j] != 0);
        }
    }
}

/// The best slice is no worse than any other, nor than what it has to be
/// better than.
proof fn lemma_best_slice<P: SwapPool>(
    routes: Seq<RouteView<P>>,
    weights: Seq<u32>,
    k: int,
    step: u32,
    quote: QuoteAmount,
    token_in: TokenView<P>,
    token_out: TokenView<P>,
    start: u128,
)
    requires
        0 <= k <= routes.len(),
    ensures
        ({
            let best = best_slice::<P>(routes, weights, k, step, quote, token_in, token_out, start);
            &&& best.1 is Some ==> {
                &&& 0 <= best.1->0 < k
                &&& slice_amount::<P>(routes, weights, best.1->0, step, quote, token_in, token_out) == Some(best.0)
            }
            &&& best.1 is None ==> best.0 == start
            &&& best.1 is Some ==> best.0 != start
            &&& forall|j: int|
                0 <= j < k ==> ((#[trigger] slice_amount::<P>(routes, weights, j, step, quote, token_in, token_out))
                    matches Some(amount) ==> match quote {
                    QuoteAmount::ExactIn(_) => amount <= best.0,
                    QuoteAmount::ExactOut(_) => amount >= best.0,
                })
            &&& match quote {
                QuoteAmount::ExactIn(_) => best.0 >= start,
                QuoteAmount::ExactOut(_) => best.0 <= start,
            }
        }),
    decreases k,
{
    if k > 0 {
        lemma_best_slice::<P>(routes, weights, k - 1, step, quote, token_in, token_out, start);
    }
}

/// What weights come to, as slicing goes.
spec fn reached<P: SwapPool>(
    routes: Seq<RouteView<P>>,
    weights: Seq<u32>,
    so_far: u128,
    quote: QuoteAmount,
    token_in: TokenView<P>,
    token_out: TokenView<P>,
) -> bool {
    &&& weights.len() == routes.len()
    &&& if used_count(weights, weights.len() as int) == 0 {
        so_far == worst_amount(quote)
    } else {
        split_amount::<P>(weighted_split::<P>(routes, weights), token_in, token_out, quote) == Some(so_far)
    }
}

/// What one more slice comes to.
spec fn next_slice<P: SwapPool>(
    routes: Seq<RouteView<P>>,
    weights: Seq<u32>,
    next: Seq<u32>,
    step: u32,
    quote: QuoteAmount,
    token_in: TokenView<P>,
    token_out: TokenView<P>,
) -> bool {
    let now = split_amount::<P>(weighted_split::<P>(routes, weights), token_in, token_out, quote);
    let after = split_amount::<P>(weighted_split::<P>(routes, next), token_in, token_out, quote);
    &&& next != weights ==> {
        &&& exists|idx: int| #[trigger] can_take(weights, idx, step) && next == one_more(weights, idx, step)
        &&& after is Some
        &&& quote is ExactIn ==> after->0 > 0 && (used_count(weights, weights.len() as int) > 0 ==> now is Some
            && after->0 > now->0)
        &&& quote is ExactOut ==> after->0 < u128::MAX
        &&& forall|j: int|
            #![trigger one_more(weights, j, step)]
            can_take(weights, j, step) ==> (split_amount::<P>(
                weighted_split::<P>(routes, one_more(weights, j, step)),
                token_in,
                token_out,
                quote,
            ) matches Some(other) ==> match quote {
                QuoteAmount::ExactIn(_) => after->0 >= other,
                QuoteAmount::ExactOut(_) => after->0 <= other,
            })
    }
    &&& next == weights ==> forall|j: int|
        #![trigger one_more(weights, j, step)]
        can_take(weights, j, step) ==> (split_amount::<P>(
            weighted_split::<P>(routes, one_more(weights, j, step)),
            token_in,
            token_out,
            quote,
        ) matches Some(other) ==> match quote {
            QuoteAmount::ExactIn(_) => other == 0 || (weights.len() > 0 && used_count(weights, weights.len() as int)
                > 0 && now is Some && now->0 >= other),
            QuoteAmount::ExactOut(_) => other == u128::MAX,
        })
}

/// One slice more or less.
#[verifier::rlimit(50)]
proof fn lemma_next_slice<P: SwapPool>(
    routes: Seq<RouteView<P>>,
    weights: Seq<u32>,
    so_far: u128,
    rounds: nat,
    step: u32,
    quote: QuoteAmount,
    token_in: TokenView<P>,
    token_out: TokenView<P>,
)
    requires
        0 < step <= 100,
        reached::<P>(routes, weights, so_far, quote, token_in, token_out),
    ensures
        next_slice::<P>(
            routes,
            sliced_weights::<P>(routes, weights, so_far, rounds, step, quote, token_in, token_out),
            sliced_weights::<P>(routes, weights, so_far, rounds + 1, step, quote, token_in, token_out),
            step,
            quote,
            token_in,
            token_out,
        ),
    decreases rounds,
{
    let n = routes.len() as int;
    let start = slice_start(quote, so_far);
    let best = best_slice::<P>(routes, weights, n, step, quote, token_in, token_out, start);
    lemma_best_slice::<P>(routes, weights, n, step, quote, token_in, token_out, start);
    lemma_used_count(weights, n);
    assert forall|j: int| can_take(weights, j, step) implies #[trigger] slice_amount::<P>(
        routes,
        weights,
        j,
        step,
        quote,
        token_in,
        token_out,
    ) == split_amount::<P>(
        weighted_split::<P>(routes, one_more(weights, j, step)),
        token_in,
        token_out,
        quote,
    ) by {}
    match best.1 {
        Some(idx) => {
            let more = one_more(weights, idx, step);
            lemma_used_count(more, n);
            assert(more[idx] > 0);
            assert(can_take(weights, idx, step));
            if rounds > 0 {
                lemma_next_slice::<P>(
                    routes,
                    more,
                    best.0,
                    (rounds - 1) as nat,
                    step,
                    quote,
                    token_in,
                    token_out,
                );
            } else {
                reveal_with_fuel(sliced_weights, 2);
                assert(more != weights) by {
                    assert(more[idx] != weights[idx]);
                }
                assert forall|j: int|
                    #![trigger one_more(weights, j, step)]
                    can_take(weights, j, step) implies (split_amount::<P>(
                    weighted_split::<P>(routes, one_more(weights, j, step)),
                    token_in,
                    token_out,
                    quote,
                ) matches Some(other) ==> match quote {
                    QuoteAmount::ExactIn(_) => best.0 >= other,
                    QuoteAmount::ExactOut(_) => best.0 <= other,
                }) by {
                    let other = slice_amount::<P>(routes, weights, j, step, quote, token_in, token_out);
                }
            }
        },
        None => {
            assert(sliced_weights::<P>(routes, weights, so_far, rounds, step, quote, token_in, token_out) == weights);
            assert(sliced_weights::<P>(routes, weights, so_far, rounds + 1, step, quote, token_in, token_out)
                == weights);
            assert forall|j: int|
                #![trigger one_more(weights, j, step)]
                can_take(weights, j, step) implies (split_amount::<P>(
                weighted_split::<P>(routes, one_more(weights, j, step)),
                token_in,
                token_out,
                quote,
            ) matches Some(other) ==> match quote {
                QuoteAmount::ExactIn(_) => other <= so_far,
                QuoteAmount::ExactOut(_) => other == u128::MAX,
            }) by {
                let other = slice_amount::<P>(routes, weights, j, step, quote, token_in, token_out);
            }
        },
    }
}

/// Where every slice goes: one more slice either goes through a route that can
/// take it, and then it gives more than without it, and no other route that
/// can would come to a better amount; or it goes nowhere, and then no route
/// that can take it would come to anything, or to more than without it.
#[verifier::rlimit(50)]
pub proof fn each_slice_goes_where_it_is_best<P: SwapPool>(
    routes: Seq<RouteView<P>>,
    slices: nat,
    step: u32,
    quote: QuoteAmount,
    token_in: TokenView<P>,
    token_out: TokenView<P>,
    j: int,
)
    requires
        0 < step <= 100,
        can_take(weights_after::<P>(routes, slices, step, quote, token_in, token_out), j, step),
    ensures
        ({
            let weights = weights_after::<P>(routes, slices, step, quote, token_in, token_out);
            let next = weights_after::<P>(routes, slices + 1, step, quote, token_in, token_out);
            let now = split_amount::<P>(weighted_split::<P>(routes, weights), token_in, token_out, quote);
            let after = split_amount::<P>(weighted_split::<P>(routes, next), token_in, token_out, quote);
            let other = split_amount::<P>(
                weighted_split::<P>(routes, one_more(weights, j, step)),
                token_in,
                token_out,
                quote,
            );
            &&& next != weights ==> {
                &&& exists|idx: int| #[trigger] can_take(weights, idx, step) && next == one_more(weights, idx, step)
                &&& after is Some
                &&& quote is ExactIn ==> after->0 > 0
                &&& quote is ExactIn && (exists|i: int| 0 <= i < weights.len() && #[trigger] weights[i] > 0) ==> {
                    &&& now is Some
                    &&& after->0 > now->0
                }
                &&& quote is ExactOut ==> after->0 < u128::MAX
                &&& other is Some && quote is ExactIn ==> after->0 >= other->0
                &&& other is Some && quote is ExactOut ==> after->0 <= other->0
            }
            &&& next == weights && other is Some ==> {
                &&& quote is ExactIn ==> other->0 == 0 || (now is Some && now->0 >= other->0)
                &&& quote is ExactOut ==> other->0 == u128::MAX
            }
        }),
{
    let zeros = Seq::new(routes.len(), |i: int| 0u32);
    lemma_used_count(zeros, zeros.len() as int);
    lemma_next_slice::<P>(routes, zeros, worst_amount(quote), slices, step, quote, token_in, token_out);
    let weights = weights_after::<P>(routes, slices, step, quote, token_in, token_out);
    let more = one_more(weights, j, step);
    lemma_used_count(weights, weights.len() as int);
}

/// A used route has its share among the used.
proof fn lemma_used<P: SwapPool>(routes: Seq<RouteView<P>>, weights: Seq<u32>, k: int, i: int)
    requires
        0 <= i < k,
        weights[i] > 0,
    ensures
        used_steps::<P>(routes, weights, k).contains(SplitStepView::<P> { route: routes[i], weight: weights[i] }),
    decreases k,
{
    let all = used_steps::<P>(routes, weights, k);
    let before = used_steps::<P>(routes, weights, k - 1);
    let wanted = SplitStepView::<P> { route: routes[i], weight: weights[i] };
    if i == k - 1 {
        assert(all[before.len() as int] == wanted);
    } else {
        lemma_used::<P>(routes, weights, k - 1, i);
        let p = choose|p: int| 0 <= p < before.len() && before[p] == wanted;
        assert(all[p] == wanted);
    }
}

/// A split is what its slices make: as many of them as the whole holds, and
/// every route that one of them went through has its share. There is one where
/// a slice went somewhere and, if the whole must be used, all did.
pub proof fn slices_make_the_split<P: SwapPool>(
    routes: Seq<RouteView<P>>,
    step: u32,
    whole: bool,
    quote: QuoteAmount,
    token_in: TokenView<P>,
    token_out: TokenView<P>,
    i: int,
)
    requires
        0 < step <= 100,
        0 <= i < routes.len(),
    ensures
        ({
            let weights = weights_after::<P>(routes, (100u32 / step) as nat, step, quote, token_in, token_out);
            let split = best_split::<P>(routes, step, whole, quote, token_in, token_out);
            &&& split is Some && weights[i] > 0 ==> split->0.contains(
                SplitStepView::<P> { route: routes[i], weight: weights[i] },
            )
            &&& split is None && !whole ==> weights[i] == 0
            &&& split is None && whole && weights[i] == 100 ==> false
        }),
{
    let weights = final_weights::<P>(routes, step, quote, token_in, token_out);
    super::split::split_keeps_to_the_whole::<P>(routes, step, quote, token_in, token_out);
    lemma_at_most_the_sum(weights, weights.len() as int, i);
    if weights[i] > 0 {
        let n = routes.len() as int;
        let steps = used_steps::<P>(routes, weights, n);
        let keys = step_weights::<P>(steps);
        lemma_used::<P>(routes, weights, n, i);
        let wanted = SplitStepView::<P> { route: routes[i], weight: weights[i] };
        let p = choose|p: int| 0 <= p < steps.len() && steps[p] == wanted;
        lemma_ranked_len(steps, keys);
        lemma_member_ranked(steps, keys, p);
        let list = ranked(steps, keys);
        let q = choose|q: int| 0 <= q < list.len() && #[trigger] list[q] == (steps[p], keys[p]);
        assert(weighted_split::<P>(routes, weights)[q] == wanted);
    }
}

proof fn lemma_at_most_the_sum(weights: Seq<u32>, k: int, i: int)
    requires
        0 <= i < k <= weights.len(),
    ensures
        weights[i] <= weight_sum(weights, k),
        0 <= weight_sum(weights, k),
    decreases k,
{
    if k > 1 {
        if i < k - 1 {
            lemma_at_most_the_sum(weights, k - 1, i);
        } else {
            lemma_at_most_the_sum(weights, k - 1, 0);
        }
    } else {
        assert(weight_sum(weights, 0) == 0);
    }
}

/// What is offered goes through at most two routes, comes to something, and
/// gives at least as much, or takes at most as much, as each of the routes
/// alone.
pub proof fn the_choice_is_no_worse<P: SwapPool>(
    routes: Seq<RouteView<P>>,
    step: u32,
    whole: bool,
    quote: QuoteAmount,
    token_in: TokenView<P>,
    token_out: TokenView<P>,
    i: int,
)
    requires
        0 <= i < routes.len(),
        0 < step <= 100,
    ensures
        chosen_split::<P>(routes, step, whole, quote, token_in, token_out) matches Ok(split) ==> {
            let amount = split_amount::<P>(split, token_in, token_out, quote);
            let alone = route_amount::<P>(routes[i], token_in, token_out, quote);
            &&& amount is Some
            &&& alone is Some && quote is ExactIn ==> amount->0 >= alone->0
            &&& alone is Some && quote is ExactOut ==> amount->0 <= alone->0
        },
{
    choice_beats_every_route::<P>(routes, step, whole, quote, token_in, token_out, i);
}

/// When something is offered: exactly where there is a route, there is a split
/// of the amount, and it comes to something. What is offered otherwise fails
/// for the first of these that is missing.
pub proof fn splits_that_come_to_something_are_offered<P: SwapPool>(
    routes: Seq<RouteView<P>>,
    step: u32,
    whole: bool,
    quote: QuoteAmount,
    token_in: TokenView<P>,
    token_out: TokenView<P>,
)
    ensures
        ({
            let split = best_split::<P>(routes, step, whole, quote, token_in, token_out);
            let amount = split_amount::<P>(split->0, token_in, token_out, quote);
            let choice = chosen_split::<P>(routes, step, whole, quote, token_in, token_out);
            &&& choice is Ok <==> routes.len() > 0 && split is Some && amount is Some && amount->0 > 0
            &&& choice == Err::<SplitView<P>, RouteError>(RouteError::NoRoutes) <==> routes.len() == 0
            &&& choice == Err::<SplitView<P>, RouteError>(RouteError::NoSplit) <==> routes.len() > 0 && split is None
            &&& choice == Err::<SplitView<P>, RouteError>(RouteError::Zero) <==> routes.len() > 0 && split is Some
                && amount == Some(0u128)
        }),
{
}

} // verus!
