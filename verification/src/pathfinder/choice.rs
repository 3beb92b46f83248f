//! The choice between a split and the single routes.

use vstd::prelude::*;

use super::market::{SwapPool, TokenView};
use super::route::{route_amount, route_purchase, route_sale, QuoteAmount, Route, RouteView};
use super::split::{
    best_split, buy_shares, find_best_split_route, found_split_can_be_emulated, is_better, sell_shares, share,
    split_amount, split_shares_fall, split_total, whole_split_is_whole, SplitRoute, SplitStepView, SplitView,
    MAX_SPLITS_COUNT,
};
use crate::ident::views;

verus! {

/// Why no way was found.
#[derive(Clone, Copy, Debug, PartialEq, Eq, Structural)]
pub enum RouteError {
    /// No route connects the tokens.
    NoRoutes,
    /// The amount cannot be split between the routes.
    NoSplit,
    /// The split that was found cannot be emulated.
    Emulation,
    /// The split that was found comes to nothing.
    Zero,
}

/// Why a split cannot be offered.
#[derive(Clone, Copy, Debug, PartialEq, Eq, Structural)]
pub enum OfferError {
    /// The shares of the amount do not fit, or do not make it up.
    Parts,
    /// A route cannot be emulated.
    Emulation,
    /// What the routes give together does not fit.
    TotalOut,
    /// What the routes take together does not fit.
    TotalIn,
    /// What the routes take at most, together, does not fit.
    TotalMost,
    /// The bound on an amount does not fit.
    Bound,
}

/// The split that sends the whole amount through one route.
pub open spec fn whole_through<P: SwapPool>(route: RouteView<P>) -> SplitView<P> {
    seq![SplitStepView::<P> { route, weight: 100 }]
}

/// The better of the split and the first `k` routes, each for the whole
/// amount; the earlier one where they are equal.
pub open spec fn best_of<P: SwapPool>(
    routes: Seq<RouteView<P>>,
    k: int,
    split: SplitView<P>,
    amount: u128,
    quote: QuoteAmount,
    token_in: TokenView<P>,
    token_out: TokenView<P>,
) -> (SplitView<P>, u128)
    decreases k,
{
    if k <= 0 {
        (split, amount)
    } else {
        let before = best_of::<P>(routes, k - 1, split, amount, quote, token_in, token_out);
        let single = whole_through::<P>(routes[k - 1]);
        match split_amount::<P>(single, token_in, token_out, quote) {
            Some(alone) => if is_better(quote, alone, before.1) {
                (single, alone)
            } else {
                before
            },
            None => before,
        }
    }
}

/// The split that is offered for the routes.
pub open spec fn chosen_split<P: SwapPool>(
    routes: Seq<RouteView<P>>,
    step: u32,
    whole: bool,
    quote: QuoteAmount,
    token_in: TokenView<P>,
    token_out: TokenView<P>,
) -> Result<SplitView<P>, RouteError> {
    if routes.len() == 0 {
        Err(RouteError::NoRoutes)
    } else {
        match best_split::<P>(routes, step, whole, quote, token_in, token_out) {
            Some(split) => match split_amount::<P>(split, token_in, token_out, quote) {
                Some(amount) => if amount == 0 {
                    Err(RouteError::Zero)
                } else {
                    Ok(
                        best_of::<P>(
                            routes,
                            routes.len() as int,
                            split,
                            amount,
                            quote,
                            token_in,
                            token_out,
                        ).0,
                    )
                },
                None => Err(RouteError::Emulation),
            },
            None => Err(RouteError::NoSplit),
        }
    }
}

/// The view of the outcome of a choice.
pub open spec fn split_result<P: SwapPool>(r: Result<SplitRoute<P>, RouteError>) -> Result<
    SplitView<P>,
    RouteError,
> {
    match r {
        Ok(split) => Ok(split@),
        Err(e) => Err(e),
    }
}

/// Chooses the split that is offered for the routes.
pub fn choose_split<'a, P: SwapPool>(
    routes: &Vec<Route<'a, P>>,
    step: u32,
    whole: bool,
    quote: QuoteAmount,
    token_in: &P::Token,
    token_out: &P::Token,
) -> (r: Result<SplitRoute<'a, P>, RouteError>)
    requires
        0 < step <= 100,
    ensures
        split_result(r) == chosen_split::<P>(
            views(routes@),
            step,
            whole,
            quote,
            token_in@,
            token_out@,
        ),
{
    let ghost all = views(routes@);
    if routes.len() == 0 {
        return Err(RouteError::NoRoutes);
    }
    let mut best: SplitRoute<'a, P> = match find_best_split_route(
        routes,
        quote,
        token_in,
        token_out,
        step,
        whole,
    ) {
        Some(split) => split,
        None => {
            return Err(RouteError::NoSplit);
        },
    };
    let mut amount: u128 = match best.emulate_swap(token_in, token_out, quote) {
        Some(amount) => amount,
        None => {
            return Err(RouteError::Emulation);
        },
    };
    if amount == 0 {
        return Err(RouteError::Zero);
    }
    let ghost split = best@;
    let ghost first = amount;
    let mut i: usize = 0;
    while i < routes.len()
        invariant
            i <= routes@.len(),
            all == views(routes@),
            best_of::<P>(all, i as int, split, first, quote, token_in@, token_out@) == (best@, amount),
        decreases routes@.len() - i,
    {
        let single: SplitRoute<'a, P> = SplitRoute::single(routes[i].duplicate());
        assert(all[i as int] == routes@[i as int]@);
        assert(single@ =~= whole_through::<P>(all[i as int]));
        match single.emulate_swap(token_in, token_out, quote) {
            Some(alone) => {
                let improves: bool = match quote {
                    QuoteAmount::ExactIn(_) => alone > amount,
                    QuoteAmount::ExactOut(_) => alone < amount,
                };
                if improves {
                    best = single;
                    amount = alone;
                }
            },
            None => {},
        }
        i = i + 1;
    }
    Ok(best)
}

/// The whole amount through one route comes to what the route comes to.
pub proof fn whole_through_comes_to_the_route<P: SwapPool>(
    route: RouteView<P>,
    token_in: TokenView<P>,
    token_out: TokenView<P>,
    quote: QuoteAmount,
)
    ensures
        split_amount::<P>(whole_through::<P>(route), token_in, token_out, quote) == route_amount::<P>(
            route,
            token_in,
            token_out,
            quote,
        ),
{
    let split = whole_through::<P>(route);
    match quote {
        QuoteAmount::ExactIn(amount) => {
            assert(amount * 100 / 100 == amount);
            assert(share(amount, 100) == Some(amount));
            assert(sell_shares::<P>(split, 0, token_in, token_out, amount) == Some(
                (0u128, Map::<u64, P::V>::empty()),
            ));
            assert(sell_shares::<P>(split, 1, token_in, token_out, amount) == route_sale::<P>(
                route,
                token_in,
                token_out,
                amount,
                Map::empty(),
            ));
        },
        QuoteAmount::ExactOut(amount) => {
            assert(amount * 100 / 100 == amount);
            assert(share(amount, 100) == Some(amount));
            assert(buy_shares::<P>(split, 0, token_in, token_out, amount) == Some(
                (0u128, Map::<u64, P::V>::empty()),
            ));
            let bought = route_purchase::<P>(route, token_in, token_out, amount, Map::empty());
            assert(split[0].route == route && split[0].weight == 100);
            assert(buy_shares::<P>(split, 1, token_in, token_out, amount) == match bought {
                Some((taken, _, delta)) => Some((taken, delta)),
                None => None,
            });
        },
    }
}

/// The amount that goes with the best of a split and some routes is what it
/// comes to, and none of the routes comes to a better one.
proof fn lemma_best_of<P: SwapPool>(
    routes: Seq<RouteView<P>>,
    k: int,
    split: SplitView<P>,
    amount: u128,
    quote: QuoteAmount,
    token_in: TokenView<P>,
    token_out: TokenView<P>,
)
    requires
        split_amount::<P>(split, token_in, token_out, quote) == Some(amount),
        k <= routes.len(),
    ensures
        ({
            let best = best_of::<P>(routes, k, split, amount, quote, token_in, token_out);
            &&& split_amount::<P>(best.0, token_in, token_out, quote) == Some(best.1)
            &&& !is_better(quote, amount, best.1)
            &&& forall|i: int|
                0 <= i < k ==> match route_amount::<P>(#[trigger] routes[i], token_in, token_out, quote) {
                    Some(alone) => !is_better(quote, alone, best.1),
                    None => true,
                }
        }),
    decreases k,
{
    if k > 0 {
        lemma_best_of::<P>(routes, k - 1, split, amount, quote, token_in, token_out);
        whole_through_comes_to_the_route::<P>(routes[k - 1], token_in, token_out, quote);
    }
}

/// What is offered is at least as good as each of the routes alone.
pub proof fn choice_beats_every_route<P: SwapPool>(
    routes: Seq<RouteView<P>>,
    step: u32,
    whole: bool,
    quote: QuoteAmount,
    token_in: TokenView<P>,
    token_out: TokenView<P>,
    i: int,
)
    requires
        0 <= i < routes.len(),
    ensures
        chosen_split::<P>(routes, step, whole, quote, token_in, token_out) matches Ok(split) ==> {
            &&& split_amount::<P>(split, token_in, token_out, quote) matches Some(amount)
            &&& route_amount::<P>(routes[i], token_in, token_out, quote) matches Some(alone) ==> !is_better(
                quote,
                alone,
                amount,
            )
        },
{
    match best_split::<P>(routes, step, whole, quote, token_in, token_out) {
        Some(split) => match split_amount::<P>(split, token_in, token_out, quote) {
            Some(amount) => {
                lemma_best_of::<P>(
                    routes,
                    routes.len() as int,
                    split,
                    amount,
                    quote,
                    token_in,
                    token_out,
                );
                assert(route_amount::<P>(routes[i], token_in, token_out, quote) == route_amount::<P>(
                    routes[i],
                    token_in,
                    token_out,
                    quote,
                ));
            },
            None => {},
        },
        None => {},
    }
}

/// A choice never fails because what was found cannot be emulated.
pub proof fn choice_is_emulated<P: SwapPool>(
    routes: Seq<RouteView<P>>,
    step: u32,
    whole: bool,
    quote: QuoteAmount,
    token_in: TokenView<P>,
    token_out: TokenView<P>,
)
    ensures
        match chosen_split::<P>(routes, step, whole, quote, token_in, token_out) {
            Ok(split) => split_amount::<P>(split, token_in, token_out, quote) is Some,
            Err(e) => e != RouteError::Emulation,
        },
{
    found_split_can_be_emulated::<P>(routes, step, whole, quote, token_in, token_out);
    if routes.len() > 0 {
        choice_beats_every_route::<P>(routes, step, whole, quote, token_in, token_out, 0);
    }
}

/// What is true of the best split, and of every route for the whole amount,
/// is true of the choice.
proof fn lemma_best_of_kind<P: SwapPool>(
    routes: Seq<RouteView<P>>,
    k: int,
    split: SplitView<P>,
    amount: u128,
    quote: QuoteAmount,
    token_in: TokenView<P>,
    token_out: TokenView<P>,
)
    requires
        0 <= k <= routes.len(),
    ensures
        ({
            let best = best_of::<P>(routes, k, split, amount, quote, token_in, token_out).0;
            best == split || exists|i: int| 0 <= i < k && best == whole_through::<P>(#[trigger] routes[i])
        }),
    decreases k,
{
    if k > 0 {
        lemma_best_of_kind::<P>(routes, k - 1, split, amount, quote, token_in, token_out);
        let before = best_of::<P>(routes, k - 1, split, amount, quote, token_in, token_out).0;
        let best = best_of::<P>(routes, k, split, amount, quote, token_in, token_out).0;
        if best != before {
            assert(best == whole_through::<P>(routes[k - 1]));
        } else if before != split {
            let i = choose|i: int| 0 <= i < k - 1 && before == whole_through::<P>(#[trigger] routes[i]);
            assert(best == whole_through::<P>(routes[i]));
        }
    }
}

/// What is offered goes through at most two of the routes, the largest share
/// first; every share is a number of whole slices, more than none and no more
/// than the whole.
pub proof fn chosen_shares_fall<P: SwapPool>(
    routes: Seq<RouteView<P>>,
    step: u32,
    whole: bool,
    quote: QuoteAmount,
    token_in: TokenView<P>,
    token_out: TokenView<P>,
)
    requires
        0 < step <= 100,
        100int % step as int == 0,
    ensures
        chosen_split::<P>(routes, step, whole, quote, token_in, token_out) matches Ok(split) ==> {
            &&& split.len() <= MAX_SPLITS_COUNT
            &&& forall|i: int, j: int| 0 <= i <= j < split.len() ==> split[i].weight >= split[j].weight
            &&& forall|i: int|
                0 <= i < split.len() ==> {
                    &&& 0 < (#[trigger] split[i]).weight <= 100
                    &&& split[i].weight as int % step as int == 0
                    &&& routes.contains(split[i].route)
                }
        },
{
    match chosen_split::<P>(routes, step, whole, quote, token_in, token_out) {
        Ok(chosen) => {
            let split = best_split::<P>(routes, step, whole, quote, token_in, token_out)->0;
            let amount = split_amount::<P>(split, token_in, token_out, quote)->0;
            split_shares_fall::<P>(routes, step, whole, quote, token_in, token_out);
            lemma_best_of_kind::<P>(
                routes,
                routes.len() as int,
                split,
                amount,
                quote,
                token_in,
                token_out,
            );
        },
        Err(_) => {},
    }
}

/// Where the whole must be used, the shares of the choice are the whole.
pub proof fn chosen_shares_are_the_whole<P: SwapPool>(
    routes: Seq<RouteView<P>>,
    step: u32,
    quote: QuoteAmount,
    token_in: TokenView<P>,
    token_out: TokenView<P>,
)
    requires
        0 < step <= 100,
    ensures
        chosen_split::<P>(routes, step, true, quote, token_in, token_out) matches Ok(split) ==> split_total::<P>(
            split,
            split.len() as int,
        ) == 100,
{
    match chosen_split::<P>(routes, step, true, quote, token_in, token_out) {
        Ok(chosen) => {
            let split = best_split::<P>(routes, step, true, quote, token_in, token_out)->0;
            let amount = split_amount::<P>(split, token_in, token_out, quote)->0;
            whole_split_is_whole::<P>(routes, step, quote, token_in, token_out);
            lemma_best_of_kind::<P>(
                routes,
                routes.len() as int,
                split,
                amount,
                quote,
                token_in,
                token_out,
            );
            reveal_with_fuel(split_total, 2);
        },
        Err(_) => {},
    }
}

} // verus!
