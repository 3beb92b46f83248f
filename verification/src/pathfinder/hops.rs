//! How many pools the routes of a search go through.

use vstd::prelude::*;

use super::laws::{lemma_simple_member, lemma_top_k_member};
use super::market::{SwapPool, TokenView};
use super::pools::neighbours;
use super::route::{route_amount, QuoteAmount, RouteView};
use super::search::{
    best_direct, best_leg, best_routes, candidate_routes, depth, direct_routes, middle_hops, outer_hops, route_keys,
    route_through, route_through_two, routes_from, routes_through, routes_through_two, simple_routes, MaxHops,
};

verus! {

/// The most pools that a route goes through.
pub open spec fn most_hops(max_hops: MaxHops) -> nat {
    match max_hops {
        MaxHops::DirectOnly => 1,
        MaxHops::Two => 2,
        MaxHops::Three => 3,
        MaxHops::Four => 4,
        MaxHops::Max => 9,
    }
}

/// Whether no route goes through more pools than that.
pub open spec fn within<P: SwapPool>(routes: Seq<RouteView<P>>, hops: nat) -> bool {
    forall|i: int| 0 <= i < routes.len() ==> (#[trigger] routes[i]).len() <= hops
}

/// A longer list, where the added route is no longer than that either.
proof fn lemma_push_within<P: SwapPool>(routes: Seq<RouteView<P>>, route: RouteView<P>, hops: nat)
    requires
        within::<P>(routes, hops),
        route.len() <= hops,
    ensures
        within::<P>(routes.push(route), hops),
{
}

/// The best pool between two tokens is one.
proof fn lemma_best_direct<P: SwapPool>(
    pools: Seq<P::V>,
    quote: QuoteAmount,
    token_in: TokenView<P>,
    token_out: TokenView<P>,
)
    ensures
        best_direct::<P>(pools, quote, token_in, token_out) matches Some(route) ==> route.len() == 1,
{
}

/// A route by way of one token goes through two pools.
proof fn lemma_route_through<P: SwapPool>(
    pools: Seq<P::V>,
    quote: QuoteAmount,
    token_in: TokenView<P>,
    middle: TokenView<P>,
    token_out: TokenView<P>,
)
    ensures
        route_through::<P>(pools, quote, token_in, middle, token_out) matches Some(route) ==> route.len() == 2,
{
    if route_through::<P>(pools, quote, token_in, middle, token_out) is Some {
        match quote {
            QuoteAmount::ExactIn(_) => {
                let first = best_direct::<P>(pools, quote, token_in, middle)->0;
                let amount = route_amount::<P>(first, token_in, middle, quote)->0;
                lemma_best_direct::<P>(pools, quote, token_in, middle);
                lemma_best_direct::<P>(pools, QuoteAmount::ExactIn(amount), middle, token_out);
            },
            QuoteAmount::ExactOut(_) => {
                let second = best_direct::<P>(pools, quote, middle, token_out)->0;
                let amount = route_amount::<P>(second, middle, token_out, quote)->0;
                lemma_best_direct::<P>(pools, quote, middle, token_out);
                lemma_best_direct::<P>(pools, QuoteAmount::ExactOut(amount), token_in, middle);
            },
        }
    }
}

/// The routes by way of one token go through two pools.
proof fn lemma_routes_through<P: SwapPool>(
    pools: Seq<P::V>,
    quote: QuoteAmount,
    token_in: TokenView<P>,
    token_out: TokenView<P>,
    starting: Seq<TokenView<P>>,
    ending: Seq<TokenView<P>>,
    k: int,
)
    ensures
        within::<P>(routes_through::<P>(pools, quote, token_in, token_out, starting, ending, k), 2),
    decreases k,
{
    if k > 0 {
        let before = routes_through::<P>(pools, quote, token_in, token_out, starting, ending, k - 1);
        lemma_routes_through::<P>(pools, quote, token_in, token_out, starting, ending, k - 1);
        lemma_route_through::<P>(pools, quote, token_in, starting[k - 1], token_out);
        match route_through::<P>(pools, quote, token_in, starting[k - 1], token_out) {
            Some(route) => {
                lemma_push_within::<P>(before, route, 2);
            },
            None => {},
        }
    }
}

/// The best route with a number of hops has no more.
proof fn lemma_leg<P: SwapPool>(
    pools: Seq<P::V>,
    quote: QuoteAmount,
    token_in: TokenView<P>,
    token_out: TokenView<P>,
    max_hops: MaxHops,
)
    ensures
        best_leg::<P>(pools, quote, token_in, token_out, max_hops) matches Some(route) ==> route.len() <= most_hops(
            max_hops,
        ),
    decreases depth(max_hops), 5int, 0int,
{
    best_routes_keep_to_the_hops::<P>(pools, quote, token_in, token_out, max_hops, 1);
}

/// A route by way of two tokens has no more hops than its three legs.
proof fn lemma_through_two<P: SwapPool>(
    pools: Seq<P::V>,
    quote: QuoteAmount,
    token_in: TokenView<P>,
    a: TokenView<P>,
    b: TokenView<P>,
    token_out: TokenView<P>,
    max_hops: MaxHops,
)
    ensures
        route_through_two::<P>(pools, quote, token_in, a, b, token_out, max_hops) matches Some(route) ==> route.len()
            <= most_hops(max_hops),
    decreases depth(max_hops), 0int, 0int,
{
    if route_through_two::<P>(pools, quote, token_in, a, b, token_out, max_hops) is Some {
        let outer = outer_hops(max_hops);
        let inner = middle_hops(max_hops);
        match quote {
            QuoteAmount::ExactIn(_) => {
                let first = best_leg::<P>(pools, quote, token_in, a, outer)->0;
                let quote_a = QuoteAmount::ExactIn(route_amount::<P>(first, token_in, a, quote)->0);
                let second = best_leg::<P>(pools, quote_a, a, b, inner)->0;
                let quote_b = QuoteAmount::ExactIn(route_amount::<P>(second, a, b, quote_a)->0);
                lemma_leg::<P>(pools, quote, token_in, a, outer);
                lemma_leg::<P>(pools, quote_a, a, b, inner);
                lemma_leg::<P>(pools, quote_b, b, token_out, outer);
            },
            QuoteAmount::ExactOut(_) => {
                let third = best_leg::<P>(pools, quote, b, token_out, outer)->0;
                let quote_b = QuoteAmount::ExactOut(route_amount::<P>(third, b, token_out, quote)->0);
                let second = best_leg::<P>(pools, quote_b, a, b, inner)->0;
                let quote_a = QuoteAmount::ExactOut(route_amount::<P>(second, a, b, quote_b)->0);
                lemma_leg::<P>(pools, quote, b, token_out, outer);
                lemma_leg::<P>(pools, quote_b, a, b, inner);
                lemma_leg::<P>(pools, quote_a, token_in, a, outer);
            },
        }
    }
}

/// The routes by way of one token around the start have no more hops.
proof fn lemma_routes_from<P: SwapPool>(
    pools: Seq<P::V>,
    quote: QuoteAmount,
    token_in: TokenView<P>,
    a: TokenView<P>,
    token_out: TokenView<P>,
    max_hops: MaxHops,
    ending: Seq<TokenView<P>>,
    j: int,
)
    ensures
        within::<P>(
            routes_from::<P>(pools, quote, token_in, a, token_out, max_hops, ending, j),
            most_hops(max_hops),
        ),
    decreases depth(max_hops), 1int, j,
{
    if j > 0 {
        let before = routes_from::<P>(pools, quote, token_in, a, token_out, max_hops, ending, j - 1);
        let b = ending[j - 1];
        lemma_routes_from::<P>(pools, quote, token_in, a, token_out, max_hops, ending, j - 1);
        lemma_through_two::<P>(pools, quote, token_in, a, b, token_out, max_hops);
        match route_through_two::<P>(pools, quote, token_in, a, b, token_out, max_hops) {
            Some(route) => {
                lemma_push_within::<P>(before, route, most_hops(max_hops));
            },
            None => {},
        }
    }
}

/// The routes by way of two tokens have no more hops.
proof fn lemma_routes_through_two<P: SwapPool>(
    pools: Seq<P::V>,
    quote: QuoteAmount,
    token_in: TokenView<P>,
    token_out: TokenView<P>,
    max_hops: MaxHops,
    starting: Seq<TokenView<P>>,
    n: int,
    ending: Seq<TokenView<P>>,
)
    ensures
        within::<P>(
            routes_through_two::<P>(pools, quote, token_in, token_out, max_hops, starting, n, ending),
            most_hops(max_hops),
        ),
    decreases depth(max_hops), 2int, n,
{
    if n > 0 {
        lemma_routes_through_two::<P>(pools, quote, token_in, token_out, max_hops, starting, n - 1, ending);
        lemma_routes_from::<P>(
            pools,
            quote,
            token_in,
            starting[n - 1],
            token_out,
            max_hops,
            ending,
            ending.len() as int,
        );
    }
}

/// No candidate has more hops.
proof fn lemma_candidates<P: SwapPool>(
    pools: Seq<P::V>,
    quote: QuoteAmount,
    token_in: TokenView<P>,
    token_out: TokenView<P>,
    max_hops: MaxHops,
)
    requires
        max_hops != MaxHops::DirectOnly,
    ensures
        within::<P>(
            candidate_routes::<P>(pools, quote, token_in, token_out, max_hops),
            most_hops(max_hops),
        ),
    decreases depth(max_hops), 3int, 0int,
{
    let starting = neighbours::<P>(pools, token_in);
    let ending = neighbours::<P>(pools, token_out);
    let n = starting.len() as int;
    lemma_routes_through::<P>(pools, quote, token_in, token_out, starting, ending, n);
    lemma_routes_through_two::<P>(pools, quote, token_in, token_out, max_hops, starting, n, ending);
    let all = candidate_routes::<P>(pools, quote, token_in, token_out, max_hops);
    let direct = direct_routes::<P>(pools, quote, token_in, token_out);
    let one = routes_through::<P>(pools, quote, token_in, token_out, starting, ending, n);
    let two = routes_through_two::<P>(pools, quote, token_in, token_out, max_hops, starting, n, ending);
    assert forall|i: int| 0 <= i < all.len() implies (#[trigger] all[i]).len() <= most_hops(max_hops) by {
        if i < direct.len() {
            assert(all[i] == direct[i]);
        } else if i < direct.len() + one.len() {
            assert(all[i] == one[i - direct.len()]);
        } else {
            assert(all[i] == two[i - direct.len() - one.len()]);
        }
    }
}

/// No route that a search gives goes through more pools than it may.
pub proof fn best_routes_keep_to_the_hops<P: SwapPool>(
    pools: Seq<P::V>,
    quote: QuoteAmount,
    token_in: TokenView<P>,
    token_out: TokenView<P>,
    max_hops: MaxHops,
    count: nat,
)
    ensures
        within::<P>(
            best_routes::<P>(pools, quote, token_in, token_out, max_hops, count),
            most_hops(max_hops),
        ),
    decreases depth(max_hops), 4int, 0int,
{
    let best = best_routes::<P>(pools, quote, token_in, token_out, max_hops, count);
    if max_hops != MaxHops::DirectOnly {
        let candidates = candidate_routes::<P>(pools, quote, token_in, token_out, max_hops);
        let kept = simple_routes::<P>(candidates);
        let keys = route_keys::<P>(kept, token_in, token_out, quote);
        lemma_candidates::<P>(pools, quote, token_in, token_out, max_hops);
        assert forall|i: int| 0 <= i < best.len() implies (#[trigger] best[i]).len() <= most_hops(max_hops) by {
            lemma_top_k_member(kept, keys, count, i);
            let j = choose|j: int| 0 <= j < kept.len() && kept[j] == best[i];
            lemma_simple_member::<P>(candidates, j);
            let c = choose|c: int| 0 <= c < candidates.len() && candidates[c] == kept[j];
            assert(candidates[c].len() <= most_hops(max_hops));
        }
    }
}

} // verus!
