//! What holds of every search.

use vstd::prelude::*;

use super::market::{SwapPool, TokenView};
use super::pools::{direct_pools, neighbours};
use super::route::{buy_steps, route_amount, sell_steps, QuoteAmount, RouteView};
use super::search::{
    best_direct, best_leg, best_routes, candidate_routes, depth, direct_routes, is_simple, middle_hops, outer_hops,
    pool_amount, pool_keys, quote_key, route_keys, route_through, route_through_two, routes_from, routes_through,
    routes_through_two, simple_routes, single_route, MaxHops, DIRECT_POOLS_COUNT,
};
use super::top::{at_most, items_of, lemma_rank_of, lemma_ranked_len, rank_of, ranked, ranked_falls, top_k};

verus! {

/// Whether the route leads from `token_in` to `token_out` through the pools,
/// each step taking what the one before gave.
pub open spec fn connects<P: SwapPool>(
    pools: Seq<P::V>,
    route: RouteView<P>,
    token_in: TokenView<P>,
    token_out: TokenView<P>,
) -> bool {
    &&& route.len() > 0
    &&& route[0].token_in == token_in
    &&& route.last().token_out == token_out
    &&& forall|i: int| 0 <= i < route.len() - 1 ==> (#[trigger] route[i]).token_out == route[i + 1].token_in
    &&& forall|i: int| 0 <= i < route.len() ==> pools.contains((#[trigger] route[i]).pool)
}

/// Whether all of the routes connect the tokens.
pub open spec fn all_connect<P: SwapPool>(
    pools: Seq<P::V>,
    routes: Seq<RouteView<P>>,
    token_in: TokenView<P>,
    token_out: TokenView<P>,
) -> bool {
    forall|i: int| 0 <= i < routes.len() ==> connects::<P>(pools, #[trigger] routes[i], token_in, token_out)
}

/// A list with one more route that connects.
proof fn lemma_push_connects<P: SwapPool>(
    pools: Seq<P::V>,
    routes: Seq<RouteView<P>>,
    route: RouteView<P>,
    token_in: TokenView<P>,
    token_out: TokenView<P>,
)
    requires
        all_connect::<P>(pools, routes, token_in, token_out),
        connects::<P>(pools, route, token_in, token_out),
    ensures
        all_connect::<P>(pools, routes.push(route), token_in, token_out),
{
    let longer = routes.push(route);
    assert forall|i: int| 0 <= i < longer.len() implies connects::<P>(
        pools,
        #[trigger] longer[i],
        token_in,
        token_out,
    ) by {
        if i < routes.len() {
            assert(longer[i] == routes[i]);
        }
    }
}

/// Two lists of routes that connect.
proof fn lemma_concat_connects<P: SwapPool>(
    pools: Seq<P::V>,
    first: Seq<RouteView<P>>,
    second: Seq<RouteView<P>>,
    token_in: TokenView<P>,
    token_out: TokenView<P>,
)
    requires
        all_connect::<P>(pools, first, token_in, token_out),
        all_connect::<P>(pools, second, token_in, token_out),
    ensures
        all_connect::<P>(pools, first + second, token_in, token_out),
{
    let both = first + second;
    assert forall|i: int| 0 <= i < both.len() implies connects::<P>(
        pools,
        #[trigger] both[i],
        token_in,
        token_out,
    ) by {
        if i < first.len() {
            assert(both[i] == first[i]);
        } else {
            assert(both[i] == second[i - first.len()]);
        }
    }
}

/// A ranked item is one of the items, with its key.
pub proof fn lemma_ranked_member<T>(items: Seq<T>, keys: Seq<i128>, i: int)
    requires
        0 <= i < ranked(items, keys).len(),
    ensures
        exists|j: int|
            0 <= j < items.len() && #[trigger] items[j] == ranked(items, keys)[i].0 && keys[j] == ranked(
                items,
                keys,
            )[i].1,
    decreases items.len(),
{
    if items.len() > 0 {
        let shorter = items.drop_last();
        let before = ranked(shorter, keys);
        let key = keys[items.len() - 1];
        lemma_rank_of(before, key);
        let p = rank_of(before, key);
        if i == p {
            assert(items[items.len() - 1] == ranked(items, keys)[i].0);
        } else {
            let b = if i < p {
                i
            } else {
                i - 1
            };
            lemma_ranked_member(shorter, keys, b);
            let j = choose|j: int|
                0 <= j < shorter.len() && #[trigger] shorter[j] == before[b].0 && keys[j] == before[b].1;
            assert(items[j] == ranked(items, keys)[i].0);
        }
    }
}

/// Every item is ranked somewhere, with its key.
pub proof fn lemma_member_ranked<T>(items: Seq<T>, keys: Seq<i128>, j: int)
    requires
        0 <= j < items.len(),
    ensures
        exists|i: int|
            0 <= i < ranked(items, keys).len() && #[trigger] ranked(items, keys)[i] == (items[j], keys[j]),
    decreases items.len(),
{
    let shorter = items.drop_last();
    let before = ranked(shorter, keys);
    let key = keys[items.len() - 1];
    lemma_rank_of(before, key);
    let p = rank_of(before, key);
    let after = ranked(items, keys);
    if j == items.len() - 1 {
        assert(after[p] == (items[j], keys[j]));
    } else {
        lemma_member_ranked(shorter, keys, j);
        let b = choose|i: int| 0 <= i < before.len() && #[trigger] before[i] == (shorter[j], keys[j]);
        if b < p {
            assert(after[b] == (items[j], keys[j]));
        } else {
            assert(after[b + 1] == (items[j], keys[j]));
        }
    }
}

/// One of the best items is one of the items.
pub(crate) proof fn lemma_top_k_member<T>(items: Seq<T>, keys: Seq<i128>, k: nat, i: int)
    requires
        0 <= i < top_k(items, keys, k).len(),
    ensures
        items.contains(top_k(items, keys, k)[i]),
{
    lemma_ranked_member(items, keys, i);
}

/// A pool between two tokens is one of the pools.
proof fn lemma_direct_member<P: SwapPool>(pools: Seq<P::V>, a: TokenView<P>, b: TokenView<P>, i: int)
    requires
        0 <= i < direct_pools::<P>(pools, a, b).len(),
    ensures
        pools.contains(direct_pools::<P>(pools, a, b)[i]),
    decreases pools.len(),
{
    if pools.len() > 0 {
        let before = direct_pools::<P>(pools.drop_last(), a, b);
        if i < before.len() {
            lemma_direct_member::<P>(pools.drop_last(), a, b, i);
            let j = choose|j: int| 0 <= j < pools.len() - 1 && pools.drop_last()[j] == before[i];
            assert(pools[j] == before[i]);
        } else {
            assert(pools[pools.len() - 1] == direct_pools::<P>(pools, a, b)[i]);
        }
    }
}

/// Every direct route connects its tokens.
proof fn lemma_direct_connects<P: SwapPool>(
    pools: Seq<P::V>,
    quote: QuoteAmount,
    token_in: TokenView<P>,
    token_out: TokenView<P>,
    i: int,
)
    requires
        0 <= i < direct_routes::<P>(pools, quote, token_in, token_out).len(),
    ensures
        connects::<P>(
            pools,
            direct_routes::<P>(pools, quote, token_in, token_out)[i],
            token_in,
            token_out,
        ),
{
    let direct = direct_pools::<P>(pools, token_in, token_out);
    let keys = pool_keys::<P>(direct, token_in, token_out, quote);
    let best = top_k(direct, keys, DIRECT_POOLS_COUNT as nat);
    lemma_top_k_member(direct, keys, DIRECT_POOLS_COUNT as nat, i);
    let j = choose|j: int| 0 <= j < direct.len() && direct[j] == best[i];
    lemma_direct_member::<P>(pools, token_in, token_out, j);
    let route = direct_routes::<P>(pools, quote, token_in, token_out)[i];
    assert(route == single_route::<P>(best[i], token_in, token_out));
    assert(route[0].pool == best[i]);
}

/// Two routes that meet make one.
proof fn lemma_joined_connects<P: SwapPool>(
    pools: Seq<P::V>,
    first: RouteView<P>,
    second: RouteView<P>,
    token_in: TokenView<P>,
    middle: TokenView<P>,
    token_out: TokenView<P>,
)
    requires
        connects::<P>(pools, first, token_in, middle),
        connects::<P>(pools, second, middle, token_out),
    ensures
        connects::<P>(pools, first + second, token_in, token_out),
{
    let route = first + second;
    assert(route.last() == second.last());
    assert forall|i: int| 0 <= i < route.len() - 1 implies (#[trigger] route[i]).token_out == route[i
        + 1].token_in by {
        if i < first.len() - 1 {
            assert(route[i] == first[i] && route[i + 1] == first[i + 1]);
        } else if i == first.len() - 1 {
            assert(route[i] == first.last() && route[i + 1] == second[0]);
        } else {
            assert(route[i] == second[i - first.len()] && route[i + 1] == second[i - first.len() + 1]);
        }
    }
    assert forall|i: int| 0 <= i < route.len() implies pools.contains((#[trigger] route[i]).pool) by {
        if i < first.len() {
            assert(route[i] == first[i]);
        } else {
            assert(route[i] == second[i - first.len()]);
        }
    }
}

/// The best pool between two tokens connects them.
proof fn lemma_best_direct_connects<P: SwapPool>(
    pools: Seq<P::V>,
    quote: QuoteAmount,
    token_in: TokenView<P>,
    token_out: TokenView<P>,
)
    ensures
        best_direct::<P>(pools, quote, token_in, token_out) matches Some(route) ==> connects::<P>(
            pools,
            route,
            token_in,
            token_out,
        ),
{
    if direct_routes::<P>(pools, quote, token_in, token_out).len() > 0 {
        lemma_direct_connects::<P>(pools, quote, token_in, token_out, 0);
    }
}

/// A route by way of one token connects its ends.
proof fn lemma_route_through_connects<P: SwapPool>(
    pools: Seq<P::V>,
    quote: QuoteAmount,
    token_in: TokenView<P>,
    middle: TokenView<P>,
    token_out: TokenView<P>,
)
    ensures
        route_through::<P>(pools, quote, token_in, middle, token_out) matches Some(route) ==> connects::<P>(
            pools,
            route,
            token_in,
            token_out,
        ),
{
    match route_through::<P>(pools, quote, token_in, middle, token_out) {
        Some(route) => match quote {
            QuoteAmount::ExactIn(_) => {
                let first = best_direct::<P>(pools, quote, token_in, middle)->0;
                let amount = route_amount::<P>(first, token_in, middle, quote)->0;
                let second = best_direct::<P>(pools, QuoteAmount::ExactIn(amount), middle, token_out)->0;
                lemma_best_direct_connects::<P>(pools, quote, token_in, middle);
                lemma_best_direct_connects::<P>(pools, QuoteAmount::ExactIn(amount), middle, token_out);
                lemma_joined_connects::<P>(pools, first, second, token_in, middle, token_out);
            },
            QuoteAmount::ExactOut(_) => {
                let second = best_direct::<P>(pools, quote, middle, token_out)->0;
                let amount = route_amount::<P>(second, middle, token_out, quote)->0;
                let first = best_direct::<P>(pools, QuoteAmount::ExactOut(amount), token_in, middle)->0;
                lemma_best_direct_connects::<P>(pools, quote, middle, token_out);
                lemma_best_direct_connects::<P>(pools, QuoteAmount::ExactOut(amount), token_in, middle);
                lemma_joined_connects::<P>(pools, first, second, token_in, middle, token_out);
            },
        },
        None => {},
    }
}

/// The routes by way of one token connect their ends.
proof fn lemma_routes_through_connect<P: SwapPool>(
    pools: Seq<P::V>,
    quote: QuoteAmount,
    token_in: TokenView<P>,
    token_out: TokenView<P>,
    starting: Seq<TokenView<P>>,
    ending: Seq<TokenView<P>>,
    k: int,
)
    ensures
        all_connect::<P>(
            pools,
            routes_through::<P>(pools, quote, token_in, token_out, starting, ending, k),
            token_in,
            token_out,
        ),
    decreases k,
{
    if k > 0 {
        let before = routes_through::<P>(pools, quote, token_in, token_out, starting, ending, k - 1);
        lemma_routes_through_connect::<P>(pools, quote, token_in, token_out, starting, ending, k - 1);
        lemma_route_through_connects::<P>(pools, quote, token_in, starting[k - 1], token_out);
        match route_through::<P>(pools, quote, token_in, starting[k - 1], token_out) {
            Some(route) => {
                lemma_push_connects::<P>(pools, before, route, token_in, token_out);
            },
            None => {},
        }
    }
}

/// A route by way of two tokens connects its ends.
proof fn lemma_through_two_connects<P: SwapPool>(
    pools: Seq<P::V>,
    quote: QuoteAmount,
    token_in: TokenView<P>,
    a: TokenView<P>,
    b: TokenView<P>,
    token_out: TokenView<P>,
    max_hops: MaxHops,
)
    ensures
        route_through_two::<P>(pools, quote, token_in, a, b, token_out, max_hops) matches Some(route)
            ==> connects::<P>(pools, route, token_in, token_out),
    decreases depth(max_hops), 0int, 0int,
{
    match route_through_two::<P>(pools, quote, token_in, a, b, token_out, max_hops) {
        Some(route) => {
            let outer = outer_hops(max_hops);
            let inner = middle_hops(max_hops);
            match quote {
                QuoteAmount::ExactIn(_) => {
                    let first = best_leg::<P>(pools, quote, token_in, a, outer)->0;
                    let at_a = route_amount::<P>(first, token_in, a, quote)->0;
                    let quote_a = QuoteAmount::ExactIn(at_a);
                    let second = best_leg::<P>(pools, quote_a, a, b, inner)->0;
                    let at_b = route_amount::<P>(second, a, b, quote_a)->0;
                    let quote_b = QuoteAmount::ExactIn(at_b);
                    let third = best_leg::<P>(pools, quote_b, b, token_out, outer)->0;
                    lemma_leg_connects::<P>(pools, quote, token_in, a, outer);
                    lemma_leg_connects::<P>(pools, quote_a, a, b, inner);
                    lemma_leg_connects::<P>(pools, quote_b, b, token_out, outer);
                    lemma_joined_connects::<P>(pools, first, second, token_in, a, b);
                    lemma_joined_connects::<P>(pools, first + second, third, token_in, b, token_out);
                },
                QuoteAmount::ExactOut(_) => {
                    let third = best_leg::<P>(pools, quote, b, token_out, outer)->0;
                    let at_b = route_amount::<P>(third, b, token_out, quote)->0;
                    let quote_b = QuoteAmount::ExactOut(at_b);
                    let second = best_leg::<P>(pools, quote_b, a, b, inner)->0;
                    let at_a = route_amount::<P>(second, a, b, quote_b)->0;
                    let quote_a = QuoteAmount::ExactOut(at_a);
                    let first = best_leg::<P>(pools, quote_a, token_in, a, outer)->0;
                    lemma_leg_connects::<P>(pools, quote, b, token_out, outer);
                    lemma_leg_connects::<P>(pools, quote_b, a, b, inner);
                    lemma_leg_connects::<P>(pools, quote_a, token_in, a, outer);
                    lemma_joined_connects::<P>(pools, first, second, token_in, a, b);
                    lemma_joined_connects::<P>(pools, first + second, third, token_in, b, token_out);
                },
            }
        },
        None => {},
    }
}

/// The best route with a number of hops connects its ends.
proof fn lemma_leg_connects<P: SwapPool>(
    pools: Seq<P::V>,
    quote: QuoteAmount,
    token_in: TokenView<P>,
    token_out: TokenView<P>,
    max_hops: MaxHops,
)
    ensures
        best_leg::<P>(pools, quote, token_in, token_out, max_hops) matches Some(route) ==> connects::<P>(
            pools,
            route,
            token_in,
            token_out,
        ),
    decreases depth(max_hops), 5int, 0int,
{
    best_routes_connect::<P>(pools, quote, token_in, token_out, max_hops, 1);
    let best = best_routes::<P>(pools, quote, token_in, token_out, max_hops, 1);
    if best.len() > 0 {
        assert(connects::<P>(pools, best[0], token_in, token_out));
    }
}

/// The routes by way of one token around the start connect their ends.
proof fn lemma_routes_from_connect<P: SwapPool>(
    pools: Seq<P::V>,
    quote: QuoteAmount,
    token_in: TokenView<P>,
    a: TokenView<P>,
    token_out: TokenView<P>,
    max_hops: MaxHops,
    ending: Seq<TokenView<P>>,
    j: int,
)
    ensures
        all_connect::<P>(
            pools,
            routes_from::<P>(pools, quote, token_in, a, token_out, max_hops, ending, j),
            token_in,
            token_out,
        ),
    decreases depth(max_hops), 1int, j,
{
    if j > 0 {
        let before = routes_from::<P>(pools, quote, token_in, a, token_out, max_hops, ending, j - 1);
        let b = ending[j - 1];
        lemma_routes_from_connect::<P>(pools, quote, token_in, a, token_out, max_hops, ending, j - 1);
        lemma_through_two_connects::<P>(pools, quote, token_in, a, b, token_out, max_hops);
        match route_through_two::<P>(pools, quote, token_in, a, b, token_out, max_hops) {
            Some(route) => {
                lemma_push_connects::<P>(pools, before, route, token_in, token_out);
            },
            None => {},
        }
    }
}

/// The routes by way of two tokens connect their ends.
proof fn lemma_routes_two_connect<P: SwapPool>(
    pools: Seq<P::V>,
    quote: QuoteAmount,
    token_in: TokenView<P>,
    token_out: TokenView<P>,
    max_hops: MaxHops,
    starting: Seq<TokenView<P>>,
    n: int,
    ending: Seq<TokenView<P>>,
)
    ensures
        all_connect::<P>(
            pools,
            routes_through_two::<P>(
                pools,
                quote,
                token_in,
                token_out,
                max_hops,
                starting,
                n,
                ending,
            ),
            token_in,
            token_out,
        ),
    decreases depth(max_hops), 2int, n,
{
    if n > 0 {
        lemma_routes_two_connect::<P>(
            pools,
            quote,
            token_in,
            token_out,
            max_hops,
            starting,
            n - 1,
            ending,
        );
        lemma_routes_from_connect::<P>(
            pools,
            quote,
            token_in,
            starting[n - 1],
            token_out,
            max_hops,
            ending,
            ending.len() as int,
        );
        lemma_concat_connects::<P>(
            pools,
            routes_through_two::<P>(
                pools,
                quote,
                token_in,
                token_out,
                max_hops,
                starting,
                n - 1,
                ending,
            ),
            routes_from::<P>(
                pools,
                quote,
                token_in,
                starting[n - 1],
                token_out,
                max_hops,
                ending,
                ending.len() as int,
            ),
            token_in,
            token_out,
        );
    }
}

/// A route that passes no token twice and is kept is one of the routes.
pub(crate) proof fn lemma_simple_member<P: SwapPool>(routes: Seq<RouteView<P>>, i: int)
    requires
        0 <= i < simple_routes::<P>(routes).len(),
    ensures
        routes.contains(simple_routes::<P>(routes)[i]),
        is_simple::<P>(simple_routes::<P>(routes)[i]),
    decreases routes.len(),
{
    if routes.len() > 0 {
        let before = simple_routes::<P>(routes.drop_last());
        if i < before.len() {
            lemma_simple_member::<P>(routes.drop_last(), i);
            let j = choose|j: int| 0 <= j < routes.len() - 1 && routes.drop_last()[j] == before[i];
            assert(routes[j] == before[i]);
        } else {
            assert(routes[routes.len() - 1] == simple_routes::<P>(routes)[i]);
        }
    }
}

/// Every candidate connects the tokens.
proof fn lemma_candidate_connects<P: SwapPool>(
    pools: Seq<P::V>,
    quote: QuoteAmount,
    token_in: TokenView<P>,
    token_out: TokenView<P>,
    max_hops: MaxHops,
    i: int,
)
    requires
        0 <= i < candidate_routes::<P>(pools, quote, token_in, token_out, max_hops).len(),
    ensures
        connects::<P>(
            pools,
            candidate_routes::<P>(pools, quote, token_in, token_out, max_hops)[i],
            token_in,
            token_out,
        ),
    decreases depth(max_hops), 3int, 0int,
{
    let starting = neighbours::<P>(pools, token_in);
    let ending = neighbours::<P>(pools, token_out);
    let direct = direct_routes::<P>(pools, quote, token_in, token_out);
    let n = starting.len() as int;
    let one = routes_through::<P>(pools, quote, token_in, token_out, starting, ending, n);
    if i < direct.len() {
        lemma_direct_connects::<P>(pools, quote, token_in, token_out, i);
    } else if i < direct.len() + one.len() {
        lemma_routes_through_connect::<P>(pools, quote, token_in, token_out, starting, ending, n);
        assert(connects::<P>(pools, one[i - direct.len()], token_in, token_out));
    } else {
        let two = routes_through_two::<P>(
            pools,
            quote,
            token_in,
            token_out,
            max_hops,
            starting,
            n,
            ending,
        );
        lemma_routes_two_connect::<P>(
            pools,
            quote,
            token_in,
            token_out,
            max_hops,
            starting,
            n,
            ending,
        );
        assert(connects::<P>(pools, two[i - direct.len() - one.len()], token_in, token_out));
    }
}

/// Every route that a search gives leads from the one token to the other,
/// through pools that were searched.
pub proof fn best_routes_connect<P: SwapPool>(
    pools: Seq<P::V>,
    quote: QuoteAmount,
    token_in: TokenView<P>,
    token_out: TokenView<P>,
    max_hops: MaxHops,
    count: nat,
)
    ensures
        all_connect::<P>(
            pools,
            best_routes::<P>(pools, quote, token_in, token_out, max_hops, count),
            token_in,
            token_out,
        ),
    decreases depth(max_hops), 4int, 0int,
{
    let best = best_routes::<P>(pools, quote, token_in, token_out, max_hops, count);
    assert forall|i: int| 0 <= i < best.len() implies connects::<P>(
        pools,
        #[trigger] best[i],
        token_in,
        token_out,
    ) by {
        if max_hops == MaxHops::DirectOnly {
            lemma_direct_connects::<P>(pools, quote, token_in, token_out, i);
        } else {
            let candidates = candidate_routes::<P>(pools, quote, token_in, token_out, max_hops);
            let kept = simple_routes::<P>(candidates);
            let keys = route_keys::<P>(kept, token_in, token_out, quote);
            lemma_top_k_member(kept, keys, count, i);
            let j = choose|j: int| 0 <= j < kept.len() && kept[j] == best[i];
            lemma_simple_member::<P>(candidates, j);
            let c = choose|c: int| 0 <= c < candidates.len() && candidates[c] == kept[j];
            lemma_candidate_connects::<P>(pools, quote, token_in, token_out, max_hops, c);
        }
    }
}

/// No route of more than one hop that a search gives passes a token twice.
pub proof fn best_routes_are_simple<P: SwapPool>(
    pools: Seq<P::V>,
    quote: QuoteAmount,
    token_in: TokenView<P>,
    token_out: TokenView<P>,
    max_hops: MaxHops,
    count: nat,
    i: int,
)
    requires
        token_in != token_out || max_hops != MaxHops::DirectOnly,
        0 <= i < best_routes::<P>(pools, quote, token_in, token_out, max_hops, count).len(),
    ensures
        is_simple::<P>(best_routes::<P>(pools, quote, token_in, token_out, max_hops, count)[i]),
{
    if max_hops != MaxHops::DirectOnly {
        let candidates = candidate_routes::<P>(pools, quote, token_in, token_out, max_hops);
        let kept = simple_routes::<P>(candidates);
        let keys = route_keys::<P>(kept, token_in, token_out, quote);
        lemma_top_k_member(kept, keys, count, i);
        let j = choose|j: int|
            0 <= j < kept.len() && kept[j] == best_routes::<P>(
                pools,
                quote,
                token_in,
                token_out,
                max_hops,
                count,
            )[i];
        lemma_simple_member::<P>(candidates, j);
    }
}

/// Whether a pool gives what it is said to give.
pub open spec fn keeps_its_quote<P: SwapPool>(
    pool: P::V,
    token_in: TokenView<P>,
    token_out: TokenView<P>,
    quote: QuoteAmount,
) -> bool {
    quote matches QuoteAmount::ExactIn(amount) ==> P::quoted(pool, token_in, token_out, amount) == match P::sale(
        pool,
        token_in,
        token_out,
        amount,
    ) {
        Some((_, given)) => Some(given),
        None => None,
    }
}

/// A route through one pool that gives what it is said to comes to that.
pub proof fn single_route_comes_to_the_pool<P: SwapPool>(
    pool: P::V,
    token_in: TokenView<P>,
    token_out: TokenView<P>,
    quote: QuoteAmount,
)
    requires
        keeps_its_quote::<P>(pool, token_in, token_out, quote),
    ensures
        route_amount::<P>(single_route::<P>(pool, token_in, token_out), token_in, token_out, quote)
            == pool_amount::<P>(pool, token_in, token_out, quote),
{
    let route = single_route::<P>(pool, token_in, token_out);
    match quote {
        QuoteAmount::ExactIn(amount) => {
            assert(sell_steps::<P>(route, 0, token_in, amount, Map::empty()) == Some(
                (token_in, amount, Map::<u64, P::V>::empty()),
            ));
            assert(sell_steps::<P>(route, 1, token_in, amount, Map::empty()) == match P::sale(
                pool,
                token_in,
                token_out,
                amount,
            ) {
                Some((after, given)) => Some(
                    (token_out, given, Map::<u64, P::V>::empty().insert(P::number(after), after)),
                ),
                None => None,
            });
        },
        QuoteAmount::ExactOut(amount) => {
            let nothing = Seq::<(u128, u128)>::empty();
            assert(buy_steps::<P>(route, 0, token_out, amount, Map::empty()) == Some(
                (token_out, amount, nothing, Map::<u64, P::V>::empty()),
            ));
            assert(buy_steps::<P>(route, 1, token_out, amount, Map::empty()) == match P::purchase(
                pool,
                token_in,
                token_out,
                amount,
            ) {
                Some((after, taken)) => Some(
                    (
                        token_in,
                        taken,
                        seq![(taken, amount)] + nothing,
                        Map::<u64, P::V>::empty().insert(P::number(after), after),
                    ),
                ),
                None => None,
            });
        },
    }
}

/// The best items fall by their keys, there are no more than asked for, and
/// an item that is left out has no larger key than any that is not.
pub proof fn top_k_is_best<T>(items: Seq<T>, keys: Seq<i128>, k: nat)
    requires
        items.len() == keys.len(),
    ensures
        ({
            let best = at_most(ranked(items, keys), k);
            &&& items_of(best) == top_k(items, keys, k)
            &&& best.len() == if items.len() < k {
                items.len()
            } else {
                k
            }
            &&& forall|i: int, j: int| 0 <= i <= j < best.len() ==> best[i].1 >= best[j].1
            &&& forall|j: int, i: int|
                0 <= j < items.len() && 0 <= i < best.len() ==> best.contains(
                    (#[trigger] items[j], keys[j]),
                ) || keys[j] <= (#[trigger] best[i]).1
        }),
{
    let list = ranked(items, keys);
    let best = at_most(list, k);
    lemma_ranked_len(items, keys);
    ranked_falls(items, keys);
    assert forall|j: int, i: int|
        0 <= j < items.len() && 0 <= i < best.len() implies best.contains((#[trigger] items[j], keys[j]))
        || keys[j] <= (#[trigger] best[i]).1 by {
        lemma_member_ranked(items, keys, j);
        let p = choose|p: int| 0 <= p < list.len() && #[trigger] list[p] == (items[j], keys[j]);
        if p < best.len() {
            assert(best[p] == list[p]);
        } else {
            assert(list[i].1 >= list[p].1);
        }
    }
}

/// A search with more than one hop gives the better route first, and no simple
/// candidate that is left out comes to a better amount.
proof fn lemma_best_of_many<P: SwapPool>(
    pools: Seq<P::V>,
    quote: QuoteAmount,
    token_in: TokenView<P>,
    token_out: TokenView<P>,
    max_hops: MaxHops,
    count: nat,
)
    requires
        max_hops != MaxHops::DirectOnly,
    ensures
        ({
            let best = best_routes::<P>(pools, quote, token_in, token_out, max_hops, count);
            let kept = simple_routes::<P>(
                candidate_routes::<P>(pools, quote, token_in, token_out, max_hops),
            );
            &&& best.len() <= count
            &&& forall|i: int, j: int|
                #![trigger best[i], best[j]]
                0 <= i <= j < best.len() ==> quote_key(
                    route_amount::<P>(best[i], token_in, token_out, quote),
                    quote,
                ) >= quote_key(route_amount::<P>(best[j], token_in, token_out, quote), quote)
            &&& forall|c: int, i: int|
                #![trigger kept[c], best[i]]
                0 <= c < kept.len() && 0 <= i < best.len() ==> best.contains(kept[c]) || quote_key(
                    route_amount::<P>(kept[c], token_in, token_out, quote),
                    quote,
                ) <= quote_key(route_amount::<P>(best[i], token_in, token_out, quote), quote)
        }),
{
    let kept = simple_routes::<P>(candidate_routes::<P>(pools, quote, token_in, token_out, max_hops));
    let keys = route_keys::<P>(kept, token_in, token_out, quote);
    top_k_is_best(kept, keys, count);
    let pairs = at_most(ranked(kept, keys), count);
    let best = top_k(kept, keys, count);
    assert forall|i: int| 0 <= i < best.len() implies #[trigger] pairs[i].0 == best[i] && pairs[i].1
        == quote_key(route_amount::<P>(best[i], token_in, token_out, quote), quote) by {
        lemma_ranked_member(kept, keys, i);
    }
    assert forall|c: int, i: int|
        #![trigger kept[c], best[i]]
        0 <= c < kept.len() && 0 <= i < best.len() implies best.contains(kept[c]) || quote_key(
        route_amount::<P>(kept[c], token_in, token_out, quote),
        quote,
    ) <= quote_key(route_amount::<P>(best[i], token_in, token_out, quote), quote) by {
        assert(pairs[i].0 == best[i]);
        if pairs.contains((kept[c], keys[c])) {
            let p = choose|p: int| 0 <= p < pairs.len() && pairs[p] == (kept[c], keys[c]);
            assert(best[p] == kept[c]);
        }
    }
    assert forall|i: int, j: int|
        #![trigger best[i], best[j]]
        0 <= i <= j < best.len() implies quote_key(
        route_amount::<P>(best[i], token_in, token_out, quote),
        quote,
    ) >= quote_key(route_amount::<P>(best[j], token_in, token_out, quote), quote) by {
        assert(pairs[i].0 == best[i] && pairs[j].0 == best[j]);
    }
}

/// The direct routes come from the best pools, the better one first, and no
/// pool that is left out is said to come to a better amount.
proof fn lemma_best_direct_routes<P: SwapPool>(
    pools: Seq<P::V>,
    quote: QuoteAmount,
    token_in: TokenView<P>,
    token_out: TokenView<P>,
    count: nat,
)
    ensures
        ({
            let best = at_most(direct_routes::<P>(pools, quote, token_in, token_out), count);
            let direct = direct_pools::<P>(pools, token_in, token_out);
            &&& best.len() <= count
            &&& forall|i: int|
                0 <= i < best.len() ==> (#[trigger] best[i]) == single_route::<P>(
                    best[i][0].pool,
                    token_in,
                    token_out,
                ) && direct.contains(best[i][0].pool)
            &&& forall|i: int, j: int|
                #![trigger best[i], best[j]]
                0 <= i <= j < best.len() ==> quote_key(
                    pool_amount::<P>(best[i][0].pool, token_in, token_out, quote),
                    quote,
                ) >= quote_key(pool_amount::<P>(best[j][0].pool, token_in, token_out, quote), quote)
            &&& forall|d: int, i: int|
                #![trigger direct[d], best[i]]
                0 <= d < direct.len() && 0 <= i < best.len() ==> best.contains(
                    single_route::<P>(direct[d], token_in, token_out),
                ) || quote_key(pool_amount::<P>(direct[d], token_in, token_out, quote), quote) <= quote_key(
                    pool_amount::<P>(best[i][0].pool, token_in, token_out, quote),
                    quote,
                )
        }),
{
    let direct = direct_pools::<P>(pools, token_in, token_out);
    let keys = pool_keys::<P>(direct, token_in, token_out, quote);
    let k = DIRECT_POOLS_COUNT as nat;
    let list = ranked(direct, keys);
    let top = top_k(direct, keys, k);
    let routes = direct_routes::<P>(pools, quote, token_in, token_out);
    let best = at_most(routes, count);
    ranked_falls(direct, keys);
    lemma_ranked_len(direct, keys);
    assert forall|i: int| 0 <= i < best.len() implies (#[trigger] best[i]) == single_route::<P>(
        best[i][0].pool,
        token_in,
        token_out,
    ) && direct.contains(best[i][0].pool) && list[i] == (
        best[i][0].pool,
        quote_key(pool_amount::<P>(best[i][0].pool, token_in, token_out, quote), quote),
    ) by {
        assert(best[i] == routes[i]);
        assert(routes[i] == single_route::<P>(top[i], token_in, token_out));
        assert(top[i] == list[i].0);
        lemma_ranked_member(direct, keys, i);
    }
    assert forall|i: int, j: int|
        #![trigger best[i], best[j]]
        0 <= i <= j < best.len() implies quote_key(
        pool_amount::<P>(best[i][0].pool, token_in, token_out, quote),
        quote,
    ) >= quote_key(pool_amount::<P>(best[j][0].pool, token_in, token_out, quote), quote) by {
        assert(list[i].1 >= list[j].1);
    }
    assert forall|d: int, i: int|
        #![trigger direct[d], best[i]]
        0 <= d < direct.len() && 0 <= i < best.len() implies best.contains(
        single_route::<P>(direct[d], token_in, token_out),
    ) || quote_key(pool_amount::<P>(direct[d], token_in, token_out, quote), quote) <= quote_key(
        pool_amount::<P>(best[i][0].pool, token_in, token_out, quote),
        quote,
    ) by {
        lemma_member_ranked(direct, keys, d);
        let p = choose|p: int| 0 <= p < list.len() && #[trigger] list[p] == (direct[d], keys[d]);
        if p < best.len() {
            assert(best[p] == single_route::<P>(direct[d], token_in, token_out));
        } else {
            assert(list[i].1 >= list[p].1);
        }
    }
}

/// A search gives at most as many routes as asked for, the better one first.
/// With one hop they go through the pools that are said to come to the best
/// amounts; otherwise no simple candidate that is left out comes to a better
/// amount.
pub proof fn best_routes_are_best<P: SwapPool>(
    pools: Seq<P::V>,
    quote: QuoteAmount,
    token_in: TokenView<P>,
    token_out: TokenView<P>,
    max_hops: MaxHops,
    count: nat,
)
    ensures
        ({
            let best = best_routes::<P>(pools, quote, token_in, token_out, max_hops, count);
            let direct = direct_pools::<P>(pools, token_in, token_out);
            let kept = simple_routes::<P>(
                candidate_routes::<P>(pools, quote, token_in, token_out, max_hops),
            );
            &&& best.len() <= count
            &&& max_hops != MaxHops::DirectOnly || (forall|i: int|
                0 <= i < direct.len() ==> keeps_its_quote::<P>(#[trigger] direct[i], token_in, token_out, quote))
                ==> forall|i: int, j: int|
                #![trigger best[i], best[j]]
                0 <= i <= j < best.len() ==> quote_key(
                    route_amount::<P>(best[i], token_in, token_out, quote),
                    quote,
                ) >= quote_key(route_amount::<P>(best[j], token_in, token_out, quote), quote)
            &&& max_hops == MaxHops::DirectOnly ==> {
                &&& forall|i: int, j: int|
                    #![trigger best[i], best[j]]
                    0 <= i <= j < best.len() ==> quote_key(
                        pool_amount::<P>(best[i][0].pool, token_in, token_out, quote),
                        quote,
                    ) >= quote_key(pool_amount::<P>(best[j][0].pool, token_in, token_out, quote), quote)
                &&& forall|d: int, i: int|
                    #![trigger direct[d], best[i]]
                    0 <= d < direct.len() && 0 <= i < best.len() ==> best.contains(
                        single_route::<P>(direct[d], token_in, token_out),
                    ) || quote_key(pool_amount::<P>(direct[d], token_in, token_out, quote), quote) <= quote_key(
                        pool_amount::<P>(best[i][0].pool, token_in, token_out, quote),
                        quote,
                    )
            }
            &&& max_hops != MaxHops::DirectOnly ==> forall|c: int, i: int|
                #![trigger kept[c], best[i]]
                0 <= c < kept.len() && 0 <= i < best.len() ==> best.contains(kept[c]) || quote_key(
                    route_amount::<P>(kept[c], token_in, token_out, quote),
                    quote,
                ) <= quote_key(route_amount::<P>(best[i], token_in, token_out, quote), quote)
        }),
{
    let best = best_routes::<P>(pools, quote, token_in, token_out, max_hops, count);
    let direct = direct_pools::<P>(pools, token_in, token_out);
    if max_hops != MaxHops::DirectOnly {
        lemma_best_of_many::<P>(pools, quote, token_in, token_out, max_hops, count);
    } else {
        lemma_best_direct_routes::<P>(pools, quote, token_in, token_out, count);
        if forall|i: int|
            0 <= i < direct.len() ==> keeps_its_quote::<P>(#[trigger] direct[i], token_in, token_out, quote) {
            assert forall|i: int| 0 <= i < best.len() implies route_amount::<P>(
                #[trigger] best[i],
                token_in,
                token_out,
                quote,
            ) == pool_amount::<P>(best[i][0].pool, token_in, token_out, quote) by {
                let d = choose|d: int| 0 <= d < direct.len() && direct[d] == best[i][0].pool;
                assert(keeps_its_quote::<P>(direct[d], token_in, token_out, quote));
                single_route_comes_to_the_pool::<P>(best[i][0].pool, token_in, token_out, quote);
            }
        }
    }
}

/// Where a pool connects the tokens directly, the best direct route goes
/// through one that is said to come to the best amount.
pub proof fn direct_routes_are_best<P: SwapPool>(
    pools: Seq<P::V>,
    quote: QuoteAmount,
    token_in: TokenView<P>,
    token_out: TokenView<P>,
    j: int,
)
    requires
        0 <= j < direct_pools::<P>(pools, token_in, token_out).len(),
    ensures
        ({
            let direct = direct_pools::<P>(pools, token_in, token_out);
            &&& best_direct::<P>(pools, quote, token_in, token_out) matches Some(route)
            &&& route.len() == 1
            &&& direct.contains(route[0].pool)
            &&& quote_key(pool_amount::<P>(route[0].pool, token_in, token_out, quote), quote) >= quote_key(
                pool_amount::<P>(direct[j], token_in, token_out, quote),
                quote,
            )
        }),
{
    let direct = direct_pools::<P>(pools, token_in, token_out);
    let keys = pool_keys::<P>(direct, token_in, token_out, quote);
    let best = at_most(direct_routes::<P>(pools, quote, token_in, token_out), 1);
    lemma_best_direct_routes::<P>(pools, quote, token_in, token_out, 1);
    lemma_ranked_len(direct, keys);
    assert(best.len() == 1);
    assert(best[0] == single_route::<P>(best[0][0].pool, token_in, token_out));
    if best.contains(single_route::<P>(direct[j], token_in, token_out)) {
        assert(best[0] == single_route::<P>(direct[j], token_in, token_out));
        assert(best[0][0].pool == direct[j]);
    } else {
        assert(direct[j] == direct[j] && best[0] == best[0]);
    }
}

} // verus!
