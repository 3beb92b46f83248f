//! What a search does not miss.

use vstd::prelude::*;

use super::laws::{best_routes_are_best, direct_routes_are_best, keeps_its_quote, single_route_comes_to_the_pool};
use super::market::{SwapPool, TokenView};
use super::pools::{
    direct_pools, direct_pools_are_those_with_both, has_direct_pool, neighbours, neighbours_share_a_pool,
};
use super::route::{route_amount, QuoteAmount, RouteView, StepView};
use super::search::{
    best_direct, best_routes, candidate_routes, direct_routes, is_simple, pool_amount, quote_key,
    route_keys, route_through, route_through_two, route_tokens, routes_from, routes_through, routes_through_two,
    simple_routes, single_route, MaxHops,
};
use super::top::{at_most, lemma_ranked_len, ranked};

verus! {

/// Whether one outcome of a quote is no worse than another: an output that is
/// no smaller, or an input that is no larger. One beyond 127 bits is as good as
/// none, as is an output of nothing.
pub open spec fn no_worse(outcome: Option<u128>, other: Option<u128>, quote: QuoteAmount) -> bool {
    match other {
        None => true,
        Some(amount) => match quote {
            QuoteAmount::ExactIn(_) => 0 < amount <= i128::MAX ==> outcome is Some && amount <= outcome->0 <= i128::MAX,
            QuoteAmount::ExactOut(_) => amount <= i128::MAX ==> outcome is Some && outcome->0 <= amount,
        },
    }
}

/// What a pool gives for an exact input, or takes for an exact output.
pub open spec fn swapped_in<P: SwapPool>(
    pool: P::V,
    token_in: TokenView<P>,
    token_out: TokenView<P>,
    quote: QuoteAmount,
) -> Option<u128> {
    match quote {
        QuoteAmount::ExactIn(amount) => match P::sale(pool, token_in, token_out, amount) {
            Some((_, given)) => Some(given),
            None => None,
        },
        QuoteAmount::ExactOut(amount) => match P::purchase(pool, token_in, token_out, amount) {
            Some((_, taken)) => Some(taken),
            None => None,
        },
    }
}

/// Whether one of the pools holds both tokens.
pub open spec fn connected<P: SwapPool>(pools: Seq<P::V>, a: TokenView<P>, b: TokenView<P>) -> bool {
    exists|i: int|
        0 <= i < pools.len() && P::tokens_of(#[trigger] pools[i]).contains(a) && P::tokens_of(pools[i]).contains(b)
}

/// Whether a pool of those that hold both tokens is one that no other is said
/// to come to a better outcome than.
pub open spec fn is_best_pool<P: SwapPool>(
    pools: Seq<P::V>,
    pool: P::V,
    token_in: TokenView<P>,
    token_out: TokenView<P>,
    quote: QuoteAmount,
) -> bool {
    &&& pools.contains(pool)
    &&& P::tokens_of(pool).contains(token_in)
    &&& P::tokens_of(pool).contains(token_out)
    &&& forall|i: int|
        0 <= i < pools.len() && P::tokens_of(#[trigger] pools[i]).contains(token_in) && P::tokens_of(
            pools[i],
        ).contains(token_out) ==> no_worse(
            said_by::<P>(pool, token_in, token_out, quote),
            said_by::<P>(pools[i], token_in, token_out, quote),
            quote,
        )
}

/// What a pool is said to give, or takes.
pub open spec fn said_by<P: SwapPool>(
    pool: P::V,
    token_in: TokenView<P>,
    token_out: TokenView<P>,
    quote: QuoteAmount,
) -> Option<u128> {
    match quote {
        QuoteAmount::ExactIn(amount) => P::quoted(pool, token_in, token_out, amount),
        QuoteAmount::ExactOut(amount) => swapped_in::<P>(pool, token_in, token_out, quote),
    }
}

/// One step through a pool.
pub open spec fn step<P: SwapPool>(pool: P::V, token_in: TokenView<P>, token_out: TokenView<P>) -> StepView<P> {
    StepView { pool, token_in, token_out }
}

/// A larger key is no worse an outcome.
proof fn lemma_no_worse(outcome: Option<u128>, other: Option<u128>, quote: QuoteAmount)
    requires
        quote_key(outcome, quote) >= quote_key(other, quote),
    ensures
        no_worse(outcome, other, quote),
{
}

/// Two tokens that a pool holds have a pool between them.
proof fn lemma_connected<P: SwapPool>(pools: Seq<P::V>, a: TokenView<P>, b: TokenView<P>)
    requires
        a != b,
    ensures
        connected::<P>(pools, a, b) <==> has_direct_pool::<P>(pools, a, b),
{
    let direct = direct_pools::<P>(pools, a, b);
    if connected::<P>(pools, a, b) {
        let i = choose|i: int|
            0 <= i < pools.len() && P::tokens_of(#[trigger] pools[i]).contains(a) && P::tokens_of(pools[i]).contains(
                b,
            );
        direct_pools_are_those_with_both::<P>(pools, a, b, pools[i]);
        assert(pools.contains(pools[i]));
        assert(direct.contains(pools[i]));
    }
    if direct.len() > 0 {
        direct_pools_are_those_with_both::<P>(pools, a, b, direct[0]);
        assert(direct.contains(direct[0]));
        let i = choose|i: int| 0 <= i < pools.len() && pools[i] == direct[0];
        assert(P::tokens_of(pools[i]).contains(a));
    }
}

/// The best pool between two tokens that a pool holds.
proof fn lemma_best_pool<P: SwapPool>(
    pools: Seq<P::V>,
    quote: QuoteAmount,
    token_in: TokenView<P>,
    token_out: TokenView<P>,
) -> (pool: P::V)
    requires
        token_in != token_out,
        connected::<P>(pools, token_in, token_out),
    ensures
        best_direct::<P>(pools, quote, token_in, token_out) == Some(single_route::<P>(pool, token_in, token_out)),
        is_first::<P>(
            pools,
            quote,
            token_in,
            token_out,
            MaxHops::DirectOnly,
            single_route::<P>(pool, token_in, token_out),
        ),
        is_best_pool::<P>(pools, pool, token_in, token_out, quote),
{
    lemma_connected::<P>(pools, token_in, token_out);
    let direct = direct_pools::<P>(pools, token_in, token_out);
    direct_routes_are_best::<P>(pools, quote, token_in, token_out, 0);
    let route = best_direct::<P>(pools, quote, token_in, token_out)->0;
    let pool = route[0].pool;
    let routes = direct_routes::<P>(pools, quote, token_in, token_out);
    assert(route == routes[0]);
    assert(route =~= single_route::<P>(pool, token_in, token_out));
    direct_pools_are_those_with_both::<P>(pools, token_in, token_out, pool);
    assert forall|i: int|
        0 <= i < pools.len() && P::tokens_of(#[trigger] pools[i]).contains(token_in) && P::tokens_of(
            pools[i],
        ).contains(token_out) implies no_worse(
        said_by::<P>(pool, token_in, token_out, quote),
        said_by::<P>(pools[i], token_in, token_out, quote),
        quote,
    ) by {
        direct_pools_are_those_with_both::<P>(pools, token_in, token_out, pools[i]);
        assert(pools.contains(pools[i]));
        let j = choose|j: int| 0 <= j < direct.len() && direct[j] == pools[i];
        direct_routes_are_best::<P>(pools, quote, token_in, token_out, j);
        lemma_no_worse(
            pool_amount::<P>(pool, token_in, token_out, quote),
            pool_amount::<P>(pools[i], token_in, token_out, quote),
            quote,
        );
    }
    pool
}

/// What one of two lists holds, they hold one behind the other.
proof fn lemma_held_by_both<T>(first: Seq<T>, second: Seq<T>, item: T)
    requires
        first.contains(item) || second.contains(item),
    ensures
        (first + second).contains(item),
{
    if first.contains(item) {
        let i = choose|i: int| 0 <= i < first.len() && first[i] == item;
        assert((first + second)[i] == item);
    } else {
        let i = choose|i: int| 0 <= i < second.len() && second[i] == item;
        assert((first + second)[first.len() + i] == item);
    }
}

/// A route by way of a token that both ends reach is among those by way of one.
proof fn lemma_through_one<P: SwapPool>(
    pools: Seq<P::V>,
    quote: QuoteAmount,
    token_in: TokenView<P>,
    token_out: TokenView<P>,
    starting: Seq<TokenView<P>>,
    ending: Seq<TokenView<P>>,
    k: int,
    at: int,
)
    requires
        0 <= at < k <= starting.len(),
        ending.contains(starting[at]),
        starting[at] != token_in,
        starting[at] != token_out,
    ensures
        route_through::<P>(pools, quote, token_in, starting[at], token_out) matches Some(route) ==> routes_through::<
            P,
        >(pools, quote, token_in, token_out, starting, ending, k).contains(route),
    decreases k,
{
    let before = routes_through::<P>(pools, quote, token_in, token_out, starting, ending, k - 1);
    match route_through::<P>(pools, quote, token_in, starting[at], token_out) {
        Some(route) => {
            if at == k - 1 {
                assert(before.push(route)[before.len() as int] == route);
            } else {
                lemma_through_one::<P>(pools, quote, token_in, token_out, starting, ending, k - 1, at);
                let i = choose|i: int| 0 <= i < before.len() && before[i] == route;
                let after = routes_through::<P>(pools, quote, token_in, token_out, starting, ending, k);
                assert(after[i] == route);
            }
        },
        None => {},
    }
}

/// A route by way of two tokens is among those from the first of them.
proof fn lemma_from<P: SwapPool>(
    pools: Seq<P::V>,
    quote: QuoteAmount,
    token_in: TokenView<P>,
    a: TokenView<P>,
    token_out: TokenView<P>,
    max_hops: MaxHops,
    ending: Seq<TokenView<P>>,
    j: int,
    at: int,
)
    requires
        0 <= at < j <= ending.len(),
        ending[at] != token_in,
        ending[at] != token_out,
        ending[at] != a,
    ensures
        route_through_two::<P>(pools, quote, token_in, a, ending[at], token_out, max_hops) matches Some(route)
            ==> routes_from::<P>(pools, quote, token_in, a, token_out, max_hops, ending, j).contains(route),
    decreases j,
{
    let before = routes_from::<P>(pools, quote, token_in, a, token_out, max_hops, ending, j - 1);
    match route_through_two::<P>(pools, quote, token_in, a, ending[at], token_out, max_hops) {
        Some(route) => {
            if at == j - 1 {
                assert(before.push(route)[before.len() as int] == route);
            } else {
                lemma_from::<P>(pools, quote, token_in, a, token_out, max_hops, ending, j - 1, at);
                let i = choose|i: int| 0 <= i < before.len() && before[i] == route;
                let after = routes_from::<P>(pools, quote, token_in, a, token_out, max_hops, ending, j);
                assert(after[i] == route);
            }
        },
        None => {},
    }
}

/// A route by way of two tokens is among those by way of two.
proof fn lemma_through_two<P: SwapPool>(
    pools: Seq<P::V>,
    quote: QuoteAmount,
    token_in: TokenView<P>,
    token_out: TokenView<P>,
    max_hops: MaxHops,
    starting: Seq<TokenView<P>>,
    n: int,
    ending: Seq<TokenView<P>>,
    at_a: int,
    at_b: int,
)
    requires
        0 <= at_a < n <= starting.len(),
        0 <= at_b < ending.len(),
        starting[at_a] != token_in,
        starting[at_a] != token_out,
        ending[at_b] != token_in,
        ending[at_b] != token_out,
        ending[at_b] != starting[at_a],
    ensures
        route_through_two::<P>(
            pools,
            quote,
            token_in,
            starting[at_a],
            ending[at_b],
            token_out,
            max_hops,
        ) matches Some(route) ==> routes_through_two::<P>(
            pools,
            quote,
            token_in,
            token_out,
            max_hops,
            starting,
            n,
            ending,
        ).contains(route),
    decreases n,
{
    let before = routes_through_two::<P>(
        pools,
        quote,
        token_in,
        token_out,
        max_hops,
        starting,
        n - 1,
        ending,
    );
    let a = starting[n - 1];
    let more = routes_from::<P>(
        pools,
        quote,
        token_in,
        a,
        token_out,
        max_hops,
        ending,
        ending.len() as int,
    );
    match route_through_two::<P>(pools, quote, token_in, starting[at_a], ending[at_b], token_out, max_hops) {
        Some(route) => {
            if at_a == n - 1 {
                lemma_from::<P>(
                    pools,
                    quote,
                    token_in,
                    a,
                    token_out,
                    max_hops,
                    ending,
                    ending.len() as int,
                    at_b,
                );
                lemma_held_by_both(before, more, route);
            } else {
                lemma_through_two::<P>(
                    pools,
                    quote,
                    token_in,
                    token_out,
                    max_hops,
                    starting,
                    n - 1,
                    ending,
                    at_a,
                    at_b,
                );
                lemma_held_by_both(before, more, route);
            }
        },
        None => {},
    }
}

/// A simple route is kept.
proof fn lemma_kept<P: SwapPool>(routes: Seq<RouteView<P>>, route: RouteView<P>)
    requires
        routes.contains(route),
        is_simple::<P>(route),
    ensures
        simple_routes::<P>(routes).contains(route),
    decreases routes.len(),
{
    let i = choose|i: int| 0 <= i < routes.len() && routes[i] == route;
    let before = simple_routes::<P>(routes.drop_last());
    if i == routes.len() - 1 {
        assert(before.push(route)[before.len() as int] == route);
    } else {
        assert(routes.drop_last()[i] == route);
        lemma_kept::<P>(routes.drop_last(), route);
        let j = choose|j: int| 0 <= j < before.len() && before[j] == route;
        assert(simple_routes::<P>(routes)[j] == route);
    }
}

/// Whether a search has found a route: it is among the best, or there are as
/// many as were asked for and none of them is worse; and the first is no worse.
pub open spec fn found<P: SwapPool>(
    best: Seq<RouteView<P>>,
    count: nat,
    route: RouteView<P>,
    token_in: TokenView<P>,
    token_out: TokenView<P>,
    quote: QuoteAmount,
) -> bool {
    let outcome = route_amount::<P>(route, token_in, token_out, quote);
    &&& best.len() > 0
    &&& no_worse(route_amount::<P>(best[0], token_in, token_out, quote), outcome, quote)
    &&& best.contains(route) || (best.len() == count && forall|i: int|
        0 <= i < best.len() ==> no_worse(
            route_amount::<P>(#[trigger] best[i], token_in, token_out, quote),
            outcome,
            quote,
        ))
}

/// A simple candidate is found.
#[verifier::rlimit(50)]
proof fn lemma_found_candidate<P: SwapPool>(
    pools: Seq<P::V>,
    quote: QuoteAmount,
    token_in: TokenView<P>,
    token_out: TokenView<P>,
    max_hops: MaxHops,
    count: nat,
    route: RouteView<P>,
)
    requires
        max_hops != MaxHops::DirectOnly,
        count > 0,
        candidate_routes::<P>(pools, quote, token_in, token_out, max_hops).contains(route),
        is_simple::<P>(route),
    ensures
        found::<P>(
            best_routes::<P>(pools, quote, token_in, token_out, max_hops, count),
            count,
            route,
            token_in,
            token_out,
            quote,
        ),
{
    let candidates = candidate_routes::<P>(pools, quote, token_in, token_out, max_hops);
    let kept = simple_routes::<P>(candidates);
    let keys = route_keys::<P>(kept, token_in, token_out, quote);
    let best = best_routes::<P>(pools, quote, token_in, token_out, max_hops, count);
    lemma_kept::<P>(candidates, route);
    lemma_ranked_len(kept, keys);
    best_routes_are_best::<P>(pools, quote, token_in, token_out, max_hops, count);
    let c = choose|c: int| 0 <= c < kept.len() && kept[c] == route;
    let outcome = route_amount::<P>(route, token_in, token_out, quote);
    assert(best.len() == if kept.len() < count {
        kept.len()
    } else {
        count
    });
    if best.contains(route) {
        let i = choose|i: int| 0 <= i < best.len() && best[i] == route;
        assert(best[0] == best[0] && best[i] == route);
        lemma_no_worse(route_amount::<P>(best[0], token_in, token_out, quote), outcome, quote);
    } else {
        assert forall|i: int| 0 <= i < best.len() implies no_worse(
            route_amount::<P>(#[trigger] best[i], token_in, token_out, quote),
            outcome,
            quote,
        ) by {
            assert(kept[c] == route && best[i] == best[i]);
            lemma_no_worse(route_amount::<P>(best[i], token_in, token_out, quote), outcome, quote);
        }
        assert(best[0] == best[0]);
        if best.len() < count {
            lemma_all_are_best::<P>(kept, keys, count, c);
        }
    }
}

/// Where there are no more items than asked for, all of them are among the best.
proof fn lemma_all_are_best<P: SwapPool>(items: Seq<RouteView<P>>, keys: Seq<i128>, count: nat, c: int)
    requires
        items.len() <= count,
        0 <= c < items.len(),
    ensures
        super::top::top_k(items, keys, count).contains(items[c]),
{
    lemma_ranked_len(items, keys);
    super::laws::lemma_member_ranked(items, keys, c);
    let list = ranked(items, keys);
    let i = choose|i: int| 0 <= i < list.len() && #[trigger] list[i] == (items[c], keys[c]);
    assert(at_most(list, count) == list);
    assert(super::top::top_k(items, keys, count)[i] == items[c]);
}

/// Where some pool holds both tokens, the first route that a search gives, with
/// whatever hops, comes to an outcome that is no worse than what any pool that
/// holds both comes to, as long as these pools give what they are said to.
#[verifier::rlimit(50)]
pub proof fn no_direct_pool_is_missed<P: SwapPool>(
    pools: Seq<P::V>,
    quote: QuoteAmount,
    token_in: TokenView<P>,
    token_out: TokenView<P>,
    max_hops: MaxHops,
    count: nat,
    at: int,
)
    requires
        token_in != token_out,
        count > 0,
        0 <= at < pools.len(),
        P::tokens_of(pools[at]).contains(token_in),
        P::tokens_of(pools[at]).contains(token_out),
        forall|i: int|
            0 <= i < pools.len() ==> keeps_its_quote::<P>(#[trigger] pools[i], token_in, token_out, quote),
    ensures
        ({
            let best = best_routes::<P>(pools, quote, token_in, token_out, max_hops, count);
            &&& best.len() > 0
            &&& no_worse(
                route_amount::<P>(best[0], token_in, token_out, quote),
                swapped_in::<P>(pools[at], token_in, token_out, quote),
                quote,
            )
        }),
{
    let best = best_routes::<P>(pools, quote, token_in, token_out, max_hops, count);
    assert(connected::<P>(pools, token_in, token_out)) by {
        assert(P::tokens_of(pools[at]).contains(token_in));
    }
    let pool = lemma_best_pool::<P>(pools, quote, token_in, token_out);
    let route = single_route::<P>(pool, token_in, token_out);
    let p = choose|p: int| 0 <= p < pools.len() && pools[p] == pool;
    assert(keeps_its_quote::<P>(pools[p], token_in, token_out, quote));
    assert(keeps_its_quote::<P>(pools[at], token_in, token_out, quote));
    single_route_comes_to_the_pool::<P>(pool, token_in, token_out, quote);
    let direct = direct_routes::<P>(pools, quote, token_in, token_out);
    assert(at_most(direct, 1)[0] == direct[0]);
    assert(direct[0] == route);
    if max_hops == MaxHops::DirectOnly {
        assert(best[0] == direct[0]);
    } else {
        let candidates = candidate_routes::<P>(pools, quote, token_in, token_out, max_hops);
        assert(candidates[0] == direct[0]);
        lemma_two_tokens::<P>(route);
        lemma_found_candidate::<P>(pools, quote, token_in, token_out, max_hops, count, route);
    }
    let best_outcome = route_amount::<P>(best[0], token_in, token_out, quote);
    let through = said_by::<P>(pool, token_in, token_out, quote);
    assert(no_worse(best_outcome, through, quote));
    assert(no_worse(through, said_by::<P>(pools[at], token_in, token_out, quote), quote));
}

/// A route through one pool between different tokens is simple.
proof fn lemma_two_tokens<P: SwapPool>(route: RouteView<P>)
    requires
        route.len() == 1,
        route[0].token_in != route[0].token_out,
    ensures
        is_simple::<P>(route),
{
    let tokens = route_tokens::<P>(route);
    assert(tokens.len() == 2);
    assert(tokens[0] == route[0].token_in && tokens[1] == route[0].token_out);
}

/// Whether two pools are the best for the two legs by way of a token: the leg
/// whose amount is fixed is looked at first, and what it gives or takes is the
/// amount of the other.
pub open spec fn best_two<P: SwapPool>(
    pools: Seq<P::V>,
    quote: QuoteAmount,
    token_in: TokenView<P>,
    middle: TokenView<P>,
    token_out: TokenView<P>,
    first: P::V,
    second: P::V,
) -> bool {
    match quote {
        QuoteAmount::ExactIn(_) => {
            &&& is_best_pool::<P>(pools, first, token_in, middle, quote)
            &&& swapped_in::<P>(first, token_in, middle, quote) matches Some(amount) ==> is_best_pool::<P>(
                pools,
                second,
                middle,
                token_out,
                QuoteAmount::ExactIn(amount),
            )
        },
        QuoteAmount::ExactOut(_) => {
            &&& is_best_pool::<P>(pools, second, middle, token_out, quote)
            &&& swapped_in::<P>(second, middle, token_out, quote) matches Some(amount) ==> is_best_pool::<P>(
                pools,
                first,
                token_in,
                middle,
                QuoteAmount::ExactOut(amount),
            )
        },
    }
}

/// What a route through one pool comes to.
proof fn lemma_single_amount<P: SwapPool>(
    pool: P::V,
    token_in: TokenView<P>,
    token_out: TokenView<P>,
    quote: QuoteAmount,
)
    ensures
        route_amount::<P>(single_route::<P>(pool, token_in, token_out), token_in, token_out, quote) == swapped_in::<P>(
            pool,
            token_in,
            token_out,
            quote,
        ),
{
    let route = single_route::<P>(pool, token_in, token_out);
    match quote {
        QuoteAmount::ExactIn(amount) => {
            reveal_with_fuel(super::route::sell_steps, 3);
        },
        QuoteAmount::ExactOut(amount) => {
            reveal_with_fuel(super::route::buy_steps, 3);
        },
    }
}

/// No route by way of one token is missed: with more than one hop, and for
/// every token that pools connect with both ends, the search finds a route
/// through two pools that are the best for the two legs.
#[verifier::rlimit(50)]
pub proof fn no_token_between_is_missed<P: SwapPool>(
    pools: Seq<P::V>,
    quote: QuoteAmount,
    token_in: TokenView<P>,
    middle: TokenView<P>,
    token_out: TokenView<P>,
    max_hops: MaxHops,
    count: nat,
)
    requires
        max_hops != MaxHops::DirectOnly,
        count > 0,
        token_in != middle,
        middle != token_out,
        token_in != token_out,
        connected::<P>(pools, token_in, middle),
        connected::<P>(pools, middle, token_out),
    ensures
        exists|first: P::V, second: P::V| #[trigger]
            best_two::<P>(pools, quote, token_in, middle, token_out, first, second) && ({
                let route = seq![
                    step::<P>(first, token_in, middle),
                    step::<P>(second, middle, token_out),
                ];
                route_amount::<P>(route, token_in, token_out, quote) is Some ==> found::<P>(
                    best_routes::<P>(pools, quote, token_in, token_out, max_hops, count),
                    count,
                    route,
                    token_in,
                    token_out,
                    quote,
                )
            }),
{
    let starting = neighbours::<P>(pools, token_in);
    let ending = neighbours::<P>(pools, token_out);
    let n = starting.len() as int;
    neighbours_share_a_pool::<P>(pools, token_in, middle);
    neighbours_share_a_pool::<P>(pools, token_out, middle);
    assert(connected::<P>(pools, token_out, middle)) by {
        let i = choose|i: int|
            0 <= i < pools.len() && P::tokens_of(#[trigger] pools[i]).contains(middle) && P::tokens_of(
                pools[i],
            ).contains(token_out);
        assert(P::tokens_of(pools[i]).contains(token_out));
    }
    let at = choose|at: int| 0 <= at < starting.len() && starting[at] == middle;
    lemma_connected::<P>(pools, token_in, middle);
    lemma_connected::<P>(pools, middle, token_out);
    lemma_through_one::<P>(pools, quote, token_in, token_out, starting, ending, n, at);
    let direct = direct_routes::<P>(pools, quote, token_in, token_out);
    let one = routes_through::<P>(pools, quote, token_in, token_out, starting, ending, n);
    let candidates = candidate_routes::<P>(pools, quote, token_in, token_out, max_hops);
    let (first, second) = lemma_best_two::<P>(pools, quote, token_in, middle, token_out);
    lemma_single_amount::<P>(first, token_in, middle, quote);
    lemma_single_amount::<P>(second, middle, token_out, quote);
    assert(best_two::<P>(pools, quote, token_in, middle, token_out, first, second));
    let route = seq![step::<P>(first, token_in, middle), step::<P>(second, middle, token_out)];
    if route_amount::<P>(route, token_in, token_out, quote) is Some {
        lemma_two_steps::<P>(route, token_in, token_out, quote);
        assert(route =~= single_route::<P>(first, token_in, middle) + single_route::<P>(second, middle, token_out));
        assert(route_through::<P>(pools, quote, token_in, middle, token_out) == Some(route));
        lemma_held_by_both(direct, one, route);
        lemma_held_by_both(
            direct + one,
            candidates.subrange((direct + one).len() as int, candidates.len() as int),
            route,
        );
        assert(candidates =~= (direct + one) + candidates.subrange(
            (direct + one).len() as int,
            candidates.len() as int,
        ));
        let tokens = route_tokens::<P>(route);
        assert(tokens[0] == token_in && tokens[1] == middle && tokens[2] == token_out);
        lemma_found_candidate::<P>(pools, quote, token_in, token_out, max_hops, count, route);
    }
}

/// A route of two steps that can be emulated can be along the leg whose amount
/// is fixed.
proof fn lemma_two_steps<P: SwapPool>(
    route: RouteView<P>,
    token_in: TokenView<P>,
    token_out: TokenView<P>,
    quote: QuoteAmount,
)
    requires
        route.len() == 2,
        route_amount::<P>(route, token_in, token_out, quote) is Some,
    ensures
        quote is ExactIn ==> swapped_in::<P>(route[0].pool, token_in, route[0].token_out, quote) is Some,
        quote is ExactOut ==> swapped_in::<P>(route[1].pool, route[1].token_in, token_out, quote) is Some,
{
    match quote {
        QuoteAmount::ExactIn(amount) => {
            reveal_with_fuel(super::route::sell_steps, 4);
        },
        QuoteAmount::ExactOut(amount) => {
            reveal_with_fuel(super::route::buy_steps, 4);
        },
    }
}

/// The hops that the first and the last of three legs may take.
pub open spec fn hops_outside(max_hops: MaxHops) -> MaxHops {
    match max_hops {
        MaxHops::Max => MaxHops::Three,
        _ => MaxHops::DirectOnly,
    }
}

/// The hops that the middle one of three legs may take.
pub open spec fn hops_inside(max_hops: MaxHops) -> MaxHops {
    match max_hops {
        MaxHops::Max => MaxHops::Three,
        MaxHops::Four => MaxHops::Two,
        _ => MaxHops::DirectOnly,
    }
}

/// Whether a route is the first that a search for a leg gives.
pub open spec fn is_first<P: SwapPool>(
    pools: Seq<P::V>,
    quote: QuoteAmount,
    token_in: TokenView<P>,
    token_out: TokenView<P>,
    max_hops: MaxHops,
    route: RouteView<P>,
) -> bool {
    let best = best_routes::<P>(pools, quote, token_in, token_out, max_hops, 1);
    best.len() > 0 && best[0] == route
}

/// Whether three routes are what searches for the three legs by way of two
/// tokens give: the leg whose amount is fixed is searched first, and what each
/// gives or takes is the amount of the next.
pub open spec fn three_legs<P: SwapPool>(
    pools: Seq<P::V>,
    quote: QuoteAmount,
    token_in: TokenView<P>,
    a: TokenView<P>,
    b: TokenView<P>,
    token_out: TokenView<P>,
    max_hops: MaxHops,
    first: RouteView<P>,
    second: RouteView<P>,
    third: RouteView<P>,
) -> bool {
    let outside = hops_outside(max_hops);
    let inside = hops_inside(max_hops);
    match quote {
        QuoteAmount::ExactIn(_) => {
            &&& is_first::<P>(pools, quote, token_in, a, outside, first)
            &&& route_amount::<P>(first, token_in, a, quote) matches Some(at_a)
            &&& is_first::<P>(pools, QuoteAmount::ExactIn(at_a), a, b, inside, second)
            &&& route_amount::<P>(second, a, b, QuoteAmount::ExactIn(at_a)) matches Some(at_b)
            &&& is_first::<P>(pools, QuoteAmount::ExactIn(at_b), b, token_out, outside, third)
        },
        QuoteAmount::ExactOut(_) => {
            &&& is_first::<P>(pools, quote, b, token_out, outside, third)
            &&& route_amount::<P>(third, b, token_out, quote) matches Some(at_b)
            &&& is_first::<P>(pools, QuoteAmount::ExactOut(at_b), a, b, inside, second)
            &&& route_amount::<P>(second, a, b, QuoteAmount::ExactOut(at_b)) matches Some(at_a)
            &&& is_first::<P>(pools, QuoteAmount::ExactOut(at_a), token_in, a, outside, first)
        },
    }
}

/// Whether a route passes no token twice.
pub open spec fn passes_once<P: SwapPool>(route: RouteView<P>) -> bool {
    &&& forall|i: int, j: int|
        0 <= i < j < route.len() ==> (#[trigger] route[i]).token_out != (#[trigger] route[j]).token_out
    &&& forall|i: int| 0 <= i < route.len() ==> (#[trigger] route[i]).token_out != route[0].token_in
}

/// A route that passes no token twice is simple.
proof fn lemma_passes_once<P: SwapPool>(route: RouteView<P>)
    requires
        route.len() > 0,
        passes_once::<P>(route),
    ensures
        is_simple::<P>(route),
{
    let tokens = route_tokens::<P>(route);
    assert forall|i: int, j: int| 0 <= i < tokens.len() && 0 <= j < tokens.len() && i != j implies tokens[i]
        != tokens[j] by {
        if i == 0 {
            assert(route[j - 1].token_out != route[0].token_in);
        } else if j == 0 {
            assert(route[i - 1].token_out != route[0].token_in);
        } else if i < j {
            assert(route[i - 1].token_out != route[j - 1].token_out);
        } else {
            assert(route[j - 1].token_out != route[i - 1].token_out);
        }
    }
}

/// No route by way of two tokens is missed: with three hops or more, and for
/// every two tokens that pools connect with each other and with the ends, the
/// search finds the route that consists of what searches for the three legs
/// give, unless that passes a token twice.
#[verifier::rlimit(50)]
pub proof fn no_two_tokens_between_are_missed<P: SwapPool>(
    pools: Seq<P::V>,
    quote: QuoteAmount,
    token_in: TokenView<P>,
    a: TokenView<P>,
    b: TokenView<P>,
    token_out: TokenView<P>,
    max_hops: MaxHops,
    count: nat,
    first: RouteView<P>,
    second: RouteView<P>,
    third: RouteView<P>,
)
    requires
        max_hops == MaxHops::Three || max_hops == MaxHops::Four || max_hops == MaxHops::Max,
        count > 0,
        a != token_in,
        a != token_out,
        b != token_in,
        b != token_out,
        a != b,
        connected::<P>(pools, token_in, a),
        connected::<P>(pools, a, b),
        connected::<P>(pools, b, token_out),
        three_legs::<P>(pools, quote, token_in, a, b, token_out, max_hops, first, second, third),
        (first + second + third).len() > 0,
        passes_once::<P>(first + second + third),
    ensures
        found::<P>(
            best_routes::<P>(pools, quote, token_in, token_out, max_hops, count),
            count,
            first + second + third,
            token_in,
            token_out,
            quote,
        ),
{
    let starting = neighbours::<P>(pools, token_in);
    let ending = neighbours::<P>(pools, token_out);
    let n = starting.len() as int;
    neighbours_share_a_pool::<P>(pools, token_in, a);
    neighbours_share_a_pool::<P>(pools, token_out, b);
    assert(connected::<P>(pools, token_out, b)) by {
        let i = choose|i: int|
            0 <= i < pools.len() && P::tokens_of(#[trigger] pools[i]).contains(b) && P::tokens_of(
                pools[i],
            ).contains(token_out);
        assert(P::tokens_of(pools[i]).contains(token_out));
    }
    let at_a = choose|i: int| 0 <= i < starting.len() && starting[i] == a;
    let at_b = choose|i: int| 0 <= i < ending.len() && ending[i] == b;
    lemma_connected::<P>(pools, token_in, a);
    lemma_connected::<P>(pools, a, b);
    lemma_connected::<P>(pools, b, token_out);
    let route = first + second + third;
    assert(route_through_two::<P>(pools, quote, token_in, a, b, token_out, max_hops) == Some(route));
    lemma_through_two::<P>(
        pools,
        quote,
        token_in,
        token_out,
        max_hops,
        starting,
        n,
        ending,
        at_a,
        at_b,
    );
    let two = routes_through_two::<P>(pools, quote, token_in, token_out, max_hops, starting, n, ending);
    let candidates = candidate_routes::<P>(pools, quote, token_in, token_out, max_hops);
    let others = direct_routes::<P>(pools, quote, token_in, token_out) + routes_through::<P>(
        pools,
        quote,
        token_in,
        token_out,
        starting,
        ending,
        n,
    );
    assert(candidates =~= others + two);
    lemma_held_by_both(others, two, route);
    lemma_passes_once::<P>(route);
    lemma_found_candidate::<P>(pools, quote, token_in, token_out, max_hops, count, route);
}

/// Whether three pools are the best for the three legs by way of two tokens:
/// the leg whose amount is fixed is looked at first, and what each gives or
/// takes is the amount of the next.
pub open spec fn best_three<P: SwapPool>(
    pools: Seq<P::V>,
    quote: QuoteAmount,
    token_in: TokenView<P>,
    a: TokenView<P>,
    b: TokenView<P>,
    token_out: TokenView<P>,
    first: P::V,
    second: P::V,
    third: P::V,
) -> bool {
    match quote {
        QuoteAmount::ExactIn(_) => {
            &&& is_best_pool::<P>(pools, first, token_in, a, quote)
            &&& swapped_in::<P>(first, token_in, a, quote) matches Some(at_a) ==> best_two::<P>(
                pools,
                QuoteAmount::ExactIn(at_a),
                a,
                b,
                token_out,
                second,
                third,
            )
        },
        QuoteAmount::ExactOut(_) => {
            &&& is_best_pool::<P>(pools, third, b, token_out, quote)
            &&& swapped_in::<P>(third, b, token_out, quote) matches Some(at_b) ==> best_two::<P>(
                pools,
                QuoteAmount::ExactOut(at_b),
                token_in,
                a,
                b,
                first,
                second,
            )
        },
    }
}

/// Whether the two legs that fix the amount of another come to one.
pub open spec fn comes_through<P: SwapPool>(
    quote: QuoteAmount,
    token_in: TokenView<P>,
    a: TokenView<P>,
    b: TokenView<P>,
    token_out: TokenView<P>,
    first: P::V,
    second: P::V,
    third: P::V,
) -> bool {
    match quote {
        QuoteAmount::ExactIn(_) => {
            &&& swapped_in::<P>(first, token_in, a, quote) matches Some(at_a)
            &&& swapped_in::<P>(second, a, b, QuoteAmount::ExactIn(at_a)) is Some
        },
        QuoteAmount::ExactOut(_) => {
            &&& swapped_in::<P>(third, b, token_out, quote) matches Some(at_b)
            &&& swapped_in::<P>(second, a, b, QuoteAmount::ExactOut(at_b)) is Some
        },
    }
}

/// The pools that are the best for two legs, and what searches for them with
/// one hop give.
#[verifier::rlimit(50)]
proof fn lemma_best_two<P: SwapPool>(
    pools: Seq<P::V>,
    quote: QuoteAmount,
    token_in: TokenView<P>,
    middle: TokenView<P>,
    token_out: TokenView<P>,
) -> (pair: (P::V, P::V))
    requires
        token_in != middle,
        middle != token_out,
        connected::<P>(pools, token_in, middle),
        connected::<P>(pools, middle, token_out),
    ensures
        best_two::<P>(pools, quote, token_in, middle, token_out, pair.0, pair.1),
        ({
            let first = single_route::<P>(pair.0, token_in, middle);
            let second = single_route::<P>(pair.1, middle, token_out);
            match quote {
                QuoteAmount::ExactIn(_) => {
                    &&& is_first::<P>(pools, quote, token_in, middle, MaxHops::DirectOnly, first)
                    &&& swapped_in::<P>(pair.0, token_in, middle, quote) matches Some(amount) ==> is_first::<P>(
                        pools,
                        QuoteAmount::ExactIn(amount),
                        middle,
                        token_out,
                        MaxHops::DirectOnly,
                        second,
                    )
                },
                QuoteAmount::ExactOut(_) => {
                    &&& is_first::<P>(pools, quote, middle, token_out, MaxHops::DirectOnly, second)
                    &&& swapped_in::<P>(pair.1, middle, token_out, quote) matches Some(amount) ==> is_first::<P>(
                        pools,
                        QuoteAmount::ExactOut(amount),
                        token_in,
                        middle,
                        MaxHops::DirectOnly,
                        first,
                    )
                },
            }
        }),
{
    match quote {
        QuoteAmount::ExactIn(_) => {
            let first = lemma_best_pool::<P>(pools, quote, token_in, middle);
            match swapped_in::<P>(first, token_in, middle, quote) {
                Some(amount) => (
                    first,
                    lemma_best_pool::<P>(pools, QuoteAmount::ExactIn(amount), middle, token_out),
                ),
                None => (first, first),
            }
        },
        QuoteAmount::ExactOut(_) => {
            let second = lemma_best_pool::<P>(pools, quote, middle, token_out);
            match swapped_in::<P>(second, middle, token_out, quote) {
                Some(amount) => (
                    lemma_best_pool::<P>(pools, QuoteAmount::ExactOut(amount), token_in, middle),
                    second,
                ),
                None => (second, second),
            }
        },
    }
}

/// No route by way of two tokens is missed with three hops: for every two
/// tokens that pools connect with each other and with the ends, the search
/// finds a route through three pools that are the best for the three legs.
#[verifier::rlimit(50)]
pub proof fn no_three_pools_are_missed<P: SwapPool>(
    pools: Seq<P::V>,
    quote: QuoteAmount,
    token_in: TokenView<P>,
    a: TokenView<P>,
    b: TokenView<P>,
    token_out: TokenView<P>,
    count: nat,
)
    requires
        count > 0,
        token_in != token_out,
        a != token_in,
        a != token_out,
        b != token_in,
        b != token_out,
        a != b,
        connected::<P>(pools, token_in, a),
        connected::<P>(pools, a, b),
        connected::<P>(pools, b, token_out),
    ensures
        exists|first: P::V, second: P::V, third: P::V| #[trigger]
            best_three::<P>(pools, quote, token_in, a, b, token_out, first, second, third) && ({
                let route = seq![
                    step::<P>(first, token_in, a),
                    step::<P>(second, a, b),
                    step::<P>(third, b, token_out),
                ];
                comes_through::<P>(quote, token_in, a, b, token_out, first, second, third) ==> found::<P>(
                    best_routes::<P>(pools, quote, token_in, token_out, MaxHops::Three, count),
                    count,
                    route,
                    token_in,
                    token_out,
                    quote,
                )
            }),
{
    let (first, second, third) = match quote {
        QuoteAmount::ExactIn(_) => {
            let first = lemma_best_pool::<P>(pools, quote, token_in, a);
            lemma_single_amount::<P>(first, token_in, a, quote);
            match swapped_in::<P>(first, token_in, a, quote) {
                Some(at_a) => {
                    let rest = QuoteAmount::ExactIn(at_a);
                    let (second, third) = lemma_best_two::<P>(pools, rest, a, b, token_out);
                    lemma_single_amount::<P>(second, a, b, rest);
                    (first, second, third)
                },
                None => (first, first, first),
            }
        },
        QuoteAmount::ExactOut(_) => {
            let third = lemma_best_pool::<P>(pools, quote, b, token_out);
            lemma_single_amount::<P>(third, b, token_out, quote);
            match swapped_in::<P>(third, b, token_out, quote) {
                Some(at_b) => {
                    let rest = QuoteAmount::ExactOut(at_b);
                    let (first, second) = lemma_best_two::<P>(pools, rest, token_in, a, b);
                    lemma_single_amount::<P>(second, a, b, rest);
                    (first, second, third)
                },
                None => (third, third, third),
            }
        },
    };
    assert(best_three::<P>(pools, quote, token_in, a, b, token_out, first, second, third));
    let route = seq![step::<P>(first, token_in, a), step::<P>(second, a, b), step::<P>(third, b, token_out)];
    if comes_through::<P>(quote, token_in, a, b, token_out, first, second, third) {
        let one = single_route::<P>(first, token_in, a);
        let two = single_route::<P>(second, a, b);
        let three = single_route::<P>(third, b, token_out);
        assert(one + two + three =~= route);
        assert(passes_once::<P>(route));
        no_two_tokens_between_are_missed::<P>(
            pools,
            quote,
            token_in,
            a,
            b,
            token_out,
            MaxHops::Three,
            count,
            one,
            two,
            three,
        );
    }
}

/// With one hop a search gives a route for every pool that holds both tokens,
/// up to three and up to as many as asked for.
pub proof fn one_hop_gives_up_to_three<P: SwapPool>(
    pools: Seq<P::V>,
    quote: QuoteAmount,
    token_in: TokenView<P>,
    token_out: TokenView<P>,
    count: nat,
)
    ensures
        ({
            let direct = direct_pools::<P>(pools, token_in, token_out).len();
            let best = best_routes::<P>(pools, quote, token_in, token_out, MaxHops::DirectOnly, count).len();
            &&& best <= 3 && best <= count && best <= direct
            &&& best == 3 || best == count || best == direct
        }),
{
    let direct = direct_pools::<P>(pools, token_in, token_out);
    lemma_ranked_len(direct, super::search::pool_keys::<P>(direct, token_in, token_out, quote));
}

/// What a search with one hop finds, one with more hops finds too.
pub proof fn more_hops_find_more<P: SwapPool>(
    pools: Seq<P::V>,
    quote: QuoteAmount,
    token_in: TokenView<P>,
    token_out: TokenView<P>,
    max_hops: MaxHops,
    count: nat,
    i: int,
)
    requires
        max_hops != MaxHops::DirectOnly,
        count > 0,
        token_in != token_out,
        0 <= i < best_routes::<P>(pools, quote, token_in, token_out, MaxHops::DirectOnly, 3).len(),
    ensures
        found::<P>(
            best_routes::<P>(pools, quote, token_in, token_out, max_hops, count),
            count,
            best_routes::<P>(pools, quote, token_in, token_out, MaxHops::DirectOnly, 3)[i],
            token_in,
            token_out,
            quote,
        ),
{
    let direct = direct_routes::<P>(pools, quote, token_in, token_out);
    let route = best_routes::<P>(pools, quote, token_in, token_out, MaxHops::DirectOnly, 3)[i];
    let candidates = candidate_routes::<P>(pools, quote, token_in, token_out, max_hops);
    assert(at_most(direct, 3)[i] == direct[i]);
    assert(candidates[i] == direct[i]);
    lemma_two_tokens::<P>(route);
    lemma_found_candidate::<P>(pools, quote, token_in, token_out, max_hops, count, route);
}

} // verus!
