//! The best routes between two tokens.

use vstd::prelude::*;

use super::market::{lemma_views_concat, lemma_views_push, SwapPool, TokenView};
use super::pools::{contains_token, direct_pools, has_direct_pool, neighbours, Pools};
use super::route::{route_amount, QuoteAmount, Route, RouteStep, RouteView, StepView};
use super::top::{at_most, lemma_top_k_views, select_top_k, top_k};
use crate::ident::{views, Ident};

verus! {

/// How many pools a route may go through.
#[derive(Clone, Copy, Debug, PartialEq, Eq, Structural)]
pub enum MaxHops {
    /// One pool.
    DirectOnly,
    /// Two pools.
    Two,
    /// Three pools.
    Three,
    /// Four pools, the second token being reached through one.
    Four,
    /// Three legs of up to three pools each.
    Max,
}

/// How deep the search for a number of hops goes.
pub open spec fn depth(max_hops: MaxHops) -> nat {
    match max_hops {
        MaxHops::DirectOnly => 0,
        MaxHops::Two => 1,
        MaxHops::Three => 2,
        MaxHops::Four => 2,
        MaxHops::Max => 3,
    }
}

/// Whether routes with two tokens in between are searched.
pub open spec fn goes_through_two(max_hops: MaxHops) -> bool {
    max_hops == MaxHops::Three || max_hops == MaxHops::Four || max_hops == MaxHops::Max
}

/// How many hops the first and the last of three legs may take.
pub open spec fn outer_hops(max_hops: MaxHops) -> MaxHops {
    if max_hops == MaxHops::Max {
        MaxHops::Three
    } else {
        MaxHops::DirectOnly
    }
}

/// How many hops the middle one of three legs may take.
pub open spec fn middle_hops(max_hops: MaxHops) -> MaxHops {
    match max_hops {
        MaxHops::Max => MaxHops::Three,
        MaxHops::Four => MaxHops::Two,
        _ => MaxHops::DirectOnly,
    }
}

/// What a quote is ranked by: a larger output or a smaller input is better,
/// and no quote or one beyond `i128` is worst.
pub open spec fn quote_key(amount: Option<u128>, quote: QuoteAmount) -> i128 {
    match quote {
        QuoteAmount::ExactIn(_) => match amount {
            Some(amount) => if amount <= i128::MAX {
                amount as i128
            } else {
                0
            },
            None => 0,
        },
        QuoteAmount::ExactOut(_) => match amount {
            Some(amount) => if amount <= i128::MAX {
                (-(amount as int)) as i128
            } else {
                i128::MIN
            },
            None => i128::MIN,
        },
    }
}

fn quote_key_of(amount: Option<u128>, quote: QuoteAmount) -> (r: i128)
    ensures
        r == quote_key(amount, quote),
{
    let fitting: Option<i128> = match amount {
        Some(amount) => if amount <= 0x7fff_ffff_ffff_ffff_ffff_ffff_ffff_ffff {
            Some(amount as i128)
        } else {
            None
        },
        None => None,
    };
    match quote {
        QuoteAmount::ExactIn(_) => match fitting {
            Some(amount) => amount,
            None => 0,
        },
        QuoteAmount::ExactOut(_) => match fitting {
            Some(amount) => -amount,
            None => i128::MIN,
        },
    }
}

/// What a single pool is said to give for an exact input, or takes for an
/// exact output.
pub open spec fn pool_amount<P: SwapPool>(
    pool: P::V,
    token_in: TokenView<P>,
    token_out: TokenView<P>,
    quote: QuoteAmount,
) -> Option<u128> {
    match quote {
        QuoteAmount::ExactIn(amount) => P::quoted(pool, token_in, token_out, amount),
        QuoteAmount::ExactOut(amount) => match P::purchase(pool, token_in, token_out, amount) {
            Some((_, taken)) => Some(taken),
            None => None,
        },
    }
}

/// What the pools are ranked by.
pub open spec fn pool_keys<P: SwapPool>(
    pools: Seq<P::V>,
    token_in: TokenView<P>,
    token_out: TokenView<P>,
    quote: QuoteAmount,
) -> Seq<i128> {
    Seq::new(
        pools.len(),
        |i: int| quote_key(pool_amount::<P>(pools[i], token_in, token_out, quote), quote),
    )
}

/// What the routes are ranked by.
pub open spec fn route_keys<P: SwapPool>(
    routes: Seq<RouteView<P>>,
    token_in: TokenView<P>,
    token_out: TokenView<P>,
    quote: QuoteAmount,
) -> Seq<i128> {
    Seq::new(
        routes.len(),
        |i: int| quote_key(route_amount::<P>(routes[i], token_in, token_out, quote), quote),
    )
}

/// The route through one pool.
pub open spec fn single_route<P: SwapPool>(
    pool: P::V,
    token_in: TokenView<P>,
    token_out: TokenView<P>,
) -> RouteView<P> {
    seq![StepView::<P> { pool, token_in, token_out }]
}

/// How many of the pools between two tokens are considered.
pub const DIRECT_POOLS_COUNT: usize = 3;

/// The routes through one of the best pools between the tokens, best first.
pub open spec fn direct_routes<P: SwapPool>(
    pools: Seq<P::V>,
    quote: QuoteAmount,
    token_in: TokenView<P>,
    token_out: TokenView<P>,
) -> Seq<RouteView<P>> {
    let direct = direct_pools::<P>(pools, token_in, token_out);
    let best = top_k(
        direct,
        pool_keys::<P>(direct, token_in, token_out, quote),
        DIRECT_POOLS_COUNT as nat,
    );
    Seq::new(best.len(), |i: int| single_route::<P>(best[i], token_in, token_out))
}

/// The first of the routes.
pub open spec fn first_route<P: SwapPool>(routes: Seq<RouteView<P>>) -> Option<RouteView<P>> {
    if routes.len() > 0 {
        Some(routes[0])
    } else {
        None
    }
}

/// The best pool between the tokens.
pub open spec fn best_direct<P: SwapPool>(
    pools: Seq<P::V>,
    quote: QuoteAmount,
    token_in: TokenView<P>,
    token_out: TokenView<P>,
) -> Option<RouteView<P>> {
    first_route::<P>(at_most(direct_routes::<P>(pools, quote, token_in, token_out), 1))
}

/// The route through the best pools by way of `middle`: the leg whose amount
/// is fixed is chosen first, and what it gives or takes fixes the other.
pub open spec fn route_through<P: SwapPool>(
    pools: Seq<P::V>,
    quote: QuoteAmount,
    token_in: TokenView<P>,
    middle: TokenView<P>,
    token_out: TokenView<P>,
) -> Option<RouteView<P>> {
    if !has_direct_pool::<P>(pools, token_in, middle) || !has_direct_pool::<P>(pools, middle, token_out) {
        None
    } else {
        match quote {
            QuoteAmount::ExactIn(_) => match best_direct::<P>(pools, quote, token_in, middle) {
                Some(first) => match route_amount::<P>(first, token_in, middle, quote) {
                    Some(amount) => match best_direct::<P>(
                        pools,
                        QuoteAmount::ExactIn(amount),
                        middle,
                        token_out,
                    ) {
                        Some(second) => Some(first + second),
                        None => None,
                    },
                    None => None,
                },
                None => None,
            },
            QuoteAmount::ExactOut(_) => match best_direct::<P>(pools, quote, middle, token_out) {
                Some(second) => match route_amount::<P>(second, middle, token_out, quote) {
                    Some(amount) => match best_direct::<P>(
                        pools,
                        QuoteAmount::ExactOut(amount),
                        token_in,
                        middle,
                    ) {
                        Some(first) => Some(first + second),
                        None => None,
                    },
                    None => None,
                },
                None => None,
            },
        }
    }
}

/// The routes by way of those of the first `k` tokens that both ends reach.
pub open spec fn routes_through<P: SwapPool>(
    pools: Seq<P::V>,
    quote: QuoteAmount,
    token_in: TokenView<P>,
    token_out: TokenView<P>,
    starting: Seq<TokenView<P>>,
    ending: Seq<TokenView<P>>,
    k: int,
) -> Seq<RouteView<P>>
    decreases k,
{
    if k <= 0 {
        Seq::empty()
    } else {
        let before = routes_through::<P>(pools, quote, token_in, token_out, starting, ending, k - 1);
        let middle = starting[k - 1];
        if !ending.contains(middle) || middle == token_in || middle == token_out {
            before
        } else {
            match route_through::<P>(pools, quote, token_in, middle, token_out) {
                Some(route) => before.push(route),
                None => before,
            }
        }
    }
}

/// The best route with a number of hops.
pub open spec fn best_leg<P: SwapPool>(
    pools: Seq<P::V>,
    quote: QuoteAmount,
    token_in: TokenView<P>,
    token_out: TokenView<P>,
    max_hops: MaxHops,
) -> Option<RouteView<P>>
    decreases depth(max_hops), 5int, 0int,
{
    first_route::<P>(best_routes::<P>(pools, quote, token_in, token_out, max_hops, 1))
}

/// The route by way of two tokens: the leg whose amount is fixed is chosen
/// first, and what each leg gives or takes fixes the next.
pub open spec fn route_through_two<P: SwapPool>(
    pools: Seq<P::V>,
    quote: QuoteAmount,
    token_in: TokenView<P>,
    a: TokenView<P>,
    b: TokenView<P>,
    token_out: TokenView<P>,
    max_hops: MaxHops,
) -> Option<RouteView<P>>
    decreases depth(max_hops), 0int, 0int,
{
    if !goes_through_two(max_hops) || !has_direct_pool::<P>(pools, token_in, a) || !has_direct_pool::<P>(
        pools,
        a,
        b,
    ) || !has_direct_pool::<P>(pools, b, token_out) {
        None
    } else {
        match quote {
            QuoteAmount::ExactIn(_) => match best_leg::<P>(
                pools,
                quote,
                token_in,
                a,
                outer_hops(max_hops),
            ) {
                Some(first) => match route_amount::<P>(first, token_in, a, quote) {
                    Some(at_a) => match best_leg::<P>(
                        pools,
                        QuoteAmount::ExactIn(at_a),
                        a,
                        b,
                        middle_hops(max_hops),
                    ) {
                        Some(second) => match route_amount::<P>(second, a, b, QuoteAmount::ExactIn(at_a)) {
                            Some(at_b) => match best_leg::<P>(
                                pools,
                                QuoteAmount::ExactIn(at_b),
                                b,
                                token_out,
                                outer_hops(max_hops),
                            ) {
                                Some(third) => Some(first + second + third),
                                None => None,
                            },
                            None => None,
                        },
                        None => None,
                    },
                    None => None,
                },
                None => None,
            },
            QuoteAmount::ExactOut(_) => match best_leg::<P>(
                pools,
                quote,
                b,
                token_out,
                outer_hops(max_hops),
            ) {
                Some(third) => match route_amount::<P>(third, b, token_out, quote) {
                    Some(at_b) => match best_leg::<P>(
                        pools,
                        QuoteAmount::ExactOut(at_b),
                        a,
                        b,
                        middle_hops(max_hops),
                    ) {
                        Some(second) => match route_amount::<P>(second, a, b, QuoteAmount::ExactOut(at_b)) {
                            Some(at_a) => match best_leg::<P>(
                                pools,
                                QuoteAmount::ExactOut(at_a),
                                token_in,
                                a,
                                outer_hops(max_hops),
                            ) {
                                Some(first) => Some(first + second + third),
                                None => None,
                            },
                            None => None,
                        },
                        None => None,
                    },
                    None => None,
                },
                None => None,
            },
        }
    }
}

/// The routes by way of `a` and one of the first `j` tokens around the end.
pub open spec fn routes_from<P: SwapPool>(
    pools: Seq<P::V>,
    quote: QuoteAmount,
    token_in: TokenView<P>,
    a: TokenView<P>,
    token_out: TokenView<P>,
    max_hops: MaxHops,
    ending: Seq<TokenView<P>>,
    j: int,
) -> Seq<RouteView<P>>
    decreases depth(max_hops), 1int, j,
{
    if j <= 0 {
        Seq::empty()
    } else {
        let before = routes_from::<P>(pools, quote, token_in, a, token_out, max_hops, ending, j - 1);
        let b = ending[j - 1];
        if b == token_in || b == token_out || a == b {
            before
        } else {
            match route_through_two::<P>(pools, quote, token_in, a, b, token_out, max_hops) {
                Some(route) => before.push(route),
                None => before,
            }
        }
    }
}

/// The routes by way of one of the first `i` tokens around the start and one
/// around the end.
pub open spec fn routes_through_two<P: SwapPool>(
    pools: Seq<P::V>,
    quote: QuoteAmount,
    token_in: TokenView<P>,
    token_out: TokenView<P>,
    max_hops: MaxHops,
    starting: Seq<TokenView<P>>,
    i: int,
    ending: Seq<TokenView<P>>,
) -> Seq<RouteView<P>>
    decreases depth(max_hops), 2int, i,
{
    if i <= 0 {
        Seq::empty()
    } else {
        let before = routes_through_two::<P>(
            pools,
            quote,
            token_in,
            token_out,
            max_hops,
            starting,
            i - 1,
            ending,
        );
        let a = starting[i - 1];
        if a == token_in || a == token_out {
            before
        } else {
            before + routes_from::<P>(
                pools,
                quote,
                token_in,
                a,
                token_out,
                max_hops,
                ending,
                ending.len() as int,
            )
        }
    }
}

/// The tokens that a route passes, from its start to its end.
pub open spec fn route_tokens<P: SwapPool>(route: RouteView<P>) -> Seq<TokenView<P>> {
    Seq::new(
        route.len() + 1,
        |i: int|
            if i == 0 {
                route[0].token_in
            } else {
                route[i - 1].token_out
            },
    )
}

/// Whether the route has a step and passes no token twice.
pub open spec fn is_simple<P: SwapPool>(route: RouteView<P>) -> bool {
    route.len() > 0 && route_tokens::<P>(route).no_duplicates()
}

/// The routes that pass no token twice.
pub open spec fn simple_routes<P: SwapPool>(routes: Seq<RouteView<P>>) -> Seq<RouteView<P>>
    decreases routes.len(),
{
    if routes.len() == 0 {
        Seq::empty()
    } else {
        let before = simple_routes::<P>(routes.drop_last());
        if is_simple::<P>(routes.last()) {
            before.push(routes.last())
        } else {
            before
        }
    }
}

/// The routes that are ranked against each other.
pub open spec fn candidate_routes<P: SwapPool>(
    pools: Seq<P::V>,
    quote: QuoteAmount,
    token_in: TokenView<P>,
    token_out: TokenView<P>,
    max_hops: MaxHops,
) -> Seq<RouteView<P>>
    decreases depth(max_hops), 3int, 0int,
{
    let starting = neighbours::<P>(pools, token_in);
    let ending = neighbours::<P>(pools, token_out);
    direct_routes::<P>(pools, quote, token_in, token_out) + routes_through::<P>(
        pools,
        quote,
        token_in,
        token_out,
        starting,
        ending,
        starting.len() as int,
    ) + if goes_through_two(max_hops) {
        routes_through_two::<P>(
            pools,
            quote,
            token_in,
            token_out,
            max_hops,
            starting,
            starting.len() as int,
            ending,
        )
    } else {
        Seq::empty()
    }
}

/// The `count` best routes, best first.
pub open spec fn best_routes<P: SwapPool>(
    pools: Seq<P::V>,
    quote: QuoteAmount,
    token_in: TokenView<P>,
    token_out: TokenView<P>,
    max_hops: MaxHops,
    count: nat,
) -> Seq<RouteView<P>>
    decreases depth(max_hops), 4int, 0int,
{
    if max_hops == MaxHops::DirectOnly {
        at_most(direct_routes::<P>(pools, quote, token_in, token_out), count)
    } else {
        let kept = simple_routes::<P>(
            candidate_routes::<P>(pools, quote, token_in, token_out, max_hops),
        );
        top_k(kept, route_keys::<P>(kept, token_in, token_out, quote), count)
    }
}

/// What the pool is ranked by.
fn pool_key<P: SwapPool>(pool: &P, token_in: &P::Token, token_out: &P::Token, quote: QuoteAmount) -> (r: i128)
    ensures
        r == quote_key(pool_amount::<P>(pool@, token_in@, token_out@, quote), quote),
{
    let amount: Option<u128> = match quote {
        QuoteAmount::ExactIn(amount) => pool.quote(token_in, token_out, amount),
        QuoteAmount::ExactOut(amount) => match pool.bought(token_in, token_out, amount) {
            Some((_, taken)) => Some(taken),
            None => None,
        },
    };
    quote_key_of(amount, quote)
}

/// The first route followed by the second.
fn joined<'a, P: SwapPool>(first: Route<'a, P>, second: Route<'a, P>) -> (r: Route<'a, P>)
    ensures
        r@ == first@ + second@,
{
    let mut steps: Vec<RouteStep<'a, P>> = first.steps;
    let mut more: Vec<RouteStep<'a, P>> = second.steps;
    steps.append(&mut more);
    let r = Route { steps };
    assert(r@ =~= first@ + second@);
    r
}

/// The routes through one of the best pools between the tokens.
fn find_direct_routes<'a, P: SwapPool>(
    pools: &'a Pools<P>,
    quote: QuoteAmount,
    token_in: &P::Token,
    token_out: &P::Token,
) -> (r: Vec<Route<'a, P>>)
    ensures
        views(r@) == direct_routes::<P>(pools@, quote, token_in@, token_out@),
{
    let direct: Vec<&'a P> = pools.direct_pools(token_in, token_out);
    let ghost found = views(direct@);
    let mut keys: Vec<i128> = Vec::new();
    let mut i: usize = 0;
    while i < direct.len()
        invariant
            i <= direct@.len(),
            keys@.len() == i,
            found == views(direct@),
            forall|j: int|
                0 <= j < i ==> keys@[j] == quote_key(
                    pool_amount::<P>(#[trigger] found[j], token_in@, token_out@, quote),
                    quote,
                ),
        decreases direct@.len() - i,
    {
        let pool: &'a P = direct[i];
        keys.push(pool_key(pool, token_in, token_out, quote));
        assert(found[i as int] == pool@);
        i = i + 1;
    }
    assert(keys@ =~= pool_keys::<P>(found, token_in@, token_out@, quote));
    proof {
        lemma_top_k_views(direct@, keys@, DIRECT_POOLS_COUNT as nat);
    }
    let best: Vec<&'a P> = select_top_k(direct, &keys, DIRECT_POOLS_COUNT);
    let ghost chosen = views(best@);
    let mut routes: Vec<Route<'a, P>> = Vec::new();
    let mut i: usize = 0;
    while i < best.len()
        invariant
            i <= best@.len(),
            chosen == views(best@),
            routes@.len() == i,
            forall|j: int|
                0 <= j < i ==> views(routes@)[j] == single_route::<P>(
                    #[trigger] chosen[j],
                    token_in@,
                    token_out@,
                ),
        decreases best@.len() - i,
    {
        let step: RouteStep<'a, P> = RouteStep {
            pool: best[i],
            token_in: token_in.duplicate(),
            token_out: token_out.duplicate(),
        };
        let mut steps: Vec<RouteStep<'a, P>> = Vec::new();
        steps.push(step);
        let route: Route<'a, P> = Route { steps };
        assert(route@ =~= single_route::<P>(chosen[i as int], token_in@, token_out@));
        let ghost before = routes@;
        routes.push(route);
        assert forall|j: int| 0 <= j <= i implies views(routes@)[j] == single_route::<P>(
            #[trigger] chosen[j],
            token_in@,
            token_out@,
        ) by {
            if j < i {
                assert(views(before)[j] == views(routes@)[j]);
            }
        }
        i = i + 1;
    }
    assert(views(routes@) =~= direct_routes::<P>(pools@, quote, token_in@, token_out@));
    routes
}

/// The view of an optional route.
pub open spec fn opt_route<P: SwapPool>(route: Option<Route<P>>) -> Option<RouteView<P>> {
    match route {
        Some(route) => Some(route@),
        None => None,
    }
}

/// Takes the first of the routes.
fn take_first<'a, P: SwapPool>(routes: Vec<Route<'a, P>>) -> (r: Option<Route<'a, P>>)
    ensures
        opt_route(r) == first_route::<P>(views(routes@)),
{
    let mut routes: Vec<Route<'a, P>> = routes;
    if routes.len() == 0 {
        None
    } else {
        Some(routes.swap_remove(0))
    }
}

/// The best pool between the tokens.
fn find_best_direct<'a, P: SwapPool>(
    pools: &'a Pools<P>,
    quote: QuoteAmount,
    token_in: &P::Token,
    token_out: &P::Token,
) -> (r: Option<Route<'a, P>>)
    ensures
        opt_route(r) == best_direct::<P>(pools@, quote, token_in@, token_out@),
{
    take_first(find_direct_routes(pools, quote, token_in, token_out))
}

/// The route through the best pools by way of `middle`.
fn find_route_through<'a, P: SwapPool>(
    pools: &'a Pools<P>,
    quote: QuoteAmount,
    token_in: &P::Token,
    middle: &P::Token,
    token_out: &P::Token,
) -> (r: Option<Route<'a, P>>)
    ensures
        opt_route(r) == route_through::<P>(pools@, quote, token_in@, middle@, token_out@),
{
    if !pools.has_direct_pool(token_in, middle) || !pools.has_direct_pool(middle, token_out) {
        return None;
    }
    match quote {
        QuoteAmount::ExactIn(_) => {
            let first: Route<'a, P> = match find_best_direct(pools, quote, token_in, middle) {
                Some(first) => first,
                None => {
                    return None;
                },
            };
            let amount: u128 = match first.emulate(token_in, middle, quote) {
                Some(amount) => amount,
                None => {
                    return None;
                },
            };
            match find_best_direct(pools, QuoteAmount::ExactIn(amount), middle, token_out) {
                Some(second) => Some(joined(first, second)),
                None => None,
            }
        },
        QuoteAmount::ExactOut(_) => {
            let second: Route<'a, P> = match find_best_direct(pools, quote, middle, token_out) {
                Some(second) => second,
                None => {
                    return None;
                },
            };
            let amount: u128 = match second.emulate(middle, token_out, quote) {
                Some(amount) => amount,
                None => {
                    return None;
                },
            };
            match find_best_direct(pools, QuoteAmount::ExactOut(amount), token_in, middle) {
                Some(first) => Some(joined(first, second)),
                None => None,
            }
        },
    }
}

/// The best route with a number of hops.
pub fn find_best_route<'a, P: SwapPool>(
    pools: &'a Pools<P>,
    amount: QuoteAmount,
    token_in: &P::Token,
    token_out: &P::Token,
    max_hops: MaxHops,
) -> (r: Option<Route<'a, P>>)
    ensures
        opt_route(r) == best_leg::<P>(pools@, amount, token_in@, token_out@, max_hops),
    decreases depth(max_hops), 4int,
{
    take_first(find_best_routes(pools, amount, token_in, token_out, max_hops, 1))
}

/// How many hops the first and the last of three legs may take.
fn outer_hops_of(max_hops: MaxHops) -> (r: MaxHops)
    ensures
        r == outer_hops(max_hops),
{
    match max_hops {
        MaxHops::Max => MaxHops::Three,
        _ => MaxHops::DirectOnly,
    }
}

/// How many hops the middle one of three legs may take.
fn middle_hops_of(max_hops: MaxHops) -> (r: MaxHops)
    ensures
        r == middle_hops(max_hops),
{
    match max_hops {
        MaxHops::Max => MaxHops::Three,
        MaxHops::Four => MaxHops::Two,
        _ => MaxHops::DirectOnly,
    }
}

/// The route by way of two tokens.
fn find_route_through_two<'a, P: SwapPool>(
    pools: &'a Pools<P>,
    quote: QuoteAmount,
    token_in: &P::Token,
    a: &P::Token,
    b: &P::Token,
    token_out: &P::Token,
    max_hops: MaxHops,
) -> (r: Option<Route<'a, P>>)
    requires
        goes_through_two(max_hops),
    ensures
        opt_route(r) == route_through_two::<P>(pools@, quote, token_in@, a@, b@, token_out@, max_hops),
    decreases depth(max_hops), 0int,
{
    if !pools.has_direct_pool(token_in, a) || !pools.has_direct_pool(a, b) || !pools.has_direct_pool(
        b,
        token_out,
    ) {
        return None;
    }
    let outer: MaxHops = outer_hops_of(max_hops);
    let inner: MaxHops = middle_hops_of(max_hops);
    match quote {
        QuoteAmount::ExactIn(_) => {
            let first: Route<'a, P> = match find_best_route(pools, quote, token_in, a, outer) {
                Some(first) => first,
                None => {
                    return None;
                },
            };
            let at_a: u128 = match first.emulate(token_in, a, quote) {
                Some(amount) => amount,
                None => {
                    return None;
                },
            };
            let second: Route<'a, P> = match find_best_route(
                pools,
                QuoteAmount::ExactIn(at_a),
                a,
                b,
                inner,
            ) {
                Some(second) => second,
                None => {
                    return None;
                },
            };
            let at_b: u128 = match second.emulate(a, b, QuoteAmount::ExactIn(at_a)) {
                Some(amount) => amount,
                None => {
                    return None;
                },
            };
            match find_best_route(pools, QuoteAmount::ExactIn(at_b), b, token_out, outer) {
                Some(third) => Some(joined(joined(first, second), third)),
                None => None,
            }
        },
        QuoteAmount::ExactOut(_) => {
            let third: Route<'a, P> = match find_best_route(pools, quote, b, token_out, outer) {
                Some(third) => third,
                None => {
                    return None;
                },
            };
            let at_b: u128 = match third.emulate(b, token_out, quote) {
                Some(amount) => amount,
                None => {
                    return None;
                },
            };
            let second: Route<'a, P> = match find_best_route(
                pools,
                QuoteAmount::ExactOut(at_b),
                a,
                b,
                inner,
            ) {
                Some(second) => second,
                None => {
                    return None;
                },
            };
            let at_a: u128 = match second.emulate(a, b, QuoteAmount::ExactOut(at_b)) {
                Some(amount) => amount,
                None => {
                    return None;
                },
            };
            match find_best_route(pools, QuoteAmount::ExactOut(at_a), token_in, a, outer) {
                Some(first) => Some(joined(joined(first, second), third)),
                None => None,
            }
        },
    }
}

/// Whether the route has a step and passes no token twice.
fn passes_no_token_twice<P: SwapPool>(route: &Route<P>) -> (r: bool)
    ensures
        r == is_simple::<P>(route@),
{
    if route.steps.len() == 0 {
        return false;
    }
    let ghost tokens = route_tokens::<P>(route@);
    let mut seen: Vec<P::Token> = Vec::new();
    seen.push(route.steps[0].token_in.duplicate());
    assert(views(seen@) =~= tokens.take(1));
    let mut i: usize = 0;
    while i < route.steps.len()
        invariant
            i <= route.steps@.len(),
            route.steps@.len() > 0,
            tokens == route_tokens::<P>(route@),
            views(seen@) == tokens.take(i + 1),
            tokens.take(i + 1).no_duplicates(),
        decreases route.steps@.len() - i,
    {
        let token: &P::Token = &route.steps[i].token_out;
        assert(route@[i as int] == route.steps@[i as int]@);
        assert(tokens[i + 1] == token@);
        if contains_token(&seen, token) {
            proof {
                let j = choose|j: int| 0 <= j < i + 1 && views(seen@)[j] == token@;
                assert(tokens.take(i + 1)[j] == tokens[j]);
                assert(tokens[j] == tokens[i + 1]);
                assert(!tokens.no_duplicates());
            }
            return false;
        }
        let item: P::Token = token.duplicate();
        proof {
            lemma_views_push(seen@, item);
            let longer = tokens.take(i + 2);
            assert(longer =~= tokens.take(i + 1).push(token@));
            assert forall|x: int, y: int|
                0 <= x < y < longer.len() implies #[trigger] longer[x] != #[trigger] longer[y] by {
                if y == i + 1 {
                    if longer[x] == token@ {
                        assert(views(seen@)[x] == token@);
                        assert(views(seen@).contains(token@));
                    }
                } else {
                    assert(tokens.take(i + 1)[x] != tokens.take(i + 1)[y]);
                }
            }
        }
        seen.push(item);
        i = i + 1;
    }
    assert(tokens.take(i + 1) =~= tokens);
    true
}

/// The routes that pass no token twice.
fn keep_simple<'a, P: SwapPool>(routes: Vec<Route<'a, P>>) -> (r: Vec<Route<'a, P>>)
    ensures
        views(r@) == simple_routes::<P>(views(routes@)),
{
    let ghost all = views(routes@);
    let mut kept: Vec<Route<'a, P>> = Vec::new();
    let mut i: usize = 0;
    assert(views(kept@) =~= simple_routes::<P>(all.take(0)));
    while i < routes.len()
        invariant
            i <= routes@.len(),
            all == views(routes@),
            views(kept@) == simple_routes::<P>(all.take(i as int)),
        decreases routes@.len() - i,
    {
        let route: &Route<'a, P> = &routes[i];
        assert(all.take(i + 1).drop_last() =~= all.take(i as int));
        assert(all.take(i + 1).last() == route@);
        if passes_no_token_twice(route) {
            let copy: Route<'a, P> = route.duplicate();
            proof {
                lemma_views_push(kept@, copy);
            }
            kept.push(copy);
        }
        i = i + 1;
    }
    assert(all.take(routes@.len() as int) =~= all);
    kept
}

/// The routes by way of one token.
fn find_routes_through<'a, P: SwapPool>(
    pools: &'a Pools<P>,
    quote: QuoteAmount,
    token_in: &P::Token,
    token_out: &P::Token,
    starting: &Vec<P::Token>,
    ending: &Vec<P::Token>,
) -> (r: Vec<Route<'a, P>>)
    ensures
        views(r@) == routes_through::<P>(
            pools@,
            quote,
            token_in@,
            token_out@,
            views(starting@),
            views(ending@),
            starting@.len() as int,
        ),
{
    let mut routes: Vec<Route<'a, P>> = Vec::new();
    let mut k: usize = 0;
    assert(views(routes@) =~= Seq::<RouteView<P>>::empty());
    while k < starting.len()
        invariant
            k <= starting@.len(),
            views(routes@) == routes_through::<P>(
                pools@,
                quote,
                token_in@,
                token_out@,
                views(starting@),
                views(ending@),
                k as int,
            ),
        decreases starting@.len() - k,
    {
        let middle: &P::Token = &starting[k];
        assert(views(starting@)[k as int] == middle@);
        if contains_token(ending, middle) && !middle.same(token_in) && !middle.same(token_out) {
            match find_route_through(pools, quote, token_in, middle, token_out) {
                Some(route) => {
                    proof {
                        lemma_views_push(routes@, route);
                    }
                    routes.push(route);
                },
                None => {},
            }
        }
        k = k + 1;
    }
    routes
}

/// The routes by way of `a` and one of the tokens around the end.
fn find_routes_from<'a, P: SwapPool>(
    pools: &'a Pools<P>,
    quote: QuoteAmount,
    token_in: &P::Token,
    a: &P::Token,
    token_out: &P::Token,
    max_hops: MaxHops,
    ending: &Vec<P::Token>,
) -> (r: Vec<Route<'a, P>>)
    requires
        goes_through_two(max_hops),
    ensures
        views(r@) == routes_from::<P>(
            pools@,
            quote,
            token_in@,
            a@,
            token_out@,
            max_hops,
            views(ending@),
            ending@.len() as int,
        ),
    decreases depth(max_hops), 1int,
{
    let mut routes: Vec<Route<'a, P>> = Vec::new();
    let mut j: usize = 0;
    assert(views(routes@) =~= Seq::<RouteView<P>>::empty());
    while j < ending.len()
        invariant
            j <= ending@.len(),
            goes_through_two(max_hops),
            views(routes@) == routes_from::<P>(
                pools@,
                quote,
                token_in@,
                a@,
                token_out@,
                max_hops,
                views(ending@),
                j as int,
            ),
        decreases ending@.len() - j,
    {
        let b: &P::Token = &ending[j];
        assert(views(ending@)[j as int] == b@);
        if !b.same(token_in) && !b.same(token_out) && !a.same(b) {
            match find_route_through_two(pools, quote, token_in, a, b, token_out, max_hops) {
                Some(route) => {
                    proof {
                        lemma_views_push(routes@, route);
                    }
                    routes.push(route);
                },
                None => {},
            }
        }
        j = j + 1;
    }
    routes
}

/// The routes by way of two tokens.
fn find_routes_through_two<'a, P: SwapPool>(
    pools: &'a Pools<P>,
    quote: QuoteAmount,
    token_in: &P::Token,
    token_out: &P::Token,
    max_hops: MaxHops,
    starting: &Vec<P::Token>,
    ending: &Vec<P::Token>,
) -> (r: Vec<Route<'a, P>>)
    requires
        goes_through_two(max_hops),
    ensures
        views(r@) == routes_through_two::<P>(
            pools@,
            quote,
            token_in@,
            token_out@,
            max_hops,
            views(starting@),
            starting@.len() as int,
            views(ending@),
        ),
    decreases depth(max_hops), 2int,
{
    let mut routes: Vec<Route<'a, P>> = Vec::new();
    let mut i: usize = 0;
    assert(views(routes@) =~= Seq::<RouteView<P>>::empty());
    while i < starting.len()
        invariant
            i <= starting@.len(),
            goes_through_two(max_hops),
            views(routes@) == routes_through_two::<P>(
                pools@,
                quote,
                token_in@,
                token_out@,
                max_hops,
                views(starting@),
                i as int,
                views(ending@),
            ),
        decreases starting@.len() - i,
    {
        let a: &P::Token = &starting[i];
        assert(views(starting@)[i as int] == a@);
        if !a.same(token_in) && !a.same(token_out) {
            let mut more: Vec<Route<'a, P>> = find_routes_from(
                pools,
                quote,
                token_in,
                a,
                token_out,
                max_hops,
                ending,
            );
            proof {
                lemma_views_concat(routes@, more@);
            }
            routes.append(&mut more);
        }
        i = i + 1;
    }
    routes
}

/// Finds the `count` best routes from `token_in` to `token_out`, best first.
pub fn find_best_routes<'a, P: SwapPool>(
    pools: &'a Pools<P>,
    amount: QuoteAmount,
    token_in: &P::Token,
    token_out: &P::Token,
    max_hops: MaxHops,
    count: usize,
) -> (r: Vec<Route<'a, P>>)
    requires
        count > 0,
    ensures
        views(r@) == best_routes::<P>(pools@, amount, token_in@, token_out@, max_hops, count as nat),
    decreases depth(max_hops), 3int,
{
    let mut routes: Vec<Route<'a, P>> = find_direct_routes(pools, amount, token_in, token_out);
    if max_hops == MaxHops::DirectOnly {
        let ghost all = views(routes@);
        if routes.len() > count {
            routes.truncate(count);
        }
        assert(views(routes@) =~= at_most(all, count as nat));
        return routes;
    }
    let starting: Vec<P::Token> = pools.neighbours(token_in);
    let ending: Vec<P::Token> = pools.neighbours(token_out);
    let mut through: Vec<Route<'a, P>> = find_routes_through(
        pools,
        amount,
        token_in,
        token_out,
        &starting,
        &ending,
    );
    proof {
        lemma_views_concat(routes@, through@);
    }
    routes.append(&mut through);
    match max_hops {
        MaxHops::Three | MaxHops::Four | MaxHops::Max => {
            let mut more: Vec<Route<'a, P>> = find_routes_through_two(
                pools,
                amount,
                token_in,
                token_out,
                max_hops,
                &starting,
                &ending,
            );
            proof {
                lemma_views_concat(routes@, more@);
            }
            routes.append(&mut more);
        },
        _ => {},
    }
    proof {
        assert(views(routes@) =~= candidate_routes::<P>(
            pools@,
            amount,
            token_in@,
            token_out@,
            max_hops,
        ));
    }
    let kept: Vec<Route<'a, P>> = keep_simple(routes);
    let ghost found = views(kept@);
    let mut keys: Vec<i128> = Vec::new();
    let mut i: usize = 0;
    while i < kept.len()
        invariant
            i <= kept@.len(),
            keys@.len() == i,
            found == views(kept@),
            forall|j: int|
                0 <= j < i ==> keys@[j] == quote_key(
                    route_amount::<P>(#[trigger] found[j], token_in@, token_out@, amount),
                    amount,
                ),
        decreases kept@.len() - i,
    {
        let route: &Route<'a, P> = &kept[i];
        assert(found[i as int] == route@);
        keys.push(quote_key_of(route.emulate(token_in, token_out, amount), amount));
        i = i + 1;
    }
    assert(keys@ =~= route_keys::<P>(found, token_in@, token_out@, amount));
    proof {
        lemma_top_k_views(kept@, keys@, count as nat);
    }
    select_top_k(kept, &keys, count)
}

} // verus!
