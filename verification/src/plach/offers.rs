//! What is offered for a path through the pools of Intear Plach.

use vstd::prelude::*;

use super::api::{
    in_pools, in_routes, max_amount, offer, offered_split, out_pools, out_routes, parts_sum, pools_keep_their_quotes,
    shares, shares_add_up, slice_size, whole_shares, InPoolView, InRouteView, OfferView, OutPoolView, OutRouteView,
    TOP_ROUTES_COUNT,
};
use super::fees::{fee_fraction, FeeAmount, Timestamp};
use super::pool::{Pool, PoolView};
use crate::asset::AssetIdView;
use crate::pathfinder::complete::{no_direct_pool_is_missed, no_worse, swapped_in};
use crate::pathfinder::laws::keeps_its_quote;
use crate::pathfinder::route::{
    buy_steps, route_amount, route_purchase, route_sale, DeltaView, QuoteAmount, RouteView,
};
use crate::pathfinder::search::{best_routes, MaxHops};
use crate::pathfinder::shares::{percent_of, the_choice_is_no_worse};
use crate::pathfinder::split::{share, split_amount, SplitView};
use crate::rhea::api::min_amount;

verus! {

/// Whether an amount is the least that is accepted in place of an estimate: the
/// slippage, in hundredths of a percent, taken off, rounded down.
pub open spec fn least_for(least: int, estimate: int, slippage_bp: int) -> bool {
    least * 10_000 <= estimate * (10_000 - slippage_bp) < (least + 1) * 10_000
}

/// Whether an amount is the most that is accepted in place of an estimate: the
/// slippage, in hundredths of a percent, put on top, rounded down.
pub open spec fn most_for(most: int, estimate: int, slippage_bp: int) -> bool {
    most * 10_000 <= estimate * (10_000 + slippage_bp) < (most + 1) * 10_000
}

/// The least amount, in terms of products.
proof fn lemma_least(estimate: u128, slippage_bp: u128)
    requires
        slippage_bp <= 10_000,
    ensures
        min_amount(estimate, slippage_bp) matches Some(least) ==> least_for(
            least as int,
            estimate as int,
            slippage_bp as int,
        ),
{
    let num = estimate * (10_000 - slippage_bp);
    assert(num >= 0) by (nonlinear_arith)
        requires
            num == estimate * (10_000 - slippage_bp),
            estimate >= 0,
            slippage_bp <= 10_000,
    ;
}

/// The most, in terms of products.
proof fn lemma_most(estimate: u128, slippage_bp: u128)
    ensures
        max_amount(estimate, slippage_bp) matches Some(most) ==> most_for(
            most as int,
            estimate as int,
            slippage_bp as int,
        ),
{
    let num = estimate * (10_000 + slippage_bp);
    assert(num >= 0) by (nonlinear_arith)
        requires
            num == estimate * (10_000 + slippage_bp),
            estimate >= 0,
            slippage_bp >= 0,
    ;
}

/// What the first routes of an offer take.
pub open spec fn taken_by(routes: Seq<InRouteView>) -> int
    decreases routes.len(),
{
    if routes.len() == 0 {
        0
    } else {
        taken_by(routes.drop_last()) + routes.last().amount_in
    }
}

/// What the first routes of an offer give.
pub open spec fn given_by(routes: Seq<InRouteView>) -> int
    decreases routes.len(),
{
    if routes.len() == 0 {
        0
    } else {
        given_by(routes.drop_last()) + routes.last().amount_out
    }
}

/// Whether the pools of a route are those of an offer, each taking the token
/// that the one before gives; the first is handed the amount, and the last has
/// to give the least.
pub open spec fn follows(
    route: RouteView<Pool>,
    pools: Seq<InPoolView>,
    token_in: AssetIdView,
    amount: u128,
    least: u128,
) -> bool {
    &&& pools.len() == route.len()
    &&& forall|i: int|
        #![trigger pools[i]]
        0 <= i < pools.len() ==> {
            &&& pools[i].pool_id == route[i].pool.id
            &&& pools[i].token_out == route[i].token_out
            &&& i == 0 ==> pools[i].token_in == token_in && pools[i].amount_in == amount
            &&& i > 0 ==> pools[i].token_in == pools[i - 1].token_out && pools[i].amount_in == 0
            &&& i == pools.len() - 1 ==> pools[i].min_amount_out == least
            &&& i < pools.len() - 1 ==> pools[i].min_amount_out == 0
        }
}

/// Whether a route of an offer does what its share is to do: it follows the
/// share's route, gives what that gives on the pools as the routes before have
/// left them, and asks for that less the slippage.
pub open spec fn carries(
    split: SplitView<Pool>,
    routes: Seq<InRouteView>,
    changes: Seq<DeltaView<Pool>>,
    i: int,
    token_in: AssetIdView,
    token_out: AssetIdView,
    slippage_bp: u128,
) -> bool {
    &&& route_sale::<Pool>(split[i].route, token_in, token_out, routes[i].amount_in, changes[i]) == Some(
        (routes[i].amount_out, changes[i + 1]),
    )
    &&& least_for(routes[i].min_amount_out as int, routes[i].amount_out as int, slippage_bp as int)
    &&& follows(split[i].route, routes[i].pools, token_in, routes[i].amount_in, routes[i].min_amount_out)
}

/// The routes that are described carry their shares.
#[verifier::rlimit(50)]
proof fn lemma_carries(
    split: SplitView<Pool>,
    parts: Seq<u128>,
    k: int,
    token_in: AssetIdView,
    token_out: AssetIdView,
    slippage_bp: u128,
) -> (changes: Seq<DeltaView<Pool>>)
    requires
        0 <= k <= split.len(),
        parts.len() == split.len(),
        slippage_bp <= 10_000,
        in_routes(split, parts, k, token_in, token_out, slippage_bp) is Ok,
    ensures
        ({
            let (routes, total, changed) = in_routes(split, parts, k, token_in, token_out, slippage_bp)->Ok_0;
            &&& routes.len() == k
            &&& changes.len() == k + 1
            &&& changes[0] == Map::<u64, PoolView>::empty()
            &&& changes[k] == changed
            &&& given_by(routes) == total
            &&& taken_by(routes) == parts_sum(parts, k)
            &&& forall|i: int| 0 <= i < k ==> (#[trigger] routes[i]).amount_in == parts[i]
            &&& forall|i: int|
                0 <= i < k ==> #[trigger] carries(split, routes, changes, i, token_in, token_out, slippage_bp)
        }),
    decreases k,
{
    let (routes, total, changed) = in_routes(split, parts, k, token_in, token_out, slippage_bp)->Ok_0;
    if k > 0 {
        let before = lemma_carries(split, parts, k - 1, token_in, token_out, slippage_bp);
        let (earlier, _, _) = in_routes(split, parts, k - 1, token_in, token_out, slippage_bp)->Ok_0;
        let changes = before.push(changed);
        assert(routes.drop_last() =~= earlier);
        lemma_least(routes[k - 1].amount_out, slippage_bp);
        let least = routes[k - 1].min_amount_out;
        assert(routes[k - 1].pools == in_pools(split[k - 1].route, token_in, parts[k - 1], least));
        assert forall|i: int| 0 <= i < k implies #[trigger] carries(
            split,
            routes,
            changes,
            i,
            token_in,
            token_out,
            slippage_bp,
        ) by {
            if i < k - 1 {
                assert(carries(split, earlier, before, i, token_in, token_out, slippage_bp));
                assert(routes[i] == earlier[i]);
            }
        }
        assert forall|i: int| 0 <= i < k implies (#[trigger] routes[i]).amount_in == parts[i] by {
            if i < k - 1 {
                assert(earlier[i].amount_in == parts[i]);
            }
        }
        changes
    } else {
        seq![Map::<u64, PoolView>::empty()]
    }
}

/// The shares of an amount.
proof fn lemma_shares(split: SplitView<Pool>, amount: u128, k: int)
    requires
        0 <= k <= split.len(),
        shares(split, amount, k) is Some,
    ensures
        shares(split, amount, k)->0.len() == k,
        forall|i: int|
            0 <= i < k ==> percent_of(
                (#[trigger] shares(split, amount, k)->0[i]) as int,
                amount as int,
                split[i].weight as int,
            ),
    decreases k,
{
    if k > 0 {
        lemma_shares(split, amount, k - 1);
        let before = shares(split, amount, k - 1)->0;
        let all = shares(split, amount, k)->0;
        let w = split[k - 1].weight;
        let num = amount * w;
        assert(num >= 0) by (nonlinear_arith)
            requires
                num == amount * w,
                amount >= 0,
                w >= 0,
        ;
        assert(share(amount, w) == Some(all[k - 1]));
        assert forall|i: int| 0 <= i < k implies percent_of(
            (#[trigger] all[i]) as int,
            amount as int,
            split[i].weight as int,
        ) by {
            if i < k - 1 {
                assert(all[i] == before[i]);
            }
        }
    }
}

/// What is offered for an exact input: as many routes as there are shares. They
/// take the whole amount together, each its percentage, and the first what
/// rounding leaves over, which is less than fifty units. They give the offered
/// amount together, one after the other.
#[verifier::rlimit(50)]
pub proof fn offers_sell_the_whole_amount(
    split: SplitView<Pool>,
    token_in: AssetIdView,
    token_out: AssetIdView,
    amount: u128,
    slippage_bp: u128,
)
    requires
        slippage_bp <= 10_000,
    ensures
        offer(split, token_in, token_out, QuoteAmount::ExactIn(amount), slippage_bp) matches Ok(offered) ==> {
            &&& offered matches OfferView::ExactIn { routes, contract_in, contract_out, amount_in, amount_out }
            &&& contract_in == token_in && contract_out == token_out
            &&& amount_in == amount
            &&& routes.len() == split.len()
            &&& taken_by(routes) == amount
            &&& given_by(routes) == amount_out
            &&& forall|i: int|
                0 < i < routes.len() ==> percent_of(
                    (#[trigger] routes[i]).amount_in as int,
                    amount as int,
                    split[i].weight as int,
                )
            &&& routes.len() > 0 ==> exists|left: int|
                0 <= left < 50 && #[trigger] percent_of(
                    routes[0].amount_in - left,
                    amount as int,
                    split[0].weight as int,
                )
            &&& exists|changes: Seq<DeltaView<Pool>>|
                #![trigger changes.len()]
                {
                    &&& changes.len() == routes.len() + 1
                    &&& changes[0] == Map::<u64, PoolView>::empty()
                    &&& forall|i: int|
                        0 <= i < routes.len() ==> #[trigger] carries(
                            split,
                            routes,
                            changes,
                            i,
                            token_in,
                            token_out,
                            slippage_bp,
                        )
                }
        },
{
    match offer(split, token_in, token_out, QuoteAmount::ExactIn(amount), slippage_bp) {
        Ok(offered) => {
            let parts = whole_shares(split, amount)->0;
            let plain = shares(split, amount, split.len() as int)->0;
            lemma_shares(split, amount, split.len() as int);
            shares_add_up(split, amount);
            super::api::lemma_parts_sum_grows(plain, 0, plain.len() as int);
            let n = split.len() as int;
            let changes = lemma_carries(split, parts, n, token_in, token_out, slippage_bp);
            let routes = offered->ExactIn_routes;
            assert forall|i: int| 0 < i < routes.len() implies percent_of(
                (#[trigger] routes[i]).amount_in as int,
                amount as int,
                split[i].weight as int,
            ) by {
                assert(parts[i] == plain[i]);
            }
            if n > 0 {
                let left = parts[0] - plain[0];
                assert(routes[0].amount_in == parts[0]);
                assert(percent_of(routes[0].amount_in - left, amount as int, split[0].weight as int));
            }
            assert(changes.len() == routes.len() + 1);
        },
        Err(_) => {},
    }
}

/// What the first routes of an offer for an exact output take.
pub open spec fn taken_for(routes: Seq<OutRouteView>) -> int
    decreases routes.len(),
{
    if routes.len() == 0 {
        0
    } else {
        taken_for(routes.drop_last()) + routes.last().amount_in
    }
}

/// What the first routes of an offer for an exact output take at most.
pub open spec fn most_taken_for(routes: Seq<OutRouteView>) -> int
    decreases routes.len(),
{
    if routes.len() == 0 {
        0
    } else {
        most_taken_for(routes.drop_last()) + routes.last().max_amount_in
    }
}

/// Whether the pools of a route are those of an offer for an exact output, each
/// taking what the one before gives, from what the route takes to the amount;
/// each may take more by the slippage.
pub open spec fn leads_to(
    route: RouteView<Pool>,
    pools: Seq<OutPoolView>,
    token_in: AssetIdView,
    taken: u128,
    amount: u128,
    slippage_bp: u128,
) -> bool {
    &&& pools.len() == route.len()
    &&& pools.len() > 0 ==> pools[0].amount_in == taken && pools.last().amount_out == amount
    &&& forall|i: int|
        #![trigger pools[i]]
        0 <= i < pools.len() ==> {
            &&& pools[i].pool_id == route[i].pool.id
            &&& pools[i].token_out == route[i].token_out
            &&& i == 0 ==> pools[i].token_in == token_in
            &&& i > 0 ==> pools[i].token_in == pools[i - 1].token_out && pools[i].amount_in == pools[i - 1].amount_out
            &&& most_for(pools[i].max_amount_in as int, pools[i].amount_in as int, slippage_bp as int)
        }
}

/// Whether a route of an offer for an exact output does what its share is to
/// do.
pub open spec fn brings_in(
    split: SplitView<Pool>,
    routes: Seq<OutRouteView>,
    changes: Seq<DeltaView<Pool>>,
    i: int,
    token_in: AssetIdView,
    token_out: AssetIdView,
    slippage_bp: u128,
) -> bool {
    &&& route_purchase::<Pool>(split[i].route, token_in, token_out, routes[i].amount_out, changes[i]) matches Some(
        (taken, _, changed),
    )
    &&& taken == routes[i].amount_in
    &&& changed == changes[i + 1]
    &&& most_for(routes[i].max_amount_in as int, routes[i].amount_in as int, slippage_bp as int)
    &&& leads_to(
        split[i].route,
        routes[i].pools,
        token_in,
        routes[i].amount_in,
        routes[i].amount_out,
        slippage_bp,
    )
}

/// What the steps of a purchase take and give.
proof fn lemma_amounts(
    route: RouteView<Pool>,
    k: int,
    token_out: AssetIdView,
    amount: u128,
    changed: DeltaView<Pool>,
)
    requires
        0 <= k <= route.len(),
        buy_steps::<Pool>(route, k, token_out, amount, changed) is Some,
    ensures
        ({
            let (_, owed, amounts, _) = buy_steps::<Pool>(route, k, token_out, amount, changed)->0;
            &&& amounts.len() == k
            &&& k == 0 ==> owed == amount
            &&& k > 0 ==> amounts[0].0 == owed && amounts.last().1 == amount
            &&& forall|i: int| 0 < i < k ==> (#[trigger] amounts[i]).0 == amounts[i - 1].1
        }),
    decreases k,
{
    if k > 0 {
        lemma_amounts(route, k - 1, token_out, amount, changed);
        let (_, before, later, _) = buy_steps::<Pool>(route, k - 1, token_out, amount, changed)->0;
        let (_, owed, amounts, _) = buy_steps::<Pool>(route, k, token_out, amount, changed)->0;
        assert(amounts =~= seq![(owed, before)] + later);
        assert forall|i: int| 0 < i < k implies (#[trigger] amounts[i]).0 == amounts[i - 1].1 by {
            assert(amounts[i] == later[i - 1]);
            if i > 1 {
                assert(amounts[i - 1] == later[i - 2]);
            }
        }
    }
}

/// The pools of a route for an exact output, one by one.
proof fn lemma_out_pools(
    route: RouteView<Pool>,
    amounts: Seq<(u128, u128)>,
    token_in: AssetIdView,
    slippage_bp: u128,
    k: int,
)
    requires
        0 <= k <= route.len(),
        out_pools(route, amounts, token_in, slippage_bp, k) is Some,
    ensures
        ({
            let pools = out_pools(route, amounts, token_in, slippage_bp, k)->0;
            &&& pools.len() == k
            &&& forall|i: int|
                #![trigger pools[i]]
                0 <= i < k ==> {
                    &&& pools[i].pool_id == route[i].pool.id
                    &&& pools[i].token_out == route[i].token_out
                    &&& pools[i].token_in == if i == 0 {
                        token_in
                    } else {
                        route[i - 1].token_out
                    }
                    &&& pools[i].amount_in == amounts[i].0
                    &&& pools[i].amount_out == amounts[i].1
                    &&& most_for(pools[i].max_amount_in as int, pools[i].amount_in as int, slippage_bp as int)
                }
        }),
    decreases k,
{
    if k > 0 {
        lemma_out_pools(route, amounts, token_in, slippage_bp, k - 1);
        lemma_most(amounts[k - 1].0, slippage_bp);
    }
}

/// The routes that are described for an exact output do what their shares are
/// to do.
#[verifier::rlimit(50)]
proof fn lemma_brings_in(
    split: SplitView<Pool>,
    k: int,
    token_in: AssetIdView,
    token_out: AssetIdView,
    amount: u128,
    slippage_bp: u128,
) -> (changes: Seq<DeltaView<Pool>>)
    requires
        0 <= k <= split.len(),
        out_routes(split, k, token_in, token_out, amount, slippage_bp) is Ok,
    ensures
        ({
            let (routes, total, most, changed) = out_routes(
                split,
                k,
                token_in,
                token_out,
                amount,
                slippage_bp,
            )->Ok_0;
            &&& routes.len() == k
            &&& changes.len() == k + 1
            &&& changes[0] == Map::<u64, PoolView>::empty()
            &&& changes[k] == changed
            &&& taken_for(routes) == total
            &&& most_taken_for(routes) == most
            &&& forall|i: int|
                0 <= i < k ==> percent_of(
                    (#[trigger] routes[i]).amount_out as int,
                    amount as int,
                    split[i].weight as int,
                )
            &&& forall|i: int|
                0 <= i < k ==> #[trigger] brings_in(split, routes, changes, i, token_in, token_out, slippage_bp)
        }),
    decreases k,
{
    let (routes, total, most, changed) = out_routes(split, k, token_in, token_out, amount, slippage_bp)->Ok_0;
    if k > 0 {
        let before = lemma_brings_in(split, k - 1, token_in, token_out, amount, slippage_bp);
        let (earlier, _, _, delta) = out_routes(split, k - 1, token_in, token_out, amount, slippage_bp)->Ok_0;
        let changes = before.push(changed);
        let route = split[k - 1].route;
        let part = routes[k - 1].amount_out;
        let w = split[k - 1].weight;
        assert(routes.drop_last() =~= earlier);
        assert(share(amount, w) == Some(part));
        let num = amount * w;
        assert(num >= 0) by (nonlinear_arith)
            requires
                num == amount * w,
                amount >= 0,
                w >= 0,
        ;
        lemma_most(routes[k - 1].amount_in, slippage_bp);
        let (_, amounts, _) = route_purchase::<Pool>(route, token_in, token_out, part, delta)->0;
        lemma_amounts(route, route.len() as int, token_out, part, delta);
        lemma_out_pools(route, amounts, token_in, slippage_bp, route.len() as int);
        assert forall|i: int| 0 <= i < k implies #[trigger] brings_in(
            split,
            routes,
            changes,
            i,
            token_in,
            token_out,
            slippage_bp,
        ) by {
            if i < k - 1 {
                assert(brings_in(split, earlier, before, i, token_in, token_out, slippage_bp));
                assert(routes[i] == earlier[i]);
            }
        }
        assert forall|i: int| 0 <= i < k implies percent_of(
            (#[trigger] routes[i]).amount_out as int,
            amount as int,
            split[i].weight as int,
        ) by {
            if i < k - 1 {
                assert(routes[i] == earlier[i]);
            }
        }
        changes
    } else {
        seq![Map::<u64, PoolView>::empty()]
    }
}

/// What is offered for an exact output: as many routes as there are shares,
/// each giving its percentage of the amount. What they take, and what they take
/// at most, adds up to what is offered.
pub proof fn offers_buy_the_shares(
    split: SplitView<Pool>,
    token_in: AssetIdView,
    token_out: AssetIdView,
    amount: u128,
    slippage_bp: u128,
)
    ensures
        offer(split, token_in, token_out, QuoteAmount::ExactOut(amount), slippage_bp) matches Ok(offered) ==> {
            &&& offered matches OfferView::ExactOut {
                routes,
                contract_in,
                contract_out,
                amount_in,
                max_amount_in,
                amount_out,
            }
            &&& contract_in == token_in && contract_out == token_out
            &&& amount_out == amount
            &&& routes.len() == split.len()
            &&& taken_for(routes) == amount_in
            &&& most_taken_for(routes) == max_amount_in
            &&& forall|i: int|
                0 <= i < routes.len() ==> percent_of(
                    (#[trigger] routes[i]).amount_out as int,
                    amount as int,
                    split[i].weight as int,
                )
            &&& exists|changes: Seq<DeltaView<Pool>>|
                #![trigger changes.len()]
                {
                    &&& changes.len() == routes.len() + 1
                    &&& changes[0] == Map::<u64, PoolView>::empty()
                    &&& forall|i: int|
                        0 <= i < routes.len() ==> #[trigger] brings_in(
                            split,
                            routes,
                            changes,
                            i,
                            token_in,
                            token_out,
                            slippage_bp,
                        )
                }
        },
{
    match offer(split, token_in, token_out, QuoteAmount::ExactOut(amount), slippage_bp) {
        Ok(offered) => {
            let changes = lemma_brings_in(
                split,
                split.len() as int,
                token_in,
                token_out,
                amount,
                slippage_bp,
            );
            assert(changes.len() == offered->ExactOut_routes.len() + 1);
        },
        Err(_) => {},
    }
}

/// What is offered comes to an amount that is no worse than that of any one
/// pool that holds both tokens.
pub proof fn offers_beat_every_pool(
    pools: Seq<PoolView>,
    token_in: AssetIdView,
    token_out: AssetIdView,
    quote: QuoteAmount,
    max_hops: MaxHops,
    at: int,
)
    requires
        token_in != token_out,
        0 <= at < pools.len(),
        pools[at].first.asset == token_in || pools[at].second.asset == token_in,
        pools[at].first.asset == token_out || pools[at].second.asset == token_out,
    ensures
        offered_split(pools, token_in, token_out, quote, max_hops) matches Ok(split) ==> no_worse(
            split_amount::<Pool>(split, token_in, token_out, quote),
            swapped_in::<Pool>(pools[at], token_in, token_out, quote),
            quote,
        ) || (quote is ExactIn && split_amount::<Pool>(split, token_in, token_out, quote) is Some
            && split_amount::<Pool>(split, token_in, token_out, quote)->0 > i128::MAX),
{
    let routes = best_routes::<Pool>(pools, quote, token_in, token_out, max_hops, TOP_ROUTES_COUNT as nat);
    let step = slice_size(routes, quote, token_in, token_out);
    assert forall|i: int| 0 <= i < pools.len() implies keeps_its_quote::<Pool>(
        #[trigger] pools[i],
        token_in,
        token_out,
        quote,
    ) by {
        pools_keep_their_quotes(pools[i], token_in, token_out, quote);
    }
    lemma_holds(pools[at], token_in);
    lemma_holds(pools[at], token_out);
    no_direct_pool_is_missed::<Pool>(
        pools,
        quote,
        token_in,
        token_out,
        max_hops,
        TOP_ROUTES_COUNT as nat,
        at,
    );
    the_choice_is_no_worse::<Pool>(routes, step, true, quote, token_in, token_out, 0);
}

/// An amount goes in quarters where it, or what the best route for it comes to,
/// is less than a thousand units, or that cannot be told; otherwise in
/// hundredths. Without a route there is nothing to divide.
pub proof fn slices_are_quarters_or_hundredths(
    routes: Seq<RouteView<Pool>>,
    quote: QuoteAmount,
    token_in: AssetIdView,
    token_out: AssetIdView,
)
    requires
        routes.len() > 0,
    ensures
        ({
            let amount = match quote {
                QuoteAmount::ExactIn(amount) => amount,
                QuoteAmount::ExactOut(amount) => amount,
            };
            let other = route_amount::<Pool>(routes[0], token_in, token_out, quote);
            slice_size(routes, quote, token_in, token_out) == if amount >= 1_000 && other is Some && other->0 >= 1_000 {
                1u32
            } else {
                25u32
            }
        }),
{
}

/// The two assets of a pool are its tokens.
proof fn lemma_holds(pool: PoolView, asset: AssetIdView)
    requires
        pool.first.asset == asset || pool.second.asset == asset,
    ensures
        <Pool as crate::pathfinder::market::SwapPool>::tokens_of(pool).contains(asset),
{
    let tokens = <Pool as crate::pathfinder::market::SwapPool>::tokens_of(pool);
    assert(tokens[0] == pool.first.asset);
    assert(tokens[1] == pool.second.asset);
}

/// A fixed fee is always the same. A scheduled one is that of its start before
/// it, that of its end from there on, and in between on the straight line from
/// the one to the other, rounded up; it is not settled where it rises, and a
/// dynamic fee never is.
pub proof fn scheduled_fee_is_on_the_line(fee: FeeAmount, now: Timestamp)
    ensures
        match fee {
            FeeAmount::Fixed(fraction) => fee_fraction(fee, now) == Some(fraction),
            FeeAmount::Scheduled { start, end, .. } => {
                &&& now < start.0 ==> fee_fraction(fee, now) == Some(start.1)
                &&& start.0 <= now && end.0 <= now ==> fee_fraction(fee, now) == Some(end.1)
                &&& start.0 <= now < end.0 ==> {
                    &&& fee_fraction(fee, now) is Some <==> end.1 <= start.1
                    &&& end.1 <= start.1 ==> {
                        let fallen = start.1 - fee_fraction(fee, now)->0;
                        let duration = end.0 - start.0;
                        fallen * duration <= (start.1 - end.1) * (now - start.0) < (fallen + 1) * duration
                    }
                }
            },
            FeeAmount::Dynamic { .. } => fee_fraction(fee, now) is None,
        },
{
    match fee {
        FeeAmount::Scheduled { start, end, curve } => {
            if start.0 <= now < end.0 && end.1 <= start.1 {
                let range = start.1 - end.1;
                let elapsed = now - start.0;
                let duration = end.0 - start.0;
                super::fees::lemma_decrease(range, elapsed, duration);
                let num = range * elapsed;
                vstd::arithmetic::div_mod::lemma_fundamental_div_mod(num, duration);
                vstd::arithmetic::div_mod::lemma_mod_bound(num, duration);
                let fallen = num / duration;
                assert(fallen * duration <= num < (fallen + 1) * duration) by (nonlinear_arith)
                    requires
                        duration * fallen + num % duration == num,
                        0 <= num % duration < duration,
                ;
                assert(fee_fraction(fee, now)->0 == start.1 - fallen);
            }
        },
        _ => {},
    }
}

} // verus!
