//! What is offered for a path through the pools of Rhea.

use vstd::prelude::*;

use super::api::{
    allowed_slippage, min_amount, offer, offered_pools, offered_routes, offered_split, OfferedRouteView, PoolStepView,
    QuerySlippage, SPLIT_ROUTE_STEP_SIZE, TOP_ROUTES_COUNT,
};
use super::pool::{Pool, PoolView};
use crate::pathfinder::complete::{no_direct_pool_is_missed, no_worse, swapped_in};
use crate::pathfinder::laws::keeps_its_quote;
use crate::pathfinder::market::SwapPool;
use crate::pathfinder::route::{route_sale, DeltaView, QuoteAmount, RouteView};
use crate::pathfinder::search::{best_routes, MaxHops};
use crate::pathfinder::shares::{percent_of, the_choice_is_no_worse};
use crate::pathfinder::split::{share, split_amount, SplitView};
use crate::plach::offers::least_for;

verus! {

/// Whether the pools of a route are those of an offer, each taking the token
/// that the one before gives; the first is handed the amount, and the last has
/// to give the least.
pub open spec fn follows(
    route: RouteView<Pool>,
    pools: Seq<PoolStepView>,
    token_in: Seq<char>,
    amount: u128,
    least: u128,
) -> bool {
    &&& pools.len() == route.len()
    &&& forall|i: int|
        #![trigger pools[i]]
        0 <= i < pools.len() ==> {
            &&& pools[i].pool_id == route[i].pool.id
            &&& pools[i].token_out == route[i].token_out
            &&& pools[i].amount_out == 0
            &&& i == 0 ==> pools[i].token_in == token_in && pools[i].amount_in == amount
            &&& i > 0 ==> pools[i].token_in == pools[i - 1].token_out && pools[i].amount_in == 0
            &&& i == pools.len() - 1 ==> pools[i].min_amount_out == least
            &&& i < pools.len() - 1 ==> pools[i].min_amount_out == 0
        }
}

/// Whether a route of an offer does what its share is to do: it takes its
/// percentage of the amount, follows the share's route, gives an estimate on
/// the pools as the routes before have left them, and asks for that less the
/// slippage.
pub open spec fn carries(
    split: SplitView<Pool>,
    routes: Seq<OfferedRouteView>,
    estimates: Seq<u128>,
    changes: Seq<DeltaView<Pool>>,
    i: int,
    token_in: Seq<char>,
    token_out: Seq<char>,
    amount: u128,
    slippage_bp: u128,
) -> bool {
    &&& percent_of(routes[i].amount_in as int, amount as int, split[i].weight as int)
    &&& route_sale::<Pool>(split[i].route, token_in, token_out, routes[i].amount_in, changes[i]) == Some(
        (estimates[i], changes[i + 1]),
    )
    &&& least_for(routes[i].min_amount_out as int, estimates[i] as int, slippage_bp as int)
    &&& follows(split[i].route, routes[i].pools, token_in, routes[i].amount_in, routes[i].min_amount_out)
}

/// Amounts, added up.
pub open spec fn sum_of(amounts: Seq<u128>) -> int
    decreases amounts.len(),
{
    if amounts.len() == 0 {
        0
    } else {
        sum_of(amounts.drop_last()) + amounts.last()
    }
}

/// The routes that are described carry their shares.
#[verifier::rlimit(50)]
proof fn lemma_carries(
    split: SplitView<Pool>,
    k: int,
    token_in: Seq<char>,
    token_out: Seq<char>,
    amount: u128,
    slippage_bp: u128,
) -> (r: (Seq<u128>, Seq<DeltaView<Pool>>))
    requires
        0 <= k <= split.len(),
        slippage_bp <= 10_000,
        offered_routes(split, k, token_in, token_out, amount, slippage_bp) is Ok,
    ensures
        ({
            let (routes, total, changed) = offered_routes(split, k, token_in, token_out, amount, slippage_bp)->Ok_0;
            let (estimates, changes) = r;
            &&& routes.len() == k
            &&& estimates.len() == k
            &&& changes.len() == k + 1
            &&& changes[0] == Map::<u64, PoolView>::empty()
            &&& changes[k] == changed
            &&& sum_of(estimates) == total
            &&& forall|i: int|
                0 <= i < k ==> #[trigger] carries(
                    split,
                    routes,
                    estimates,
                    changes,
                    i,
                    token_in,
                    token_out,
                    amount,
                    slippage_bp,
                )
        }),
    decreases k,
{
    let (routes, total, changed) = offered_routes(split, k, token_in, token_out, amount, slippage_bp)->Ok_0;
    if k > 0 {
        let (estimates, changes) = lemma_carries(split, k - 1, token_in, token_out, amount, slippage_bp);
        let (earlier, before, delta) = offered_routes(
            split,
            k - 1,
            token_in,
            token_out,
            amount,
            slippage_bp,
        )->Ok_0;
        let w = split[k - 1].weight;
        let part = routes[k - 1].amount_in;
        assert(share(amount, w) == Some(part));
        let num = amount * w;
        assert(num >= 0) by (nonlinear_arith)
            requires
                num == amount * w,
                amount >= 0,
                w >= 0,
        ;
        let (estimate, _) = route_sale::<Pool>(split[k - 1].route, token_in, token_out, part, delta)->0;
        let asked = estimate * (10_000 - slippage_bp);
        assert(asked >= 0) by (nonlinear_arith)
            requires
                asked == estimate * (10_000 - slippage_bp),
                estimate >= 0,
                slippage_bp <= 10_000,
        ;
        assert(min_amount(estimate, slippage_bp) == Some(routes[k - 1].min_amount_out));
        let least = routes[k - 1].min_amount_out;
        assert(routes[k - 1].pools == offered_pools(split[k - 1].route, token_in, part, least));
        let all = estimates.push(estimate);
        let after = changes.push(changed);
        assert(all.drop_last() =~= estimates);
        assert forall|i: int| 0 <= i < k implies #[trigger] carries(
            split,
            routes,
            all,
            after,
            i,
            token_in,
            token_out,
            amount,
            slippage_bp,
        ) by {
            if i < k - 1 {
                assert(carries(
                    split,
                    earlier,
                    estimates,
                    changes,
                    i,
                    token_in,
                    token_out,
                    amount,
                    slippage_bp,
                ));
                assert(routes[i] == earlier[i]);
            }
        }
        (all, after)
    } else {
        (Seq::empty(), seq![Map::<u64, PoolView>::empty()])
    }
}

/// What is offered for an amount: as many routes as there are shares, each
/// taking its percentage of the amount; what they give, one after the other,
/// adds up to what is offered.
pub proof fn offers_sell_the_shares(
    split: SplitView<Pool>,
    token_in: Seq<char>,
    token_out: Seq<char>,
    amount: u128,
    slippage_bp: u128,
)
    requires
        slippage_bp <= 10_000,
    ensures
        offer(split, token_in, token_out, amount, slippage_bp) matches Ok(offered) ==> {
            &&& offered.contract_in == token_in && offered.contract_out == token_out
            &&& offered.amount_in == amount
            &&& offered.routes.len() == split.len()
            &&& exists|estimates: Seq<u128>, changes: Seq<DeltaView<Pool>>|
                #![trigger estimates.len(), changes.len()]
                {
                    &&& estimates.len() == split.len()
                    &&& changes.len() == split.len() + 1
                    &&& changes[0] == Map::<u64, PoolView>::empty()
                    &&& sum_of(estimates) == offered.amount_out
                    &&& forall|i: int|
                        0 <= i < split.len() ==> #[trigger] carries(
                            split,
                            offered.routes,
                            estimates,
                            changes,
                            i,
                            token_in,
                            token_out,
                            amount,
                            slippage_bp,
                        )
                }
        },
{
    match offer(split, token_in, token_out, amount, slippage_bp) {
        Ok(offered) => {
            let (estimates, changes) = lemma_carries(
                split,
                split.len() as int,
                token_in,
                token_out,
                amount,
                slippage_bp,
            );
            assert(estimates.len() == split.len() && changes.len() == split.len() + 1);
        },
        Err(_) => {},
    }
}

/// What is offered comes to an amount that is no worse than that of any one
/// pool that holds both tokens, where the pools give what they are listed to.
pub proof fn offers_beat_every_pool(
    pools: Seq<PoolView>,
    token_in: Seq<char>,
    token_out: Seq<char>,
    amount: u128,
    max_hops: MaxHops,
    at: int,
)
    requires
        token_in != token_out,
        0 <= at < pools.len(),
        <Pool as SwapPool>::tokens_of(pools[at]).contains(token_in),
        <Pool as SwapPool>::tokens_of(pools[at]).contains(token_out),
        forall|i: int|
            0 <= i < pools.len() ==> keeps_its_quote::<Pool>(
                #[trigger] pools[i],
                token_in,
                token_out,
                QuoteAmount::ExactIn(amount),
            ),
    ensures
        offered_split(pools, token_in, token_out, amount, max_hops) matches Ok(split) ==> {
            let quote = QuoteAmount::ExactIn(amount);
            let given = split_amount::<Pool>(split, token_in, token_out, quote);
            no_worse(given, swapped_in::<Pool>(pools[at], token_in, token_out, quote), quote) || (given is Some
                && given->0 > i128::MAX)
        },
{
    let quote = QuoteAmount::ExactIn(amount);
    let routes = best_routes::<Pool>(pools, quote, token_in, token_out, max_hops, TOP_ROUTES_COUNT as nat);
    no_direct_pool_is_missed::<Pool>(
        pools,
        quote,
        token_in,
        token_out,
        max_hops,
        TOP_ROUTES_COUNT as nat,
        at,
    );
    the_choice_is_no_worse::<Pool>(routes, SPLIT_ROUTE_STEP_SIZE, false, quote, token_in, token_out, 0);
}

/// A query that names no slippage allows half a percent, and one of more than
/// the whole is refused.
pub proof fn queries_allow_half_a_percent(slippage: QuerySlippage)
    ensures
        slippage is Missing ==> allowed_slippage(slippage) == Some(50u128),
        slippage is Invalid ==> allowed_slippage(slippage) is None,
        slippage matches QuerySlippage::BasisPoints(bp) ==> allowed_slippage(slippage) == if bp <= 10_000 {
            Some(bp)
        } else {
            None
        },
{
}

} // verus!
