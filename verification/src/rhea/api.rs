//! The path-finding service over the pools of Rhea.

use vstd::prelude::*;

use super::pool::{detail_swap, listed_swap, Pool, PoolDetailInfo, PoolInfo, PoolView};
use crate::account::AccountId;
use crate::ident::{views, Ident};
use crate::paging::{ApiResponse, RC_INVALID_SLIPPAGE, RC_RESPONSE_BUILD_ERROR, RC_ROUTE_ERROR, RC_SUCCESS};
use crate::pathfinder::choice::{choice_is_emulated, choose_split, chosen_split, OfferError, RouteError};
use crate::pathfinder::laws::keeps_its_quote;
use crate::pathfinder::market::{lemma_views_push, PoolsDelta};
use crate::pathfinder::pools::{
    direct_pools, direct_pools_are_mutual, direct_pools_hold_both, distinct_tokens, has_direct_pool, holds,
    holds_both, picked_pools_rise, pools_with_token, pools_with_token_hold_it, rising, Pools,
};
use crate::pathfinder::route::{route_sale, DeltaView, QuoteAmount, Route, RouteStep, RouteView};
use crate::pathfinder::search::{best_routes, find_best_routes, MaxHops};
use crate::pathfinder::split::{sell_shares, share, split_amount, SplitRoute, SplitRouteStep, SplitView};
use crate::wide::mul_div;

verus! {

/// How many routes an amount is split between.
pub const TOP_ROUTES_COUNT: usize = 10;

/// The size of a slice of the amount, in percent.
pub const SPLIT_ROUTE_STEP_SIZE: u32 = 1;

/// How many pools are fetched at once.
pub const FETCH_POOLS_BATCH_SIZE: u64 = 1000;

/// The slippage that a query without one allows, in basis points.
pub const DEFAULT_SLIPPAGE_BP: u128 = 50;

/// The whole, in basis points.
pub const WHOLE_BP: u128 = 10_000;

/// One pool of a route that is offered.
#[derive(Clone, Debug, PartialEq)]
pub struct ApiResponsePoolStep {
    pub pool_id: u64,
    pub token_in: AccountId,
    pub token_out: AccountId,
    pub amount_in: u128,
    pub amount_out: u128,
    pub min_amount_out: u128,
}

/// One route that is offered.
#[derive(Clone, Debug, PartialEq)]
pub struct ApiResponseRoute {
    pub pools: Vec<ApiResponsePoolStep>,
    pub amount_in: u128,
    pub min_amount_out: u128,
    pub amount_out: u128,
}

/// The routes that carry an amount together.
#[derive(Clone, Debug, PartialEq)]
pub struct SplitRouteApiResponse {
    pub routes: Vec<ApiResponseRoute>,
    pub contract_in: AccountId,
    pub contract_out: AccountId,
    pub amount_in: u128,
    pub amount_out: u128,
}

/// What one pool of an offer is.
pub struct PoolStepView {
    pub pool_id: u64,
    pub token_in: Seq<char>,
    pub token_out: Seq<char>,
    pub amount_in: u128,
    pub amount_out: u128,
    pub min_amount_out: u128,
}

/// What one route of an offer is.
pub struct OfferedRouteView {
    pub pools: Seq<PoolStepView>,
    pub amount_in: u128,
    pub min_amount_out: u128,
    pub amount_out: u128,
}

/// What an offer is.
pub struct OfferView {
    pub routes: Seq<OfferedRouteView>,
    pub contract_in: Seq<char>,
    pub contract_out: Seq<char>,
    pub amount_in: u128,
    pub amount_out: u128,
}

impl View for ApiResponsePoolStep {
    type V = PoolStepView;

    open spec fn view(&self) -> PoolStepView {
        PoolStepView {
            pool_id: self.pool_id,
            token_in: self.token_in@,
            token_out: self.token_out@,
            amount_in: self.amount_in,
            amount_out: self.amount_out,
            min_amount_out: self.min_amount_out,
        }
    }
}

impl View for ApiResponseRoute {
    type V = OfferedRouteView;

    open spec fn view(&self) -> OfferedRouteView {
        OfferedRouteView {
            pools: views(self.pools@),
            amount_in: self.amount_in,
            min_amount_out: self.min_amount_out,
            amount_out: self.amount_out,
        }
    }
}

impl View for SplitRouteApiResponse {
    type V = OfferView;

    open spec fn view(&self) -> OfferView {
        OfferView {
            routes: views(self.routes@),
            contract_in: self.contract_in@,
            contract_out: self.contract_out@,
            amount_in: self.amount_in,
            amount_out: self.amount_out,
        }
    }
}

/// Why the pools cannot be put together.
#[derive(Clone, Copy, Debug, PartialEq, Eq, Structural)]
pub enum PoolsError {
    /// There are not as many listings as details.
    DifferentLengths,
}

/// The pools numbered in their order.
pub open spec fn numbered(infos: Seq<PoolInfo>, details: Seq<PoolDetailInfo>) -> Seq<PoolView> {
    Seq::new(
        infos.len(),
        |i: int| PoolView { id: i as u64, info: infos[i]@, detail: details[i]@ },
    )
}

/// The pools are found by their tokens: between two tokens either way, and by
/// one of them, in the order of their numbers, each pool once.
pub proof fn pools_are_found_by_token(
    infos: Seq<PoolInfo>,
    details: Seq<PoolDetailInfo>,
    a: Seq<char>,
    b: Seq<char>,
)
    requires
        infos.len() <= u64::MAX,
        distinct_tokens::<Pool>(numbered(infos, details)),
        a != b,
    ensures
        ({
            let pools = numbered(infos, details);
            let direct = direct_pools::<Pool>(pools, a, b);
            let with = pools_with_token::<Pool>(pools, a);
            &&& forall|i: int| 0 <= i < pools.len() ==> (#[trigger] pools[i]).id == i
            &&& direct == direct_pools::<Pool>(pools, b, a)
            &&& direct == pools.filter(holds_both::<Pool>(a, b))
            &&& has_direct_pool::<Pool>(pools, a, b) <==> exists|i: int|
                0 <= i < pools.len() && holds_both::<Pool>(a, b)(#[trigger] pools[i])
            &&& with == pools.filter(holds::<Pool>(a))
            &&& rising::<Pool>(direct)
            &&& rising::<Pool>(with)
        }),
{
    let pools = numbered(infos, details);
    direct_pools_are_mutual::<Pool>(pools, a, b);
    direct_pools_hold_both::<Pool>(pools, a, b);
    pools_with_token_hold_it::<Pool>(pools, a);
    picked_pools_rise::<Pool>(pools, holds_both::<Pool>(a, b));
    picked_pools_rise::<Pool>(pools, holds::<Pool>(a));
}

/// A pool whose listing can follow the swap gives what it is ranked by.
pub proof fn listed_pools_keep_their_quotes(
    pool: PoolView,
    token_in: Seq<char>,
    token_out: Seq<char>,
    amount: u128,
)
    requires
        detail_swap(pool.detail, token_in, token_out, amount).1 matches Ok(given) ==> listed_swap(
            pool.info,
            token_in,
            token_out,
            amount,
            given,
        ) is Some,
    ensures
        keeps_its_quote::<Pool>(pool, token_in, token_out, QuoteAmount::ExactIn(amount)),
{
}

/// Puts the listings and the details of the pools together.
pub fn build_pools(infos: Vec<PoolInfo>, details: Vec<PoolDetailInfo>) -> (r: Result<Pools<Pool>, PoolsError>)
    ensures
        r is Ok <==> infos@.len() == details@.len(),
        r matches Ok(pools) ==> pools@ == numbered(infos@, details@),
{
    if infos.len() != details.len() {
        return Err(PoolsError::DifferentLengths);
    }
    let mut pools: Vec<Pool> = Vec::new();
    let mut i: usize = 0;
    while i < infos.len()
        invariant
            i <= infos@.len(),
            infos@.len() == details@.len(),
            views(pools@) == numbered(infos@, details@).take(i as int),
        decreases infos@.len() - i,
    {
        let pool: Pool = Pool {
            id: i as u64,
            info: infos[i].duplicate(),
            detail: details[i].duplicate(),
        };
        proof {
            lemma_views_push(pools@, pool);
        }
        pools.push(pool);
        assert(numbered(infos@, details@).take(i + 1) =~= numbered(infos@, details@).take(i as int).push(
            pool@,
        ));
        i = i + 1;
    }
    assert(views(pools@) =~= numbered(infos@, details@));
    Ok(Pools { pools })
}

/// The split that is offered for an amount.
pub open spec fn offered_split(
    pools: Seq<PoolView>,
    token_in: Seq<char>,
    token_out: Seq<char>,
    amount: u128,
    max_hops: MaxHops,
) -> Result<SplitView<Pool>, RouteError> {
    chosen_split::<Pool>(
        best_routes::<Pool>(
            pools,
            QuoteAmount::ExactIn(amount),
            token_in,
            token_out,
            max_hops,
            TOP_ROUTES_COUNT as nat,
        ),
        SPLIT_ROUTE_STEP_SIZE,
        false,
        QuoteAmount::ExactIn(amount),
        token_in,
        token_out,
    )
}

/// Finds the best way to sell an amount.
pub fn route<'a>(
    token_in: &AccountId,
    token_out: &AccountId,
    amount: u128,
    pools: &'a Pools<Pool>,
    max_hops: MaxHops,
) -> (r: Result<SplitRoute<'a, Pool>, RouteError>)
    ensures
        match r {
            Ok(split) => offered_split(pools@, token_in@, token_out@, amount, max_hops) == Ok::<
                SplitView<Pool>,
                RouteError,
            >(split@),
            Err(e) => offered_split(pools@, token_in@, token_out@, amount, max_hops) == Err::<
                SplitView<Pool>,
                RouteError,
            >(e),
        },
{
    let quote: QuoteAmount = QuoteAmount::ExactIn(amount);
    let routes: Vec<Route<'a, Pool>> = find_best_routes(
        pools,
        quote,
        token_in,
        token_out,
        max_hops,
        TOP_ROUTES_COUNT,
    );
    choose_split(&routes, SPLIT_ROUTE_STEP_SIZE, false, quote, token_in, token_out)
}

/// The least amount that is accepted in place of an estimate, rounded down;
/// none where the product does not fit in 128 bits.
pub open spec fn min_amount(estimate: u128, slippage_bp: u128) -> Option<u128> {
    if estimate * (WHOLE_BP - slippage_bp) > u128::MAX {
        None
    } else {
        Some((estimate * (WHOLE_BP - slippage_bp) / (WHOLE_BP as int)) as u128)
    }
}

/// The least amount that is accepted in place of an estimate.
pub fn min_amount_of(estimate: u128, slippage_bp: u128) -> (r: Option<u128>)
    requires
        slippage_bp <= WHOLE_BP,
    ensures
        r == min_amount(estimate, slippage_bp),
{
    match estimate.checked_mul(WHOLE_BP - slippage_bp) {
        Some(product) => Some(product / WHOLE_BP),
        None => None,
    }
}

/// The pools of a route that is offered: the first takes the amount, the last
/// gives at least the minimum.
pub open spec fn offered_pools(
    route: RouteView<Pool>,
    token_in: Seq<char>,
    amount_in: u128,
    min_amount_out: u128,
) -> Seq<PoolStepView> {
    Seq::new(
        route.len(),
        |i: int|
            PoolStepView {
                pool_id: route[i].pool.id,
                token_in: if i == 0 {
                    token_in
                } else {
                    route[i - 1].token_out
                },
                token_out: route[i].token_out,
                amount_in: if i == 0 {
                    amount_in
                } else {
                    0
                },
                amount_out: 0,
                min_amount_out: if i + 1 == route.len() {
                    min_amount_out
                } else {
                    0
                },
            },
    )
}

/// The first `k` routes of an offer, what they give in total, and the pools
/// that have changed then.
pub open spec fn offered_routes(
    split: SplitView<Pool>,
    k: int,
    token_in: Seq<char>,
    token_out: Seq<char>,
    amount: u128,
    slippage_bp: u128,
) -> Result<(Seq<OfferedRouteView>, u128, DeltaView<Pool>), OfferError>
    decreases k,
{
    if k <= 0 {
        Ok((Seq::empty(), 0, Map::empty()))
    } else {
        match offered_routes(split, k - 1, token_in, token_out, amount, slippage_bp) {
            Ok((routes, total, delta)) => match share(amount, split[k - 1].weight) {
                Some(part) => match route_sale::<Pool>(
                    split[k - 1].route,
                    token_in,
                    token_out,
                    part,
                    delta,
                ) {
                    Some((estimate, delta)) => match min_amount(estimate, slippage_bp) {
                        Some(least) => if total + estimate > u128::MAX {
                            Err(OfferError::TotalOut)
                        } else {
                            Ok(
                                (
                                    routes.push(
                                        OfferedRouteView {
                                            pools: offered_pools(
                                                split[k - 1].route,
                                                token_in,
                                                part,
                                                least,
                                            ),
                                            amount_in: part,
                                            min_amount_out: least,
                                            amount_out: 0,
                                        },
                                    ),
                                    (total + estimate) as u128,
                                    delta,
                                ),
                            )
                        },
                        None => Err(OfferError::Bound),
                    },
                    None => Err(OfferError::Emulation),
                },
                None => Err(OfferError::Parts),
            },
            Err(e) => Err(e),
        }
    }
}

/// The offer for a split.
pub open spec fn offer(
    split: SplitView<Pool>,
    token_in: Seq<char>,
    token_out: Seq<char>,
    amount: u128,
    slippage_bp: u128,
) -> Result<OfferView, OfferError> {
    match offered_routes(split, split.len() as int, token_in, token_out, amount, slippage_bp) {
        Ok((routes, total, _)) => Ok(
            OfferView {
                routes,
                contract_in: token_in,
                contract_out: token_out,
                amount_in: amount,
                amount_out: total,
            },
        ),
        Err(e) => Err(e),
    }
}

/// The first failing route fails the whole.
proof fn lemma_offered_routes_err(
    split: SplitView<Pool>,
    i: int,
    j: int,
    token_in: Seq<char>,
    token_out: Seq<char>,
    amount: u128,
    slippage_bp: u128,
)
    requires
        0 <= i <= j,
    ensures
        offered_routes(split, i, token_in, token_out, amount, slippage_bp) is Err ==> offered_routes(
            split,
            j,
            token_in,
            token_out,
            amount,
            slippage_bp,
        ) == offered_routes(split, i, token_in, token_out, amount, slippage_bp),
    decreases j,
{
    if i < j {
        lemma_offered_routes_err(split, i, j - 1, token_in, token_out, amount, slippage_bp);
    }
}

/// The pools of a route that is offered.
fn offered_pools_of(route: &Route<Pool>, token_in: &AccountId, amount_in: u128, min_amount_out: u128) -> (r: Vec<
    ApiResponsePoolStep,
>)
    ensures
        views(r@) == offered_pools(route@, token_in@, amount_in, min_amount_out),
{
    let ghost goal = offered_pools(route@, token_in@, amount_in, min_amount_out);
    let mut pools: Vec<ApiResponsePoolStep> = Vec::new();
    let mut current: AccountId = token_in.duplicate();
    let n: usize = route.steps.len();
    let mut i: usize = 0;
    assert(views(pools@) =~= goal.take(0));
    while i < n
        invariant
            i <= n,
            n == route.steps@.len(),
            goal == offered_pools(route@, token_in@, amount_in, min_amount_out),
            views(pools@) == goal.take(i as int),
            current@ == if i == 0 {
                token_in@
            } else {
                route@[i - 1].token_out
            },
        decreases n - i,
    {
        let step: &RouteStep<Pool> = &route.steps[i];
        assert(route@[i as int] == step@);
        let item: ApiResponsePoolStep = ApiResponsePoolStep {
            pool_id: step.pool.id,
            token_in: current.duplicate(),
            token_out: step.token_out.duplicate(),
            amount_in: if i == 0 {
                amount_in
            } else {
                0
            },
            amount_out: 0,
            min_amount_out: if i + 1 == n {
                min_amount_out
            } else {
                0
            },
        };
        proof {
            lemma_views_push(pools@, item);
            assert(goal[i as int] == item@);
            assert(goal.take(i + 1) =~= goal.take(i as int).push(item@));
        }
        pools.push(item);
        current = step.token_out.duplicate();
        i = i + 1;
    }
    assert(goal.take(n as int) =~= goal);
    pools
}

/// Describes a split to the caller.
pub fn to_api_response(
    split: &SplitRoute<Pool>,
    token_in: &AccountId,
    token_out: &AccountId,
    total_amount_in: u128,
    slippage_bp: u128,
) -> (r: Result<SplitRouteApiResponse, OfferError>)
    requires
        slippage_bp <= WHOLE_BP,
    ensures
        match r {
            Ok(response) => offer(split@, token_in@, token_out@, total_amount_in, slippage_bp) == Ok::<
                OfferView,
                OfferError,
            >(response@),
            Err(e) => offer(split@, token_in@, token_out@, total_amount_in, slippage_bp) == Err::<
                OfferView,
                OfferError,
            >(e),
        },
{
    let mut routes: Vec<ApiResponseRoute> = Vec::new();
    let mut total: u128 = 0;
    let mut delta: PoolsDelta<Pool> = PoolsDelta::new();
    let n: usize = split.steps.len();
    let mut i: usize = 0;
    assert(views(routes@) =~= Seq::<OfferedRouteView>::empty());
    while i < n
        invariant
            i <= n,
            n == split.steps@.len(),
            slippage_bp <= WHOLE_BP,
            offered_routes(split@, i as int, token_in@, token_out@, total_amount_in, slippage_bp) == Ok::<
                (Seq<OfferedRouteView>, u128, DeltaView<Pool>),
                OfferError,
            >((views(routes@), total, delta@)),
        decreases n - i,
    {
        let step: &SplitRouteStep<Pool> = &split.steps[i];
        assert(split@[i as int] == step@);
        proof {
            lemma_offered_routes_err(
                split@,
                i + 1,
                n as int,
                token_in@,
                token_out@,
                total_amount_in,
                slippage_bp,
            );
        }
        let part: u128 = match mul_div(total_amount_in, step.weight as u128, 100) {
            Some(part) => part,
            None => {
                return Err(OfferError::Parts);
            },
        };
        let estimate: u128 = match step.route.emulate_swap_exact_in(token_in, token_out, part, delta) {
            Some((estimate, changed)) => {
                delta = changed;
                estimate
            },
            None => {
                return Err(OfferError::Emulation);
            },
        };
        let least: u128 = match min_amount_of(estimate, slippage_bp) {
            Some(least) => least,
            None => {
                return Err(OfferError::Bound);
            },
        };
        let item: ApiResponseRoute = ApiResponseRoute {
            pools: offered_pools_of(&step.route, token_in, part, least),
            amount_in: part,
            min_amount_out: least,
            amount_out: 0,
        };
        match total.checked_add(estimate) {
            Some(sum) => {
                total = sum;
            },
            None => {
                return Err(OfferError::TotalOut);
            },
        }
        proof {
            lemma_views_push(routes@, item);
        }
        routes.push(item);
        i = i + 1;
    }
    Ok(
        SplitRouteApiResponse {
            routes,
            contract_in: token_in.duplicate(),
            contract_out: token_out.duplicate(),
            amount_in: total_amount_in,
            amount_out: total,
        },
    )
}

/// Describing a split emulates it as it was emulated before.
proof fn lemma_offered_as_emulated(
    split: SplitView<Pool>,
    k: int,
    token_in: Seq<char>,
    token_out: Seq<char>,
    amount: u128,
    slippage_bp: u128,
)
    requires
        sell_shares::<Pool>(split, k, token_in, token_out, amount) is Some,
    ensures
        match offered_routes(split, k, token_in, token_out, amount, slippage_bp) {
            Ok((_, total, delta)) => sell_shares::<Pool>(split, k, token_in, token_out, amount) == Some(
                (total, delta),
            ),
            Err(e) => e == OfferError::Bound,
        },
    decreases k,
{
    if k > 0 {
        lemma_offered_as_emulated(split, k - 1, token_in, token_out, amount, slippage_bp);
    }
}

/// A split that was chosen is offered, unless the bound on an amount does not
/// fit; what it is said to give is what the choice went by.
pub proof fn chosen_split_is_offered(
    pools: Seq<PoolView>,
    token_in: Seq<char>,
    token_out: Seq<char>,
    amount: u128,
    max_hops: MaxHops,
    slippage_bp: u128,
)
    ensures
        match offered_split(pools, token_in, token_out, amount, max_hops) {
            Ok(split) => match offer(split, token_in, token_out, amount, slippage_bp) {
                Ok(offer) => split_amount::<Pool>(split, token_in, token_out, QuoteAmount::ExactIn(amount)) == Some(
                    offer.amount_out,
                ),
                Err(e) => e == OfferError::Bound,
            },
            Err(e) => e != RouteError::Emulation,
        },
{
    let quote = QuoteAmount::ExactIn(amount);
    let routes = best_routes::<Pool>(pools, quote, token_in, token_out, max_hops, TOP_ROUTES_COUNT as nat);
    choice_is_emulated::<Pool>(routes, SPLIT_ROUTE_STEP_SIZE, false, quote, token_in, token_out);
    match offered_split(pools, token_in, token_out, amount, max_hops) {
        Ok(split) => {
            lemma_offered_as_emulated(split, split.len() as int, token_in, token_out, amount, slippage_bp);
        },
        Err(_) => {},
    }
}

/// The slippage of a query.
#[derive(Clone, Copy, Debug, PartialEq, Eq, Structural)]
pub enum QuerySlippage {
    /// The query names none.
    Missing,
    /// The query names one that is not between nothing and the whole.
    Invalid,
    /// The slippage in basis points.
    BasisPoints(u128),
}

/// The slippage that a query allows, in basis points.
pub open spec fn allowed_slippage(slippage: QuerySlippage) -> Option<u128> {
    match slippage {
        QuerySlippage::Missing => Some(DEFAULT_SLIPPAGE_BP),
        QuerySlippage::Invalid => None,
        QuerySlippage::BasisPoints(bp) => if bp <= WHOLE_BP {
            Some(bp)
        } else {
            None
        },
    }
}

/// The message for a route that was not found.
pub open spec fn route_error_text(e: RouteError) -> Seq<char> {
    match e {
        RouteError::NoRoutes => "No routes found"@,
        RouteError::NoSplit => "No valid split route found"@,
        RouteError::Emulation => "Cannot emulate the route"@,
        RouteError::Zero => "Estimated output is 0"@,
    }
}

/// The message for a route that was not found.
fn route_error_message(e: RouteError) -> (r: String)
    ensures
        r@ == route_error_text(e),
{
    match e {
        RouteError::NoRoutes => "No routes found".to_owned(),
        RouteError::NoSplit => "No valid split route found".to_owned(),
        RouteError::Emulation => "Cannot emulate the route".to_owned(),
        RouteError::Zero => "Estimated output is 0".to_owned(),
    }
}

/// The message for a split that cannot be offered.
pub open spec fn offer_error_text(e: OfferError) -> Seq<char> {
    match e {
        OfferError::Parts => "Partial amount overflows u128"@,
        OfferError::Emulation => "Cannot emulate the route"@,
        OfferError::TotalOut => "Total estimated out overflows u128"@,
        _ => "Cannot build the response"@,
    }
}

/// The message for a split that cannot be offered.
fn offer_error_message(e: OfferError) -> (r: String)
    ensures
        r@ == offer_error_text(e),
{
    match e {
        OfferError::Parts => "Partial amount overflows u128".to_owned(),
        OfferError::Emulation => "Cannot emulate the route".to_owned(),
        OfferError::TotalOut => "Total estimated out overflows u128".to_owned(),
        _ => "Cannot build the response".to_owned(),
    }
}

/// The code, the message and the data of the answer to a query.
pub open spec fn path_answer(
    pools: Seq<PoolView>,
    token_in: Seq<char>,
    token_out: Seq<char>,
    amount: u128,
    max_hops: MaxHops,
    slippage: QuerySlippage,
) -> (i32, Seq<char>, Option<OfferView>) {
    match allowed_slippage(slippage) {
        None => (RC_INVALID_SLIPPAGE, "Invalid slippage"@, None),
        Some(bp) => match offered_split(pools, token_in, token_out, amount, max_hops) {
            Err(e) => (RC_ROUTE_ERROR, route_error_text(e), None),
            Ok(split) => match offer(split, token_in, token_out, amount, bp) {
                Err(e) => (RC_RESPONSE_BUILD_ERROR, offer_error_text(e), None),
                Ok(offer) => (RC_SUCCESS, ""@, Some(offer)),
            },
        },
    }
}

/// Answers a query for a path.
pub fn handle_find_path(
    pools: &Pools<Pool>,
    token_in: &AccountId,
    token_out: &AccountId,
    amount_in: u128,
    max_hops: MaxHops,
    slippage: QuerySlippage,
) -> (r: ApiResponse<SplitRouteApiResponse>)
    ensures
        r.answer() == path_answer(pools@, token_in@, token_out@, amount_in, max_hops, slippage),
{
    let bp: u128 = match slippage {
        QuerySlippage::Missing => DEFAULT_SLIPPAGE_BP,
        QuerySlippage::BasisPoints(bp) if bp <= WHOLE_BP => bp,
        _ => {
            return ApiResponse::failure(RC_INVALID_SLIPPAGE, "Invalid slippage".to_owned());
        },
    };
    match route(token_in, token_out, amount_in, pools, max_hops) {
        Ok(split) => match to_api_response(&split, token_in, token_out, amount_in, bp) {
            Ok(data) => ApiResponse::success(data),
            Err(e) => ApiResponse::failure(RC_RESPONSE_BUILD_ERROR, offer_error_message(e)),
        },
        Err(e) => ApiResponse::failure(RC_ROUTE_ERROR, route_error_message(e)),
    }
}

} // verus!
