//! The path-finding service over the pools of Intear Plach.

use vstd::prelude::*;

use super::pool::{Pool, PoolData, PoolView};
use crate::asset::{AssetId, AssetIdView};
use crate::decimal::{bp_of, Decimal, DecimalView, slippage_bp};
use crate::encoding::{
    base64_bytes, base64_decode, base64_encode, base64_text, borsh_read_u32, borsh_u32, le_bytes, read_u32,
};
use crate::ident::{views, Ident};
use crate::json::{no_fields, Json, JsonObject, JsonView};
use crate::paging::{ApiResponse, RC_INVALID_SLIPPAGE, RC_RESPONSE_BUILD_ERROR, RC_ROUTE_ERROR, RC_SUCCESS};
use crate::pathfinder::choice::{
    choice_is_emulated, choose_split, chosen_shares_are_the_whole, chosen_shares_fall, chosen_split, OfferError,
    RouteError,
};
use crate::pathfinder::laws::keeps_its_quote;
use crate::pathfinder::market::{lemma_views_push, PoolsDelta};
use crate::pathfinder::pools::{
    direct_pools, direct_pools_are_mutual, direct_pools_hold_both, distinct_tokens, has_direct_pool, holds,
    holds_both, picked_pools_rise, pools_with_token, pools_with_token_hold_it, rising, Pools,
};
use crate::pathfinder::route::{
    buy_steps, route_amount, route_purchase, route_sale, DeltaView, QuoteAmount, Route, RouteStep, RouteView,
};
use crate::pathfinder::search::{best_routes, find_best_routes, MaxHops};
use crate::pathfinder::split::{
    buy_shares, share, split_amount, split_total, SplitRoute, SplitRouteStep, SplitView,
};
use crate::providers::intear_plach::PLACH_DEX_ID;
use crate::providers::views::{ask_with, asked_with, ViewCall, ViewCallView};
use crate::rhea::api::{min_amount, min_amount_of, WHOLE_BP};
use crate::wide::{mul_div, ratio};

verus! {

/// How many routes an amount is split between.
pub const TOP_ROUTES_COUNT: usize = 2;

/// The size of a slice of the amount, in percent.
pub const SPLIT_ROUTE_STEP_SIZE: u32 = 1;

/// The size of a slice of a small amount, in percent.
pub const SMALL_AMOUNT_ROUTE_STEP_SIZE: u32 = 25;

/// Below this an amount is small.
pub const SMALL_AMOUNT_THRESHOLD: u128 = 1000;

/// From this on, what rounding left over is too much.
pub const ROUNDING_ERROR_THRESHOLD: u128 = 50;

/// How many pools are fetched at once.
pub const FETCH_POOLS_BATCH_SIZE: u32 = 20;

/// One pool of a route that is offered for an exact input.
#[derive(Clone, Debug, PartialEq)]
pub struct ExactInPoolStep {
    pub pool_id: u32,
    pub token_in: AssetId,
    pub token_out: AssetId,
    pub amount_in: u128,
    pub min_amount_out: u128,
}

/// One pool of a route that is offered for an exact output.
#[derive(Clone, Debug, PartialEq)]
pub struct ExactOutPoolStep {
    pub pool_id: u32,
    pub token_in: AssetId,
    pub token_out: AssetId,
    pub amount_in: u128,
    pub amount_out: u128,
    pub max_amount_in: u128,
}

/// One route that is offered for an exact input.
#[derive(Clone, Debug, PartialEq)]
pub struct ExactInRoute {
    pub pools: Vec<ExactInPoolStep>,
    pub amount_in: u128,
    pub min_amount_out: u128,
    pub amount_out: u128,
}

/// One route that is offered for an exact output.
#[derive(Clone, Debug, PartialEq)]
pub struct ExactOutRoute {
    pub pools: Vec<ExactOutPoolStep>,
    pub amount_in: u128,
    pub max_amount_in: u128,
    pub amount_out: u128,
}

/// The routes that carry an amount together.
#[derive(Clone, Debug, PartialEq)]
pub enum SplitRouteApiResponse {
    ExactIn {
        routes: Vec<ExactInRoute>,
        contract_in: AssetId,
        contract_out: AssetId,
        amount_in: u128,
        amount_out: u128,
    },
    ExactOut {
        routes: Vec<ExactOutRoute>,
        contract_in: AssetId,
        contract_out: AssetId,
        amount_in: u128,
        max_amount_in: u128,
        amount_out: u128,
    },
}

/// What one pool of an offer for an exact input is.
pub struct InPoolView {
    pub pool_id: u32,
    pub token_in: AssetIdView,
    pub token_out: AssetIdView,
    pub amount_in: u128,
    pub min_amount_out: u128,
}

/// What one pool of an offer for an exact output is.
pub struct OutPoolView {
    pub pool_id: u32,
    pub token_in: AssetIdView,
    pub token_out: AssetIdView,
    pub amount_in: u128,
    pub amount_out: u128,
    pub max_amount_in: u128,
}

/// What one route of an offer for an exact input is.
pub struct InRouteView {
    pub pools: Seq<InPoolView>,
    pub amount_in: u128,
    pub min_amount_out: u128,
    pub amount_out: u128,
}

/// What one route of an offer for an exact output is.
pub struct OutRouteView {
    pub pools: Seq<OutPoolView>,
    pub amount_in: u128,
    pub max_amount_in: u128,
    pub amount_out: u128,
}

/// What an offer is.
pub enum OfferView {
    ExactIn {
        routes: Seq<InRouteView>,
        contract_in: AssetIdView,
        contract_out: AssetIdView,
        amount_in: u128,
        amount_out: u128,
    },
    ExactOut {
        routes: Seq<OutRouteView>,
        contract_in: AssetIdView,
        contract_out: AssetIdView,
        amount_in: u128,
        max_amount_in: u128,
        amount_out: u128,
    },
}

impl View for ExactInPoolStep {
    type V = InPoolView;

    open spec fn view(&self) -> InPoolView {
        InPoolView {
            pool_id: self.pool_id,
            token_in: self.token_in@,
            token_out: self.token_out@,
            amount_in: self.amount_in,
            min_amount_out: self.min_amount_out,
        }
    }
}

impl View for ExactOutPoolStep {
    type V = OutPoolView;

    open spec fn view(&self) -> OutPoolView {
        OutPoolView {
            pool_id: self.pool_id,
            token_in: self.token_in@,
            token_out: self.token_out@,
            amount_in: self.amount_in,
            amount_out: self.amount_out,
            max_amount_in: self.max_amount_in,
        }
    }
}

impl View for ExactInRoute {
    type V = InRouteView;

    open spec fn view(&self) -> InRouteView {
        InRouteView {
            pools: views(self.pools@),
            amount_in: self.amount_in,
            min_amount_out: self.min_amount_out,
            amount_out: self.amount_out,
        }
    }
}

impl View for ExactOutRoute {
    type V = OutRouteView;

    open spec fn view(&self) -> OutRouteView {
        OutRouteView {
            pools: views(self.pools@),
            amount_in: self.amount_in,
            max_amount_in: self.max_amount_in,
            amount_out: self.amount_out,
        }
    }
}

impl View for SplitRouteApiResponse {
    type V = OfferView;

    open spec fn view(&self) -> OfferView {
        match self {
            SplitRouteApiResponse::ExactIn { routes, contract_in, contract_out, amount_in, amount_out } =>
                OfferView::ExactIn {
                routes: views(routes@),
                contract_in: contract_in@,
                contract_out: contract_out@,
                amount_in: *amount_in,
                amount_out: *amount_out,
            },
            SplitRouteApiResponse::ExactOut {
                routes,
                contract_in,
                contract_out,
                amount_in,
                max_amount_in,
                amount_out,
            } => OfferView::ExactOut {
                routes: views(routes@),
                contract_in: contract_in@,
                contract_out: contract_out@,
                amount_in: *amount_in,
                max_amount_in: *max_amount_in,
                amount_out: *amount_out,
            },
        }
    }
}

/// The pools numbered in their order.
pub open spec fn numbered(data: Seq<PoolData>) -> Seq<PoolView> {
    Seq::new(data.len(), |i: int| (Pool { id: i as u32, data: data[i] })@)
}

/// Numbers the pools in their order.
pub fn build_pools(data: Vec<PoolData>) -> (r: Pools<Pool>)
    requires
        data@.len() <= u32::MAX,
    ensures
        r@ == numbered(data@),
{
    let ghost all = data@;
    let mut rest: Vec<PoolData> = data;
    let mut reversed: Vec<Pool> = Vec::new();
    while rest.len() > 0
        invariant
            all.len() <= u32::MAX,
            rest@.len() + reversed@.len() == all.len(),
            rest@ == all.take(rest@.len() as int),
            forall|j: int|
                0 <= j < reversed@.len() ==> (#[trigger] reversed@[j])@ == numbered(all)[all.len() - 1 - j],
        decreases rest@.len(),
    {
        match rest.pop() {
            Some(data) => {
                let id: u32 = rest.len() as u32;
                assert(data == all[rest@.len() as int]);
                reversed.push(Pool { id, data });
                assert(rest@ =~= all.take(rest@.len() as int));
            },
            None => {},
        }
    }
    let mut pools: Vec<Pool> = Vec::new();
    while reversed.len() > 0
        invariant
            pools@.len() + reversed@.len() == all.len(),
            forall|j: int|
                0 <= j < reversed@.len() ==> (#[trigger] reversed@[j])@ == numbered(all)[all.len() - 1 - j],
            forall|j: int| 0 <= j < pools@.len() ==> (#[trigger] pools@[j])@ == numbered(all)[j],
        decreases reversed@.len(),
    {
        match reversed.pop() {
            Some(pool) => {
                pools.push(pool);
            },
            None => {},
        }
    }
    assert(views(pools@) =~= numbered(all));
    Pools { pools }
}

/// The pools are found by their tokens: between two tokens either way, and by
/// one of them, in the order of their numbers, each pool once.
pub proof fn pools_are_found_by_token(data: Seq<PoolData>, a: AssetIdView, b: AssetIdView)
    requires
        data.len() <= u32::MAX,
        distinct_tokens::<Pool>(numbered(data)),
        a != b,
    ensures
        ({
            let pools = numbered(data);
            let direct = direct_pools::<Pool>(pools, a, b);
            let with = pools_with_token::<Pool>(pools, a);
            &&& forall|i: int| 0 <= i < pools.len() ==> (#[trigger] pools[i]).id == i
            &&& direct == direct_pools::<Pool>(pools, b, a)
            &&& direct == pools.filter(holds_both::<Pool>(a, b))
            &&& has_direct_pool::<Pool>(pools, a, b) <==> exists|i: int|
                0 <= i < pools.len() && holds_both::<Pool>(a, b)(#[trigger] pools[i])
            &&& with == pools.filter(holds::<Pool>(a))
            &&& rising::<Pool>(direct)
            &&& rising::<Pool>(with)
        }),
{
    let pools = numbered(data);
    direct_pools_are_mutual::<Pool>(pools, a, b);
    direct_pools_hold_both::<Pool>(pools, a, b);
    pools_with_token_hold_it::<Pool>(pools, a);
    picked_pools_rise::<Pool>(pools, holds_both::<Pool>(a, b));
    picked_pools_rise::<Pool>(pools, holds::<Pool>(a));
}

/// A pool gives what it is ranked by.
pub proof fn pools_keep_their_quotes(pool: PoolView, token_in: AssetIdView, token_out: AssetIdView, quote: QuoteAmount)
    ensures
        keeps_its_quote::<Pool>(pool, token_in, token_out, quote),
{
}

/// The bytes of an answer of the exchange, which comes in base64.
pub fn answer_bytes(answer: &str) -> (r: Option<Vec<u8>>)
    ensures
        match r {
            Some(bytes) => base64_bytes(answer@) == Some(bytes@),
            None => base64_bytes(answer@) is None,
        },
{
    base64_decode(answer)
}

/// The number that the bytes of an answer, if there are any, stand for.
pub fn counted(bytes: &Option<Vec<u8>>) -> (r: Option<u32>)
    ensures
        r == match bytes {
            Some(bytes) => read_u32(bytes@),
            None => None,
        },
{
    match bytes {
        Some(bytes) => borsh_read_u32(bytes),
        None => None,
    }
}

/// Reads how many pools there are out of the answer of the exchange.
pub fn read_pool_count(answer: &str) -> (r: Option<u32>)
    ensures
        r == match base64_bytes(answer@) {
            Some(bytes) => read_u32(bytes),
            None => None,
        },
{
    counted(&answer_bytes(answer))
}

/// What asks for the pools from a number on, up to a limit.
pub fn page_args(start_index: u32, limit: u32) -> (r: Vec<u8>)
    ensures
        r@ == le_bytes(start_index) + le_bytes(limit),
{
    let mut args: Vec<u8> = borsh_u32(start_index);
    let mut end: Vec<u8> = borsh_u32(limit);
    args.append(&mut end);
    args
}

/// What the exchange is asked: a method of it, with arguments in base64.
pub open spec fn dex_view_call(method: Seq<char>, args: Seq<u8>) -> ViewCallView {
    asked_with(
        "dex_view"@,
        JsonView::Object(
            no_fields().push(("dex_id"@, JsonView::Text(PLACH_DEX_ID@))).push(
                ("method"@, JsonView::Text(method)),
            ).push(("args"@, JsonView::Text(base64_text(args)))),
        ),
    )
}

/// What the exchange is asked.
fn ask_dex(method: &str, args: &Vec<u8>) -> (r: ViewCall)
    ensures
        r@ == dex_view_call(method@, args@),
{
    let asked: Json = JsonObject::new().with_text("dex_id", PLACH_DEX_ID).with_text("method", method).with_text(
        "args",
        base64_encode(args).as_str(),
    ).done();
    ask_with("dex_view", asked)
}

/// What asks how many pools there are.
pub fn pool_count_call() -> (r: ViewCall)
    ensures
        r@ == dex_view_call("get_pool_count"@, Seq::empty()),
{
    let no_args: Vec<u8> = Vec::new();
    assert(no_args@ =~= Seq::empty());
    ask_dex("get_pool_count", &no_args)
}

/// What asks for a page of pools, from a number on.
pub fn pools_call(start_index: u32) -> (r: ViewCall)
    ensures
        r@ == dex_view_call("get_pools"@, le_bytes(start_index) + le_bytes(FETCH_POOLS_BATCH_SIZE)),
{
    ask_dex("get_pools", &page_args(start_index, FETCH_POOLS_BATCH_SIZE))
}

/// Whether an amount, or what it comes to, is small.
pub open spec fn is_small(
    routes: Seq<RouteView<Pool>>,
    quote: QuoteAmount,
    token_in: AssetIdView,
    token_out: AssetIdView,
) -> bool {
    let amount = match quote {
        QuoteAmount::ExactIn(amount) => amount,
        QuoteAmount::ExactOut(amount) => amount,
    };
    amount < SMALL_AMOUNT_THRESHOLD || match route_amount::<Pool>(routes[0], token_in, token_out, quote) {
        Some(other) => other < SMALL_AMOUNT_THRESHOLD,
        None => true,
    }
}

/// The size of the slices of an amount, in percent.
pub open spec fn slice_size(
    routes: Seq<RouteView<Pool>>,
    quote: QuoteAmount,
    token_in: AssetIdView,
    token_out: AssetIdView,
) -> u32 {
    if routes.len() > 0 && is_small(routes, quote, token_in, token_out) {
        SMALL_AMOUNT_ROUTE_STEP_SIZE
    } else {
        SPLIT_ROUTE_STEP_SIZE
    }
}

/// The split that is offered for an amount.
pub open spec fn offered_split(
    pools: Seq<PoolView>,
    token_in: AssetIdView,
    token_out: AssetIdView,
    quote: QuoteAmount,
    max_hops: MaxHops,
) -> Result<SplitView<Pool>, RouteError> {
    let routes = best_routes::<Pool>(pools, quote, token_in, token_out, max_hops, TOP_ROUTES_COUNT as nat);
    chosen_split::<Pool>(
        routes,
        slice_size(routes, quote, token_in, token_out),
        true,
        quote,
        token_in,
        token_out,
    )
}

/// Finds the best way to sell or buy an amount.
pub fn route<'a>(
    token_in: &AssetId,
    token_out: &AssetId,
    amount: QuoteAmount,
    pools: &'a Pools<Pool>,
    max_hops: MaxHops,
) -> (r: Result<SplitRoute<'a, Pool>, RouteError>)
    ensures
        match r {
            Ok(split) => offered_split(pools@, token_in@, token_out@, amount, max_hops) == Ok::<
                SplitView<Pool>,
                RouteError,
            >(split@),
            Err(e) => offered_split(pools@, token_in@, token_out@, amount, max_hops) == Err::<
                SplitView<Pool>,
                RouteError,
            >(e),
        },
{
    let routes: Vec<Route<'a, Pool>> = find_best_routes(
        pools,
        amount,
        token_in,
        token_out,
        max_hops,
        TOP_ROUTES_COUNT,
    );
    let step: u32 = if routes.len() > 0 {
        assert(views(routes@)[0] == routes@[0]@);
        let small: bool = amount.value() < SMALL_AMOUNT_THRESHOLD || match routes[0].emulate(
            token_in,
            token_out,
            amount,
        ) {
            Some(other) => other < SMALL_AMOUNT_THRESHOLD,
            None => true,
        };
        if small {
            SMALL_AMOUNT_ROUTE_STEP_SIZE
        } else {
            SPLIT_ROUTE_STEP_SIZE
        }
    } else {
        SPLIT_ROUTE_STEP_SIZE
    };
    choose_split(&routes, step, true, amount, token_in, token_out)
}

/// The shares of the amount; none where one does not fit.
pub open spec fn shares(split: SplitView<Pool>, amount: u128, k: int) -> Option<Seq<u128>>
    decreases k,
{
    if k <= 0 {
        Some(Seq::empty())
    } else {
        match (shares(split, amount, k - 1), share(amount, split[k - 1].weight)) {
            (Some(before), Some(part)) => Some(before.push(part)),
            _ => None,
        }
    }
}

/// The sum of the first `k` parts.
pub open spec fn parts_sum(parts: Seq<u128>, k: int) -> int
    decreases k,
{
    if k <= 0 {
        0
    } else {
        parts_sum(parts, k - 1) + parts[k - 1]
    }
}

/// The shares of the amount, where what rounding left over goes to the first;
/// none where they exceed the amount or too much is left over.
pub open spec fn whole_shares(split: SplitView<Pool>, amount: u128) -> Option<Seq<u128>> {
    match shares(split, amount, split.len() as int) {
        Some(parts) => {
            let left = amount - parts_sum(parts, parts.len() as int);
            if left == 0 {
                Some(parts)
            } else if 0 < left && left < ROUNDING_ERROR_THRESHOLD && parts.len() > 0 {
                Some(parts.update(0, (parts[0] + left) as u128))
            } else {
                None
            }
        },
        None => None,
    }
}

/// Parts are not negative.
pub(crate) proof fn lemma_parts_sum_grows(parts: Seq<u128>, i: int, j: int)
    requires
        0 <= i <= j,
    ensures
        0 <= parts_sum(parts, i) <= parts_sum(parts, j),
        0 < j && i == 0 ==> parts[0] <= parts_sum(parts, j),
    decreases j,
{
    if i < j {
        lemma_parts_sum_grows(parts, i, j - 1);
    } else if i > 0 {
        lemma_parts_sum_grows(parts, i - 1, i - 1);
    }
}

/// A larger first part adds to the sum.
proof fn lemma_first_part_sum(parts: Seq<u128>, first: u128, k: int)
    requires
        0 < k <= parts.len(),
    ensures
        parts_sum(parts.update(0, first), k) == parts_sum(parts, k) - parts[0] + first,
    decreases k,
{
    if k > 1 {
        lemma_first_part_sum(parts, first, k - 1);
    } else {
        assert(parts_sum(parts, 0) == 0);
        assert(parts_sum(parts.update(0, first), 0) == 0);
    }
}

/// The parts of an exact input add up to it.
pub proof fn shares_add_up(split: SplitView<Pool>, amount: u128)
    ensures
        whole_shares(split, amount) matches Some(parts) ==> parts_sum(parts, parts.len() as int) == amount,
{
    match shares(split, amount, split.len() as int) {
        Some(parts) => {
            let left = amount - parts_sum(parts, parts.len() as int);
            if 0 < left && left < ROUNDING_ERROR_THRESHOLD && parts.len() > 0 {
                lemma_parts_sum_grows(parts, 0, parts.len() as int);
                lemma_first_part_sum(parts, (parts[0] + left) as u128, parts.len() as int);
            }
        },
        None => {},
    }
}

/// A part that has no value leaves none to the whole.
proof fn lemma_shares_none(split: SplitView<Pool>, amount: u128, i: int, j: int)
    requires
        0 <= i <= j,
    ensures
        shares(split, amount, i) is None ==> shares(split, amount, j) is None,
    decreases j,
{
    if i < j {
        lemma_shares_none(split, amount, i, j - 1);
    }
}

/// The shares have as many parts as were asked for, and earlier ones stay.
proof fn lemma_shares_prefix(split: SplitView<Pool>, amount: u128, i: int, j: int)
    requires
        0 <= i <= j,
        shares(split, amount, j) is Some,
    ensures
        shares(split, amount, i) is Some,
        shares(split, amount, i)->0.len() == i,
        shares(split, amount, i)->0 == shares(split, amount, j)->0.take(i),
    decreases j,
{
    if i < j {
        lemma_shares_prefix(split, amount, i, j - 1);
        lemma_shares_prefix(split, amount, j - 1, j - 1);
        let before = shares(split, amount, j - 1)->0;
        let after = shares(split, amount, j)->0;
        assert(after.take(i) =~= before.take(i));
    } else if i > 0 {
        lemma_shares_prefix(split, amount, i - 1, i - 1);
        let all = shares(split, amount, i)->0;
        assert(all.take(i) =~= all);
    } else {
        let all = shares(split, amount, 0)->0;
        assert(all.take(0) =~= all);
    }
}

/// The shares of an exact input.
fn split_parts(split: &SplitRoute<Pool>, amount: u128) -> (r: Option<Vec<u128>>)
    ensures
        match r {
            Some(parts) => whole_shares(split@, amount) == Some(parts@) && parts@.len() == split@.len(),
            None => whole_shares(split@, amount) is None,
        },
{
    let mut parts: Vec<u128> = Vec::new();
    let mut total: u128 = 0;
    let n: usize = split.steps.len();
    let mut i: usize = 0;
    assert(parts@ =~= Seq::<u128>::empty());
    while i < n
        invariant
            i <= n,
            n == split.steps@.len(),
            shares(split@, amount, i as int) == Some(parts@),
            parts@.len() == i,
            total == parts_sum(parts@, i as int),
        decreases n - i,
    {
        proof {
            lemma_shares_none(split@, amount, i + 1, n as int);
        }
        assert(split@[i as int] == split.steps@[i as int]@);
        let part: u128 = match mul_div(amount, split.steps[i].weight as u128, 100) {
            Some(part) => part,
            None => {
                return None;
            },
        };
        let ghost before = parts@;
        parts.push(part);
        proof {
            lemma_parts_sum_prefix(before, part, i as int);
        }
        match total.checked_add(part) {
            Some(sum) => {
                total = sum;
            },
            None => {
                proof {
                    match shares(split@, amount, n as int) {
                        Some(all) => {
                            lemma_shares_prefix(split@, amount, i + 1, n as int);
                            lemma_shares_prefix(split@, amount, n as int, n as int);
                            lemma_sum_of_prefix(all, i + 1);
                            lemma_parts_sum_grows(all, i + 1, n as int);
                        },
                        None => {},
                    }
                }
                return None;
            },
        }
        i = i + 1;
    }
    if total > amount {
        return None;
    }
    let left: u128 = amount - total;
    if left == 0 {
        return Some(parts);
    }
    if left < ROUNDING_ERROR_THRESHOLD && n > 0 {
        proof {
            lemma_parts_sum_grows(parts@, 0, n as int);
        }
        let first: u128 = parts[0] + left;
        parts.set(0, first);
        return Some(parts);
    }
    None
}

/// The sum over a prefix depends on the prefix alone.
proof fn lemma_sum_of_prefix(parts: Seq<u128>, k: int)
    requires
        0 <= k <= parts.len(),
    ensures
        parts_sum(parts.take(k), k) == parts_sum(parts, k),
    decreases k,
{
    if k > 0 {
        lemma_sum_of_prefix(parts, k - 1);
        lemma_sum_of_prefix(parts.take(k), k - 1);
        assert(parts.take(k).take(k - 1) =~= parts.take(k - 1));
    }
}

/// One more part adds to the sum.
proof fn lemma_parts_sum_prefix(parts: Seq<u128>, part: u128, k: int)
    requires
        k == parts.len(),
    ensures
        parts_sum(parts.push(part), k + 1) == parts_sum(parts, k) + part,
{
    lemma_sum_of_prefix(parts.push(part), k);
    assert(parts.push(part).take(k) =~= parts);
    assert(parts_sum(parts.push(part), k + 1) == parts_sum(parts.push(part), k) + part);
}

/// The pools of a route that is offered for an exact input: the first takes
/// the amount, the last gives at least the minimum.
pub open spec fn in_pools(
    route: RouteView<Pool>,
    token_in: AssetIdView,
    amount_in: u128,
    min_amount_out: u128,
) -> Seq<InPoolView> {
    Seq::new(
        route.len(),
        |i: int|
            InPoolView {
                pool_id: route[i].pool.id,
                token_in: if i == 0 {
                    token_in
                } else {
                    route[i - 1].token_out
                },
                token_out: route[i].token_out,
                amount_in: if i == 0 {
                    amount_in
                } else {
                    0
                },
                min_amount_out: if i + 1 == route.len() {
                    min_amount_out
                } else {
                    0
                },
            },
    )
}

/// The first `k` routes of an offer for an exact input, what they give in
/// total, and the pools that have changed then.
pub open spec fn in_routes(
    split: SplitView<Pool>,
    parts: Seq<u128>,
    k: int,
    token_in: AssetIdView,
    token_out: AssetIdView,
    slippage_bp: u128,
) -> Result<(Seq<InRouteView>, u128, DeltaView<Pool>), OfferError>
    decreases k,
{
    if k <= 0 {
        Ok((Seq::empty(), 0, Map::empty()))
    } else {
        match in_routes(split, parts, k - 1, token_in, token_out, slippage_bp) {
            Ok((routes, total, delta)) => match route_sale::<Pool>(
                split[k - 1].route,
                token_in,
                token_out,
                parts[k - 1],
                delta,
            ) {
                Some((estimate, delta)) => match min_amount(estimate, slippage_bp) {
                    Some(least) => if total + estimate > u128::MAX {
                        Err(OfferError::TotalOut)
                    } else {
                        Ok(
                            (
                                routes.push(
                                    InRouteView {
                                        pools: in_pools(
                                            split[k - 1].route,
                                            token_in,
                                            parts[k - 1],
                                            least,
                                        ),
                                        amount_in: parts[k - 1],
                                        min_amount_out: least,
                                        amount_out: estimate,
                                    },
                                ),
                                (total + estimate) as u128,
                                delta,
                            ),
                        )
                    },
                    None => Err(OfferError::Bound),
                },
                None => Err(OfferError::Emulation),
            },
            Err(e) => Err(e),
        }
    }
}

/// The largest amount that is accepted in place of an estimate, rounded down.
pub open spec fn max_amount(estimate: u128, slippage_bp: u128) -> Option<u128> {
    ratio(estimate as nat, (WHOLE_BP + slippage_bp) as nat, WHOLE_BP as nat)
}

/// The pools of a route that is offered for an exact output, with what each
/// takes and gives; none where a number does not fit.
pub open spec fn out_pools(
    route: RouteView<Pool>,
    amounts: Seq<(u128, u128)>,
    token_in: AssetIdView,
    slippage_bp: u128,
    k: int,
) -> Option<Seq<OutPoolView>>
    decreases k,
{
    if k <= 0 {
        Some(Seq::empty())
    } else {
        match (
            out_pools(route, amounts, token_in, slippage_bp, k - 1),
            max_amount(amounts[k - 1].0, slippage_bp),
        ) {
            (Some(before), Some(most)) => Some(
                before.push(
                    OutPoolView {
                        pool_id: route[k - 1].pool.id,
                        token_in: if k == 1 {
                            token_in
                        } else {
                            route[k - 2].token_out
                        },
                        token_out: route[k - 1].token_out,
                        amount_in: amounts[k - 1].0,
                        amount_out: amounts[k - 1].1,
                        max_amount_in: most,
                    },
                ),
            ),
            _ => None,
        }
    }
}

/// The first `k` routes of an offer for an exact output, what they take in
/// total and at most, and the pools that have changed then.
pub open spec fn out_routes(
    split: SplitView<Pool>,
    k: int,
    token_in: AssetIdView,
    token_out: AssetIdView,
    amount: u128,
    slippage_bp: u128,
) -> Result<(Seq<OutRouteView>, u128, u128, DeltaView<Pool>), OfferError>
    decreases k,
{
    if k <= 0 {
        Ok((Seq::empty(), 0, 0, Map::empty()))
    } else {
        match out_routes(split, k - 1, token_in, token_out, amount, slippage_bp) {
            Ok((routes, total, total_most, delta)) => match share(amount, split[k - 1].weight) {
                Some(part) => match route_purchase::<Pool>(
                    split[k - 1].route,
                    token_in,
                    token_out,
                    part,
                    delta,
                ) {
                    Some((taken, amounts, delta)) => match (
                        max_amount(taken, slippage_bp),
                        out_pools(
                            split[k - 1].route,
                            amounts,
                            token_in,
                            slippage_bp,
                            split[k - 1].route.len() as int,
                        ),
                    ) {
                        (Some(most), Some(pools)) => if total + taken > u128::MAX {
                            Err(OfferError::TotalIn)
                        } else if total_most + most > u128::MAX {
                            Err(OfferError::TotalMost)
                        } else {
                            Ok(
                                (
                                    routes.push(
                                        OutRouteView {
                                            pools,
                                            amount_in: taken,
                                            max_amount_in: most,
                                            amount_out: part,
                                        },
                                    ),
                                    (total + taken) as u128,
                                    (total_most + most) as u128,
                                    delta,
                                ),
                            )
                        },
                        _ => Err(OfferError::Bound),
                    },
                    None => Err(OfferError::Emulation),
                },
                None => Err(OfferError::Parts),
            },
            Err(e) => Err(e),
        }
    }
}

/// The offer for a split.
pub open spec fn offer(
    split: SplitView<Pool>,
    token_in: AssetIdView,
    token_out: AssetIdView,
    quote: QuoteAmount,
    slippage_bp: u128,
) -> Result<OfferView, OfferError> {
    match quote {
        QuoteAmount::ExactIn(amount) => match whole_shares(split, amount) {
            Some(parts) => match in_routes(
                split,
                parts,
                split.len() as int,
                token_in,
                token_out,
                slippage_bp,
            ) {
                Ok((routes, total, _)) => Ok(
                    OfferView::ExactIn {
                        routes,
                        contract_in: token_in,
                        contract_out: token_out,
                        amount_in: amount,
                        amount_out: total,
                    },
                ),
                Err(e) => Err(e),
            },
            None => Err(OfferError::Parts),
        },
        QuoteAmount::ExactOut(amount) => match out_routes(
            split,
            split.len() as int,
            token_in,
            token_out,
            amount,
            slippage_bp,
        ) {
            Ok((routes, total, total_most, _)) => Ok(
                OfferView::ExactOut {
                    routes,
                    contract_in: token_in,
                    contract_out: token_out,
                    amount_in: total,
                    max_amount_in: total_most,
                    amount_out: amount,
                },
            ),
            Err(e) => Err(e),
        },
    }
}

/// The first failing route fails the whole.
proof fn lemma_in_routes_err(
    split: SplitView<Pool>,
    parts: Seq<u128>,
    i: int,
    j: int,
    token_in: AssetIdView,
    token_out: AssetIdView,
    slippage_bp: u128,
)
    requires
        0 <= i <= j,
    ensures
        in_routes(split, parts, i, token_in, token_out, slippage_bp) is Err ==> in_routes(
            split,
            parts,
            j,
            token_in,
            token_out,
            slippage_bp,
        ) == in_routes(split, parts, i, token_in, token_out, slippage_bp),
    decreases j,
{
    if i < j {
        lemma_in_routes_err(split, parts, i, j - 1, token_in, token_out, slippage_bp);
    }
}

/// The first failing route fails the whole.
proof fn lemma_out_routes_err(
    split: SplitView<Pool>,
    i: int,
    j: int,
    token_in: AssetIdView,
    token_out: AssetIdView,
    amount: u128,
    slippage_bp: u128,
)
    requires
        0 <= i <= j,
    ensures
        out_routes(split, i, token_in, token_out, amount, slippage_bp) is Err ==> out_routes(
            split,
            j,
            token_in,
            token_out,
            amount,
            slippage_bp,
        ) == out_routes(split, i, token_in, token_out, amount, slippage_bp),
    decreases j,
{
    if i < j {
        lemma_out_routes_err(split, i, j - 1, token_in, token_out, amount, slippage_bp);
    }
}

/// The first failing pool fails the route.
proof fn lemma_out_pools_none(
    route: RouteView<Pool>,
    amounts: Seq<(u128, u128)>,
    token_in: AssetIdView,
    slippage_bp: u128,
    i: int,
    j: int,
)
    requires
        0 <= i <= j,
    ensures
        out_pools(route, amounts, token_in, slippage_bp, i) is None ==> out_pools(
            route,
            amounts,
            token_in,
            slippage_bp,
            j,
        ) is None,
    decreases j,
{
    if i < j {
        lemma_out_pools_none(route, amounts, token_in, slippage_bp, i, j - 1);
    }
}

/// The pools of a route that is offered for an exact input.
fn in_pools_of(route: &Route<Pool>, token_in: &AssetId, amount_in: u128, min_amount_out: u128) -> (r: Vec<
    ExactInPoolStep,
>)
    ensures
        views(r@) == in_pools(route@, token_in@, amount_in, min_amount_out),
{
    let ghost goal = in_pools(route@, token_in@, amount_in, min_amount_out);
    let mut pools: Vec<ExactInPoolStep> = Vec::new();
    let mut current: AssetId = token_in.duplicate();
    let n: usize = route.steps.len();
    let mut i: usize = 0;
    assert(views(pools@) =~= goal.take(0));
    while i < n
        invariant
            i <= n,
            n == route.steps@.len(),
            goal == in_pools(route@, token_in@, amount_in, min_amount_out),
            views(pools@) == goal.take(i as int),
            current@ == if i == 0 {
                token_in@
            } else {
                route@[i - 1].token_out
            },
        decreases n - i,
    {
        let step: &RouteStep<Pool> = &route.steps[i];
        assert(route@[i as int] == step@);
        let item: ExactInPoolStep = ExactInPoolStep {
            pool_id: step.pool.id,
            token_in: current.duplicate(),
            token_out: step.token_out.duplicate(),
            amount_in: if i == 0 {
                amount_in
            } else {
                0
            },
            min_amount_out: if i + 1 == n {
                min_amount_out
            } else {
                0
            },
        };
        proof {
            lemma_views_push(pools@, item);
            assert(goal[i as int] == item@);
            assert(goal.take(i + 1) =~= goal.take(i as int).push(item@));
        }
        pools.push(item);
        current = step.token_out.duplicate();
        i = i + 1;
    }
    assert(goal.take(n as int) =~= goal);
    pools
}

/// The largest amount that is accepted in place of an estimate.
fn max_amount_of(estimate: u128, slippage_bp: u128) -> (r: Option<u128>)
    requires
        slippage_bp <= WHOLE_BP,
    ensures
        r == max_amount(estimate, slippage_bp),
{
    mul_div(estimate, WHOLE_BP + slippage_bp, WHOLE_BP)
}

/// The pools of a route that is offered for an exact output.
fn out_pools_of(route: &Route<Pool>, amounts: &Vec<(u128, u128)>, token_in: &AssetId, slippage_bp: u128) -> (r:
    Option<Vec<ExactOutPoolStep>>)
    requires
        slippage_bp <= WHOLE_BP,
        amounts@.len() == route@.len(),
    ensures
        match r {
            Some(pools) => out_pools(
                route@,
                amounts@,
                token_in@,
                slippage_bp,
                route@.len() as int,
            ) == Some(views(pools@)),
            None => out_pools(route@, amounts@, token_in@, slippage_bp, route@.len() as int) is None,
        },
{
    let mut pools: Vec<ExactOutPoolStep> = Vec::new();
    let mut current: AssetId = token_in.duplicate();
    let n: usize = route.steps.len();
    let mut i: usize = 0;
    assert(views(pools@) =~= Seq::<OutPoolView>::empty());
    while i < n
        invariant
            i <= n,
            n == route.steps@.len(),
            n == amounts@.len(),
            slippage_bp <= WHOLE_BP,
            out_pools(route@, amounts@, token_in@, slippage_bp, i as int) == Some(views(pools@)),
            current@ == if i == 0 {
                token_in@
            } else {
                route@[i - 1].token_out
            },
        decreases n - i,
    {
        proof {
            lemma_out_pools_none(route@, amounts@, token_in@, slippage_bp, i + 1, n as int);
        }
        let step: &RouteStep<Pool> = &route.steps[i];
        assert(route@[i as int] == step@);
        let most: u128 = match max_amount_of(amounts[i].0, slippage_bp) {
            Some(most) => most,
            None => {
                return None;
            },
        };
        let item: ExactOutPoolStep = ExactOutPoolStep {
            pool_id: step.pool.id,
            token_in: current.duplicate(),
            token_out: step.token_out.duplicate(),
            amount_in: amounts[i].0,
            amount_out: amounts[i].1,
            max_amount_in: most,
        };
        proof {
            lemma_views_push(pools@, item);
        }
        pools.push(item);
        current = step.token_out.duplicate();
        i = i + 1;
    }
    Some(pools)
}

/// Describes a split for an exact input to the caller.
fn exact_in_response(
    split: &SplitRoute<Pool>,
    token_in: &AssetId,
    token_out: &AssetId,
    amount: u128,
    slippage_bp: u128,
) -> (r: Result<SplitRouteApiResponse, OfferError>)
    requires
        slippage_bp <= WHOLE_BP,
    ensures
        offer_view(r) == offer(split@, token_in@, token_out@, QuoteAmount::ExactIn(amount), slippage_bp),
{
    let parts: Vec<u128> = match split_parts(split, amount) {
        Some(parts) => parts,
        None => {
            return Err(OfferError::Parts);
        },
    };
    let mut routes: Vec<ExactInRoute> = Vec::new();
    let mut total: u128 = 0;
    let mut delta: PoolsDelta<Pool> = PoolsDelta::new();
    let n: usize = split.steps.len();
    let mut i: usize = 0;
    assert(views(routes@) =~= Seq::<InRouteView>::empty());
    while i < n
        invariant
            i <= n,
            n == split.steps@.len(),
            n == parts@.len(),
            whole_shares(split@, amount) == Some(parts@),
            slippage_bp <= WHOLE_BP,
            in_routes(split@, parts@, i as int, token_in@, token_out@, slippage_bp) == Ok::<
                (Seq<InRouteView>, u128, DeltaView<Pool>),
                OfferError,
            >((views(routes@), total, delta@)),
        decreases n - i,
    {
        let step: &SplitRouteStep<Pool> = &split.steps[i];
        assert(split@[i as int] == step@);
        proof {
            lemma_in_routes_err(
                split@,
                parts@,
                i + 1,
                n as int,
                token_in@,
                token_out@,
                slippage_bp,
            );
        }
        let part: u128 = parts[i];
        let estimate: u128 = match step.route.emulate_swap_exact_in(token_in, token_out, part, delta) {
            Some((estimate, changed)) => {
                delta = changed;
                estimate
            },
            None => {
                return Err(OfferError::Emulation);
            },
        };
        let least: u128 = match min_amount_of(estimate, slippage_bp) {
            Some(least) => least,
            None => {
                return Err(OfferError::Bound);
            },
        };
        let item: ExactInRoute = ExactInRoute {
            pools: in_pools_of(&step.route, token_in, part, least),
            amount_in: part,
            min_amount_out: least,
            amount_out: estimate,
        };
        match total.checked_add(estimate) {
            Some(sum) => {
                total = sum;
            },
            None => {
                return Err(OfferError::TotalOut);
            },
        }
        proof {
            lemma_views_push(routes@, item);
        }
        routes.push(item);
        i = i + 1;
    }
    Ok(
        SplitRouteApiResponse::ExactIn {
            routes,
            contract_in: token_in.duplicate(),
            contract_out: token_out.duplicate(),
            amount_in: amount,
            amount_out: total,
        },
    )
}

/// Describes a split for an exact output to the caller.
fn exact_out_response(
    split: &SplitRoute<Pool>,
    token_in: &AssetId,
    token_out: &AssetId,
    amount: u128,
    slippage_bp: u128,
) -> (r: Result<SplitRouteApiResponse, OfferError>)
    requires
        slippage_bp <= WHOLE_BP,
    ensures
        offer_view(r) == offer(split@, token_in@, token_out@, QuoteAmount::ExactOut(amount), slippage_bp),
{
    let mut routes: Vec<ExactOutRoute> = Vec::new();
    let mut total: u128 = 0;
    let mut total_most: u128 = 0;
    let mut delta: PoolsDelta<Pool> = PoolsDelta::new();
    let n: usize = split.steps.len();
    let mut i: usize = 0;
    assert(views(routes@) =~= Seq::<OutRouteView>::empty());
    while i < n
        invariant
            i <= n,
            n == split.steps@.len(),
            slippage_bp <= WHOLE_BP,
            out_routes(split@, i as int, token_in@, token_out@, amount, slippage_bp) == Ok::<
                (Seq<OutRouteView>, u128, u128, DeltaView<Pool>),
                OfferError,
            >((views(routes@), total, total_most, delta@)),
        decreases n - i,
    {
        let step: &SplitRouteStep<Pool> = &split.steps[i];
        assert(split@[i as int] == step@);
        proof {
            lemma_out_routes_err(split@, i + 1, n as int, token_in@, token_out@, amount, slippage_bp);
        }
        let part: u128 = match mul_div(amount, step.weight as u128, 100) {
            Some(part) => part,
            None => {
                return Err(OfferError::Parts);
            },
        };
        let ghost before = delta@;
        let (taken, amounts): (u128, Vec<(u128, u128)>) = match step.route.emulate_swap_exact_out(
            token_in,
            token_out,
            part,
            delta,
        ) {
            Some((taken, amounts, changed)) => {
                delta = changed;
                (taken, amounts)
            },
            None => {
                return Err(OfferError::Emulation);
            },
        };
        proof {
            lemma_purchase_len(step.route@, token_in@, token_out@, part, before);
        }
        let most: u128 = match max_amount_of(taken, slippage_bp) {
            Some(most) => most,
            None => {
                return Err(OfferError::Bound);
            },
        };
        let pools: Vec<ExactOutPoolStep> = match out_pools_of(
            &step.route,
            &amounts,
            token_in,
            slippage_bp,
        ) {
            Some(pools) => pools,
            None => {
                return Err(OfferError::Bound);
            },
        };
        match total.checked_add(taken) {
            Some(sum) => {
                total = sum;
            },
            None => {
                return Err(OfferError::TotalIn);
            },
        }
        match total_most.checked_add(most) {
            Some(sum) => {
                total_most = sum;
            },
            None => {
                return Err(OfferError::TotalMost);
            },
        }
        let item: ExactOutRoute = ExactOutRoute {
            pools,
            amount_in: taken,
            max_amount_in: most,
            amount_out: part,
        };
        proof {
            lemma_views_push(routes@, item);
        }
        routes.push(item);
        i = i + 1;
    }
    Ok(
        SplitRouteApiResponse::ExactOut {
            routes,
            contract_in: token_in.duplicate(),
            contract_out: token_out.duplicate(),
            amount_in: total,
            max_amount_in: total_most,
            amount_out: amount,
        },
    )
}

/// A purchase has amounts for every step.
proof fn lemma_purchase_len(
    route: RouteView<Pool>,
    token_in: AssetIdView,
    token_out: AssetIdView,
    amount: u128,
    delta: DeltaView<Pool>,
)
    ensures
        route_purchase::<Pool>(route, token_in, token_out, amount, delta) matches Some((_, amounts, _))
            ==> amounts.len() == route.len(),
{
    lemma_buy_steps_len(route, route.len() as int, token_out, amount, delta);
}

proof fn lemma_buy_steps_len(
    route: RouteView<Pool>,
    k: int,
    token_out: AssetIdView,
    amount: u128,
    delta: DeltaView<Pool>,
)
    requires
        0 <= k,
    ensures
        buy_steps::<Pool>(route, k, token_out, amount, delta) matches Some((_, _, amounts, _))
            ==> amounts.len() == k,
    decreases k,
{
    if k > 0 {
        lemma_buy_steps_len(route, k - 1, token_out, amount, delta);
    }
}

/// The view of an offer, where there is one.
pub open spec fn offer_view(r: Result<SplitRouteApiResponse, OfferError>) -> Result<OfferView, OfferError> {
    match r {
        Ok(response) => Ok(response@),
        Err(e) => Err(e),
    }
}

/// Describes a split to the caller.
pub fn to_api_response(
    split: &SplitRoute<Pool>,
    token_in: &AssetId,
    token_out: &AssetId,
    amount: QuoteAmount,
    slippage_bp: u128,
) -> (r: Result<SplitRouteApiResponse, OfferError>)
    requires
        slippage_bp <= WHOLE_BP,
    ensures
        offer_view(r) == offer(split@, token_in@, token_out@, amount, slippage_bp),
{
    match amount {
        QuoteAmount::ExactIn(amount_in) => exact_in_response(
            split,
            token_in,
            token_out,
            amount_in,
            slippage_bp,
        ),
        QuoteAmount::ExactOut(amount_out) => exact_out_response(
            split,
            token_in,
            token_out,
            amount_out,
            slippage_bp,
        ),
    }
}

/// Describing a split for an exact output emulates it as it was emulated
/// before.
proof fn lemma_out_as_emulated(
    split: SplitView<Pool>,
    k: int,
    token_in: AssetIdView,
    token_out: AssetIdView,
    amount: u128,
    slippage_bp: u128,
)
    requires
        buy_shares::<Pool>(split, k, token_in, token_out, amount) is Some,
    ensures
        match out_routes(split, k, token_in, token_out, amount, slippage_bp) {
            Ok((_, total, _, delta)) => buy_shares::<Pool>(split, k, token_in, token_out, amount) == Some(
                (total, delta),
            ),
            Err(e) => e == OfferError::Bound || e == OfferError::TotalMost,
        },
    decreases k,
{
    if k > 0 {
        lemma_out_as_emulated(split, k - 1, token_in, token_out, amount, slippage_bp);
    }
}

/// One or two shares that are the whole leave at most one unit over.
proof fn lemma_whole_shares(split: SplitView<Pool>, amount: u128)
    requires
        1 <= split.len() <= 2,
        split_total::<Pool>(split, split.len() as int) == 100,
    ensures
        whole_shares(split, amount) is Some,
{
    reveal_with_fuel(split_total, 3);
    reveal_with_fuel(shares, 3);
    reveal_with_fuel(parts_sum, 3);
    let a = amount as int;
    let w = split[0].weight as int;
    let v = if split.len() == 2 {
        split[1].weight as int
    } else {
        0
    };
    let p = a * w / 100;
    let q = a * v / 100;
    assert(a * w + a * v == a * 100) by (nonlinear_arith)
        requires
            w + v == 100,
    ;
    assert(0 <= a * w && 0 <= a * v) by (nonlinear_arith)
        requires
            a >= 0,
            w >= 0,
            v >= 0,
    ;
    assert(a - 1 <= p + q <= a);
    assert(share(amount, split[0].weight) == Some(p as u128));
    let one = Seq::<u128>::empty().push(p as u128);
    assert(shares(split, amount, 1) == Some(one));
    if split.len() == 2 {
        assert(share(amount, split[1].weight) == Some(q as u128));
        let two = one.push(q as u128);
        assert(shares(split, amount, 2) == Some(two));
        assert(parts_sum(two, 2) == p + q);
    } else {
        assert(parts_sum(one, 1) == p);
    }
}

/// A split that was chosen for an exact output is offered, unless what it
/// takes at most does not fit; what it is said to take is what the choice went
/// by. For an exact input the shares always make up the amount. The choice
/// never fails for want of emulation.
pub proof fn chosen_split_is_offered(
    pools: Seq<PoolView>,
    token_in: AssetIdView,
    token_out: AssetIdView,
    quote: QuoteAmount,
    max_hops: MaxHops,
    slippage_bp: u128,
)
    ensures
        match offered_split(pools, token_in, token_out, quote, max_hops) {
            Ok(split) => match (quote, offer(split, token_in, token_out, quote, slippage_bp)) {
                (QuoteAmount::ExactOut(_), Ok(offer)) => split_amount::<Pool>(split, token_in, token_out, quote)
                    == Some(offer->ExactOut_amount_in),
                (QuoteAmount::ExactOut(_), Err(e)) => e == OfferError::Bound || e == OfferError::TotalMost,
                (QuoteAmount::ExactIn(_), Ok(_)) => true,
                (QuoteAmount::ExactIn(_), Err(e)) => e == OfferError::Emulation || e == OfferError::Bound || e
                    == OfferError::TotalOut,
            },
            Err(e) => e != RouteError::Emulation,
        },
{
    let routes = best_routes::<Pool>(pools, quote, token_in, token_out, max_hops, TOP_ROUTES_COUNT as nat);
    let step = slice_size(routes, quote, token_in, token_out);
    choice_is_emulated::<Pool>(routes, step, true, quote, token_in, token_out);
    match (offered_split(pools, token_in, token_out, quote, max_hops), quote) {
        (Ok(split), QuoteAmount::ExactOut(amount)) => {
            lemma_out_as_emulated(split, split.len() as int, token_in, token_out, amount, slippage_bp);
        },
        (Ok(split), QuoteAmount::ExactIn(amount)) => {
            chosen_shares_fall::<Pool>(routes, step, true, quote, token_in, token_out);
            chosen_shares_are_the_whole::<Pool>(routes, step, quote, token_in, token_out);
            lemma_whole_shares(split, amount);
            let parts = whole_shares(split, amount)->0;
            lemma_in_errors(split, parts, split.len() as int, token_in, token_out, slippage_bp);
        },
        _ => {},
    }
}

/// How describing a split for an exact input can fail.
proof fn lemma_in_errors(
    split: SplitView<Pool>,
    parts: Seq<u128>,
    k: int,
    token_in: AssetIdView,
    token_out: AssetIdView,
    slippage_bp: u128,
)
    ensures
        in_routes(split, parts, k, token_in, token_out, slippage_bp) matches Err(e) ==> e == OfferError::Emulation || e
            == OfferError::Bound || e == OfferError::TotalOut,
    decreases k,
{
    if k > 0 {
        lemma_in_errors(split, parts, k - 1, token_in, token_out, slippage_bp);
    }
}

/// What is offered goes through at most two routes, the largest share first,
/// in whole percents; a small amount goes in quarters.
pub proof fn small_amounts_go_in_quarters(
    pools: Seq<PoolView>,
    token_in: AssetIdView,
    token_out: AssetIdView,
    quote: QuoteAmount,
    max_hops: MaxHops,
)
    ensures
        offered_split(pools, token_in, token_out, quote, max_hops) matches Ok(split) ==> {
            let routes = best_routes::<Pool>(pools, quote, token_in, token_out, max_hops, TOP_ROUTES_COUNT as nat);
            &&& split.len() <= 2
            &&& forall|i: int, j: int| 0 <= i <= j < split.len() ==> split[i].weight >= split[j].weight
            &&& forall|i: int| 0 <= i < split.len() ==> 0 < (#[trigger] split[i]).weight <= 100
            &&& is_small(routes, quote, token_in, token_out) ==> forall|i: int|
                0 <= i < split.len() ==> (#[trigger] split[i]).weight % 25 == 0
        },
{
    let routes = best_routes::<Pool>(pools, quote, token_in, token_out, max_hops, TOP_ROUTES_COUNT as nat);
    let step = slice_size(routes, quote, token_in, token_out);
    chosen_shares_fall::<Pool>(routes, step, true, quote, token_in, token_out);
}

/// The amount that a query names, where it names exactly one.
pub open spec fn queried_amount(amount_in: Option<u128>, amount_out: Option<u128>) -> Option<QuoteAmount> {
    match (amount_in, amount_out) {
        (Some(amount), None) => Some(QuoteAmount::ExactIn(amount)),
        (None, Some(amount)) => Some(QuoteAmount::ExactOut(amount)),
        _ => None,
    }
}

/// The message for a route that was not found.
pub open spec fn route_error_text(e: RouteError) -> Seq<char> {
    match e {
        RouteError::NoRoutes => "No routes found"@,
        RouteError::NoSplit => "No valid split route found"@,
        RouteError::Emulation => "Cannot emulate the route"@,
        RouteError::Zero => "Estimated amount is 0"@,
    }
}

/// The message for a split that cannot be offered.
pub open spec fn offer_error_text(e: OfferError) -> Seq<char> {
    match e {
        OfferError::Emulation => "Panic: Any { .. }"@,
        OfferError::TotalOut => "Total estimated out overflows u128"@,
        OfferError::TotalIn => "Total estimated in overflows u128"@,
        OfferError::TotalMost => "Total max in overflows u128"@,
        _ => "Cannot build the response"@,
    }
}

/// The message for a split that cannot be offered.
fn offer_error_message(e: OfferError) -> (r: String)
    ensures
        r@ == offer_error_text(e),
{
    match e {
        OfferError::Emulation => "Panic: Any { .. }".to_owned(),
        OfferError::TotalOut => "Total estimated out overflows u128".to_owned(),
        OfferError::TotalIn => "Total estimated in overflows u128".to_owned(),
        OfferError::TotalMost => "Total max in overflows u128".to_owned(),
        _ => "Cannot build the response".to_owned(),
    }
}

/// The message for a route that was not found.
fn route_error_message(e: RouteError) -> (r: String)
    ensures
        r@ == route_error_text(e),
{
    match e {
        RouteError::NoRoutes => "No routes found".to_owned(),
        RouteError::NoSplit => "No valid split route found".to_owned(),
        RouteError::Emulation => "Cannot emulate the route".to_owned(),
        RouteError::Zero => "Estimated amount is 0".to_owned(),
    }
}

/// The code, the message and the data of the answer to a query.
pub open spec fn path_answer(
    pools: Seq<PoolView>,
    token_in: AssetIdView,
    token_out: AssetIdView,
    amount_in: Option<u128>,
    amount_out: Option<u128>,
    max_hops: MaxHops,
    slippage: DecimalView,
) -> (i32, Seq<char>, Option<OfferView>) {
    match queried_amount(amount_in, amount_out) {
        None => (RC_ROUTE_ERROR, "Provide either amountIn or amountOut"@, None),
        Some(quote) => match slippage_bp(slippage) {
            None => (RC_INVALID_SLIPPAGE, "Invalid slippage"@, None),
            Some(bp) => match offered_split(pools, token_in, token_out, quote, max_hops) {
                Err(e) => (RC_ROUTE_ERROR, route_error_text(e), None),
                Ok(split) => match offer(split, token_in, token_out, quote, bp) {
                    Err(e) => (RC_RESPONSE_BUILD_ERROR, offer_error_text(e), None),
                    Ok(offer) => (RC_SUCCESS, ""@, Some(offer)),
                },
            },
        },
    }
}

/// Answers a query for a path.
pub fn handle_find_path(
    pools: &Pools<Pool>,
    token_in: &AssetId,
    token_out: &AssetId,
    amount_in: Option<u128>,
    amount_out: Option<u128>,
    max_hops: MaxHops,
    slippage: &Decimal,
) -> (r: ApiResponse<SplitRouteApiResponse>)
    requires
        slippage@.bounded(),
    ensures
        r.answer() == path_answer(
            pools@,
            token_in@,
            token_out@,
            amount_in,
            amount_out,
            max_hops,
            slippage@,
        ),
{
    let quote: QuoteAmount = match (amount_in, amount_out) {
        (Some(amount), None) => QuoteAmount::ExactIn(amount),
        (None, Some(amount)) => QuoteAmount::ExactOut(amount),
        _ => {
            return ApiResponse::failure(
                RC_ROUTE_ERROR,
                "Provide either amountIn or amountOut".to_owned(),
            );
        },
    };
    let bp: u128 = match bp_of(slippage) {
        Some(bp) => bp,
        None => {
            return ApiResponse::failure(RC_INVALID_SLIPPAGE, "Invalid slippage".to_owned());
        },
    };
    match route(token_in, token_out, quote, pools, max_hops) {
        Ok(split) => match to_api_response(&split, token_in, token_out, quote, bp) {
            Ok(data) => ApiResponse::success(data),
            Err(e) => ApiResponse::failure(RC_RESPONSE_BUILD_ERROR, offer_error_message(e)),
        },
        Err(e) => ApiResponse::failure(RC_ROUTE_ERROR, route_error_message(e)),
    }
}

} // verus!
