//! Routes through the pools of Rhea.

use vstd::prelude::*;

use super::amounts::{answers, make_route, nep141, referrer, referrer_of, route_of, wallet_nep141};
use super::views::{path_url, url_for_path};
use crate::account::AccountId;
use crate::decimal::Decimal;
use crate::ident::Ident;
use crate::json::{
    field_views, item_views, json_text, lemma_object_view, no_fields, to_string, Json, JsonArray, JsonField,
    JsonObject, JsonView,
};
use crate::network::{Network, NetworkState};
use crate::pathfinder::search::MaxHops;
use crate::shared_utils::{
    amount_json, amount_text, call, call_action, contract, convert_to_nep141, deposit_storage_if_needed, followed_by,
    input_instructions, nep141_of, one_transaction, storage_if_needed, transaction, wallet_token, DEFAULT_REFERRER_ID,
    RHEA_CONTRACT,
};
use crate::slippage::{get_slippage, slippage_of, Market};
use crate::text::{parse_u64, same_text, u64_of_text};
use crate::types::{
    opt_route, Action, ActionView, Amount, DexId, ExecutionInstruction, RequestView, Route, RouteView, SwapRequest,
    TokenId, TokenIdView,
};

verus! {

/// Routes through the pools of Rhea.
pub struct RheaProvider;

/// One of the routes that the path finder splits an amount over.
#[derive(Debug, PartialEq)]
pub struct RheaSmartRouterRoute {
    pub pools: Vec<Json>,
    pub min_amount_out: u128,
}

/// What the path finder offers.
#[derive(Debug, PartialEq)]
pub struct RheaSmartRouterResultData {
    pub routes: Vec<RheaSmartRouterRoute>,
    pub amount_out: u128,
}

/// One of the routes that the path finder splits an amount over.
pub struct RheaRouteView {
    pub pools: Seq<JsonView>,
    pub least: u128,
}

/// What the path finder offers.
pub struct RheaOfferView {
    pub routes: Seq<RheaRouteView>,
    pub amount_out: u128,
}

impl View for RheaSmartRouterRoute {
    type V = RheaRouteView;

    open spec fn view(&self) -> RheaRouteView {
        RheaRouteView { pools: item_views(self.pools@), least: self.min_amount_out }
    }
}

/// The routes of an offer.
pub open spec fn rhea_routes(routes: Seq<RheaSmartRouterRoute>) -> Seq<RheaRouteView> {
    Seq::new(routes.len(), |i: int| routes[i]@)
}

impl View for RheaSmartRouterResultData {
    type V = RheaOfferView;

    open spec fn view(&self) -> RheaOfferView {
        RheaOfferView { routes: rhea_routes(self.routes@), amount_out: self.amount_out }
    }
}

/// What the path finder is asked.
#[derive(Debug, PartialEq)]
pub struct RheaQuery {
    pub token_in: AccountId,
    pub token_out: AccountId,
    pub amount_in: u128,
    pub slippage: Decimal,
}

/// Where the path finder listens.
pub const RHEA_PATH_FINDER: &'static str = "http://localhost:12345";

impl RheaQuery {
    /// Where the path finder is asked.
    pub fn url(&self) -> (r: String)
        ensures
            r@ == path_url(
                RHEA_PATH_FINDER@,
                self.token_in@,
                self.token_out@,
                MaxHops::Four,
                self.slippage@,
                Amount::AmountIn(self.amount_in),
            ),
    {
        url_for_path(
            RHEA_PATH_FINDER,
            self.token_in.as_str(),
            self.token_out.as_str(),
            MaxHops::Four,
            &self.slippage,
            Amount::AmountIn(self.amount_in),
        )
    }
}

/// A field of a step as the contract takes it: the number of the pool as a
/// number, and no input of nothing.
pub open spec fn step_field(key: Seq<char>, value: JsonView) -> Option<(Seq<char>, JsonView)> {
    if key == "amount_in"@ && value == JsonView::Text("0"@) {
        None
    } else if key == "pool_id"@ {
        match value {
            JsonView::Text(text) => match u64_of_text(text) {
                Some(n) => Some((key, JsonView::Number(n))),
                None => Some((key, value)),
            },
            _ => Some((key, value)),
        }
    } else {
        Some((key, value))
    }
}

/// The first `k` fields of a step as the contract takes them.
pub open spec fn step_fields(fields: Seq<(Seq<char>, JsonView)>, k: int) -> Seq<(Seq<char>, JsonView)>
    decreases k,
{
    if k <= 0 {
        no_fields()
    } else {
        match step_field(fields[k - 1].0, fields[k - 1].1) {
            Some(field) => step_fields(fields, k - 1).push(field),
            None => step_fields(fields, k - 1),
        }
    }
}

/// A step as the contract takes it.
pub open spec fn step_of(step: JsonView) -> JsonView {
    match step {
        JsonView::Object(fields) => JsonView::Object(step_fields(fields, fields.len() as int)),
        _ => step,
    }
}

/// A field of a step as the contract takes it.
fn make_step_field(field: &JsonField) -> (r: Option<Json>)
    ensures
        match r {
            Some(value) => step_field(field.key@, field.value@) == Some((field.key@, value@)),
            None => step_field(field.key@, field.value@) is None,
        },
{
    let key: &str = field.key.as_str();
    if same_text(key, "amount_in") {
        let nothing: bool = match &field.value {
            Json::Text(text) => same_text(text.as_str(), "0"),
            _ => false,
        };
        if nothing {
            return None;
        }
    }
    if same_text(key, "pool_id") {
        match &field.value {
            Json::Text(text) => match parse_u64(text.as_str()) {
                Some(n) => {
                    return Some(Json::Number(n));
                },
                None => {},
            },
            _ => {},
        }
    }
    Some(field.value.duplicate())
}

/// A step as the contract takes it.
pub fn rewrite_step(step: &Json) -> (r: Json)
    ensures
        r@ == step_of(step@),
{
    match step {
        Json::Object(fields) => {
            proof {
                lemma_object_view(*fields);
            }
            let ghost all = field_views(fields@);
            let mut out: JsonObject = JsonObject::new();
            let mut i: usize = 0;
            while i < fields.len()
                invariant
                    i <= fields@.len(),
                    all == field_views(fields@),
                    out@ == step_fields(all, i as int),
                decreases fields@.len() - i,
            {
                let field: &JsonField = &fields[i];
                assert(all[i as int] == (field.key@, field.value@));
                match make_step_field(field) {
                    Some(value) => {
                        out = out.with(field.key.as_str(), value);
                    },
                    None => {},
                }
                i = i + 1;
            }
            out.done()
        },
        other => other.duplicate(),
    }
}

/// The steps as the contract takes them.
pub open spec fn steps_of(steps: Seq<JsonView>) -> Seq<JsonView> {
    Seq::new(steps.len(), |i: int| step_of(steps[i]))
}

/// The steps of the first `k` routes, one route after the other.
pub open spec fn rhea_steps(routes: Seq<RheaRouteView>, k: int) -> Seq<JsonView>
    decreases k,
{
    if k <= 0 {
        Seq::empty()
    } else {
        rhea_steps(routes, k - 1) + routes[k - 1].pools
    }
}

/// What the first `k` routes give at least, together.
pub open spec fn least_total(routes: Seq<RheaRouteView>, k: int) -> nat
    decreases k,
{
    if k <= 0 {
        0
    } else {
        least_total(routes, k - 1) + routes[k - 1].least as nat
    }
}

/// The sum grows with every route.
proof fn lemma_least_total(routes: Seq<RheaRouteView>, i: int, j: int)
    requires
        0 <= i <= j,
    ensures
        least_total(routes, i) <= least_total(routes, j),
    decreases j,
{
    if i < j {
        lemma_least_total(routes, i, j - 1);
    }
}

/// The steps of all routes as the contract takes them.
fn collect_steps(routes: &Vec<RheaSmartRouterRoute>) -> (r: JsonArray)
    ensures
        r@ == steps_of(rhea_steps(rhea_routes(routes@), routes@.len() as int)),
{
    let mut out: JsonArray = JsonArray::new();
    let ghost all = rhea_routes(routes@);
    assert(out@ =~= steps_of(rhea_steps(all, 0)));
    let mut i: usize = 0;
    while i < routes.len()
        invariant
            i <= routes@.len(),
            all == rhea_routes(routes@),
            out@ == steps_of(rhea_steps(all, i as int)),
        decreases routes@.len() - i,
    {
        let pools: &Vec<Json> = &routes[i].pools;
        let ghost start = rhea_steps(all, i as int);
        let ghost steps = item_views(pools@);
        assert(all[i as int].pools == steps);
        assert(start + steps.take(0) =~= start);
        let mut j: usize = 0;
        while j < pools.len()
            invariant
                j <= pools@.len(),
                steps == item_views(pools@),
                out@ == steps_of(start + steps.take(j as int)),
            decreases pools@.len() - j,
        {
            let ghost before = out@;
            out = out.with(rewrite_step(&pools[j]));
            proof {
                let step = pools@[j as int]@;
                assert(steps[j as int] == step);
                assert(start + steps.take(j + 1) =~= (start + steps.take(j as int)).push(step));
                assert(steps_of(start + steps.take(j + 1)) =~= before.push(step_of(step)));
            }
            j = j + 1;
        }
        assert(steps.take(steps.len() as int) =~= steps);
        i = i + 1;
    }
    out
}

/// What the routes give at least, together.
fn sum_of_least(routes: &Vec<RheaSmartRouterRoute>) -> (r: Option<u128>)
    ensures
        match r {
            Some(sum) => sum == least_total(rhea_routes(routes@), routes@.len() as int),
            None => least_total(rhea_routes(routes@), routes@.len() as int) > u128::MAX,
        },
{
    let ghost all = rhea_routes(routes@);
    let mut sum: u128 = 0;
    let mut i: usize = 0;
    while i < routes.len()
        invariant
            i <= routes@.len(),
            all == rhea_routes(routes@),
            sum == least_total(all, i as int),
        decreases routes@.len() - i,
    {
        assert(all[i as int].least == routes@[i as int].min_amount_out);
        match sum.checked_add(routes[i].min_amount_out) {
            Some(more) => {
                sum = more;
            },
            None => {
                proof {
                    lemma_least_total(all, i + 1, routes@.len() as int);
                }
                return None;
            },
        }
        i = i + 1;
    }
    Some(sum)
}

/// The two tokens and the exact input of the request, where they differ.
pub open spec fn rhea_request(request: RequestView) -> Option<(Seq<char>, Seq<char>, u128)> {
    match (request.amount, nep141_of(request.token_in), nep141_of(request.token_out)) {
        (Amount::AmountIn(amount), Some(token_in), Some(token_out)) => if token_in == token_out {
            None
        } else {
            Some((token_in, token_out, amount))
        },
        _ => None,
    }
}

/// Whether both tokens are in inner balances on Rhea.
pub open spec fn stays_on_rhea(request: RequestView) -> bool {
    request.token_in is Nep141OnRhea && request.token_out is Nep141OnRhea
}

/// What swaps within the inner balances.
pub open spec fn inner_swap_action(actions: Seq<JsonView>) -> ActionView {
    call(
        "swap"@,
        JsonView::Object(
            no_fields().push(("actions"@, JsonView::Array(actions))).push(
                ("referral_id"@, JsonView::Text(DEFAULT_REFERRER_ID@)),
            ),
        ),
        150,
        1,
    )
}

/// What Rhea is told to do with the tokens that are sent.
pub open spec fn swap_message(actions: Seq<JsonView>, unwraps: bool, referrer: Seq<char>) -> JsonView {
    JsonView::Object(
        no_fields().push(("force"@, JsonView::Number(0))).push(("actions"@, JsonView::Array(actions))).push(
            ("skip_degen_price_sync"@, JsonView::Bool(true)),
        ).push(("skip_unwrap_near"@, JsonView::Bool(!unwraps))).push(("referral_id"@, JsonView::Text(referrer))),
    )
}

/// What sends tokens to Rhea with a message.
pub open spec fn transfer_action(amount: u128, message: JsonView) -> ActionView {
    call(
        "ft_transfer_call"@,
        JsonView::Object(
            no_fields().push(("receiver_id"@, JsonView::Text(RHEA_CONTRACT@))).push(
                ("amount"@, amount_json(amount)),
            ).push(("msg"@, JsonView::Text(json_text(message)))),
        ),
        150,
        1,
    )
}

/// What sends tokens to Rhea with a message.
fn create_transfer_action(amount: u128, message: &Json) -> (r: Action)
    ensures
        r@ == transfer_action(amount, message@),
{
    let args: Json = JsonObject::new().with_text("receiver_id", RHEA_CONTRACT).with(
        "amount",
        amount_text(amount),
    ).with_text("msg", to_string(message).as_str()).done();
    call_action("ft_transfer_call", args, 150, 1)
}

/// The token that the route ends with, outside of the inner balances.
pub open spec fn rhea_output(request: RequestView, token_out: Seq<char>) -> TokenIdView {
    if request.token_out is Near {
        TokenIdView::Near
    } else {
        nep141(token_out)
    }
}

/// The route for what the path finder offers.
pub open spec fn rhea_route(request: RequestView, network: NetworkState, offer: Option<RheaOfferView>) -> Option<
    RouteView,
> {
    match (rhea_request(request), offer) {
        (Some((token_in, token_out, amount)), Some(offer)) => {
            let count = offer.routes.len() as int;
            let least = least_total(offer.routes, count);
            if count == 0 || least > u128::MAX {
                None
            } else {
                let actions = steps_of(rhea_steps(offer.routes, count));
                let estimated = Amount::AmountOut(offer.amount_out);
                let worst = Amount::AmountOut(least as u128);
                if stays_on_rhea(request) {
                    Some(
                        route_of(
                            DexId::Rhea,
                            true,
                            estimated,
                            worst,
                            transaction(RHEA_CONTRACT@, inner_swap_action(actions)),
                            request.token_out,
                        ),
                    )
                } else {
                    let message = swap_message(actions, request.token_out is Near, referrer_of(request.referrer));
                    let output = rhea_output(request, token_out);
                    Some(
                        route_of(
                            DexId::Rhea,
                            true,
                            estimated,
                            worst,
                            storage_if_needed(network, output, request.trader) + storage_if_needed(
                                network,
                                nep141(token_in),
                                request.trader,
                            ) + input_instructions(request.token_in, amount) + transaction(
                                token_in,
                                transfer_action(amount, message),
                            ),
                            output,
                        ),
                    )
                }
            }
        },
        _ => None,
    }
}

/// The two tokens and the exact input of the request.
fn request_of(request: &SwapRequest) -> (r: Option<(AccountId, AccountId, u128)>)
    ensures
        match r {
            Some(r) => rhea_request(request@) == Some((r.0@, r.1@, r.2)),
            None => rhea_request(request@) is None,
        },
{
    let amount: u128 = match request.amount {
        Amount::AmountIn(amount) => amount,
        Amount::AmountOut(_) => {
            return None;
        },
    };
    match (wallet_token(&request.token_in), wallet_token(&request.token_out)) {
        (Some(token_in), Some(token_out)) => {
            if token_in.same(&token_out) {
                None
            } else {
                Some((token_in, token_out, amount))
            }
        },
        _ => None,
    }
}

impl RheaProvider {
    /// The name of the exchange.
    pub fn dex_id(&self) -> (r: DexId)
        ensures
            r == DexId::Rhea,
    {
        DexId::Rhea
    }

    /// What the path finder is to be asked, if it is.
    pub fn query(&self, request: &SwapRequest, market: &Market) -> (r: Option<RheaQuery>)
        requires
            market@.valid(),
            request@.slippage.valid(),
        ensures
            match r {
                Some(query) => {
                    &&& rhea_request(request@) == Some((query.token_in@, query.token_out@, query.amount_in))
                    &&& query.slippage@ == slippage_of(
                        market@,
                        request@.slippage,
                        request@.token_in,
                        request@.token_out,
                    )
                },
                None => rhea_request(request@) is None,
            },
    {
        match request_of(request) {
            Some((token_in, token_out, amount_in)) => {
                let slippage: Decimal = get_slippage(
                    market,
                    &request.slippage,
                    &request.token_in,
                    &request.token_out,
                );
                Some(RheaQuery { token_in, token_out, amount_in, slippage })
            },
            None => None,
        }
    }

    /// The route for what the path finder offers, if it does.
    pub fn route(&self, request: &SwapRequest, network: &Network, offer: &Option<RheaSmartRouterResultData>) -> (r: Option<
        Route,
    >)
        ensures
            opt_route(r) == rhea_route(
                request@,
                network@,
                match offer {
                    Some(offer) => Some(offer@),
                    None => None,
                },
            ),
            r matches Some(route) ==> answers(request@.amount, route@),
    {
        let (token_in, token_out, amount): (AccountId, AccountId, u128) = match request_of(request) {
            Some(r) => r,
            None => {
                return None;
            },
        };
        let offer: &RheaSmartRouterResultData = match offer {
            Some(offer) => offer,
            None => {
                return None;
            },
        };
        if offer.routes.len() == 0 {
            return None;
        }
        let least: u128 = match sum_of_least(&offer.routes) {
            Some(least) => least,
            None => {
                return None;
            },
        };
        let actions: Json = collect_steps(&offer.routes).done();
        let estimated: Amount = Amount::AmountOut(offer.amount_out);
        let worst: Amount = Amount::AmountOut(least);
        let inner: bool = match (&request.token_in, &request.token_out) {
            (TokenId::Nep141OnRhea(_), TokenId::Nep141OnRhea(_)) => true,
            _ => false,
        };
        if inner {
            let args: Json = JsonObject::new().with("actions", actions).with_text(
                "referral_id",
                DEFAULT_REFERRER_ID,
            ).done();
            let swap: Vec<ExecutionInstruction> = one_transaction(
                &contract(RHEA_CONTRACT),
                call_action("swap", args, 150, 1),
            );
            return Some(make_route(DexId::Rhea, true, estimated, worst, swap, request.token_out.duplicate()));
        }
        let unwraps: bool = match &request.token_out {
            TokenId::Near => true,
            _ => false,
        };
        let message: Json = JsonObject::new().with("force", Json::Number(0)).with("actions", actions).with(
            "skip_degen_price_sync",
            Json::Bool(true),
        ).with("skip_unwrap_near", Json::Bool(!unwraps)).with_text(
            "referral_id",
            referrer(&request.referrer_id).as_str(),
        ).done();
        let swap: Vec<ExecutionInstruction> = one_transaction(&token_in, create_transfer_action(amount, &message));
        let input: Vec<ExecutionInstruction> = match convert_to_nep141(&request.token_in, amount) {
            Some((input, _)) => input,
            None => {
                return None;
            },
        };
        let output: TokenId = if unwraps {
            TokenId::Near
        } else {
            TokenId::Nep141(token_out)
        };
        let storage: Vec<ExecutionInstruction> = followed_by(
            deposit_storage_if_needed(network, &output, &request.trader_account_id),
            deposit_storage_if_needed(network, &wallet_nep141(&token_in), &request.trader_account_id),
        );
        Some(
            make_route(
                DexId::Rhea,
                true,
                estimated,
                worst,
                followed_by(followed_by(storage, input), swap),
                output,
            ),
        )
    }
}

} // verus!
