//! Routes through the pools of Intear Plach.

use vstd::prelude::*;

use super::amounts::{answers, fixed_amount, make_route, nep141, referrer, referrer_of, route_of, wallet_nep141};
use super::views::{path_url, url_for_path};
use crate::account::{opt_account, valid_account_id, AccountId};
use crate::asset::{asset_text, AssetId, AssetIdView};
use crate::decimal::Decimal;
use crate::encoding::{base64_encode, base64_text, borsh_u32, le_bytes};
use crate::ident::{views, Ident};
use crate::json::{json_text, no_fields, no_items, to_string, Json, JsonArray, JsonObject, JsonView};
use crate::network::{Network, NetworkState};
use crate::pathfinder::search::MaxHops;
use crate::plach::api::{
    ExactInPoolStep, ExactInRoute, ExactOutPoolStep, ExactOutRoute, InPoolView, InRouteView, OfferView, OutPoolView,
    OutRouteView, SplitRouteApiResponse,
};
use crate::shared_utils::{
    amount_json, amount_text, call, call_action, contract, convert_to_native, convert_to_nep141,
    deposit_storage_if_needed, followed_by, input_instructions, is_near, near_token, nep141_of, no_args,
    no_instructions, none, nothing, one_transaction, one_transaction_of_two, storage_if_needed, to_native,
    transaction, transaction_of_two, wallet_token, INTEAR_CONTRACT, INTEAR_STORAGE_DEPOSIT,
};
use crate::slippage::{get_slippage, slippage_of, Market};
use crate::text::strip_prefix;
use crate::types::{
    instruction_views, opt_route, Action, ActionView, Amount, DexId, ExecutionInstruction, InstructionView,
    RequestView, Route, RouteView, SwapRequest, TokenId, TokenIdView,
};

verus! {

/// The name of the exchange on the Intear DEX.
pub const PLACH_DEX_ID: &'static str = "slimedragon.near/xyk";

/// Routes through the pools of Intear Plach.
pub struct IntearPlachProvider;

/// An account, or an exchange on the Intear DEX.
#[derive(Debug, PartialEq)]
pub enum AccountOrDexId {
    Account(AccountId),
    Dex(String),
}

/// An account, or an exchange on the Intear DEX.
pub enum AccountOrDexView {
    Account(Seq<char>),
    Dex(Seq<char>),
}

impl View for AccountOrDexId {
    type V = AccountOrDexView;

    open spec fn view(&self) -> AccountOrDexView {
        match self {
            AccountOrDexId::Account(account) => AccountOrDexView::Account(account@),
            AccountOrDexId::Dex(dex) => AccountOrDexView::Dex(dex@),
        }
    }
}

/// Why a text is neither an account nor an exchange.
#[derive(Clone, Copy, Debug, PartialEq, Eq, Structural)]
pub enum ParseHolderError {
    InvalidAccountId,
    /// The text starts with neither `account:` nor `dex:`.
    InvalidFormat,
}

/// What is left of a text after a prefix.
pub open spec fn after_prefix(s: Seq<char>, prefix: Seq<char>) -> Option<Seq<char>> {
    if prefix.is_prefix_of(s) {
        Some(s.subrange(prefix.len() as int, s.len() as int))
    } else {
        None
    }
}

/// The account or the exchange that a text stands for.
pub open spec fn parse_holder(s: Seq<char>) -> Result<AccountOrDexView, ParseHolderError> {
    match after_prefix(s, "account:"@) {
        Some(account) => if valid_account_id(account) {
            Ok(AccountOrDexView::Account(account))
        } else {
            Err(ParseHolderError::InvalidAccountId)
        },
        None => match after_prefix(s, "dex:"@) {
            Some(dex) => Ok(AccountOrDexView::Dex(dex)),
            None => Err(ParseHolderError::InvalidFormat),
        },
    }
}

/// What is left of a text after a prefix.
fn strip(s: &str, prefix: &str) -> (r: Option<String>)
    ensures
        match r {
            Some(rest) => after_prefix(s@, prefix@) == Some(rest@),
            None => after_prefix(s@, prefix@) is None,
        },
{
    let r: Option<String> = strip_prefix(s, prefix);
    proof {
        if r is Some {
            assert(s@.subrange(prefix@.len() as int, s@.len() as int) =~= r->0@);
        }
    }
    r
}

impl AccountOrDexId {
    /// Reads an account or an exchange.
    pub fn from_str(s: &str) -> (r: Result<AccountOrDexId, ParseHolderError>)
        ensures
            match r {
                Ok(holder) => parse_holder(s@) == Ok::<AccountOrDexView, ParseHolderError>(holder@),
                Err(e) => parse_holder(s@) == Err::<AccountOrDexView, ParseHolderError>(e),
            },
    {
        match strip(s, "account:") {
            Some(account) => match AccountId::parse(account.as_str()) {
                Some(account) => Ok(AccountOrDexId::Account(account)),
                None => Err(ParseHolderError::InvalidAccountId),
            },
            None => match strip(s, "dex:") {
                Some(dex) => Ok(AccountOrDexId::Dex(dex)),
                None => Err(ParseHolderError::InvalidFormat),
            },
        }
    }

    /// The account or the exchange as JSON.
    pub fn to_json(&self) -> (r: Json)
        ensures
            r@ == match self@ {
                AccountOrDexView::Account(account) => JsonView::Object(
                    no_fields().push(("Account"@, JsonView::Text(account))),
                ),
                AccountOrDexView::Dex(dex) => JsonView::Object(no_fields().push(("Dex"@, JsonView::Text(dex)))),
            },
    {
        match self {
            AccountOrDexId::Account(account) => JsonObject::new().with_text("Account", account.as_str()).done(),
            AccountOrDexId::Dex(dex) => JsonObject::new().with_text("Dex", dex.as_str()).done(),
        }
    }
}

/// The asset that a token becomes on the Intear DEX. The native coin in its
/// forms becomes the native coin, where the amount can be turned into it.
pub open spec fn plach_asset(token: TokenIdView, amount: u128) -> Option<AssetIdView> {
    match token {
        TokenIdView::TokenOnIntearDex(asset) => Some(asset),
        _ => if near_token(token) {
            match to_native(token, amount) {
                Some(_) => Some(AssetIdView::Near),
                None => None,
            }
        } else {
            match nep141_of(token) {
                Some(contract) => Some(AssetIdView::Nep141(contract)),
                None => None,
            }
        },
    }
}

/// The asset that a token becomes on the Intear DEX.
fn asset_on_plach(token: &TokenId, amount: u128) -> (r: Option<AssetId>)
    ensures
        match r {
            Some(asset) => plach_asset(token@, amount) == Some(asset@),
            None => plach_asset(token@, amount) is None,
        },
{
    match token {
        TokenId::TokenOnIntearDex(asset) => Some(asset.duplicate()),
        other => {
            if is_near(other) {
                match convert_to_native(other, amount) {
                    Some(_) => Some(AssetId::Near),
                    None => None,
                }
            } else {
                match wallet_token(other) {
                    Some(contract) => Some(AssetId::Nep141(contract)),
                    None => None,
                }
            }
        },
    }
}

/// The two assets of the request, where they differ.
pub open spec fn plach_assets(request: RequestView) -> Option<(AssetIdView, AssetIdView)> {
    match (
        plach_asset(request.token_in, fixed_amount(request.amount)),
        plach_asset(request.token_out, fixed_amount(request.amount)),
    ) {
        (Some(token_in), Some(token_out)) => if token_in == token_out {
            None
        } else {
            Some((token_in, token_out))
        },
        _ => None,
    }
}

/// What the path finder is asked.
#[derive(Debug, PartialEq)]
pub struct PlachQuery {
    pub token_in: AssetId,
    pub token_out: AssetId,
    pub amount: Amount,
    pub max_hops: MaxHops,
    pub slippage: Decimal,
}

/// Where the path finder listens.
pub const PLACH_PATH_FINDER: &'static str = "http://localhost:12346";

impl PlachQuery {
    /// Where the path finder is asked.
    pub fn url(&self) -> (r: String)
        ensures
            r@ == path_url(
                PLACH_PATH_FINDER@,
                asset_text(self.token_in@),
                asset_text(self.token_out@),
                self.max_hops,
                self.slippage@,
                self.amount,
            ),
    {
        url_for_path(
            PLACH_PATH_FINDER,
            self.token_in.to_text().as_str(),
            self.token_out.to_text().as_str(),
            self.max_hops,
            &self.slippage,
            self.amount,
        )
    }
}

/// The text, or nothing where the amount is.
pub open spec fn amount_or_null(amount: u128) -> JsonView {
    if amount > 0 {
        amount_json(amount)
    } else {
        JsonView::Null
    }
}

/// The text, or nothing where the amount is.
fn amount_or_nothing(amount: u128) -> (r: Json)
    ensures
        r@ == amount_or_null(amount),
{
    if amount > 0 {
        amount_text(amount)
    } else {
        Json::Null
    }
}

/// A swap in one pool.
pub open spec fn swap_operation(
    pool_id: u32,
    token_in: AssetIdView,
    token_out: AssetIdView,
    amount: JsonView,
    constraint: JsonView,
) -> JsonView {
    JsonView::Object(
        no_fields().push(
            (
                "SwapSimple"@,
                JsonView::Object(
                    no_fields().push(("dex_id"@, JsonView::Text(PLACH_DEX_ID@))).push(
                        ("message"@, JsonView::Text(base64_text(le_bytes(pool_id)))),
                    ).push(("asset_in"@, JsonView::Text(asset_text(token_in)))).push(
                        ("asset_out"@, JsonView::Text(asset_text(token_out))),
                    ).push(("amount"@, amount)).push(("constraint"@, constraint)),
                ),
            ),
        ),
    )
}

/// A swap in one pool.
fn make_swap_operation(pool_id: u32, token_in: &AssetId, token_out: &AssetId, amount: Json, constraint: Json) -> (r: Json)
    ensures
        r@ == swap_operation(pool_id, token_in@, token_out@, amount@, constraint@),
{
    let message: String = base64_encode(&borsh_u32(pool_id));
    let swap: Json = JsonObject::new().with_text("dex_id", PLACH_DEX_ID).with_text("message", message.as_str()).with_text(
        "asset_in",
        token_in.to_text().as_str(),
    ).with_text("asset_out", token_out.to_text().as_str()).with("amount", amount).with("constraint", constraint).done();
    JsonObject::new().with("SwapSimple", swap).done()
}

/// An exact amount on one side.
pub open spec fn exact_side(side: Seq<char>, amount: u128) -> JsonView {
    JsonView::Object(
        no_fields().push(("Amount"@, JsonView::Object(no_fields().push((side, amount_json(amount)))))),
    )
}

/// An exact amount on one side.
fn make_exact_side(side: &str, amount: u128) -> (r: Json)
    ensures
        r@ == exact_side(side@, amount),
{
    let exact: Json = JsonObject::new().with(side, amount_text(amount)).done();
    JsonObject::new().with("Amount", exact).done()
}

/// A swap of an exact input, or of what the swap before gave.
pub open spec fn in_operation(step: InPoolView) -> JsonView {
    swap_operation(
        step.pool_id,
        step.token_in,
        step.token_out,
        if step.amount_in > 0 {
            exact_side("ExactIn"@, step.amount_in)
        } else {
            JsonView::Text("OutputOfLastIn"@)
        },
        amount_or_null(step.min_amount_out),
    )
}

/// A swap for an exact output.
pub open spec fn out_operation(step: OutPoolView) -> JsonView {
    swap_operation(
        step.pool_id,
        step.token_in,
        step.token_out,
        exact_side("ExactOut"@, step.amount_out),
        amount_or_null(step.max_amount_in),
    )
}

/// The swaps of the steps.
pub open spec fn in_operations(steps: Seq<InPoolView>) -> Seq<JsonView> {
    Seq::new(steps.len(), |i: int| in_operation(steps[i]))
}

/// The swaps of the steps.
pub open spec fn out_operations(steps: Seq<OutPoolView>) -> Seq<JsonView> {
    Seq::new(steps.len(), |i: int| out_operation(steps[i]))
}

/// The steps of the first `k` routes, one route after the other.
pub open spec fn in_steps(routes: Seq<InRouteView>, k: int) -> Seq<InPoolView>
    decreases k,
{
    if k <= 0 {
        Seq::empty()
    } else {
        in_steps(routes, k - 1) + routes[k - 1].pools
    }
}

/// The steps of the first `k` routes, one route after the other.
pub open spec fn out_steps(routes: Seq<OutRouteView>, k: int) -> Seq<OutPoolView>
    decreases k,
{
    if k <= 0 {
        Seq::empty()
    } else {
        out_steps(routes, k - 1) + routes[k - 1].pools
    }
}

/// What the first `k` routes give at least, together.
pub open spec fn least_total(routes: Seq<InRouteView>, k: int) -> nat
    decreases k,
{
    if k <= 0 {
        0
    } else {
        least_total(routes, k - 1) + routes[k - 1].min_amount_out as nat
    }
}

/// The sum grows with every route.
proof fn lemma_least_total(routes: Seq<InRouteView>, i: int, j: int)
    requires
        0 <= i <= j,
    ensures
        least_total(routes, i) <= least_total(routes, j),
    decreases j,
{
    if i < j {
        lemma_least_total(routes, i, j - 1);
    }
}

/// What the path finder's offer comes to: the swaps, what they give at least,
/// what they take at most, and the amounts of the route.
pub struct SwapsView {
    pub operations: Seq<JsonView>,
    pub least_out: u128,
    pub most_in: u128,
    pub estimated: Amount,
    pub worst: Amount,
}

/// What the offer comes to; none where it has no routes, or what they give at
/// least does not fit.
pub open spec fn plach_swaps(offer: OfferView) -> Option<SwapsView> {
    match offer {
        OfferView::ExactIn { routes, amount_out, .. } => {
            let least = least_total(routes, routes.len() as int);
            if routes.len() == 0 || least > u128::MAX {
                None
            } else {
                Some(
                    SwapsView {
                        operations: in_operations(in_steps(routes, routes.len() as int)),
                        least_out: least as u128,
                        most_in: 0,
                        estimated: Amount::AmountOut(amount_out),
                        worst: Amount::AmountOut(least as u128),
                    },
                )
            }
        },
        OfferView::ExactOut { routes, amount_in, max_amount_in, .. } => if routes.len() == 0 {
            None
        } else {
            Some(
                SwapsView {
                    operations: out_operations(out_steps(routes, routes.len() as int)),
                    least_out: 0,
                    most_in: max_amount_in,
                    estimated: Amount::AmountIn(amount_in),
                    worst: Amount::AmountIn(max_amount_in),
                },
            )
        },
    }
}

/// What the path finder's offer comes to.
struct Swaps {
    operations: JsonArray,
    least_out: u128,
    most_in: u128,
    estimated: Amount,
    worst: Amount,
}

impl View for Swaps {
    type V = SwapsView;

    closed spec fn view(&self) -> SwapsView {
        SwapsView {
            operations: self.operations@,
            least_out: self.least_out,
            most_in: self.most_in,
            estimated: self.estimated,
            worst: self.worst,
        }
    }
}

/// A swap of an exact input, or of what the swap before gave.
fn make_in_operation(step: &ExactInPoolStep) -> (r: Json)
    ensures
        r@ == in_operation(step@),
{
    let amount: Json = if step.amount_in > 0 {
        make_exact_side("ExactIn", step.amount_in)
    } else {
        Json::text("OutputOfLastIn")
    };
    make_swap_operation(
        step.pool_id,
        &step.token_in,
        &step.token_out,
        amount,
        amount_or_nothing(step.min_amount_out),
    )
}

/// A swap for an exact output.
fn make_out_operation(step: &ExactOutPoolStep) -> (r: Json)
    ensures
        r@ == out_operation(step@),
{
    make_swap_operation(
        step.pool_id,
        &step.token_in,
        &step.token_out,
        make_exact_side("ExactOut", step.amount_out),
        amount_or_nothing(step.max_amount_in),
    )
}

/// The swaps of all routes.
fn collect_in(routes: &Vec<ExactInRoute>) -> (r: JsonArray)
    ensures
        r@ == in_operations(in_steps(views(routes@), routes@.len() as int)),
{
    let mut out: JsonArray = JsonArray::new();
    let ghost all = views(routes@);
    assert(in_operations(in_steps(all, 0)) =~= no_items());
    let mut i: usize = 0;
    while i < routes.len()
        invariant
            i <= routes@.len(),
            all == views(routes@),
            out@ == in_operations(in_steps(all, i as int)),
        decreases routes@.len() - i,
    {
        let pools: &Vec<ExactInPoolStep> = &routes[i].pools;
        let ghost start = in_steps(all, i as int);
        let ghost steps = views(pools@);
        assert(all[i as int].pools == steps);
        assert(start + steps.take(0) =~= start);
        let mut j: usize = 0;
        while j < pools.len()
            invariant
                j <= pools@.len(),
                steps == views(pools@),
                out@ == in_operations(start + steps.take(j as int)),
            decreases pools@.len() - j,
        {
            let step: &ExactInPoolStep = &pools[j];
            let ghost before = out@;
            out = out.with(make_in_operation(step));
            proof {
                assert(steps[j as int] == step@);
                assert(start + steps.take(j + 1) =~= (start + steps.take(j as int)).push(step@));
                assert(in_operations(start + steps.take(j + 1)) =~= before.push(in_operation(step@)));
            }
            j = j + 1;
        }
        assert(steps.take(steps.len() as int) =~= steps);
        i = i + 1;
    }
    out
}

/// The swaps of all routes.
fn collect_out(routes: &Vec<ExactOutRoute>) -> (r: JsonArray)
    ensures
        r@ == out_operations(out_steps(views(routes@), routes@.len() as int)),
{
    let mut out: JsonArray = JsonArray::new();
    let ghost all = views(routes@);
    assert(out_operations(out_steps(all, 0)) =~= no_items());
    let mut i: usize = 0;
    while i < routes.len()
        invariant
            i <= routes@.len(),
            all == views(routes@),
            out@ == out_operations(out_steps(all, i as int)),
        decreases routes@.len() - i,
    {
        let pools: &Vec<ExactOutPoolStep> = &routes[i].pools;
        let ghost start = out_steps(all, i as int);
        let ghost steps = views(pools@);
        assert(all[i as int].pools == steps);
        assert(start + steps.take(0) =~= start);
        let mut j: usize = 0;
        while j < pools.len()
            invariant
                j <= pools@.len(),
                steps == views(pools@),
                out@ == out_operations(start + steps.take(j as int)),
            decreases pools@.len() - j,
        {
            let step: &ExactOutPoolStep = &pools[j];
            let ghost before = out@;
            out = out.with(make_out_operation(step));
            proof {
                assert(steps[j as int] == step@);
                assert(start + steps.take(j + 1) =~= (start + steps.take(j as int)).push(step@));
                assert(out_operations(start + steps.take(j + 1)) =~= before.push(out_operation(step@)));
            }
            j = j + 1;
        }
        assert(steps.take(steps.len() as int) =~= steps);
        i = i + 1;
    }
    out
}

/// What the routes give at least, together.
fn sum_of_least(routes: &Vec<ExactInRoute>) -> (r: Option<u128>)
    ensures
        match r {
            Some(sum) => sum == least_total(views(routes@), routes@.len() as int),
            None => least_total(views(routes@), routes@.len() as int) > u128::MAX,
        },
{
    let ghost all = views(routes@);
    let mut sum: u128 = 0;
    let mut i: usize = 0;
    while i < routes.len()
        invariant
            i <= routes@.len(),
            all == views(routes@),
            sum == least_total(all, i as int),
        decreases routes@.len() - i,
    {
        assert(all[i as int].min_amount_out == routes@[i as int].min_amount_out);
        match sum.checked_add(routes[i].min_amount_out) {
            Some(more) => {
                sum = more;
            },
            None => {
                proof {
                    lemma_least_total(all, i + 1, routes@.len() as int);
                }
                return None;
            },
        }
        i = i + 1;
    }
    Some(sum)
}

/// What the path finder's offer comes to.
fn swaps_of(offer: &SplitRouteApiResponse) -> (r: Option<Swaps>)
    ensures
        match r {
            Some(swaps) => plach_swaps(offer@) == Some(swaps@),
            None => plach_swaps(offer@) is None,
        },
{
    match offer {
        SplitRouteApiResponse::ExactIn { routes, amount_out, .. } => {
            if routes.len() == 0 {
                return None;
            }
            match sum_of_least(routes) {
                Some(least) => Some(
                    Swaps {
                        operations: collect_in(routes),
                        least_out: least,
                        most_in: 0,
                        estimated: Amount::AmountOut(*amount_out),
                        worst: Amount::AmountOut(least),
                    },
                ),
                None => None,
            }
        },
        SplitRouteApiResponse::ExactOut { routes, amount_in, max_amount_in, .. } => {
            if routes.len() == 0 {
                return None;
            }
            Some(
                Swaps {
                    operations: collect_out(routes),
                    least_out: 0,
                    most_in: *max_amount_in,
                    estimated: Amount::AmountIn(*amount_in),
                    worst: Amount::AmountIn(*max_amount_in),
                },
            )
        },
    }
}

/// A withdrawal to the caller.
pub open spec fn withdraw_operation(asset: AssetIdView, amount: JsonView) -> JsonView {
    JsonView::Object(
        no_fields().push(
            (
                "Withdraw"@,
                JsonView::Object(
                    no_fields().push(("asset_id"@, JsonView::Text(asset_text(asset)))).push(("amount"@, amount)).push(
                        ("to"@, JsonView::Null),
                    ).push(("rescue_address"@, JsonView::Null)),
                ),
            ),
        ),
    )
}

/// A withdrawal to the caller.
fn make_withdraw_operation(asset: &AssetId, amount: Json) -> (r: Json)
    ensures
        r@ == withdraw_operation(asset@, amount@),
{
    let withdraw: Json = JsonObject::new().with_text("asset_id", asset.to_text().as_str()).with("amount", amount).with(
        "to",
        Json::Null,
    ).with("rescue_address", Json::Null).done();
    JsonObject::new().with("Withdraw", withdraw).done()
}

/// All that there is, and at least so much.
pub open spec fn full_amount(at_least: JsonView) -> JsonView {
    JsonView::Object(
        no_fields().push(("Full"@, JsonView::Object(no_fields().push(("at_least"@, at_least))))),
    )
}

/// All that there is, and at least so much.
fn make_full_amount(at_least: Json) -> (r: Json)
    ensures
        r@ == full_amount(at_least@),
{
    let full: Json = JsonObject::new().with("at_least", at_least).done();
    JsonObject::new().with("Full", full).done()
}

/// Exactly so much.
pub open spec fn exact_amount(amount: u128) -> JsonView {
    JsonView::Object(no_fields().push(("Exact"@, amount_json(amount))))
}

/// Whether the input is in the inner balance already.
pub open spec fn starts_inside(request: RequestView) -> bool {
    request.token_in is TokenOnIntearDex
}

/// Whether the output leaves the inner balance. From an inner balance it does
/// only where its amount is exact: the whole balance may hold more than the
/// swap gave.
pub open spec fn withdraws(request: RequestView) -> bool {
    !starts_inside(request) || (request.amount is AmountOut && request.token_out !is TokenOnIntearDex)
}

/// What the Intear DEX is told to do: swap, and withdraw.
pub open spec fn plach_operations(
    request: RequestView,
    token_in: AssetIdView,
    token_out: AssetIdView,
    swaps: SwapsView,
) -> Seq<JsonView> {
    match request.amount {
        Amount::AmountIn(_) => if starts_inside(request) {
            swaps.operations
        } else {
            swaps.operations.push(withdraw_operation(token_out, full_amount(amount_json(swaps.least_out))))
        },
        Amount::AmountOut(amount) => if starts_inside(request) {
            if withdraws(request) {
                swaps.operations.push(withdraw_operation(token_out, exact_amount(amount)))
            } else {
                swaps.operations
            }
        } else {
            swaps.operations.push(withdraw_operation(token_out, full_amount(amount_json(amount)))).push(
                withdraw_operation(token_in, full_amount(JsonView::Null)),
            )
        },
    }
}

/// What the Intear DEX is told to do.
fn operations_for(request: &SwapRequest, token_in: &AssetId, token_out: &AssetId, swaps: Swaps) -> (r: Json)
    ensures
        r@ == JsonView::Array(plach_operations(request@, token_in@, token_out@, swaps@)),
{
    let inside: bool = on_intear(&request.token_in);
    let operations: JsonArray = match request.amount {
        Amount::AmountIn(_) => {
            if inside {
                swaps.operations
            } else {
                let full: Json = make_full_amount(amount_text(swaps.least_out));
                swaps.operations.with(make_withdraw_operation(token_out, full))
            }
        },
        Amount::AmountOut(amount) => {
            if inside {
                if on_intear(&request.token_out) {
                    swaps.operations
                } else {
                    let exact: Json = JsonObject::new().with("Exact", amount_text(amount)).done();
                    swaps.operations.with(make_withdraw_operation(token_out, exact))
                }
            } else {
                let full: Json = make_full_amount(amount_text(amount));
                let rest: Json = make_full_amount(Json::Null);
                swaps.operations.with(make_withdraw_operation(token_out, full)).with(
                    make_withdraw_operation(token_in, rest),
                )
            }
        },
    };
    operations.done()
}

/// Whether the token is in an inner balance on the Intear DEX.
fn on_intear(token: &TokenId) -> (r: bool)
    ensures
        r == (token@ is TokenOnIntearDex),
{
    match token {
        TokenId::TokenOnIntearDex(_) => true,
        _ => false,
    }
}

/// The operations and who refers them.
pub open spec fn referred(operations: Seq<JsonView>, referrer: Seq<char>) -> JsonView {
    JsonView::Object(
        no_fields().push(("operations"@, JsonView::Array(operations))).push(
            ("referrer"@, JsonView::Text(referrer)),
        ),
    )
}

/// The token in the wallet that an asset is withdrawn as.
pub open spec fn withdrawn_as(asset: AssetIdView) -> Option<TokenIdView> {
    match asset {
        AssetIdView::Near => Some(TokenIdView::Near),
        AssetIdView::Nep141(contract) => Some(TokenIdView::Nep141(contract)),
        _ => None,
    }
}

/// The token in the wallet that an asset is withdrawn as.
fn wallet_form(asset: &AssetId) -> (r: Option<TokenId>)
    ensures
        match r {
            Some(token) => withdrawn_as(asset@) == Some(token@),
            None => withdrawn_as(asset@) is None,
        },
{
    match asset {
        AssetId::Near => Some(TokenId::Near),
        AssetId::Nep141(contract) => Some(TokenId::Nep141(contract.duplicate())),
        _ => None,
    }
}

/// What registers the two assets on the Intear DEX.
pub open spec fn registration(
    network: NetworkState,
    trader: Option<Seq<char>>,
    token_in: AssetIdView,
    token_out: AssetIdView,
) -> Seq<InstructionView> {
    match trader {
        Some(trader) => if network.on_intear(trader, token_in) && network.on_intear(trader, token_out) {
            none()
        } else {
            transaction_of_two(
                INTEAR_CONTRACT@,
                call("storage_deposit"@, nothing(), 5, INTEAR_STORAGE_DEPOSIT),
                call(
                    "register_assets"@,
                    JsonView::Object(
                        no_fields().push(
                            (
                                "asset_ids"@,
                                JsonView::Array(
                                    no_items().push(JsonView::Text(asset_text(token_in))).push(
                                        JsonView::Text(asset_text(token_out)),
                                    ),
                                ),
                            ),
                        ),
                    ),
                    5,
                    1,
                ),
            )
        },
        None => none(),
    }
}

/// What registers the two assets on the Intear DEX.
fn register(network: &Network, trader: &Option<AccountId>, token_in: &AssetId, token_out: &AssetId) -> (r: Vec<
    ExecutionInstruction,
>)
    ensures
        instruction_views(r@) == registration(network@, opt_account(*trader), token_in@, token_out@),
{
    match trader {
        Some(trader) => {
            if network.is_intear_asset_registered(trader, token_in) && network.is_intear_asset_registered(
                trader,
                token_out,
            ) {
                no_instructions()
            } else {
                let assets: Json = JsonArray::new().with(Json::text(token_in.to_text().as_str())).with(
                    Json::text(token_out.to_text().as_str()),
                ).done();
                one_transaction_of_two(
                    &contract(INTEAR_CONTRACT),
                    call_action("storage_deposit", no_args(), 5, INTEAR_STORAGE_DEPOSIT),
                    call_action("register_assets", JsonObject::new().with("asset_ids", assets).done(), 5, 1),
                )
            }
        },
        None => no_instructions(),
    }
}

/// The amount that goes in.
pub open spec fn amount_sent(amount: Amount, most_in: u128) -> u128 {
    match amount {
        Amount::AmountIn(amount) => amount,
        Amount::AmountOut(_) => most_in,
    }
}

/// What sends a fungible token to the Intear DEX with operations.
pub open spec fn transfer_action(amount: u128, message: JsonView) -> ActionView {
    call(
        "ft_transfer_call"@,
        JsonView::Object(
            no_fields().push(("receiver_id"@, JsonView::Text(INTEAR_CONTRACT@))).push(
                ("amount"@, amount_json(amount)),
            ).push(("msg"@, JsonView::Text(json_text(message)))),
        ),
        280,
        1,
    )
}

/// What sends a fungible token to the Intear DEX with operations.
fn create_transfer_action(amount: u128, message: &Json) -> (r: Action)
    ensures
        r@ == transfer_action(amount, message@),
{
    let args: Json = JsonObject::new().with_text("receiver_id", INTEAR_CONTRACT).with(
        "amount",
        amount_text(amount),
    ).with_text("msg", to_string(message).as_str()).done();
    call_action("ft_transfer_call", args, 280, 1)
}

/// What carries the operations out.
pub open spec fn plach_instructions(
    request: RequestView,
    network: NetworkState,
    token_in: AssetIdView,
    token_out: AssetIdView,
    message: JsonView,
    sent: u128,
) -> Option<Seq<InstructionView>> {
    if starts_inside(request) {
        Some(transaction(INTEAR_CONTRACT@, call("execute_operations"@, message, 280, 1)))
    } else {
        match (withdrawn_as(token_out), token_in) {
            (Some(output), AssetIdView::Near) => match to_native(request.token_in, sent) {
                Some(unwrap) => Some(
                    storage_if_needed(network, output, request.trader) + unwrap + transaction(
                        INTEAR_CONTRACT@,
                        call(
                            "deposit_near"@,
                            JsonView::Object(no_fields().push(("operations"@, message))),
                            280,
                            sent,
                        ),
                    ),
                ),
                None => None,
            },
            (Some(output), AssetIdView::Nep141(token)) => Some(
                storage_if_needed(network, output, request.trader) + storage_if_needed(
                    network,
                    nep141(token),
                    request.trader,
                ) + input_instructions(request.token_in, sent) + transaction(token, transfer_action(sent, message)),
            ),
            _ => None,
        }
    }
}

/// What carries the operations out.
fn carry_out(
    request: &SwapRequest,
    network: &Network,
    token_in: &AssetId,
    token_out: &AssetId,
    message: Json,
    sent: u128,
) -> (r: Option<Vec<ExecutionInstruction>>)
    requires
        plach_asset(request@.token_in, fixed_amount(request@.amount)) == Some(token_in@),
    ensures
        crate::types::opt_instructions(r) == plach_instructions(
            request@,
            network@,
            token_in@,
            token_out@,
            message@,
            sent,
        ),
{
    if on_intear(&request.token_in) {
        return Some(
            one_transaction(&contract(INTEAR_CONTRACT), call_action("execute_operations", message, 280, 1)),
        );
    }
    let output: TokenId = match wallet_form(token_out) {
        Some(output) => output,
        None => {
            return None;
        },
    };
    let storage: Vec<ExecutionInstruction> = deposit_storage_if_needed(network, &output, &request.trader_account_id);
    match token_in {
        AssetId::Near => match convert_to_native(&request.token_in, sent) {
            Some(unwrap) => {
                let args: Json = JsonObject::new().with("operations", message).done();
                let swap: Vec<ExecutionInstruction> = one_transaction(
                    &contract(INTEAR_CONTRACT),
                    call_action("deposit_near", args, 280, sent),
                );
                Some(followed_by(followed_by(storage, unwrap), swap))
            },
            None => None,
        },
        AssetId::Nep141(token) => match convert_to_nep141(&request.token_in, sent) {
            Some((input, _)) => {
                let own: Vec<ExecutionInstruction> = deposit_storage_if_needed(
                    network,
                    &wallet_nep141(token),
                    &request.trader_account_id,
                );
                let swap: Vec<ExecutionInstruction> = one_transaction(token, create_transfer_action(sent, &message));
                Some(followed_by(followed_by(followed_by(storage, own), input), swap))
            },
            None => None,
        },
        _ => None,
    }
}

/// The token that the route ends with.
pub open spec fn plach_output(request: RequestView, token_out: AssetIdView) -> Option<TokenIdView> {
    if withdraws(request) {
        withdrawn_as(token_out)
    } else {
        Some(TokenIdView::TokenOnIntearDex(token_out))
    }
}

/// The route for what the path finder offers.
pub open spec fn plach_route(request: RequestView, network: NetworkState, offer: Option<OfferView>) -> Option<
    RouteView,
> {
    match (plach_assets(request), offer) {
        (Some((token_in, token_out)), Some(offer)) => match plach_swaps(offer) {
            Some(swaps) => {
                let message = referred(
                    plach_operations(request, token_in, token_out, swaps),
                    referrer_of(request.referrer),
                );
                let sent = amount_sent(request.amount, swaps.most_in);
                match (
                    plach_instructions(request, network, token_in, token_out, message, sent),
                    plach_output(request, token_out),
                ) {
                    (Some(instructions), Some(output)) => Some(
                        route_of(
                            DexId::Plach,
                            true,
                            swaps.estimated,
                            swaps.worst,
                            registration(network, request.trader, token_in, token_out) + instructions,
                            output,
                        ),
                    ),
                    _ => None,
                }
            },
            None => None,
        },
        _ => None,
    }
}

/// The two assets of the request, where they differ.
fn assets_of(request: &SwapRequest) -> (r: Option<(AssetId, AssetId)>)
    ensures
        match r {
            Some(assets) => plach_assets(request@) == Some((assets.0@, assets.1@)),
            None => plach_assets(request@) is None,
        },
{
    let amount: u128 = match request.amount {
        Amount::AmountIn(amount) => amount,
        Amount::AmountOut(amount) => amount,
    };
    match (asset_on_plach(&request.token_in, amount), asset_on_plach(&request.token_out, amount)) {
        (Some(token_in), Some(token_out)) => {
            if token_in.same(&token_out) {
                None
            } else {
                Some((token_in, token_out))
            }
        },
        _ => None,
    }
}

impl IntearPlachProvider {
    /// The name of the exchange.
    pub fn dex_id(&self) -> (r: DexId)
        ensures
            r == DexId::Plach,
    {
        DexId::Plach
    }

    /// What the path finder is to be asked, if it is. An exact output is only
    /// had from one pool.
    pub fn query(&self, request: &SwapRequest, market: &Market) -> (r: Option<PlachQuery>)
        requires
            market@.valid(),
            request@.slippage.valid(),
        ensures
            match r {
                Some(query) => {
                    &&& plach_assets(request@) == Some((query.token_in@, query.token_out@))
                    &&& query.amount == request@.amount
                    &&& query.max_hops == match request@.amount {
                        Amount::AmountIn(_) => MaxHops::Four,
                        Amount::AmountOut(_) => MaxHops::DirectOnly,
                    }
                    &&& query.slippage@ == slippage_of(
                        market@,
                        request@.slippage,
                        request@.token_in,
                        request@.token_out,
                    )
                },
                None => plach_assets(request@) is None,
            },
    {
        match assets_of(request) {
            Some((token_in, token_out)) => {
                let max_hops: MaxHops = match request.amount {
                    Amount::AmountIn(_) => MaxHops::Four,
                    Amount::AmountOut(_) => MaxHops::DirectOnly,
                };
                let slippage: Decimal = get_slippage(
                    market,
                    &request.slippage,
                    &request.token_in,
                    &request.token_out,
                );
                Some(PlachQuery { token_in, token_out, amount: request.amount, max_hops, slippage })
            },
            None => None,
        }
    }

    /// The route for what the path finder offers, if it does.
    pub fn route(&self, request: &SwapRequest, network: &Network, offer: &Option<SplitRouteApiResponse>) -> (r: Option<
        Route,
    >)
        ensures
            opt_route(r) == plach_route(
                request@,
                network@,
                match offer {
                    Some(offer) => Some(offer@),
                    None => None,
                },
            ),
            match (request.amount, *offer) {
                (Amount::AmountIn(_), Some(offer)) => offer is ExactIn,
                (Amount::AmountOut(_), Some(offer)) => offer is ExactOut,
                _ => false,
            } ==> (r matches Some(route) ==> answers(request@.amount, route@)),
    {
        let (token_in, token_out): (AssetId, AssetId) = match assets_of(request) {
            Some(assets) => assets,
            None => {
                return None;
            },
        };
        let swaps: Swaps = match offer {
            Some(offer) => match swaps_of(offer) {
                Some(swaps) => swaps,
                None => {
                    return None;
                },
            },
            None => {
                return None;
            },
        };
        let estimated: Amount = swaps.estimated;
        let worst: Amount = swaps.worst;
        let sent: u128 = match request.amount {
            Amount::AmountIn(amount) => amount,
            Amount::AmountOut(_) => swaps.most_in,
        };
        let operations: Json = operations_for(request, &token_in, &token_out, swaps);
        let message: Json = JsonObject::new().with("operations", operations).with_text(
            "referrer",
            referrer(&request.referrer_id).as_str(),
        ).done();
        let instructions: Vec<ExecutionInstruction> = match carry_out(
            request,
            network,
            &token_in,
            &token_out,
            message,
            sent,
        ) {
            Some(instructions) => instructions,
            None => {
                return None;
            },
        };
        let leaves: bool = !on_intear(&request.token_in) || match request.amount {
            Amount::AmountIn(_) => false,
            Amount::AmountOut(_) => !on_intear(&request.token_out),
        };
        let registered: Vec<ExecutionInstruction> = register(
            network,
            &request.trader_account_id,
            &token_in,
            &token_out,
        );
        let output: Option<TokenId> = if leaves {
            wallet_form(&token_out)
        } else {
            Some(TokenId::TokenOnIntearDex(token_out))
        };
        match output {
            Some(output) => Some(
                make_route(DexId::Plach, true, estimated, worst, followed_by(registered, instructions), output),
            ),
            None => None,
        }
    }
}

} // verus!
