//! Routes through the pools of concentrated liquidity on Rhea.

use vstd::prelude::*;

use super::amounts::{answers, make_route, nep141, route_of, wallet_nep141, worst_is_no_better};
use super::views::{ask_with, asked_with, ViewCall, ViewCallView};
use crate::account::{opt_account, AccountId};
use crate::decimal::{largest_input, least_output, max_input, min_output, Decimal};
use crate::ident::Ident;
use crate::json::{json_text, no_fields, no_items, to_string, Json, JsonArray, JsonObject, JsonView};
use crate::network::{needs_storage_deposit_for_contract, Network, NetworkState};
use crate::shared_utils::{
    amount_json, amount_text, call, call_action, contract, contract_storage_if_needed, convert_to_nep141,
    deposit_storage_if_needed, deposit_storage_on_contract_if_needed, followed_by, input_instructions, nep141_of,
    one_transaction, storage_if_needed, transaction, wallet_token,
};
use crate::slippage::{get_slippage, slippage_of, Market, MarketView};
use crate::text::{decimal_text, join, join3, u128_to_text};
use crate::types::{
    instruction_views, opt_route, Action, ActionView, Amount, DexId, ExecutionInstruction, InstructionView,
    RequestView, Route, RouteView, SwapRequest, TokenId, TokenIdView,
};

verus! {

/// The contract of the pools.
pub const RHEA_DCL_CONTRACT_ID: &'static str = "dclv2.ref-labs.near";

/// What storage on the contract costs.
pub const DCL_STORAGE: u128 = 500_000_000_000_000_000_000_000;

/// The native balance below which an account is not asked to pay for storage.
pub const LEAST_BALANCE: u128 = 1_000_000_000_000_000_000_000_000;

/// How many fees a pool can have.
pub const TIERS: usize = 4;

/// Routes through the pools of concentrated liquidity on Rhea.
pub struct RheaDclProvider;

/// The fee of each tier, in millionths.
pub open spec fn fee_tier(tier: int) -> nat {
    if tier == 0 {
        100
    } else if tier == 1 {
        400
    } else if tier == 2 {
        2000
    } else {
        10000
    }
}

/// The fee of each tier, in millionths.
fn fee_of_tier(tier: usize) -> (r: u128)
    ensures
        r == fee_tier(tier as int),
{
    if tier == 0 {
        100
    } else if tier == 1 {
        400
    } else if tier == 2 {
        2000
    } else {
        10000
    }
}

/// Whether a text comes before another, letter by letter.
pub open spec fn before(a: Seq<char>, b: Seq<char>) -> bool
    decreases a.len(),
{
    if b.len() == 0 {
        false
    } else if a.len() == 0 {
        true
    } else if a[0] != b[0] {
        (a[0] as int) < (b[0] as int)
    } else {
        before(a.subrange(1, a.len() as int), b.subrange(1, b.len() as int))
    }
}

/// Whether a text comes before another, letter by letter.
fn is_before(a: &str, b: &str) -> (r: bool)
    ensures
        r == before(a@, b@),
{
    let n: usize = a.unicode_len();
    let m: usize = b.unicode_len();
    let mut i: usize = 0;
    assert(a@.subrange(0, n as int) =~= a@);
    assert(b@.subrange(0, m as int) =~= b@);
    while i < n && i < m
        invariant
            i <= n,
            i <= m,
            n == a@.len(),
            m == b@.len(),
            before(a@, b@) == before(a@.subrange(i as int, n as int), b@.subrange(i as int, m as int)),
        decreases n - i,
    {
        let x: char = a.get_char(i);
        let y: char = b.get_char(i);
        let ghost s = a@.subrange(i as int, n as int);
        let ghost t = b@.subrange(i as int, m as int);
        assert(s[0] == x && t[0] == y);
        assert(s.subrange(1, s.len() as int) =~= a@.subrange(i + 1, n as int));
        assert(t.subrange(1, t.len() as int) =~= b@.subrange(i + 1, m as int));
        if x != y {
            return (x as u32) < (y as u32);
        }
        i = i + 1;
    }
    i < m
}

/// The name of the pool of two tokens in a tier.
pub open spec fn dcl_pool(token_in: Seq<char>, token_out: Seq<char>, tier: int) -> Seq<char> {
    let (x, y) = if before(token_in, token_out) {
        (token_in, token_out)
    } else {
        (token_out, token_in)
    };
    x + "|"@ + y + ("|"@ + decimal_text(fee_tier(tier)))
}

/// The name of the pool of two tokens in a tier.
fn pool_name(token_in: &AccountId, token_out: &AccountId, tier: usize) -> (r: String)
    ensures
        r@ == dcl_pool(token_in@, token_out@, tier as int),
{
    let (x, y): (&str, &str) = if is_before(token_in.as_str(), token_out.as_str()) {
        (token_in.as_str(), token_out.as_str())
    } else {
        (token_out.as_str(), token_in.as_str())
    };
    let pair: String = join3(x, "|", y);
    let fee: String = join("|", u128_to_text(fee_of_tier(tier)).as_str());
    join(pair.as_str(), fee.as_str())
}

/// The two tokens of the request, where they differ.
pub open spec fn dcl_tokens(request: RequestView) -> Option<(Seq<char>, Seq<char>)> {
    match (nep141_of(request.token_in), nep141_of(request.token_out)) {
        (Some(token_in), Some(token_out)) => if token_in == token_out {
            None
        } else {
            Some((token_in, token_out))
        },
        _ => None,
    }
}

/// The two tokens of the request, where they differ.
fn tokens_of(request: &SwapRequest) -> (r: Option<(AccountId, AccountId)>)
    ensures
        match r {
            Some(r) => dcl_tokens(request@) == Some((r.0@, r.1@)),
            None => dcl_tokens(request@) is None,
        },
{
    match (wallet_token(&request.token_in), wallet_token(&request.token_out)) {
        (Some(token_in), Some(token_out)) => {
            if token_in.same(&token_out) {
                None
            } else {
                Some((token_in, token_out))
            }
        },
        _ => None,
    }
}

/// The pools that the contract is asked about.
#[derive(Debug, PartialEq)]
pub struct DclQuery {
    pub input_token: AccountId,
    pub output_token: AccountId,
    /// One pool for each tier.
    pub pool_ids: Vec<String>,
}

/// What the contract is asked about an amount in a pool.
pub open spec fn quote_call(pool: Seq<char>, token_in: Seq<char>, token_out: Seq<char>, amount: Amount) -> ViewCallView {
    let swap = no_fields().push(("pool_ids"@, JsonView::Array(no_items().push(JsonView::Text(pool))))).push(
        ("input_token"@, JsonView::Text(token_in)),
    ).push(("output_token"@, JsonView::Text(token_out)));
    match amount {
        Amount::AmountIn(amount) => asked_with(
            "quote"@,
            JsonView::Object(swap.push(("input_amount"@, amount_json(amount)))),
        ),
        Amount::AmountOut(amount) => asked_with(
            "quote_by_output"@,
            JsonView::Object(swap.push(("output_amount"@, amount_json(amount)))),
        ),
    }
}

/// What the contract is asked about an amount in a pool.
fn ask_for_quote(pool: &str, token_in: &str, token_out: &str, amount: Amount) -> (r: ViewCall)
    ensures
        r@ == quote_call(pool@, token_in@, token_out@, amount),
{
    let pools: Json = JsonArray::new().with(Json::text(pool)).done();
    let swap: JsonObject = JsonObject::new().with("pool_ids", pools).with_text("input_token", token_in).with_text(
        "output_token",
        token_out,
    );
    match amount {
        Amount::AmountIn(amount) => ask_with("quote", swap.with("input_amount", amount_text(amount)).done()),
        Amount::AmountOut(amount) => ask_with(
            "quote_by_output",
            swap.with("output_amount", amount_text(amount)).done(),
        ),
    }
}

impl DclQuery {
    /// What the contract is asked about an amount, pool by pool.
    pub fn calls(&self, amount: Amount) -> (r: Vec<ViewCall>)
        ensures
            r@.len() == self.pool_ids@.len(),
            forall|i: int|
                0 <= i < r@.len() ==> (#[trigger] r@[i])@ == quote_call(
                    self.pool_ids@[i]@,
                    self.input_token@,
                    self.output_token@,
                    amount,
                ),
    {
        let mut calls: Vec<ViewCall> = Vec::new();
        let mut i: usize = 0;
        while i < self.pool_ids.len()
            invariant
                i <= self.pool_ids@.len(),
                calls@.len() == i,
                forall|j: int|
                    0 <= j < i ==> (#[trigger] calls@[j])@ == quote_call(
                        self.pool_ids@[j]@,
                        self.input_token@,
                        self.output_token@,
                        amount,
                    ),
            decreases self.pool_ids@.len() - i,
        {
            calls.push(
                ask_for_quote(
                    self.pool_ids[i].as_str(),
                    self.input_token.as_str(),
                    self.output_token.as_str(),
                    amount,
                ),
            );
            i = i + 1;
        }
        calls
    }
}

/// Whether a quote is to be preferred to another: the larger output, the
/// later of equal ones; or the smaller input, the earlier of equal ones.
pub open spec fn preferred(largest: bool, quote: u128, best: u128) -> bool {
    if largest {
        quote >= best
    } else {
        quote < best
    }
}

/// The tier and the amount of the best of the first `k` quotes; those of
/// nothing do not count.
pub open spec fn best_quote(largest: bool, quotes: Seq<Option<u128>>, k: int) -> Option<(int, u128)>
    decreases k,
{
    if k <= 0 {
        None
    } else {
        let rest = best_quote(largest, quotes, k - 1);
        match quotes[k - 1] {
            Some(quote) => if quote == 0 {
                rest
            } else {
                match rest {
                    Some((_, best)) => if preferred(largest, quote, best) {
                        Some((k - 1, quote))
                    } else {
                        rest
                    },
                    None => Some((k - 1, quote)),
                }
            },
            None => rest,
        }
    }
}

/// The best quote is one of those that were had, and none is better.
pub proof fn best_quote_is_best(largest: bool, quotes: Seq<Option<u128>>, k: int)
    requires
        0 <= k <= quotes.len(),
    ensures
        match best_quote(largest, quotes, k) {
            Some((tier, amount)) => {
                &&& 0 <= tier < k
                &&& quotes[tier] == Some(amount)
                &&& amount > 0
                &&& forall|i: int|
                    #![trigger quotes[i]]
                    0 <= i < k ==> match quotes[i] {
                        Some(other) => other > 0 ==> (if largest {
                            other <= amount
                        } else {
                            other >= amount
                        }),
                        None => true,
                    }
            },
            None => forall|i: int|
                #![trigger quotes[i]]
                0 <= i < k ==> (quotes[i] is None || quotes[i] == Some(0u128)),
        },
    decreases k,
{
    if k > 0 {
        best_quote_is_best(largest, quotes, k - 1);
    }
}

/// The best of the quotes.
fn find_best(largest: bool, quotes: &Vec<Option<u128>>) -> (r: Option<(usize, u128)>)
    ensures
        match r {
            Some((tier, amount)) => tier < quotes@.len() && best_quote(
                largest,
                quotes@,
                quotes@.len() as int,
            ) == Some((tier as int, amount)),
            None => best_quote(largest, quotes@, quotes@.len() as int) is None,
        },
{
    let mut best: Option<(usize, u128)> = None;
    let mut i: usize = 0;
    while i < quotes.len()
        invariant
            i <= quotes@.len(),
            match best {
                Some((tier, amount)) => tier < i && best_quote(largest, quotes@, i as int) == Some(
                    (tier as int, amount),
                ),
                None => best_quote(largest, quotes@, i as int) is None,
            },
        decreases quotes@.len() - i,
    {
        match quotes[i] {
            Some(quote) => {
                if quote > 0 {
                    let better: bool = match best {
                        Some((_, amount)) => {
                            if largest {
                                quote >= amount
                            } else {
                                quote < amount
                            }
                        },
                        None => true,
                    };
                    if better {
                        best = Some((i, quote));
                    }
                }
            },
            None => {},
        }
        i = i + 1;
    }
    best
}

/// A message to the contract: a swap in one pool.
pub open spec fn dcl_message(
    kind: Seq<char>,
    pool: Seq<char>,
    token_out: Seq<char>,
    key: Seq<char>,
    amount: u128,
    unwraps: bool,
) -> JsonView {
    JsonView::Object(
        no_fields().push(
            (
                kind,
                JsonView::Object(
                    no_fields().push(("pool_ids"@, JsonView::Array(no_items().push(JsonView::Text(pool))))).push(
                        ("output_token"@, JsonView::Text(token_out)),
                    ).push((key, amount_json(amount))).push(("skip_unwrap_near"@, JsonView::Bool(!unwraps))),
                ),
            ),
        ),
    )
}

/// A message to the contract.
fn make_message(kind: &str, pool: &str, token_out: &AccountId, key: &str, amount: u128, unwraps: bool) -> (r: Json)
    ensures
        r@ == dcl_message(kind@, pool@, token_out@, key@, amount, unwraps),
{
    let pools: Json = JsonArray::new().with(Json::text(pool)).done();
    let swap: Json = JsonObject::new().with("pool_ids", pools).with_text("output_token", token_out.as_str()).with(
        key,
        amount_text(amount),
    ).with("skip_unwrap_near", Json::Bool(!unwraps)).done();
    JsonObject::new().with(kind, swap).done()
}

/// What sends tokens to the contract with a message.
pub open spec fn transfer_action(amount: u128, message: JsonView) -> ActionView {
    call(
        "ft_transfer_call"@,
        JsonView::Object(
            no_fields().push(("receiver_id"@, JsonView::Text(RHEA_DCL_CONTRACT_ID@))).push(
                ("amount"@, amount_json(amount)),
            ).push(("msg"@, JsonView::Text(json_text(message)))),
        ),
        100,
        1,
    )
}

/// What sends tokens to the contract with a message.
fn create_transfer_action(amount: u128, message: &Json) -> (r: Action)
    ensures
        r@ == transfer_action(amount, message@),
{
    let args: Json = JsonObject::new().with_text("receiver_id", RHEA_DCL_CONTRACT_ID).with(
        "amount",
        amount_text(amount),
    ).with_text("msg", to_string(message).as_str()).done();
    call_action("ft_transfer_call", args, 100, 1)
}

/// Whether the trader would have to pay for storage on the contract but is
/// known to have too little.
pub open spec fn too_poor(network: NetworkState, trader: Option<Seq<char>>) -> bool {
    match trader {
        Some(trader) => network.needs_on_contract(trader, RHEA_DCL_CONTRACT_ID@) && network.native_balances.contains_key(
            trader,
        ) && network.native_balances[trader] < LEAST_BALANCE,
        None => false,
    }
}

/// Whether the trader is too poor for the storage.
fn is_too_poor(network: &Network, trader: &Option<AccountId>) -> (r: bool)
    ensures
        r == too_poor(network@, opt_account(*trader)),
{
    match trader {
        Some(trader) => {
            if !needs_storage_deposit_for_contract(network, trader, &contract(RHEA_DCL_CONTRACT_ID)) {
                return false;
            }
            match network.native_balance(trader) {
                Some(balance) => balance < LEAST_BALANCE,
                None => false,
            }
        },
        None => false,
    }
}

/// The token that the route ends with.
pub open spec fn dcl_output(request: RequestView, token_out: Seq<char>) -> TokenIdView {
    if request.token_out is Near {
        TokenIdView::Near
    } else {
        nep141(token_out)
    }
}

/// What carries the swap out: pay for storage on the contract, for the output
/// and for the input, bring the input into the wallet, swap.
pub open spec fn dcl_instructions(
    request: RequestView,
    network: NetworkState,
    stored: TokenIdView,
    token_in: Seq<char>,
    sent: u128,
    message: JsonView,
) -> Seq<InstructionView> {
    contract_storage_if_needed(network, RHEA_DCL_CONTRACT_ID@, request.trader, DCL_STORAGE) + storage_if_needed(
        network,
        stored,
        request.trader,
    ) + storage_if_needed(network, nep141(token_in), request.trader) + input_instructions(request.token_in, sent)
        + transaction(token_in, transfer_action(sent, message))
}

/// What carries the swap out.
fn carry_out(
    request: &SwapRequest,
    network: &Network,
    stored: &TokenId,
    token_in: &AccountId,
    sent: u128,
    message: &Json,
) -> (r: Option<Vec<ExecutionInstruction>>)
    requires
        nep141_of(request@.token_in) == Some(token_in@),
    ensures
        r matches Some(instructions) && instruction_views(instructions@) == dcl_instructions(
            request@,
            network@,
            stored@,
            token_in@,
            sent,
            message@,
        ),
{
    let input: Vec<ExecutionInstruction> = match convert_to_nep141(&request.token_in, sent) {
        Some((input, _)) => input,
        None => {
            return None;
        },
    };
    let own: Vec<ExecutionInstruction> = deposit_storage_on_contract_if_needed(
        network,
        &contract(RHEA_DCL_CONTRACT_ID),
        &request.trader_account_id,
        DCL_STORAGE,
    );
    let output: Vec<ExecutionInstruction> = deposit_storage_if_needed(network, stored, &request.trader_account_id);
    let wallet: Vec<ExecutionInstruction> = deposit_storage_if_needed(
        network,
        &wallet_nep141(token_in),
        &request.trader_account_id,
    );
    let swap: Vec<ExecutionInstruction> = one_transaction(token_in, create_transfer_action(sent, message));
    Some(followed_by(followed_by(followed_by(followed_by(own, output), wallet), input), swap))
}

/// The route for what the contract quoted in each tier.
pub open spec fn dcl_route(
    request: RequestView,
    network: NetworkState,
    market: MarketView,
    quotes: Seq<Option<u128>>,
) -> Option<RouteView> {
    let slippage = slippage_of(market, request.slippage, request.token_in, request.token_out);
    match dcl_tokens(request) {
        None => None,
        Some((token_in, token_out)) => {
            let output = dcl_output(request, token_out);
            let unwraps = request.token_out is Near;
            match request.amount {
                Amount::AmountIn(amount) => match best_quote(true, quotes, quotes.len() as int) {
                    None => None,
                    Some((tier, quote)) => match least_output(quote, slippage) {
                        None => None,
                        Some(least) => if too_poor(network, request.trader) {
                            None
                        } else {
                            let message = dcl_message(
                                "Swap"@,
                                dcl_pool(token_in, token_out, tier),
                                token_out,
                                "min_output_amount"@,
                                least,
                                unwraps,
                            );
                            Some(
                                route_of(
                                    DexId::RheaDcl,
                                    true,
                                    Amount::AmountOut(quote),
                                    Amount::AmountOut(least),
                                    dcl_instructions(
                                        request,
                                        network,
                                        request.token_out,
                                        token_in,
                                        amount,
                                        message,
                                    ),
                                    output,
                                ),
                            )
                        },
                    },
                },
                Amount::AmountOut(amount) => match best_quote(false, quotes, quotes.len() as int) {
                    None => None,
                    Some((tier, quote)) => match largest_input(quote, slippage) {
                        None => None,
                        Some(most) => {
                            let message = dcl_message(
                                "SwapByOutput"@,
                                dcl_pool(token_in, token_out, tier),
                                token_out,
                                "output_amount"@,
                                amount,
                                unwraps,
                            );
                            Some(
                                route_of(
                                    DexId::RheaDcl,
                                    true,
                                    Amount::AmountIn(quote),
                                    Amount::AmountIn(most),
                                    dcl_instructions(request, network, output, token_in, most, message),
                                    output,
                                ),
                            )
                        },
                    },
                },
            }
        },
    }
}

impl RheaDclProvider {
    /// The name of the exchange.
    pub fn dex_id(&self) -> (r: DexId)
        ensures
            r == DexId::RheaDcl,
    {
        DexId::RheaDcl
    }

    /// The pools that the contract is to be asked about, if it is.
    pub fn query(&self, request: &SwapRequest) -> (r: Option<DclQuery>)
        ensures
            match r {
                Some(query) => {
                    &&& dcl_tokens(request@) == Some((query.input_token@, query.output_token@))
                    &&& query.pool_ids@.len() == TIERS
                    &&& forall|i: int|
                        0 <= i < TIERS ==> (#[trigger] query.pool_ids@[i])@ == dcl_pool(
                            query.input_token@,
                            query.output_token@,
                            i,
                        )
                },
                None => dcl_tokens(request@) is None,
            },
    {
        match tokens_of(request) {
            Some((input_token, output_token)) => {
                let mut pool_ids: Vec<String> = Vec::new();
                let mut i: usize = 0;
                while i < TIERS
                    invariant
                        i <= TIERS,
                        pool_ids@.len() == i,
                        forall|j: int|
                            0 <= j < i ==> (#[trigger] pool_ids@[j])@ == dcl_pool(input_token@, output_token@, j),
                    decreases TIERS - i,
                {
                    pool_ids.push(pool_name(&input_token, &output_token, i));
                    i = i + 1;
                }
                Some(DclQuery { input_token, output_token, pool_ids })
            },
            None => None,
        }
    }

    /// The route for what the contract quoted in each tier, where it did.
    pub fn route(&self, request: &SwapRequest, network: &Network, market: &Market, quotes: &Vec<Option<u128>>) -> (r:
        Option<Route>)
        requires
            market@.valid(),
            request@.slippage.valid(),
            quotes@.len() == TIERS,
        ensures
            opt_route(r) == dcl_route(request@, network@, market@, quotes@),
            r matches Some(route) ==> answers(request@.amount, route@),
            r matches Some(route) ==> worst_is_no_better(route@),
    {
        let (token_in, token_out): (AccountId, AccountId) = match tokens_of(request) {
            Some(tokens) => tokens,
            None => {
                return None;
            },
        };
        let slippage: Decimal = get_slippage(market, &request.slippage, &request.token_in, &request.token_out);
        let unwraps: bool = match &request.token_out {
            TokenId::Near => true,
            _ => false,
        };
        let output: TokenId = if unwraps {
            TokenId::Near
        } else {
            wallet_nep141(&token_out)
        };
        match request.amount {
            Amount::AmountIn(amount) => {
                let (tier, quote): (usize, u128) = match find_best(true, quotes) {
                    Some(best) => best,
                    None => {
                        return None;
                    },
                };
                let least: u128 = match min_output(quote, &slippage) {
                    Some(least) => least,
                    None => {
                        return None;
                    },
                };
                if is_too_poor(network, &request.trader_account_id) {
                    return None;
                }
                let pool: String = pool_name(&token_in, &token_out, tier);
                let message: Json = make_message(
                    "Swap",
                    pool.as_str(),
                    &token_out,
                    "min_output_amount",
                    least,
                    unwraps,
                );
                match carry_out(request, network, &request.token_out, &token_in, amount, &message) {
                    Some(instructions) => Some(
                        make_route(
                            DexId::RheaDcl,
                            true,
                            Amount::AmountOut(quote),
                            Amount::AmountOut(least),
                            instructions,
                            output,
                        ),
                    ),
                    None => None,
                }
            },
            Amount::AmountOut(amount) => {
                let (tier, quote): (usize, u128) = match find_best(false, quotes) {
                    Some(best) => best,
                    None => {
                        return None;
                    },
                };
                let most: u128 = match max_input(quote, &slippage) {
                    Some(most) => most,
                    None => {
                        return None;
                    },
                };
                let pool: String = pool_name(&token_in, &token_out, tier);
                let message: Json = make_message(
                    "SwapByOutput",
                    pool.as_str(),
                    &token_out,
                    "output_amount",
                    amount,
                    unwraps,
                );
                match carry_out(request, network, &output, &token_in, most, &message) {
                    Some(instructions) => Some(
                        make_route(
                            DexId::RheaDcl,
                            true,
                            Amount::AmountIn(quote),
                            Amount::AmountIn(most),
                            instructions,
                            output,
                        ),
                    ),
                    None => None,
                }
            },
        }
    }
}

} // verus!
