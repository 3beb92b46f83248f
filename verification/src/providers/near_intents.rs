//! Quotes of solvers for NEAR Intents.

use vstd::prelude::*;

use super::amounts::{answers, open_side, other_side};
use super::views::{ask_with, asked_with, opt_call, ViewCall};
use crate::account::AccountId;
use crate::ident::Ident;
use crate::json::{
    json_bytes, json_text, no_fields, no_items, to_string, to_vec, Json, JsonArray, JsonObject, JsonView,
};
use crate::network::{Network, NetworkState};
use crate::shared_utils::{
    amount_json, amount_text, call, call_action, contract, convert_to_nep141, deposit_storage_if_needed, followed_by,
    input_instructions, nep141_of, no_instructions, none, one_transaction, storage_if_needed, transaction, WRAP_NEAR,
};
use crate::text::{decimal_text, join, same_text, u128_to_text};
use crate::types::{
    instruction_views, opt_route, opt_text, Action, ActionView, Amount, DexId, ExecutionInstruction, InstructionView,
    RequestView, Route, RouteView, SwapRequest, TokenId, TokenIdView,
};

verus! {

/// The contract of NEAR Intents.
pub const INTENTS_CONTRACT_ID: &'static str = "intents.near";

/// The time, in milliseconds, that is kept back for the way to the solvers.
pub const LATENCY_MS: u64 = 500;

/// The longest that solvers are waited for, in milliseconds.
pub const MAX_SOLVER_WAIT_MS: u64 = 5000;

/// The least time, in milliseconds, that a quote has to hold.
pub const MIN_DEADLINE_MS: u64 = 15_000;

/// Routes over quotes of solvers.
pub struct NearIntentsProvider;

/// The amount that solvers are asked for.
#[derive(Clone, Copy, Debug, PartialEq, Eq, Structural)]
pub enum ExactAmount {
    ExactAmountIn(u128),
    ExactAmountOut(u128),
}

impl ExactAmount {
    /// The amount of a request.
    pub fn from_amount(amount: Amount) -> (r: ExactAmount)
        ensures
            r == match amount {
                Amount::AmountIn(amount) => ExactAmount::ExactAmountIn(amount),
                Amount::AmountOut(amount) => ExactAmount::ExactAmountOut(amount),
            },
    {
        match amount {
            Amount::AmountIn(amount) => ExactAmount::ExactAmountIn(amount),
            Amount::AmountOut(amount) => ExactAmount::ExactAmountOut(amount),
        }
    }
}

/// What solvers are asked.
#[derive(Debug, PartialEq)]
pub struct NearIntentsQuoteParams {
    pub defuse_asset_identifier_out: String,
    pub defuse_asset_identifier_in: String,
    pub amount: ExactAmount,
    pub min_deadline_ms: u64,
    pub wait_ms: u64,
}

/// A question to the solvers, as they are sent it.
pub open spec fn solver_question(params: NearIntentsQuoteParams) -> JsonView {
    let (key, amount) = match params.amount {
        ExactAmount::ExactAmountIn(amount) => ("exact_amount_in"@, amount),
        ExactAmount::ExactAmountOut(amount) => ("exact_amount_out"@, amount),
    };
    let asked = no_fields().push(
        ("defuse_asset_identifier_out"@, JsonView::Text(params.defuse_asset_identifier_out@)),
    ).push(("defuse_asset_identifier_in"@, JsonView::Text(params.defuse_asset_identifier_in@))).push(
        (key, amount_json(amount)),
    ).push(("min_deadline_ms"@, JsonView::Number(params.min_deadline_ms))).push(
        ("wait_ms"@, JsonView::Number(params.wait_ms)),
    );
    JsonView::Object(
        no_fields().push(("jsonrpc"@, JsonView::Text("2.0"@))).push(("id"@, JsonView::Text("dontcare"@))).push(
            ("method"@, JsonView::Text("quote"@)),
        ).push(("params"@, JsonView::Array(no_items().push(JsonView::Object(asked))))),
    )
}

impl NearIntentsQuoteParams {
    /// The bytes of the question to the solvers.
    pub fn body(&self) -> (r: Vec<u8>)
        ensures
            r@ == json_bytes(solver_question(*self)),
    {
        let (key, amount): (&str, u128) = match self.amount {
            ExactAmount::ExactAmountIn(amount) => ("exact_amount_in", amount),
            ExactAmount::ExactAmountOut(amount) => ("exact_amount_out", amount),
        };
        let asked: Json = JsonObject::new().with_text(
            "defuse_asset_identifier_out",
            self.defuse_asset_identifier_out.as_str(),
        ).with_text("defuse_asset_identifier_in", self.defuse_asset_identifier_in.as_str()).with(
            key,
            amount_text(amount),
        ).with("min_deadline_ms", Json::Number(self.min_deadline_ms)).with("wait_ms", Json::Number(self.wait_ms)).done();
        let question: Json = JsonObject::new().with_text("jsonrpc", "2.0").with_text("id", "dontcare").with_text(
            "method",
            "quote",
        ).with("params", JsonArray::new().with(asked).done()).done();
        to_vec(&question)
    }
}

/// What a solver offers.
#[derive(Debug, PartialEq)]
pub struct NearIntentsQuote {
    pub defuse_asset_identifier_in: String,
    pub defuse_asset_identifier_out: String,
    pub amount_in: u128,
    pub amount_out: u128,
    pub expiration_time: String,
    pub quote_hash: String,
}

/// What a solver offers.
pub struct QuoteView {
    pub asset_in: Seq<char>,
    pub asset_out: Seq<char>,
    pub amount_in: u128,
    pub amount_out: u128,
    pub expiration: Seq<char>,
    pub hash: Seq<char>,
}

impl View for NearIntentsQuote {
    type V = QuoteView;

    open spec fn view(&self) -> QuoteView {
        QuoteView {
            asset_in: self.defuse_asset_identifier_in@,
            asset_out: self.defuse_asset_identifier_out@,
            amount_in: self.amount_in,
            amount_out: self.amount_out,
            expiration: self.expiration_time@,
            hash: self.quote_hash@,
        }
    }
}

/// What solvers offer.
pub open spec fn quote_views(quotes: Seq<NearIntentsQuote>) -> Seq<QuoteView> {
    Seq::new(quotes.len(), |i: int| quotes[i]@)
}

/// The name that solvers know a token in the wallet by.
pub open spec fn intents_asset(token: TokenIdView) -> Option<Seq<char>> {
    match token {
        TokenIdView::Near => Some("nep141:"@ + WRAP_NEAR@),
        TokenIdView::Nep141(contract) => Some("nep141:"@ + contract),
        _ => None,
    }
}

/// The name that solvers know a token in the wallet by.
fn asset_name(token: &TokenId) -> (r: Option<String>)
    ensures
        opt_text(r) == intents_asset(token@),
{
    match token {
        TokenId::Near => Some(join("nep141:", WRAP_NEAR)),
        TokenId::Nep141(contract) => Some(join("nep141:", contract.as_str())),
        _ => None,
    }
}

/// An amount, as far as it can be told apart.
pub open spec fn clipped(amount: u128) -> u128 {
    if amount > i128::MAX {
        i128::MAX as u128
    } else {
        amount
    }
}

/// An amount, as far as it can be told apart.
fn clip(amount: u128) -> (r: u128)
    ensures
        r == clipped(amount),
{
    if amount > i128::MAX as u128 {
        i128::MAX as u128
    } else {
        amount
    }
}

/// Whether an offer is better than another for the request: a larger output,
/// or a smaller input.
pub open spec fn better(amount: Amount, quote: QuoteView, best: QuoteView) -> bool {
    match amount {
        Amount::AmountIn(_) => clipped(quote.amount_out) > clipped(best.amount_out),
        Amount::AmountOut(_) => clipped(quote.amount_in) < clipped(best.amount_in),
    }
}

/// Whether an offer is for the two assets.
pub open spec fn fits(quote: QuoteView, asset_in: Seq<char>, asset_out: Seq<char>) -> bool {
    quote.asset_in == asset_in && quote.asset_out == asset_out
}

/// The index of the best of the first `k` offers for the assets, the first of
/// equal ones.
pub open spec fn best_quote(
    amount: Amount,
    asset_in: Seq<char>,
    asset_out: Seq<char>,
    quotes: Seq<QuoteView>,
    k: int,
) -> Option<int>
    decreases k,
{
    if k <= 0 {
        None
    } else {
        let rest = best_quote(amount, asset_in, asset_out, quotes, k - 1);
        if !fits(quotes[k - 1], asset_in, asset_out) {
            rest
        } else {
            match rest {
                Some(best) => if better(amount, quotes[k - 1], quotes[best]) {
                    Some(k - 1)
                } else {
                    rest
                },
                None => Some(k - 1),
            }
        }
    }
}

/// The best offer is one for the assets, and none for them is better.
pub proof fn best_quote_is_best(
    amount: Amount,
    asset_in: Seq<char>,
    asset_out: Seq<char>,
    quotes: Seq<QuoteView>,
    k: int,
)
    requires
        0 <= k <= quotes.len(),
    ensures
        match best_quote(amount, asset_in, asset_out, quotes, k) {
            Some(best) => {
                &&& 0 <= best < k
                &&& fits(quotes[best], asset_in, asset_out)
                &&& forall|i: int|
                    #![trigger quotes[i]]
                    0 <= i < k && fits(quotes[i], asset_in, asset_out) ==> !better(amount, quotes[i], quotes[best])
            },
            None => forall|i: int| #![trigger quotes[i]] 0 <= i < k ==> !fits(quotes[i], asset_in, asset_out),
        },
    decreases k,
{
    if k > 0 {
        best_quote_is_best(amount, asset_in, asset_out, quotes, k - 1);
    }
}

/// The index of the best offer for the assets.
fn find_best(amount: Amount, asset_in: &str, asset_out: &str, quotes: &Vec<NearIntentsQuote>) -> (r: Option<usize>)
    ensures
        match r {
            Some(i) => i < quotes@.len() && best_quote(
                amount,
                asset_in@,
                asset_out@,
                quote_views(quotes@),
                quotes@.len() as int,
            ) == Some(i as int),
            None => best_quote(amount, asset_in@, asset_out@, quote_views(quotes@), quotes@.len() as int) is None,
        },
{
    let ghost all = quote_views(quotes@);
    let mut best: Option<usize> = None;
    let mut i: usize = 0;
    while i < quotes.len()
        invariant
            i <= quotes@.len(),
            all == quote_views(quotes@),
            match best {
                Some(b) => b < i && best_quote(amount, asset_in@, asset_out@, all, i as int) == Some(b as int),
                None => best_quote(amount, asset_in@, asset_out@, all, i as int) is None,
            },
        decreases quotes@.len() - i,
    {
        let quote: &NearIntentsQuote = &quotes[i];
        assert(all[i as int] == quote@);
        if same_text(quote.defuse_asset_identifier_in.as_str(), asset_in) && same_text(
            quote.defuse_asset_identifier_out.as_str(),
            asset_out,
        ) {
            let is_better: bool = match best {
                Some(b) => {
                    assert(all[b as int] == quotes@[b as int]@);
                    match amount {
                        Amount::AmountIn(_) => clip(quote.amount_out) > clip(quotes[b].amount_out),
                        Amount::AmountOut(_) => clip(quote.amount_in) < clip(quotes[b].amount_in),
                    }
                },
                None => true,
            };
            if is_better {
                best = Some(i);
            }
        }
        i = i + 1;
    }
    best
}

/// What is signed: give one asset, take the other, and withdraw that.
pub open spec fn intents_message(request: RequestView, trader: Seq<char>, quote: QuoteView) -> JsonView {
    let diff = JsonView::Object(
        no_fields().push((quote.asset_in, JsonView::Text("-"@ + decimal_text(quote.amount_in as nat)))).push(
            (quote.asset_out, amount_json(quote.amount_out)),
        ),
    );
    let token_diff = JsonView::Object(
        no_fields().push(("intent"@, JsonView::Text("token_diff"@))).push(("diff"@, diff)),
    );
    let (kind, token) = match request.token_out {
        TokenIdView::Nep141(contract) => ("ft_withdraw"@, JsonView::Text(contract)),
        _ => ("native_withdraw"@, JsonView::Null),
    };
    let withdraw = JsonView::Object(
        no_fields().push(("intent"@, JsonView::Text(kind))).push(("token"@, token)).push(
            ("receiver_id"@, JsonView::Text(trader)),
        ).push(("amount"@, amount_json(quote.amount_out))),
    );
    JsonView::Object(
        no_fields().push(("deadline"@, JsonView::Text(quote.expiration))).push(
            ("intents"@, JsonView::Array(no_items().push(token_diff).push(withdraw))),
        ).push(("signer_id"@, JsonView::Text(trader))),
    )
}

/// What is signed.
fn make_message(request: &SwapRequest, trader: &AccountId, quote: &NearIntentsQuote) -> (r: Json)
    ensures
        r@ == intents_message(request@, trader@, quote@),
{
    let given: String = join("-", u128_to_text(quote.amount_in).as_str());
    let diff: Json = JsonObject::new().with_text(
        quote.defuse_asset_identifier_in.as_str(),
        given.as_str(),
    ).with(quote.defuse_asset_identifier_out.as_str(), amount_text(quote.amount_out)).done();
    let token_diff: Json = JsonObject::new().with_text("intent", "token_diff").with("diff", diff).done();
    let (kind, token): (&str, Json) = match &request.token_out {
        TokenId::Nep141(contract) => ("ft_withdraw", Json::text(contract.as_str())),
        _ => ("native_withdraw", Json::Null),
    };
    let withdraw: Json = JsonObject::new().with_text("intent", kind).with("token", token).with_text(
        "receiver_id",
        trader.as_str(),
    ).with("amount", amount_text(quote.amount_out)).done();
    JsonObject::new().with_text("deadline", quote.expiration_time.as_str()).with(
        "intents",
        JsonArray::new().with(token_diff).with(withdraw).done(),
    ).with_text("signer_id", trader.as_str()).done()
}

/// What sends the input to the contract.
pub open spec fn intents_deposit(amount: u128) -> ActionView {
    call(
        "ft_transfer_call"@,
        JsonView::Object(
            no_fields().push(("receiver_id"@, JsonView::Text(INTENTS_CONTRACT_ID@))).push(
                ("amount"@, amount_json(amount)),
            ).push(("msg"@, JsonView::Text(""@))),
        ),
        40,
        1,
    )
}

/// What sends the input to the contract.
fn create_deposit_action(amount: u128) -> (r: Action)
    ensures
        r@ == intents_deposit(amount),
{
    let args: Json = JsonObject::new().with_text("receiver_id", INTENTS_CONTRACT_ID).with(
        "amount",
        amount_text(amount),
    ).with_text("msg", "").done();
    call_action("ft_transfer_call", args, 40, 1)
}

/// What makes the signing key known to the contract, where it is known not to
/// be.
pub open spec fn add_key(key: Option<Seq<char>>, has_key: Option<bool>) -> Seq<InstructionView> {
    match (key, has_key) {
        (Some(key), Some(false)) => transaction(
            INTENTS_CONTRACT_ID@,
            call("add_public_key"@, JsonView::Object(no_fields().push(("public_key"@, JsonView::Text(key)))), 5, 1),
        ),
        _ => none(),
    }
}

/// What makes the signing key known to the contract.
fn add_public_key(key: &Option<String>, has_key: Option<bool>) -> (r: Vec<ExecutionInstruction>)
    ensures
        instruction_views(r@) == add_key(opt_text(*key), has_key),
{
    match (key, has_key) {
        (Some(key), Some(false)) => one_transaction(
            &contract(INTENTS_CONTRACT_ID),
            call_action("add_public_key", JsonObject::new().with_text("public_key", key.as_str()).done(), 5, 1),
        ),
        _ => no_instructions(),
    }
}

/// What carries the swap out: make the key known, pay for storage, bring the
/// input into the wallet and then to the contract, sign.
pub open spec fn intents_instructions(
    request: RequestView,
    network: NetworkState,
    trader: Seq<char>,
    quote: QuoteView,
    token_in: Seq<char>,
    has_key: Option<bool>,
) -> Seq<InstructionView> {
    add_key(request.signing_key, has_key) + storage_if_needed(network, request.token_out, Some(trader))
        + storage_if_needed(network, request.token_in, Some(trader)) + input_instructions(
        request.token_in,
        quote.amount_in,
    ) + transaction(token_in, intents_deposit(quote.amount_in)) + seq![
        InstructionView::Quote {
            message: json_text(intents_message(request, trader, quote)),
            hash: quote.hash,
        },
    ]
}

/// The route over the best of the solvers' offers.
pub open spec fn intents_route(
    request: RequestView,
    network: NetworkState,
    quotes: Seq<QuoteView>,
    has_key: Option<bool>,
) -> Option<RouteView> {
    match (request.trader, intents_asset(request.token_in), intents_asset(request.token_out)) {
        (Some(trader), Some(asset_in), Some(asset_out)) => match best_quote(
            request.amount,
            asset_in,
            asset_out,
            quotes,
            quotes.len() as int,
        ) {
            Some(best) => {
                let quote = quotes[best];
                let token_in = nep141_of(request.token_in)->0;
                let open = open_side(request.amount, quote.amount_in, quote.amount_out);
                Some(
                    RouteView {
                        dex_id: DexId::NearIntents,
                        deadline: Some(quote.expiration),
                        has_slippage: false,
                        estimated: open,
                        worst_case: open,
                        instructions: intents_instructions(request, network, trader, quote, token_in, has_key),
                        needs_unwrap: false,
                        token_output: request.token_out,
                    },
                )
            },
            None => None,
        },
        _ => None,
    }
}

/// What solvers are asked; none where there is no trader, a token is not in
/// the wallet, or there is no time.
pub open spec fn asks(request: RequestView) -> bool {
    request.trader is Some && intents_asset(request.token_in) is Some && intents_asset(request.token_out) is Some
        && request.max_wait_ms >= LATENCY_MS
}

impl NearIntentsProvider {
    /// The name of the exchange.
    pub fn dex_id(&self) -> (r: DexId)
        ensures
            r == DexId::NearIntents,
    {
        DexId::NearIntents
    }

    /// What solvers are to be asked, if they are.
    pub fn query(&self, request: &SwapRequest) -> (r: Option<NearIntentsQuoteParams>)
        ensures
            match r {
                Some(params) => {
                    &&& asks(request@)
                    &&& Some(params.defuse_asset_identifier_in@) == intents_asset(request@.token_in)
                    &&& Some(params.defuse_asset_identifier_out@) == intents_asset(request@.token_out)
                    &&& params.amount == match request@.amount {
                        Amount::AmountIn(amount) => ExactAmount::ExactAmountIn(amount),
                        Amount::AmountOut(amount) => ExactAmount::ExactAmountOut(amount),
                    }
                    &&& params.min_deadline_ms == MIN_DEADLINE_MS
                    &&& params.wait_ms == if request.max_wait_ms - LATENCY_MS < MAX_SOLVER_WAIT_MS {
                        request.max_wait_ms - LATENCY_MS
                    } else {
                        MAX_SOLVER_WAIT_MS as int
                    }
                },
                None => !asks(request@),
            },
    {
        if request.trader_account_id.is_none() || request.max_wait_ms < LATENCY_MS {
            return None;
        }
        match (asset_name(&request.token_in), asset_name(&request.token_out)) {
            (Some(asset_in), Some(asset_out)) => {
                let left: u64 = request.max_wait_ms - LATENCY_MS;
                Some(
                    NearIntentsQuoteParams {
                        defuse_asset_identifier_out: asset_out,
                        defuse_asset_identifier_in: asset_in,
                        amount: ExactAmount::from_amount(request.amount),
                        min_deadline_ms: MIN_DEADLINE_MS,
                        wait_ms: if left < MAX_SOLVER_WAIT_MS {
                            left
                        } else {
                            MAX_SOLVER_WAIT_MS
                        },
                    },
                )
            },
            _ => None,
        }
    }

    /// What the contract is asked about the signing key of the trader, where
    /// the request names both.
    pub fn key_call(&self, request: &SwapRequest) -> (r: Option<ViewCall>)
        ensures
            opt_call(r) == match (request@.trader, request@.signing_key) {
                (Some(trader), Some(key)) => Some(
                    asked_with(
                        "has_public_key"@,
                        JsonView::Object(
                            no_fields().push(("account_id"@, JsonView::Text(trader))).push(
                                ("public_key"@, JsonView::Text(key)),
                            ),
                        ),
                    ),
                ),
                _ => None,
            },
    {
        match (&request.trader_account_id, &request.signing_public_key) {
            (Some(trader), Some(key)) => Some(
                ask_with(
                    "has_public_key",
                    JsonObject::new().with_text("account_id", trader.as_str()).with_text(
                        "public_key",
                        key.as_str(),
                    ).done(),
                ),
            ),
            _ => None,
        }
    }

    /// The route over the best of the solvers' offers; `has_key` says whether
    /// the contract knows the signing key, where it said so.
    pub fn route(
        &self,
        request: &SwapRequest,
        network: &Network,
        quotes: &Vec<NearIntentsQuote>,
        has_key: Option<bool>,
    ) -> (r: Option<Route>)
        ensures
            opt_route(r) == intents_route(request@, network@, quote_views(quotes@), has_key),
            r matches Some(route) ==> answers(request@.amount, route@),
    {
        let trader: &AccountId = match &request.trader_account_id {
            Some(trader) => trader,
            None => {
                return None;
            },
        };
        let (asset_in, asset_out): (String, String) = match (
            asset_name(&request.token_in),
            asset_name(&request.token_out),
        ) {
            (Some(asset_in), Some(asset_out)) => (asset_in, asset_out),
            _ => {
                return None;
            },
        };
        let best: usize = match find_best(request.amount, asset_in.as_str(), asset_out.as_str(), quotes) {
            Some(best) => best,
            None => {
                return None;
            },
        };
        let quote: &NearIntentsQuote = &quotes[best];
        assert(quote_views(quotes@)[best as int] == quote@);
        let (input, token_in): (Vec<ExecutionInstruction>, AccountId) = match convert_to_nep141(
            &request.token_in,
            quote.amount_in,
        ) {
            Some(input) => input,
            None => {
                return None;
            },
        };
        let mut signed: Vec<ExecutionInstruction> = Vec::new();
        signed.push(
            ExecutionInstruction::IntentsQuote {
                message_to_sign: to_string(&make_message(request, trader, quote)),
                quote_hash: quote.quote_hash.as_str().to_string(),
            },
        );
        assert(instruction_views(signed@) =~= seq![
            InstructionView::Quote {
                message: json_text(intents_message(request@, trader@, quote@)),
                hash: quote@.hash,
            },
        ]);
        let key: Vec<ExecutionInstruction> = add_public_key(&request.signing_public_key, has_key);
        let output_storage: Vec<ExecutionInstruction> = deposit_storage_if_needed(
            network,
            &request.token_out,
            &request.trader_account_id,
        );
        let input_storage: Vec<ExecutionInstruction> = deposit_storage_if_needed(
            network,
            &request.token_in,
            &request.trader_account_id,
        );
        let deposit: Vec<ExecutionInstruction> = one_transaction(&token_in, create_deposit_action(quote.amount_in));
        let execution_instructions: Vec<ExecutionInstruction> = followed_by(
            followed_by(
                followed_by(followed_by(followed_by(key, output_storage), input_storage), input),
                deposit,
            ),
            signed,
        );
        let open: Amount = other_side(request.amount, quote.amount_in, quote.amount_out);
        Some(
            Route {
                dex_id: DexId::NearIntents,
                deadline: Some(quote.expiration_time.as_str().to_string()),
                has_slippage: false,
                estimated_amount: open,
                worst_case_amount: open,
                execution_instructions,
                deprecated_needs_unwrap_always_false: false,
                token_output: request.token_out.duplicate(),
            },
        )
    }
}

} // verus!
