//! Routes through the pools of Veax.

use vstd::prelude::*;

use super::amounts::{answers, fixed_amount, make_route, nep141, route_of, wallet_nep141};
use super::grafun::{wrap_first, wrapping};
use super::views::{ask_with, asked_with, opt_call, ViewCall, ViewCallView};
use crate::account::{opt_account, AccountId};
use crate::ident::{position, position_of, views, Ident};
use crate::json::{json_text, no_fields, no_items, to_string, Json, JsonArray, JsonObject, JsonView};
use crate::network::{needs_storage_deposit_for_contract, Network, NetworkState};
use crate::shared_utils::{
    amount_json, amount_text, call, call_action, contract, create_storage_deposit_action_for_contract, no_args,
    nothing, storage_action, WRAP_NEAR,
};
use crate::types::{
    action_views, instruction_views, opt_route, Action, ActionView, Amount, DexId, ExecutionInstruction,
    InstructionView, RequestView, Route, RouteView, SwapRequest, TokenId, TokenIdView,
};

verus! {

/// The contract of the pools.
pub const VEAX_CONTRACT_ID: &'static str = "veax.near";

/// What storage on the contract costs.
pub const VEAX_STORAGE: u128 = 3_660_000_000_000_000_000_000;

/// What storage for a token on the contract costs.
pub const VEAX_TOKEN_STORAGE: u128 = 2_840_000_000_000_000_000_000;

/// Routes through the pools of Veax.
pub struct VeaxProvider;

/// What the contract says a swap comes to, and what the slippage makes of it
/// at worst.
#[derive(Clone, Copy, Debug, PartialEq, Eq, Structural)]
pub struct VeaxQuote {
    pub estimated: u128,
    pub worst_case: u128,
}

/// The two tokens that the contract is asked about.
#[derive(Debug, PartialEq)]
pub struct VeaxQuery {
    pub token_in: AccountId,
    pub token_out: AccountId,
}

/// The fungible token that the contract knows a token in the wallet as.
pub open spec fn veax_token(token: TokenIdView) -> Option<Seq<char>> {
    match token {
        TokenIdView::Near => Some(WRAP_NEAR@),
        TokenIdView::Nep141(contract) => Some(contract),
        _ => None,
    }
}

/// The fungible token that the contract knows a token in the wallet as.
fn known_as(token: &TokenId) -> (r: Option<AccountId>)
    ensures
        opt_account(r) == veax_token(token@),
{
    match token {
        TokenId::Near => Some(contract(WRAP_NEAR)),
        TokenId::Nep141(token) => Some(token.duplicate()),
        _ => None,
    }
}

/// What the contract is asked about an amount.
pub open spec fn estimate_call(token_in: Seq<char>, token_out: Seq<char>, amount: Amount) -> ViewCallView {
    asked_with(
        "estimate_swap_exact"@,
        JsonView::Object(
            no_fields().push(("is_exact_in"@, JsonView::Bool(amount is AmountIn))).push(
                ("token_in"@, JsonView::Text(token_in)),
            ).push(("token_out"@, JsonView::Text(token_out))).push(
                ("amount"@, amount_json(fixed_amount(amount))),
            ).push(("slippage_tolerance_bp"@, JsonView::Number(0))),
        ),
    )
}

impl VeaxQuery {
    /// What the contract is asked about an amount.
    pub fn call(&self, amount: Amount) -> (r: ViewCall)
        ensures
            r@ == estimate_call(self.token_in@, self.token_out@, amount),
    {
        let (is_exact_in, fixed): (bool, u128) = match amount {
            Amount::AmountIn(amount) => (true, amount),
            Amount::AmountOut(amount) => (false, amount),
        };
        let args: Json = JsonObject::new().with("is_exact_in", Json::Bool(is_exact_in)).with_text(
            "token_in",
            self.token_in.as_str(),
        ).with_text("token_out", self.token_out.as_str()).with("amount", amount_text(fixed)).with(
            "slippage_tolerance_bp",
            Json::Number(0),
        ).done();
        ask_with("estimate_swap_exact", args)
    }
}

/// A withdrawal of all of a token.
pub open spec fn withdraw_json(token: Seq<char>) -> JsonView {
    JsonView::Object(
        no_fields().push(
            (
                "Withdraw"@,
                JsonView::Array(
                    no_items().push(JsonView::Text(token)).push(JsonView::Text("0"@)).push(JsonView::Null),
                ),
            ),
        ),
    )
}

/// A withdrawal of all of a token.
fn make_withdraw(token: &AccountId) -> (r: Json)
    ensures
        r@ == withdraw_json(token@),
{
    let args: Json = JsonArray::new().with(Json::text(token.as_str())).with(Json::text("0")).with(Json::Null).done();
    JsonObject::new().with("Withdraw", args).done()
}

/// What the contract is told to do with the tokens that are sent: take them
/// in, swap, and hand everything out.
pub open spec fn veax_message(
    kind: Seq<char>,
    token_in: Seq<char>,
    token_out: Seq<char>,
    amount: u128,
    limit: u128,
) -> JsonView {
    JsonView::Array(
        no_items().push(JsonView::Text("Deposit"@)).push(
            JsonView::Object(
                no_fields().push(
                    (
                        kind,
                        JsonView::Object(
                            no_fields().push(("token_in"@, JsonView::Text(token_in))).push(
                                ("token_out"@, JsonView::Text(token_out)),
                            ).push(("amount"@, amount_json(amount))).push(("amount_limit"@, amount_json(limit))),
                        ),
                    ),
                ),
            ),
        ).push(withdraw_json(token_in)).push(withdraw_json(token_out)),
    )
}

/// What the contract is told to do with the tokens that are sent.
fn make_message(kind: &str, token_in: &AccountId, token_out: &AccountId, amount: u128, limit: u128) -> (r: Json)
    ensures
        r@ == veax_message(kind@, token_in@, token_out@, amount, limit),
{
    let swap: Json = JsonObject::new().with_text("token_in", token_in.as_str()).with_text(
        "token_out",
        token_out.as_str(),
    ).with("amount", amount_text(amount)).with("amount_limit", amount_text(limit)).done();
    JsonArray::new().with(Json::text("Deposit")).with(JsonObject::new().with(kind, swap).done()).with(
        make_withdraw(token_in),
    ).with(make_withdraw(token_out)).done()
}

/// What sends tokens to the contract with a message.
pub open spec fn transfer_action(amount: u128, message: JsonView, tgas: u64) -> ActionView {
    call(
        "ft_transfer_call"@,
        JsonView::Object(
            no_fields().push(("receiver_id"@, JsonView::Text(VEAX_CONTRACT_ID@))).push(
                ("amount"@, amount_json(amount)),
            ).push(("msg"@, JsonView::Text(json_text(message)))),
        ),
        tgas,
        1,
    )
}

/// What sends tokens to the contract with a message.
fn create_transfer_action(amount: u128, message: &Json, tgas: u64) -> (r: Action)
    requires
        tgas <= 300,
    ensures
        r@ == transfer_action(amount, message@, tgas),
{
    let args: Json = JsonObject::new().with_text("receiver_id", VEAX_CONTRACT_ID).with(
        "amount",
        amount_text(amount),
    ).with_text("msg", to_string(message).as_str()).done();
    call_action("ft_transfer_call", args, tgas, 1)
}

/// What carries the swap itself.
pub open spec fn swap_action(amount: Amount, token_in: Seq<char>, token_out: Seq<char>, worst: u128) -> ActionView {
    match amount {
        Amount::AmountIn(amount) => transfer_action(
            amount,
            veax_message("SwapExactIn"@, token_in, token_out, amount, worst),
            120,
        ),
        Amount::AmountOut(amount) => transfer_action(
            worst,
            veax_message("SwapExactOut"@, token_in, token_out, amount, worst),
            200,
        ),
    }
}

/// The most that goes in.
pub open spec fn most_sent(amount: Amount, worst: u128) -> u128 {
    match amount {
        Amount::AmountIn(amount) => amount,
        Amount::AmountOut(_) => worst,
    }
}

/// What the transaction with the input does: wrap the native coin, and swap.
pub open spec fn veax_actions(
    request: RequestView,
    network: NetworkState,
    token_in: Seq<char>,
    token_out: Seq<char>,
    worst: u128,
) -> Seq<ActionView> {
    let first = if request.token_in is Near {
        wrapping(network, request.trader, most_sent(request.amount, worst))
    } else {
        Seq::empty()
    };
    first.push(swap_action(request.amount, token_in, token_out, worst))
}

/// Those of the two tokens that the trader has yet to register.
pub open spec fn unregistered(known: Seq<Seq<char>>, token_in: Seq<char>, token_out: Seq<char>) -> Seq<JsonView> {
    let first = if position(known, token_in) is None {
        no_items().push(JsonView::Text(token_in))
    } else {
        no_items()
    };
    if position(known, token_out) is None {
        first.push(JsonView::Text(token_out))
    } else {
        first
    }
}

/// What the trader has to do on the contract first: pay for storage, and
/// register tokens, as far as the ones that it has are known.
pub open spec fn veax_registration(
    network: NetworkState,
    trader: Option<Seq<char>>,
    known: Option<Seq<Seq<char>>>,
    token_in: Seq<char>,
    token_out: Seq<char>,
) -> Seq<InstructionView> {
    match trader {
        None => Seq::empty(),
        Some(trader) => {
            let storage = if network.needs_on_contract(trader, VEAX_CONTRACT_ID@) {
                seq![storage_action(VEAX_STORAGE, true)]
            } else {
                Seq::empty()
            };
            let missing = match known {
                Some(known) => unregistered(known, token_in, token_out),
                None => no_items(),
            };
            let actions = if missing.len() > 0 {
                storage.push(
                    call("storage_deposit"@, nothing(), 10, (VEAX_TOKEN_STORAGE * missing.len()) as u128),
                ).push(
                    call(
                        "register_tokens"@,
                        JsonView::Object(no_fields().push(("token_ids"@, JsonView::Array(missing)))),
                        10,
                        1,
                    ),
                )
            } else {
                storage
            };
            if actions.len() == 0 {
                Seq::empty()
            } else {
                seq![InstructionView::Transaction { receiver: VEAX_CONTRACT_ID@, actions }]
            }
        },
    }
}

/// What the trader has to do on the contract first.
fn register(
    network: &Network,
    trader: &Option<AccountId>,
    known: &Option<Vec<AccountId>>,
    token_in: &AccountId,
    token_out: &AccountId,
) -> (r: Vec<ExecutionInstruction>)
    ensures
        instruction_views(r@) == veax_registration(
            network@,
            opt_account(*trader),
            opt_views(*known),
            token_in@,
            token_out@,
        ),
{
    let mut out: Vec<ExecutionInstruction> = Vec::new();
    let ghost wanted = veax_registration(network@, opt_account(*trader), opt_views(*known), token_in@, token_out@);
    match trader {
        None => {},
        Some(trader) => {
            let mut actions: Vec<Action> = Vec::new();
            if needs_storage_deposit_for_contract(network, trader, &contract(VEAX_CONTRACT_ID)) {
                actions.push(create_storage_deposit_action_for_contract(VEAX_STORAGE, true));
            }
            match known {
                Some(known) => {
                    let mut missing: JsonArray = JsonArray::new();
                    let mut count: u128 = 0;
                    if position_of(known, token_in).is_none() {
                        missing = missing.with(Json::text(token_in.as_str()));
                        count = count + 1;
                    }
                    if position_of(known, token_out).is_none() {
                        missing = missing.with(Json::text(token_out.as_str()));
                        count = count + 1;
                    }
                    assert(missing@ == unregistered(views(known@), token_in@, token_out@));
                    assert(count == missing@.len());
                    if count > 0 {
                        actions.push(call_action("storage_deposit", no_args(), 10, VEAX_TOKEN_STORAGE * count));
                        let args: Json = JsonObject::new().with("token_ids", missing.done()).done();
                        actions.push(call_action("register_tokens", args, 10, 1));
                    }
                },
                None => {},
            }
            if actions.len() > 0 {
                proof {
                    assert(action_views(actions@) =~= wanted[0]->actions);
                }
                out.push(
                    ExecutionInstruction::NearTransaction { receiver_id: contract(VEAX_CONTRACT_ID), actions },
                );
            }
        },
    }
    assert(instruction_views(out@) =~= wanted);
    out
}

/// The tokens, where they are known.
pub open spec fn opt_views(known: Option<Vec<AccountId>>) -> Option<Seq<Seq<char>>> {
    match known {
        Some(known) => Some(views(known@)),
        None => None,
    }
}

/// The route for what the contract answered.
pub open spec fn veax_route(
    request: RequestView,
    network: NetworkState,
    quote: Option<VeaxQuote>,
    known: Option<Seq<Seq<char>>>,
) -> Option<RouteView> {
    match (veax_token(request.token_in), veax_token(request.token_out), quote) {
        (Some(token_in), Some(token_out), Some(quote)) => {
            let (estimated, worst) = match request.amount {
                Amount::AmountIn(_) => (Amount::AmountOut(quote.estimated), Amount::AmountOut(quote.worst_case)),
                Amount::AmountOut(_) => (Amount::AmountIn(quote.estimated), Amount::AmountIn(quote.worst_case)),
            };
            Some(
                route_of(
                    DexId::Veax,
                    true,
                    estimated,
                    worst,
                    veax_registration(network, request.trader, known, token_in, token_out).push(
                        InstructionView::Transaction {
                            receiver: token_in,
                            actions: veax_actions(request, network, token_in, token_out, quote.worst_case),
                        },
                    ),
                    nep141(token_out),
                ),
            )
        },
        _ => None,
    }
}

impl VeaxProvider {
    /// The name of the exchange.
    pub fn dex_id(&self) -> (r: DexId)
        ensures
            r == DexId::Veax,
    {
        DexId::Veax
    }

    /// The tokens that the contract is to be asked about, if it is.
    pub fn query(&self, request: &SwapRequest) -> (r: Option<VeaxQuery>)
        ensures
            match r {
                Some(query) => veax_token(request@.token_in) == Some(query.token_in@) && veax_token(
                    request@.token_out,
                ) == Some(query.token_out@),
                None => veax_token(request@.token_in) is None || veax_token(request@.token_out) is None,
            },
    {
        match (known_as(&request.token_in), known_as(&request.token_out)) {
            (Some(token_in), Some(token_out)) => Some(VeaxQuery { token_in, token_out }),
            _ => None,
        }
    }

    /// What the contract is asked about the tokens that the trader, if there is
    /// one, has registered.
    pub fn tokens_call(&self, request: &SwapRequest) -> (r: Option<ViewCall>)
        ensures
            opt_call(r) == match request@.trader {
                Some(trader) => Some(
                    asked_with(
                        "get_user_tokens"@,
                        JsonView::Object(no_fields().push(("account_id"@, JsonView::Text(trader)))),
                    ),
                ),
                None => None,
            },
    {
        match &request.trader_account_id {
            Some(trader) => Some(
                ask_with("get_user_tokens", JsonObject::new().with_text("account_id", trader.as_str()).done()),
            ),
            None => None,
        }
    }

    /// The route for what the contract answered, if it did, with the tokens
    /// that the trader has registered there, if they are known.
    pub fn route(
        &self,
        request: &SwapRequest,
        network: &Network,
        quote: Option<VeaxQuote>,
        user_tokens: &Option<Vec<AccountId>>,
    ) -> (r: Option<Route>)
        ensures
            opt_route(r) == veax_route(request@, network@, quote, opt_views(*user_tokens)),
            r matches Some(route) ==> answers(request@.amount, route@),
    {
        let (query, quote): (VeaxQuery, VeaxQuote) = match (self.query(request), quote) {
            (Some(query), Some(quote)) => (query, quote),
            _ => {
                return None;
            },
        };
        let token_in: AccountId = query.token_in;
        let token_out: AccountId = query.token_out;
        let worst: u128 = quote.worst_case;
        let (swap, sent, estimated, worst_case): (Action, u128, Amount, Amount) = match request.amount {
            Amount::AmountIn(amount) => {
                let message: Json = make_message("SwapExactIn", &token_in, &token_out, amount, worst);
                (
                    create_transfer_action(amount, &message, 120),
                    amount,
                    Amount::AmountOut(quote.estimated),
                    Amount::AmountOut(worst),
                )
            },
            Amount::AmountOut(amount) => {
                let message: Json = make_message("SwapExactOut", &token_in, &token_out, amount, worst);
                (
                    create_transfer_action(worst, &message, 200),
                    worst,
                    Amount::AmountIn(quote.estimated),
                    Amount::AmountIn(worst),
                )
            },
        };
        let native: bool = match &request.token_in {
            TokenId::Near => true,
            _ => false,
        };
        let mut actions: Vec<Action> = if native {
            wrap_first(network, &request.trader_account_id, sent)
        } else {
            Vec::new()
        };
        actions.push(swap);
        assert(action_views(actions@) =~= veax_actions(request@, network@, token_in@, token_out@, worst));
        let mut instructions: Vec<ExecutionInstruction> = register(
            network,
            &request.trader_account_id,
            user_tokens,
            &token_in,
            &token_out,
        );
        let ghost first = instruction_views(instructions@);
        let transfer: ExecutionInstruction = ExecutionInstruction::NearTransaction { receiver_id: token_in, actions };
        instructions.push(transfer);
        assert(instruction_views(instructions@) =~= first.push(transfer@));
        Some(make_route(DexId::Veax, true, estimated, worst_case, instructions, wallet_nep141(&token_out)))
    }
}

} // verus!
