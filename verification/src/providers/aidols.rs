//! Trading the tokens of aidols.near for the native coin.

use vstd::prelude::*;

use super::amounts::{answers, make_route, nep141, referrer, referrer_of, route_of, wallet_nep141, worst_is_no_better};
use super::views::{ask_to_emulate, emulate_call, ViewCall};
use crate::account::{direct_sub_account, AccountId};
use crate::decimal::{largest_input, least_output, max_input, min_output, Decimal};
use crate::json::{json_text, no_fields, to_string, Json, JsonObject, JsonView};
use crate::network::{Network, NetworkState};
use crate::shared_utils::{
    amount_json, amount_text, call, call_action, convert_to_nep141, deposit_storage_if_needed, followed_by,
    input_instructions, nep141_of, one_transaction, storage_if_needed, transaction, wallet_token, WRAP_NEAR,
};
use crate::slippage::{get_slippage, slippage_of, Market, MarketView};
use crate::types::{
    opt_route, Action, ActionView, Amount, DexId, ExecutionInstruction, RequestView, Route, RouteView, SwapRequest,
};

verus! {

/// The contract that trades the tokens, and that they are sub-accounts of.
pub const AIDOLS_CONTRACT_ID: &'static str = "aidols.near";

/// Routes for the tokens of aidols.near.
pub struct AidolsProvider;

/// What the contract says a swap comes to.
#[derive(Clone, Copy, Debug, PartialEq, Eq, Structural)]
pub struct AidolsEmulateSwap {
    pub amount: u128,
    pub fee: u128,
    pub is_deployed: bool,
    pub is_tradable: bool,
}

/// The two tokens that the contract is asked about.
#[derive(Debug, PartialEq)]
pub struct AidolsQuery {
    pub input_token: AccountId,
    pub output_token: AccountId,
}

impl AidolsQuery {
    /// What the contract is asked about an amount.
    pub fn call(&self, amount: Amount) -> (r: ViewCall)
        ensures
            r@ == emulate_call(self.input_token@, self.output_token@, amount),
    {
        ask_to_emulate(self.input_token.as_str(), self.output_token.as_str(), amount)
    }
}

/// The two tokens of the request, where the contract trades them.
pub open spec fn aidols_tokens(request: RequestView) -> Option<(Seq<char>, Seq<char>)> {
    match (nep141_of(request.token_in), nep141_of(request.token_out)) {
        (Some(token_in), Some(token_out)) => if direct_sub_account(
            aidol_of(token_in, token_out),
            AIDOLS_CONTRACT_ID@,
        ) {
            Some((token_in, token_out))
        } else {
            None
        },
        _ => None,
    }
}

/// The token that is traded for the native coin.
pub open spec fn aidol_of(token_in: Seq<char>, token_out: Seq<char>) -> Seq<char> {
    if token_in == WRAP_NEAR@ {
        token_out
    } else {
        token_in
    }
}

/// The token that is bought, or nothing.
pub open spec fn token_json(token_in: Seq<char>, token_out: Seq<char>) -> JsonView {
    if token_in == WRAP_NEAR@ {
        JsonView::Text(token_out)
    } else {
        JsonView::Null
    }
}

/// The message for a sale of all that is sent.
pub open spec fn sell_message(token_in: Seq<char>, token_out: Seq<char>, least: u128, referrer: Seq<char>) -> JsonView {
    JsonView::Object(
        no_fields().push(("token"@, token_json(token_in, token_out))).push(
            ("min_swap_amount"@, amount_json(least)),
        ).push(("referral"@, JsonView::Text(referrer))),
    )
}

/// The message for a purchase of an exact amount; the least amount is not
/// looked at but has to be there.
pub open spec fn buy_message(token_in: Seq<char>, token_out: Seq<char>, amount: u128, referrer: Seq<char>) -> JsonView {
    JsonView::Object(
        no_fields().push(("token"@, token_json(token_in, token_out))).push(("amount_out"@, amount_json(amount))).push(
            ("min_swap_amount"@, amount_json(u128::MAX)),
        ).push(("referral"@, JsonView::Text(referrer))),
    )
}

/// What sends an amount to the contract with a message.
pub open spec fn swap_action(amount: u128, message: JsonView) -> ActionView {
    call(
        "ft_transfer_call"@,
        JsonView::Object(
            no_fields().push(("receiver_id"@, JsonView::Text(AIDOLS_CONTRACT_ID@))).push(
                ("amount"@, amount_json(amount)),
            ).push(("msg"@, JsonView::Text(json_text(message)))),
        ),
        50,
        1,
    )
}

/// What sends an amount to the contract with a message.
fn create_swap_action(amount: u128, message: &Json) -> (r: Action)
    ensures
        r@ == swap_action(amount, message@),
{
    let args: Json = JsonObject::new().with_text("receiver_id", AIDOLS_CONTRACT_ID).with(
        "amount",
        amount_text(amount),
    ).with_text("msg", to_string(message).as_str()).done();
    call_action("ft_transfer_call", args, 50, 1)
}

/// The token that is bought, or nothing.
fn bought_token(token_in: &AccountId, token_out: &AccountId) -> (r: Json)
    ensures
        r@ == token_json(token_in@, token_out@),
{
    if token_in.is(WRAP_NEAR) {
        Json::text(token_out.as_str())
    } else {
        Json::Null
    }
}

/// The route for what the contract answered.
pub open spec fn aidols_route(
    request: RequestView,
    network: NetworkState,
    market: MarketView,
    quote: Option<AidolsEmulateSwap>,
) -> Option<RouteView> {
    let slippage = slippage_of(market, request.slippage, request.token_in, request.token_out);
    match (aidols_tokens(request), quote) {
        (Some((token_in, token_out)), Some(quote)) => if !quote.is_tradable {
            None
        } else {
            let referrer = referrer_of(request.referrer);
            let storage = storage_if_needed(network, nep141(token_out), request.trader) + storage_if_needed(
                network,
                nep141(token_in),
                request.trader,
            );
            match request.amount {
                Amount::AmountIn(amount) => match least_output(quote.amount, slippage) {
                    Some(least) => Some(
                        route_of(
                            DexId::Aidols,
                            true,
                            Amount::AmountOut(quote.amount),
                            Amount::AmountOut(least),
                            storage + input_instructions(request.token_in, amount) + transaction(
                                token_in,
                                swap_action(amount, sell_message(token_in, token_out, least, referrer)),
                            ),
                            nep141(token_out),
                        ),
                    ),
                    None => None,
                },
                Amount::AmountOut(amount) => match largest_input(quote.amount, slippage) {
                    Some(most) => Some(
                        route_of(
                            DexId::Aidols,
                            true,
                            Amount::AmountIn(quote.amount),
                            Amount::AmountIn(most),
                            storage + input_instructions(request.token_in, most) + transaction(
                                token_in,
                                swap_action(most, buy_message(token_in, token_out, amount, referrer)),
                            ),
                            nep141(token_out),
                        ),
                    ),
                    None => None,
                },
            }
        },
        _ => None,
    }
}

impl AidolsProvider {
    /// The name of the exchange.
    pub fn dex_id(&self) -> (r: DexId)
        ensures
            r == DexId::Aidols,
    {
        DexId::Aidols
    }

    /// The tokens that the contract is to be asked about, if it is.
    pub fn query(&self, request: &SwapRequest) -> (r: Option<AidolsQuery>)
        ensures
            match r {
                Some(query) => aidols_tokens(request@) == Some((query.input_token@, query.output_token@)),
                None => aidols_tokens(request@) is None,
            },
    {
        match (wallet_token(&request.token_in), wallet_token(&request.token_out)) {
            (Some(token_in), Some(token_out)) => {
                let traded: bool = if token_in.is(WRAP_NEAR) {
                    token_out.is_sub_account_of(AIDOLS_CONTRACT_ID)
                } else {
                    token_in.is_sub_account_of(AIDOLS_CONTRACT_ID)
                };
                if traded {
                    Some(AidolsQuery { input_token: token_in, output_token: token_out })
                } else {
                    None
                }
            },
            _ => None,
        }
    }

    /// The route for what the contract answered, if it did.
    pub fn route(
        &self,
        request: &SwapRequest,
        network: &Network,
        market: &Market,
        quote: Option<AidolsEmulateSwap>,
    ) -> (r: Option<Route>)
        requires
            market@.valid(),
            request@.slippage.valid(),
        ensures
            opt_route(r) == aidols_route(request@, network@, market@, quote),
            r matches Some(route) ==> answers(request@.amount, route@),
            r matches Some(route) ==> worst_is_no_better(route@),
    {
        let (query, quote): (AidolsQuery, AidolsEmulateSwap) = match (self.query(request), quote) {
            (Some(query), Some(quote)) => (query, quote),
            _ => {
                return None;
            },
        };
        if !quote.is_tradable {
            return None;
        }
        let token_in: AccountId = query.input_token;
        let token_out: AccountId = query.output_token;
        let slippage: Decimal = get_slippage(market, &request.slippage, &request.token_in, &request.token_out);
        let referrer_id: AccountId = referrer(&request.referrer_id);
        let token: Json = bought_token(&token_in, &token_out);
        let (estimated, worst, sent, message): (Amount, Amount, u128, Json) = match request.amount {
            Amount::AmountIn(amount) => match min_output(quote.amount, &slippage) {
                Some(least) => {
                    let message: Json = JsonObject::new().with("token", token).with(
                        "min_swap_amount",
                        amount_text(least),
                    ).with_text("referral", referrer_id.as_str()).done();
                    (Amount::AmountOut(quote.amount), Amount::AmountOut(least), amount, message)
                },
                None => {
                    return None;
                },
            },
            Amount::AmountOut(amount) => match max_input(quote.amount, &slippage) {
                Some(most) => {
                    let message: Json = JsonObject::new().with("token", token).with(
                        "amount_out",
                        amount_text(amount),
                    ).with("min_swap_amount", amount_text(u128::MAX)).with_text(
                        "referral",
                        referrer_id.as_str(),
                    ).done();
                    (Amount::AmountIn(quote.amount), Amount::AmountIn(most), most, message)
                },
                None => {
                    return None;
                },
            },
        };
        let input: Vec<ExecutionInstruction> = match convert_to_nep141(&request.token_in, sent) {
            Some((input, _)) => input,
            None => {
                return None;
            },
        };
        let storage: Vec<ExecutionInstruction> = followed_by(
            deposit_storage_if_needed(network, &wallet_nep141(&token_out), &request.trader_account_id),
            deposit_storage_if_needed(network, &wallet_nep141(&token_in), &request.trader_account_id),
        );
        let swap: Vec<ExecutionInstruction> = one_transaction(&token_in, create_swap_action(sent, &message));
        Some(
            make_route(
                DexId::Aidols,
                true,
                estimated,
                worst,
                followed_by(followed_by(storage, input), swap),
                wallet_nep141(&token_out),
            ),
        )
    }
}

} // verus!
