//! Trading the tokens of gra-fun.near for the native coin.

use vstd::prelude::*;

use super::amounts::{answers, make_route, nep141, route_of, wallet_nep141};
use super::views::{ask_to_emulate, emulate_call, ViewCall};
use crate::account::{direct_sub_account, opt_account, AccountId};
use crate::ident::Ident;
use crate::json::{json_text, no_fields, to_string, Json, JsonObject, JsonView};
use crate::network::{needs_storage_deposit, Network, NetworkState};
use crate::shared_utils::{
    amount_json, amount_text, call, call_action, contract, create_storage_deposit_action_for_contract,
    create_wrap_action, deposit_storage_if_needed, storage_action, storage_if_needed, wrap_action, TOKEN_STORAGE,
    WRAP_NEAR,
};
use crate::types::{
    action_views, instruction_views, opt_route, Action, ActionView, Amount, DexId, ExecutionInstruction,
    InstructionView, RequestView, Route, RouteView, SwapRequest, TokenId, TokenIdView,
};

verus! {

/// The contract that trades the tokens, and that they are sub-accounts of.
pub const GRAFUN_CONTRACT_ID: &'static str = "gra-fun.near";

/// Routes for the tokens of gra-fun.near.
pub struct GraFunProvider;

/// What the contract says a sale comes to, and the least that the slippage
/// leaves of it.
#[derive(Clone, Copy, Debug, PartialEq, Eq, Structural)]
pub struct GraFunQuote {
    pub amount_out: u128,
    pub min_amount_out: u128,
    pub is_tradable: bool,
}

/// A trade for the native coin.
#[derive(Debug, PartialEq)]
pub struct GraFunTrade {
    pub token: AccountId,
    pub is_buy: bool,
    /// Whether the native coin is on the other side, and not its wrapped form.
    pub is_native: bool,
    pub amount_in: u128,
}

/// A trade for the native coin.
pub struct GraFunView {
    pub token: Seq<char>,
    pub is_buy: bool,
    pub is_native: bool,
    pub amount_in: u128,
}

impl GraFunTrade {
    /// What the contract is asked about the trade.
    pub fn call(&self) -> (r: ViewCall)
        ensures
            r@ == if self.is_buy {
                emulate_call(WRAP_NEAR@, self.token@, Amount::AmountIn(self.amount_in))
            } else {
                emulate_call(self.token@, WRAP_NEAR@, Amount::AmountIn(self.amount_in))
            },
    {
        let amount: Amount = Amount::AmountIn(self.amount_in);
        if self.is_buy {
            ask_to_emulate(WRAP_NEAR, self.token.as_str(), amount)
        } else {
            ask_to_emulate(self.token.as_str(), WRAP_NEAR, amount)
        }
    }
}

impl View for GraFunTrade {
    type V = GraFunView;

    open spec fn view(&self) -> GraFunView {
        GraFunView {
            token: self.token@,
            is_buy: self.is_buy,
            is_native: self.is_native,
            amount_in: self.amount_in,
        }
    }
}

/// Which side is the native coin, and whether it is wrapped: none where
/// neither is.
pub open spec fn native_side(request: RequestView) -> Option<(bool, bool)> {
    let wrapped = TokenIdView::Nep141(WRAP_NEAR@);
    if request.token_in == TokenIdView::Near {
        Some((true, true))
    } else if request.token_in == wrapped {
        Some((true, false))
    } else if request.token_out == TokenIdView::Near {
        Some((false, true))
    } else if request.token_out == wrapped {
        Some((false, false))
    } else {
        None
    }
}

/// The trade that is asked for, where the contract makes it: an exact input,
/// and one of its tokens in the wallet.
pub open spec fn grafun_trade(request: RequestView) -> Option<GraFunView> {
    match (native_side(request), request.amount) {
        (Some((is_buy, is_native)), Amount::AmountIn(amount_in)) => {
            let other = if is_buy {
                request.token_out
            } else {
                request.token_in
            };
            match other {
                TokenIdView::Nep141(token) => if direct_sub_account(token, GRAFUN_CONTRACT_ID@) {
                    Some(GraFunView { token, is_buy, is_native, amount_in })
                } else {
                    None
                },
                _ => None,
            }
        },
        _ => None,
    }
}

/// The message to the contract.
pub open spec fn grafun_message(trade: GraFunView, least: u128) -> JsonView {
    JsonView::Object(
        no_fields().push(
            (
                "token"@,
                if trade.is_buy {
                    JsonView::Text(trade.token)
                } else {
                    JsonView::Null
                },
            ),
        ).push(("min_swap_amount"@, amount_json(least))),
    )
}

/// What sends the input to the contract.
pub open spec fn swap_action(trade: GraFunView, least: u128) -> ActionView {
    call(
        "ft_transfer_call"@,
        JsonView::Object(
            no_fields().push(("receiver_id"@, JsonView::Text(GRAFUN_CONTRACT_ID@))).push(
                ("amount"@, amount_json(trade.amount_in)),
            ).push(("msg"@, JsonView::Text(json_text(grafun_message(trade, least))))),
        ),
        50,
        1,
    )
}

/// What sends the input to the contract.
fn create_swap_action(trade: &GraFunTrade, least: u128) -> (r: Action)
    ensures
        r@ == swap_action(trade@, least),
{
    let token: Json = if trade.is_buy {
        Json::text(trade.token.as_str())
    } else {
        Json::Null
    };
    let message: Json = JsonObject::new().with("token", token).with("min_swap_amount", amount_text(least)).done();
    let args: Json = JsonObject::new().with_text("receiver_id", GRAFUN_CONTRACT_ID).with(
        "amount",
        amount_text(trade.amount_in),
    ).with_text("msg", to_string(&message).as_str()).done();
    call_action("ft_transfer_call", args, 50, 1)
}

/// What a wallet does before it spends the wrapped coin: pay for its storage
/// where that is needed, and wrap.
pub open spec fn wrapping(network: NetworkState, trader: Option<Seq<char>>, amount: u128) -> Seq<ActionView> {
    let storage = match trader {
        Some(trader) => if network.needs(trader, nep141(WRAP_NEAR@)) {
            seq![storage_action(TOKEN_STORAGE, true)]
        } else {
            Seq::empty()
        },
        None => Seq::empty(),
    };
    storage.push(wrap_action(amount))
}

/// What a wallet does before it spends the wrapped coin.
pub(crate) fn wrap_first(network: &Network, trader: &Option<AccountId>, amount: u128) -> (r: Vec<Action>)
    ensures
        action_views(r@) == wrapping(network@, opt_account(*trader), amount),
{
    let mut actions: Vec<Action> = Vec::new();
    match trader {
        Some(trader) => {
            if needs_storage_deposit(network, trader, &wallet_nep141(&contract(WRAP_NEAR))) {
                actions.push(create_storage_deposit_action_for_contract(TOKEN_STORAGE, true));
            }
        },
        None => {},
    }
    actions.push(create_wrap_action(amount));
    assert(action_views(actions@) =~= wrapping(network@, opt_account(*trader), amount));
    actions
}

/// What the transaction with the input does.
pub open spec fn grafun_actions(
    network: NetworkState,
    trader: Option<Seq<char>>,
    trade: GraFunView,
    least: u128,
) -> Seq<ActionView> {
    let first = if trade.is_buy && trade.is_native {
        wrapping(network, trader, trade.amount_in)
    } else {
        Seq::empty()
    };
    first.push(swap_action(trade, least))
}

/// The route for what the contract answered. A sale gives the wrapped coin.
pub open spec fn grafun_route(request: RequestView, network: NetworkState, quote: Option<GraFunQuote>) -> Option<
    RouteView,
> {
    match (grafun_trade(request), quote) {
        (Some(trade), Some(quote)) => if !quote.is_tradable {
            None
        } else {
            let (from, to) = if trade.is_buy {
                (WRAP_NEAR@, trade.token)
            } else {
                (trade.token, WRAP_NEAR@)
            };
            Some(
                route_of(
                    DexId::GraFun,
                    true,
                    Amount::AmountOut(quote.amount_out),
                    Amount::AmountOut(quote.min_amount_out),
                    storage_if_needed(network, request.token_out, request.trader).push(
                        InstructionView::Transaction {
                            receiver: from,
                            actions: grafun_actions(network, request.trader, trade, quote.min_amount_out),
                        },
                    ),
                    nep141(to),
                ),
            )
        },
        _ => None,
    }
}

impl GraFunProvider {
    /// The name of the exchange.
    pub fn dex_id(&self) -> (r: DexId)
        ensures
            r == DexId::GraFun,
    {
        DexId::GraFun
    }

    /// The trade that the contract is to be asked about, if it is.
    pub fn query(&self, request: &SwapRequest) -> (r: Option<GraFunTrade>)
        ensures
            match r {
                Some(trade) => grafun_trade(request@) == Some(trade@),
                None => grafun_trade(request@) is None,
            },
    {
        let wrapped: TokenId = wallet_nep141(&contract(WRAP_NEAR));
        let near: TokenId = TokenId::Near;
        let (is_buy, is_native): (bool, bool) = if request.token_in.same(&near) {
            (true, true)
        } else if request.token_in.same(&wrapped) {
            (true, false)
        } else if request.token_out.same(&near) {
            (false, true)
        } else if request.token_out.same(&wrapped) {
            (false, false)
        } else {
            return None;
        };
        let amount_in: u128 = match request.amount {
            Amount::AmountIn(amount) => amount,
            Amount::AmountOut(_) => {
                return None;
            },
        };
        let other: &TokenId = if is_buy {
            &request.token_out
        } else {
            &request.token_in
        };
        match other {
            TokenId::Nep141(token) => {
                if token.is_sub_account_of(GRAFUN_CONTRACT_ID) {
                    Some(GraFunTrade { token: token.duplicate(), is_buy, is_native, amount_in })
                } else {
                    None
                }
            },
            _ => None,
        }
    }

    /// The route for what the contract answered, if it did.
    pub fn route(&self, request: &SwapRequest, network: &Network, quote: Option<GraFunQuote>) -> (r: Option<Route>)
        ensures
            opt_route(r) == grafun_route(request@, network@, quote),
            r matches Some(route) ==> answers(request@.amount, route@),
    {
        let (trade, quote): (GraFunTrade, GraFunQuote) = match (self.query(request), quote) {
            (Some(trade), Some(quote)) => (trade, quote),
            _ => {
                return None;
            },
        };
        if !quote.is_tradable {
            return None;
        }
        let mut actions: Vec<Action> = if trade.is_buy && trade.is_native {
            wrap_first(network, &request.trader_account_id, trade.amount_in)
        } else {
            Vec::new()
        };
        let ghost first = actions@;
        actions.push(create_swap_action(&trade, quote.min_amount_out));
        assert(action_views(actions@) =~= grafun_actions(
            network@,
            request@.trader,
            trade@,
            quote.min_amount_out,
        ));
        let (from, to): (AccountId, AccountId) = if trade.is_buy {
            (contract(WRAP_NEAR), trade.token)
        } else {
            (trade.token, contract(WRAP_NEAR))
        };
        let mut instructions: Vec<ExecutionInstruction> = deposit_storage_if_needed(
            network,
            &request.token_out,
            &request.trader_account_id,
        );
        let ghost storage = instruction_views(instructions@);
        let swap: ExecutionInstruction = ExecutionInstruction::NearTransaction { receiver_id: from, actions };
        instructions.push(swap);
        assert(instruction_views(instructions@) =~= storage.push(swap@));
        Some(
            make_route(
                DexId::GraFun,
                true,
                Amount::AmountOut(quote.amount_out),
                Amount::AmountOut(quote.min_amount_out),
                instructions,
                wallet_nep141(&to),
            ),
        )
    }
}

} // verus!
