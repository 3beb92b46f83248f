//! Staking RHEA into xRHEA, and back.

use vstd::arithmetic::div_mod::{
    lemma_div_is_ordered, lemma_div_multiples_vanish, lemma_div_pos_is_pos, lemma_fundamental_div_mod, lemma_mod_bound,
};
use vstd::arithmetic::power::pow;
use vstd::prelude::*;

use super::amounts::{answers, make_route, nep141, open_side, other_side, route_of, wallet_nep141};
use crate::account::AccountId;
use crate::decimal::{
    lemma_floor_of_quotient, lemma_quotient_exact, lemma_quotient_ratio, lemma_short, lemma_small_powers,
    lemma_whole_of_floor, product, quotient, whole_u128, Decimal,
};
use crate::json::{json_text, no_fields, to_string, Json, JsonObject, JsonView};
use crate::network::{Network, NetworkState};
use crate::shared_utils::{
    amount_json, amount_text, call, call_action, contract, convert_to_nep141, deposit_storage_if_needed, followed_by,
    nep141_of, nothing, no_args, one_transaction, storage_if_needed, input_instructions, transaction, wallet_token,
};
use crate::types::{
    opt_route, ActionView, Action, Amount, DexId, ExecutionInstruction, RequestView, Route, RouteView, SwapRequest,
};
use crate::wide::ratio;

verus! {

/// The contract of RHEA.
pub const RHEA_TOKEN: &'static str = "token.rhealab.near";

/// The contract of xRHEA.
pub const XRHEA_TOKEN: &'static str = "xtoken.rhealab.near";

/// What a price of one is quoted as.
pub const ONE_8: u128 = 100_000_000;

/// Routes between RHEA and xRHEA.
pub struct XRheaProvider;

/// Whether the request stakes RHEA, or unstakes xRHEA; none where neither.
pub open spec fn staking(request: RequestView) -> Option<bool> {
    match (nep141_of(request.token_in), nep141_of(request.token_out)) {
        (Some(token_in), Some(token_out)) => if token_in == RHEA_TOKEN@ && token_out == XRHEA_TOKEN@ {
            Some(true)
        } else if token_in == XRHEA_TOKEN@ && token_out == RHEA_TOKEN@ {
            Some(false)
        } else {
            None
        },
        _ => None,
    }
}

/// Whether the request stakes RHEA, or unstakes xRHEA.
fn is_staking(request: &SwapRequest) -> (r: Option<bool>)
    ensures
        r == staking(request@),
{
    match (wallet_token(&request.token_in), wallet_token(&request.token_out)) {
        (Some(token_in), Some(token_out)) => {
            if token_in.is(RHEA_TOKEN) && token_out.is(XRHEA_TOKEN) {
                Some(true)
            } else if token_in.is(XRHEA_TOKEN) && token_out.is(RHEA_TOKEN) {
                Some(false)
            } else {
                None
            }
        },
        _ => None,
    }
}

/// What xRHEA is worth in RHEA at a price in parts of `ONE_8`, rounded down.
pub open spec fn rhea_for(xrhea: u128, quoted: u128) -> Option<u128> {
    ratio(xrhea as nat, quoted as nat, ONE_8 as nat)
}

/// What RHEA is worth in xRHEA, rounded down; none where xRHEA has no price.
pub open spec fn xrhea_for(rhea: u128, quoted: u128) -> Option<u128> {
    ratio(rhea as nat, ONE_8 as nat, quoted as nat)
}

/// The price of xRHEA in RHEA.
fn price_of(quoted: u128) -> (r: Decimal)
    ensures
        0 <= r@.scale <= 8,
        r@.digits * ONE_8 == quoted * pow(10, r@.scale as nat),
        r@.digits >= 0,
        r@.digits == 0 <==> quoted == 0,
        r@.value() * (ONE_8 as real) == quoted as real,
        r.magnitude@.len() <= 66,
{
    proof {
        lemma_short();
        lemma_small_powers();
        lemma_quotient_exact(quoted as nat, 8);
    }
    quotient(&Decimal::from_u128(quoted), &Decimal::from_u128(ONE_8))
}

/// What xRHEA is worth in RHEA.
fn to_rhea(xrhea: u128, quoted: u128) -> (r: Option<u128>)
    ensures
        r == rhea_for(xrhea, quoted),
{
    let price: Decimal = price_of(quoted);
    proof {
        let c = price@.value();
        let (a, q, o) = (xrhea as real, quoted as real, ONE_8 as real);
        let x = a * c;
        let top = xrhea * quoted;
        assert((xrhea * quoted) as real == (xrhea as real) * (quoted as real)) by (nonlinear_arith);
        assert(x * o == a * q) by (nonlinear_arith)
            requires
                x == a * c,
                c * o == q,
        ;
        lemma_floor_of_quotient(x, top as nat, ONE_8 as nat);
        lemma_div_pos_is_pos(top, ONE_8 as int);
        lemma_whole_of_floor(x, top / (ONE_8 as int));
    }
    whole_u128(&product(&Decimal::from_u128(xrhea), &price))
}

/// What RHEA is worth in xRHEA.
fn to_xrhea(rhea: u128, quoted: u128) -> (r: Option<u128>)
    ensures
        r == xrhea_for(rhea, quoted),
{
    let price: Decimal = price_of(quoted);
    if price.is_zero() {
        return None;
    }
    let bought: Decimal = quotient(&Decimal::from_u128(rhea), &price);
    proof {
        lemma_quotient_ratio(rhea, price@, ONE_8 as nat, quoted as nat);
    }
    whole_u128(&bought)
}

/// Staking RHEA and unstaking all of what it brought, at one price, never
/// gains; nor does unstaking xRHEA and staking what it brought.
pub proof fn staking_and_unstaking_never_gain(amount: u128, quoted: u128)
    ensures
        xrhea_for(amount, quoted) matches Some(xrhea) ==> (rhea_for(xrhea, quoted) matches Some(back) && back
            <= amount),
        rhea_for(amount, quoted) matches Some(rhea) ==> (xrhea_for(rhea, quoted) matches Some(back) ==> back
            <= amount),
{
    if quoted > 0 {
        lemma_round_trip(amount as int, ONE_8 as int, quoted as int);
        lemma_round_trip(amount as int, quoted as int, ONE_8 as int);
    }
}

/// Converting down and back, rounding down both times, gives no more.
proof fn lemma_round_trip(amount: int, up: int, down: int)
    requires
        amount >= 0,
        up > 0,
        down > 0,
    ensures
        0 <= (amount * up / down) * down / up <= amount,
{
    let x = amount * up / down;
    assert(amount * up >= 0) by (nonlinear_arith)
        requires
            amount >= 0,
            up > 0,
    ;
    lemma_div_pos_is_pos(amount * up, down);
    lemma_fundamental_div_mod(amount * up, down);
    lemma_mod_bound(amount * up, down);
    assert(0 <= x * down <= amount * up) by (nonlinear_arith)
        requires
            amount * up == down * x + (amount * up) % down,
            0 <= (amount * up) % down,
            x >= 0,
            down > 0,
    ;
    lemma_div_is_ordered(x * down, amount * up, up);
    lemma_div_pos_is_pos(x * down, up);
    lemma_div_multiples_vanish(amount, up);
    assert(up * amount == amount * up) by (nonlinear_arith);
}

/// What the swap takes.
pub open spec fn taken_for(stake: bool, amount: Amount, quoted: u128) -> Option<u128> {
    match amount {
        Amount::AmountIn(amount) => Some(amount),
        Amount::AmountOut(amount) => if stake {
            rhea_for(amount, quoted)
        } else {
            xrhea_for(amount, quoted)
        },
    }
}

/// What the swap gives.
pub open spec fn given_for(stake: bool, amount: Amount, quoted: u128) -> Option<u128> {
    match amount {
        Amount::AmountIn(amount) => if stake {
            xrhea_for(amount, quoted)
        } else {
            rhea_for(amount, quoted)
        },
        Amount::AmountOut(amount) => Some(amount),
    }
}

/// The message that stakes.
pub open spec fn stake_message() -> JsonView {
    JsonView::Object(no_fields().push(("Stake"@, nothing())))
}

/// What stakes an amount.
pub open spec fn stake_action(amount: u128) -> ActionView {
    call(
        "ft_transfer_call"@,
        JsonView::Object(
            no_fields().push(("receiver_id"@, JsonView::Text(XRHEA_TOKEN@))).push(
                ("amount"@, amount_json(amount)),
            ).push(("msg"@, JsonView::Text(json_text(stake_message())))),
        ),
        50,
        1,
    )
}

/// What stakes an amount.
fn create_stake_action(amount: u128) -> (r: Action)
    ensures
        r@ == stake_action(amount),
{
    let message: Json = JsonObject::new().with("Stake", no_args()).done();
    let args: Json = JsonObject::new().with_text("receiver_id", XRHEA_TOKEN).with(
        "amount",
        amount_text(amount),
    ).with_text("msg", to_string(&message).as_str()).done();
    call_action("ft_transfer_call", args, 50, 1)
}

/// What unstakes an amount.
pub open spec fn unstake_action(amount: u128) -> ActionView {
    call(
        "unstake"@,
        JsonView::Object(
            no_fields().push(("amount"@, amount_json(amount))).push(("msg"@, JsonView::Text(""@))),
        ),
        50,
        1,
    )
}

/// What unstakes an amount.
fn create_unstake_action(amount: u128) -> (r: Action)
    ensures
        r@ == unstake_action(amount),
{
    let args: Json = JsonObject::new().with("amount", amount_text(amount)).with_text("msg", "").done();
    call_action("unstake", args, 50, 1)
}

/// The route between RHEA and xRHEA at a price.
pub open spec fn xrhea_route(request: RequestView, network: NetworkState, quoted: Option<u128>) -> Option<RouteView> {
    match (staking(request), quoted) {
        (Some(stake), Some(quoted)) => match (
            taken_for(stake, request.amount, quoted),
            given_for(stake, request.amount, quoted),
        ) {
            (Some(taken), Some(given)) => {
                let (from, to, action) = if stake {
                    (RHEA_TOKEN@, XRHEA_TOKEN@, stake_action(taken))
                } else {
                    (XRHEA_TOKEN@, RHEA_TOKEN@, unstake_action(taken))
                };
                let open = open_side(request.amount, taken, given);
                Some(
                    route_of(
                        DexId::XRhea,
                        false,
                        open,
                        open,
                        storage_if_needed(network, nep141(to), request.trader) + input_instructions(
                            request.token_in,
                            taken,
                        ) + transaction(from, action),
                        nep141(to),
                    ),
                )
            },
            _ => None,
        },
        _ => None,
    }
}

impl XRheaProvider {
    /// The name of the exchange.
    pub fn dex_id(&self) -> (r: DexId)
        ensures
            r == DexId::XRhea,
    {
        DexId::XRhea
    }

    /// Whether the price of xRHEA is needed for a route.
    pub fn needs_price(&self, request: &SwapRequest) -> (r: bool)
        ensures
            r == staking(request@) is Some,
    {
        is_staking(request).is_some()
    }

    /// The route at the price of xRHEA, if that is known.
    pub fn route(&self, request: &SwapRequest, network: &Network, virtual_price: Option<u128>) -> (r: Option<Route>)
        ensures
            opt_route(r) == xrhea_route(request@, network@, virtual_price),
            r matches Some(route) ==> answers(request@.amount, route@),
    {
        let (stake, quoted): (bool, u128) = match (is_staking(request), virtual_price) {
            (Some(stake), Some(quoted)) => (stake, quoted),
            _ => {
                return None;
            },
        };
        let (taken, given): (Option<u128>, Option<u128>) = match request.amount {
            Amount::AmountIn(amount) => (
                Some(amount),
                if stake {
                    to_xrhea(amount, quoted)
                } else {
                    to_rhea(amount, quoted)
                },
            ),
            Amount::AmountOut(amount) => (
                if stake {
                    to_rhea(amount, quoted)
                } else {
                    to_xrhea(amount, quoted)
                },
                Some(amount),
            ),
        };
        let (taken, given): (u128, u128) = match (taken, given) {
            (Some(taken), Some(given)) => (taken, given),
            _ => {
                return None;
            },
        };
        let input: Vec<ExecutionInstruction> = match convert_to_nep141(&request.token_in, taken) {
            Some((input, _)) => input,
            None => {
                return None;
            },
        };
        let (from, to, action): (AccountId, AccountId, Action) = if stake {
            (contract(RHEA_TOKEN), contract(XRHEA_TOKEN), create_stake_action(taken))
        } else {
            (contract(XRHEA_TOKEN), contract(RHEA_TOKEN), create_unstake_action(taken))
        };
        let storage: Vec<ExecutionInstruction> = deposit_storage_if_needed(
            network,
            &wallet_nep141(&to),
            &request.trader_account_id,
        );
        let open: Amount = other_side(request.amount, taken, given);
        Some(
            make_route(
                DexId::XRhea,
                false,
                open,
                open,
                followed_by(followed_by(storage, input), one_transaction(&from, action)),
                wallet_nep141(&to),
            ),
        )
    }
}

} // verus!
