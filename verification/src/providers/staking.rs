//! Staking the native coin at a fixed price, without a way back.

use vstd::prelude::*;

use super::amounts::{
    answers, bought_at, less_one, make_route, nep141, one_less, open_side, other_side, route_of, units_bought,
    units_worth, wallet_nep141, worth_at,
};
use crate::account::AccountId;
use crate::network::{Network, NetworkState};
use crate::shared_utils::{
    call, call_action, contract, convert_to_native, deposit_storage_if_needed, followed_by, is_near, near_token,
    nep141_of, no_args, nothing, one_transaction, storage_if_needed, to_native, transaction, wallet_token,
};
use crate::types::{
    instruction_views, opt_route, Amount, DexId, ExecutionInstruction, InstructionView, RequestView, Route, RouteView,
    SwapRequest,
};

verus! {

/// Whether the request stakes the native coin into the pool.
pub open spec fn stakes(pool: Seq<char>, request: RequestView) -> bool {
    near_token(request.token_in) && nep141_of(request.token_out) == Some(pool)
}

/// Whether the request stakes the native coin into the pool.
pub fn is_stake(pool: &str, request: &SwapRequest) -> (r: bool)
    ensures
        r == stakes(pool@, request@),
{
    if !is_near(&request.token_in) {
        return false;
    }
    match wallet_token(&request.token_out) {
        Some(token) => token.is(pool),
        None => false,
    }
}

/// What the stake takes.
pub open spec fn stake_taken(amount: Amount, price: u128) -> Option<u128> {
    match amount {
        Amount::AmountIn(amount) => Some(amount),
        Amount::AmountOut(amount) => worth_at(amount, price),
    }
}

/// What the stake gives: one unit less than it is worth.
pub open spec fn stake_given(amount: Amount, price: u128) -> Option<u128> {
    match amount {
        Amount::AmountIn(amount) => less_one(bought_at(amount, price)),
        Amount::AmountOut(amount) => Some(amount),
    }
}

/// What carries the stake out: unwrap what comes in, pay for storage, stake.
pub open spec fn stake_instructions(
    pool: Seq<char>,
    request: RequestView,
    network: NetworkState,
    unwrap: Seq<InstructionView>,
    taken: u128,
) -> Seq<InstructionView> {
    unwrap + storage_if_needed(network, nep141(pool), request.trader) + transaction(
        pool,
        call("deposit_and_stake"@, nothing(), 10, taken),
    )
}

/// What carries the stake out.
pub fn stake(
    pool: &str,
    request: &SwapRequest,
    network: &Network,
    unwrap: Vec<ExecutionInstruction>,
    taken: u128,
) -> (r: Vec<ExecutionInstruction>)
    ensures
        instruction_views(r@) == stake_instructions(
            pool@,
            request@,
            network@,
            instruction_views(unwrap@),
            taken,
        ),
{
    let pool_id: AccountId = contract(pool);
    let storage: Vec<ExecutionInstruction> = deposit_storage_if_needed(
        network,
        &wallet_nep141(&pool_id),
        &request.trader_account_id,
    );
    let deposit: Vec<ExecutionInstruction> = one_transaction(
        &pool_id,
        call_action("deposit_and_stake", no_args(), 10, taken),
    );
    followed_by(followed_by(unwrap, storage), deposit)
}

/// The route that stakes the native coin at a price.
pub open spec fn stake_route(
    dex_id: DexId,
    pool: Seq<char>,
    request: RequestView,
    network: NetworkState,
    price: Option<u128>,
) -> Option<RouteView> {
    if !stakes(pool, request) || price is None {
        None
    } else {
        match (stake_taken(request.amount, price->0), stake_given(request.amount, price->0)) {
            (Some(taken), Some(given)) => match to_native(request.token_in, taken) {
                Some(unwrap) => {
                    let open = open_side(request.amount, taken, given);
                    Some(
                        route_of(
                            dex_id,
                            false,
                            open,
                            open,
                            stake_instructions(pool, request, network, unwrap, taken),
                            nep141(pool),
                        ),
                    )
                },
                None => None,
            },
            _ => None,
        }
    }
}

/// The route that stakes the native coin at a price.
pub fn make_stake_route(dex_id: DexId, pool: &str, request: &SwapRequest, network: &Network, price: Option<u128>) -> (r:
    Option<Route>)
    ensures
        opt_route(r) == stake_route(dex_id, pool@, request@, network@, price),
        r matches Some(route) ==> answers(request@.amount, route@),
{
    if !is_stake(pool, request) {
        return None;
    }
    let price: u128 = match price {
        Some(price) => price,
        None => {
            return None;
        },
    };
    let (taken, given): (Option<u128>, Option<u128>) = match request.amount {
        Amount::AmountIn(amount) => (Some(amount), one_less(units_bought(amount, price))),
        Amount::AmountOut(amount) => (units_worth(amount, price), Some(amount)),
    };
    match (taken, given) {
        (Some(taken), Some(given)) => match convert_to_native(&request.token_in, taken) {
            Some(unwrap) => {
                let open: Amount = other_side(request.amount, taken, given);
                Some(
                    make_route(
                        dex_id,
                        false,
                        open,
                        open,
                        stake(pool, request, network, unwrap, taken),
                        wallet_nep141(&contract(pool)),
                    ),
                )
            },
            None => None,
        },
        _ => None,
    }
}

} // verus!
