//! What routes hold for a trader, and what they are without one.

use vstd::prelude::*;

use super::aidols::{aidols_route, aidols_tokens, AidolsEmulateSwap};
use super::amounts::nep141;
use super::intear_plach::{
    amount_sent, plach_assets, plach_route, plach_swaps, registration, starts_inside, withdrawn_as,
};
use super::metapool::{metapool_route, unstake_route, unstakes, MetapoolContractState, METAPOOL_CONTRACT};
use super::rhea::{rhea_output, rhea_request, rhea_route, stays_on_rhea, RheaOfferView};
use super::rhea_dcl::{dcl_output, dcl_route, dcl_tokens, DCL_STORAGE, RHEA_DCL_CONTRACT_ID};
use super::staking::{stake_route, stake_taken};
use super::xrhea::{staking, taken_for, xrhea_route};
use crate::network::NetworkState;
use crate::plach::api::OfferView;
use crate::shared_utils::{
    call, contract_storage_if_needed, input_instructions, none, nothing, storage_if_needed, storage_instructions,
    to_native, transaction,
};
use crate::slippage::MarketView;
use crate::types::{ActionView, Amount, DexId, InstructionView, RequestView, RouteView, TokenIdView};

verus! {

/// Whether an action pays for storage or registers tokens.
pub open spec fn prepares(action: ActionView) -> bool {
    action.method == "storage_deposit"@ || action.method == "register_tokens"@ || action.method
        == "register_assets"@
}

/// Whether all that an instruction does is to pay for storage and to register
/// tokens.
pub open spec fn is_preparation(instruction: InstructionView) -> bool {
    instruction matches InstructionView::Transaction { actions, .. } && actions.len() > 0 && forall|k: int|
        0 <= k < actions.len() ==> prepares(#[trigger] actions[k])
}

/// Whether an instruction does something, but does not pay for storage or
/// register tokens.
pub open spec fn is_plain(instruction: InstructionView) -> bool {
    instruction matches InstructionView::Transaction { actions, .. } && actions.len() > 0 && forall|k: int|
        0 <= k < actions.len() ==> !prepares(#[trigger] actions[k])
}

/// Whether none of the instructions pays for storage or registers tokens.
pub open spec fn plain(instructions: Seq<InstructionView>) -> bool {
    forall|i: int| 0 <= i < instructions.len() ==> is_plain(#[trigger] instructions[i])
}

/// The instructions without those that only pay for storage and register
/// tokens.
pub open spec fn unprepared(instructions: Seq<InstructionView>) -> Seq<InstructionView> {
    instructions.filter(|instruction: InstructionView| !is_preparation(instruction))
}

/// The request of nobody in particular.
pub open spec fn without_trader(request: RequestView) -> RequestView {
    RequestView { trader: None, ..request }
}

/// Whether a route without a trader pays for no storage and registers
/// nothing, and the route for a trader is the same but for that.
pub open spec fn differ_in_preparation(alone: Option<RouteView>, with: Option<RouteView>) -> bool {
    alone matches Some(alone) ==> {
        &&& plain(alone.instructions)
        &&& with matches Some(with) ==> {
            &&& unprepared(with.instructions) == alone.instructions
            &&& with == (RouteView { instructions: with.instructions, ..alone })
        }
    }
}

/// Preparations and what is plain can be told apart one behind the other.
proof fn lemma_concat(first: Seq<InstructionView>, second: Seq<InstructionView>)
    ensures
        unprepared(first + second) == unprepared(first) + unprepared(second),
        plain(first) && plain(second) ==> plain(first + second),
{
    Seq::filter_distributes_over_add(
        first,
        second,
        |instruction: InstructionView| !is_preparation(instruction),
    );
}

/// What is plain stays.
proof fn lemma_plain(instructions: Seq<InstructionView>)
    requires
        plain(instructions),
    ensures
        unprepared(instructions) == instructions,
    decreases instructions.len(),
{
    reveal(Seq::filter);
    if instructions.len() > 0 {
        let rest = instructions.drop_last();
        assert forall|i: int| 0 <= i < rest.len() implies is_plain(#[trigger] rest[i]) by {
            assert(rest[i] == instructions[i]);
        }
        lemma_plain(rest);
        let last = instructions[instructions.len() - 1];
        assert(is_plain(last));
        assert(!prepares(last->actions[0]));
        assert(rest.push(instructions.last()) =~= instructions);
    }
}

/// A single preparation goes.
proof fn lemma_preparation(instructions: Seq<InstructionView>)
    requires
        instructions.len() == 0 || (instructions.len() == 1 && is_preparation(instructions[0])),
    ensures
        unprepared(instructions) == none(),
{
    reveal(Seq::filter);
    if instructions.len() == 1 {
        assert(instructions.drop_last() =~= none());
        assert(none().filter(|instruction: InstructionView| !is_preparation(instruction)) =~= none());
    } else {
        assert(unprepared(instructions) =~= none());
    }
}

/// What a trader needs for a token is a preparation, and nothing without one.
proof fn lemma_storage(network: NetworkState, token: TokenIdView, trader: Option<Seq<char>>)
    ensures
        unprepared(storage_if_needed(network, token, trader)) == none(),
        storage_if_needed(network, token, None) == none(),
{
    let all = storage_if_needed(network, token, trader);
    if all.len() > 0 {
        assert(all == storage_instructions(token));
        assert(is_preparation(all[0]));
    }
    lemma_preparation(all);
}

/// What a trader owes a contract is a preparation, and nothing without one.
proof fn lemma_contract_storage(network: NetworkState, contract: Seq<char>, trader: Option<Seq<char>>, amount: u128)
    ensures
        unprepared(contract_storage_if_needed(network, contract, trader, amount)) == none(),
        contract_storage_if_needed(network, contract, None, amount) == none(),
{
    lemma_preparation(contract_storage_if_needed(network, contract, trader, amount));
}

/// One other action is plain.
proof fn lemma_action(receiver: Seq<char>, action: ActionView)
    requires
        !prepares(action),
    ensures
        plain(transaction(receiver, action)),
{
}

/// The names of the other actions.
proof fn lemma_names()
    ensures
        "storage_deposit"@.len() == 15,
        "register_tokens"@.len() == 15,
        "register_assets"@.len() == 15,
        "ft_transfer_call"@.len() == 16,
        "near_deposit"@.len() == 12,
        "near_withdraw"@.len() == 13,
        "withdraw"@.len() == 8,
        "deposit_and_stake"@.len() == 17,
        "liquid_unstake"@.len() == 14,
        "unstake"@.len() == 7,
        "swap"@.len() == 4,
        "execute_operations"@.len() == 18,
        "deposit_near"@.len() == 12,
{
    reveal_strlit("storage_deposit");
    reveal_strlit("register_tokens");
    reveal_strlit("register_assets");
    reveal_strlit("ft_transfer_call");
    reveal_strlit("near_deposit");
    reveal_strlit("near_withdraw");
    reveal_strlit("withdraw");
    reveal_strlit("deposit_and_stake");
    reveal_strlit("liquid_unstake");
    reveal_strlit("unstake");
    reveal_strlit("swap");
    reveal_strlit("execute_operations");
    reveal_strlit("deposit_near");
}

/// Bringing the input into the wallet is plain.
proof fn lemma_input(token: TokenIdView, amount: u128)
    ensures
        plain(input_instructions(token, amount)),
        to_native(token, amount) matches Some(unwrap) ==> plain(unwrap),
{
    lemma_names();
}

/// What comes first is preparation, and the rest is plain.
proof fn lemma_prepared(preparation: Seq<InstructionView>, rest: Seq<InstructionView>)
    requires
        unprepared(preparation) == none(),
        plain(rest),
    ensures
        unprepared(preparation + rest) == rest,
{
    lemma_concat(preparation, rest);
    lemma_plain(rest);
    assert(none() + rest =~= rest);
}

/// Preparation, what brings the input, and the swap.
proof fn lemma_parts(preparation: Seq<InstructionView>, input: Seq<InstructionView>, last: Seq<InstructionView>)
    requires
        unprepared(preparation) == none(),
        plain(input),
        plain(last),
    ensures
        unprepared(preparation + input + last) == input + last,
        plain(input + last),
        none() + input + last == input + last,
        none() + none() + input + last == input + last,
{
    lemma_concat(preparation + input, last);
    lemma_prepared(preparation, input);
    lemma_plain(last);
    lemma_concat(input, last);
    assert(none() + input + last =~= input + last);
    assert(none() + none() + input + last =~= input + last);
}

/// What a trader needs for two tokens.
proof fn lemma_two_storages(network: NetworkState, first: TokenIdView, second: TokenIdView, trader: Option<Seq<char>>)
    ensures
        unprepared(storage_if_needed(network, first, trader) + storage_if_needed(network, second, trader)) == none(),
        storage_if_needed(network, first, None) + storage_if_needed(network, second, None) == none(),
{
    lemma_storage(network, first, trader);
    lemma_storage(network, second, trader);
    lemma_concat(storage_if_needed(network, first, trader), storage_if_needed(network, second, trader));
    assert(none() + none() =~= none());
}

/// Without a trader a route over Aidols prepares nothing; with one it is the
/// same but for that.
pub proof fn aidols_prepares_for_traders(
    request: RequestView,
    network: NetworkState,
    market: MarketView,
    quote: Option<AidolsEmulateSwap>,
)
    ensures
        differ_in_preparation(
            aidols_route(without_trader(request), network, market, quote),
            aidols_route(request, network, market, quote),
        ),
{
    lemma_names();
    if aidols_route(request, network, market, quote) is Some {
        let (token_in, token_out) = aidols_tokens(request)->0;
        let route = aidols_route(request, network, market, quote)->0;
        let sent = sent_of(request.amount, route.worst_case);
        let last = seq![route.instructions.last()];
        lemma_two_storages(network, nep141(token_out), nep141(token_in), request.trader);
        lemma_input(request.token_in, sent);
        lemma_parts(
            storage_if_needed(network, nep141(token_out), request.trader) + storage_if_needed(
                network,
                nep141(token_in),
                request.trader,
            ),
            input_instructions(request.token_in, sent),
            last,
        );
    }
}

/// What goes in at most.
spec fn sent_of(amount: Amount, worst: Amount) -> u128 {
    match (amount, worst) {
        (Amount::AmountIn(amount), _) => amount,
        (_, Amount::AmountIn(most)) => most,
        _ => 0,
    }
}

/// Without a trader staking prepares nothing; with one it is the same but for
/// that.
pub proof fn staking_prepares_for_traders(
    dex_id: DexId,
    pool: Seq<char>,
    request: RequestView,
    network: NetworkState,
    price: Option<u128>,
)
    ensures
        differ_in_preparation(
            stake_route(dex_id, pool, without_trader(request), network, price),
            stake_route(dex_id, pool, request, network, price),
        ),
{
    lemma_names();
    if stake_route(dex_id, pool, request, network, price) is Some {
        let taken = stake_taken(request.amount, price->0)->0;
        let unwrap = to_native(request.token_in, taken)->0;
        let storage = storage_if_needed(network, nep141(pool), request.trader);
        let last = transaction(pool, call("deposit_and_stake"@, nothing(), 10, taken));
        lemma_input(request.token_in, taken);
        lemma_storage(network, nep141(pool), request.trader);
        lemma_action(pool, call("deposit_and_stake"@, nothing(), 10, taken));
        lemma_concat(unwrap + storage, last);
        lemma_concat(unwrap, storage);
        lemma_plain(unwrap);
        lemma_plain(last);
        lemma_concat(unwrap, last);
        assert(unwrap + none() =~= unwrap);
    }
}

/// Without a trader routes over Meta Pool prepare nothing; with one they are
/// the same but for that.
pub proof fn metapool_prepares_for_traders(
    request: RequestView,
    network: NetworkState,
    market: MarketView,
    state: Option<MetapoolContractState>,
    basis_points: Option<u16>,
)
    ensures
        differ_in_preparation(
            metapool_route(without_trader(request), network, market, state, basis_points),
            metapool_route(request, network, market, state, basis_points),
        ),
{
    lemma_names();
    match state {
        Some(state) => {
            staking_prepares_for_traders(
                DexId::MetaPool,
                METAPOOL_CONTRACT@,
                request,
                network,
                Some(state.st_near_price),
            );
            if unstakes(request) && unstake_route(request, market, state, basis_points) is Some {
                let route = unstake_route(request, market, state, basis_points)->0;
                let sent = sent_of(request.amount, route.worst_case);
                lemma_input(request.token_in, sent);
                let input = input_instructions(request.token_in, sent);
                let last = seq![route.instructions.last()];
                lemma_concat(input, last);
                lemma_plain(route.instructions);
            }
        },
        None => {},
    }
}

/// Without a trader routes between RHEA and xRHEA prepare nothing; with one
/// they are the same but for that.
pub proof fn xrhea_prepares_for_traders(request: RequestView, network: NetworkState, quoted: Option<u128>)
    ensures
        differ_in_preparation(
            xrhea_route(without_trader(request), network, quoted),
            xrhea_route(request, network, quoted),
        ),
{
    lemma_names();
    if xrhea_route(request, network, quoted) is Some {
        let route = xrhea_route(request, network, quoted)->0;
        let taken = taken_for(staking(request)->0, request.amount, quoted->0)->0;
        lemma_storage(network, route.token_output, request.trader);
        lemma_input(request.token_in, taken);
        lemma_parts(
            storage_if_needed(network, route.token_output, request.trader),
            input_instructions(request.token_in, taken),
            seq![route.instructions.last()],
        );
    }
}

/// Without a trader routes over Rhea prepare nothing; with one they are the
/// same but for that.
pub proof fn rhea_prepares_for_traders(request: RequestView, network: NetworkState, offer: Option<RheaOfferView>)
    ensures
        differ_in_preparation(
            rhea_route(without_trader(request), network, offer),
            rhea_route(request, network, offer),
        ),
{
    lemma_names();
    if rhea_route(request, network, offer) is Some {
        let route = rhea_route(request, network, offer)->0;
        let (token_in, token_out, amount) = rhea_request(request)->0;
        if stays_on_rhea(request) {
            lemma_plain(route.instructions);
        } else {
            let output = rhea_output(request, token_out);
            lemma_two_storages(network, output, nep141(token_in), request.trader);
            lemma_input(request.token_in, amount);
            lemma_parts(
                storage_if_needed(network, output, request.trader) + storage_if_needed(
                    network,
                    nep141(token_in),
                    request.trader,
                ),
                input_instructions(request.token_in, amount),
                seq![route.instructions.last()],
            );
        }
    }
}

/// Without a trader routes over Rhea DCL prepare nothing; with one they are
/// the same but for that.
pub proof fn dcl_prepares_for_traders(
    request: RequestView,
    network: NetworkState,
    market: MarketView,
    quotes: Seq<Option<u128>>,
)
    ensures
        differ_in_preparation(
            dcl_route(without_trader(request), network, market, quotes),
            dcl_route(request, network, market, quotes),
        ),
{
    lemma_names();
    if dcl_route(without_trader(request), network, market, quotes) is Some {
        let route = dcl_route(without_trader(request), network, market, quotes)->0;
        let (token_in, token_out) = dcl_tokens(request)->0;
        let stored = match request.amount {
            Amount::AmountIn(_) => request.token_out,
            Amount::AmountOut(_) => dcl_output(request, token_out),
        };
        let sent = sent_of(request.amount, route.worst_case);
        let own = contract_storage_if_needed(network, RHEA_DCL_CONTRACT_ID@, request.trader, DCL_STORAGE);
        let first = storage_if_needed(network, stored, request.trader);
        let second = storage_if_needed(network, nep141(token_in), request.trader);
        lemma_contract_storage(network, RHEA_DCL_CONTRACT_ID@, request.trader, DCL_STORAGE);
        lemma_storage(network, stored, request.trader);
        lemma_storage(network, nep141(token_in), request.trader);
        lemma_concat(own, first);
        lemma_concat(own + first, second);
        assert(none() + none() =~= none());
        lemma_input(request.token_in, sent);
        lemma_parts(own + first + second, input_instructions(request.token_in, sent), seq![route.instructions.last()]);
    }
}

/// Without a trader routes over Intear Plach prepare nothing; with one they
/// are the same but for that.
pub proof fn plach_prepares_for_traders(request: RequestView, network: NetworkState, offer: Option<OfferView>)
    ensures
        differ_in_preparation(
            plach_route(without_trader(request), network, offer),
            plach_route(request, network, offer),
        ),
{
    lemma_names();
    if plach_route(request, network, offer) is Some {
        let route = plach_route(request, network, offer)->0;
        let (token_in, token_out) = plach_assets(request)->0;
        let registered = registration(network, request.trader, token_in, token_out);
        let sent = amount_sent(request.amount, plach_swaps(offer->0)->0.most_in);
        let last = seq![route.instructions.last()];
        lemma_preparation(registered);
        lemma_input(request.token_in, sent);
        assert(plain(last));
        if starts_inside(request) {
            lemma_prepared(registered, last);
            assert(none() + last =~= last);
        } else {
            let output = withdrawn_as(token_out)->0;
            let first = storage_if_needed(network, output, request.trader);
            lemma_storage(network, output, request.trader);
            if token_in is Near {
                let unwrap = to_native(request.token_in, sent)->0;
                lemma_concat(registered, first);
                assert(none() + none() =~= none());
                lemma_parts(registered + first, unwrap, last);
                assert(registered + (first + unwrap + last) =~= registered + first + unwrap + last);
                assert(none() + (none() + unwrap + last) =~= unwrap + last);
            } else {
                let token = token_in->Nep141_0;
                let second = storage_if_needed(network, nep141(token), request.trader);
                let input = input_instructions(request.token_in, sent);
                lemma_storage(network, nep141(token), request.trader);
                lemma_concat(registered, first);
                lemma_concat(registered + first, second);
                assert(none() + none() =~= none());
                lemma_parts(registered + first + second, input, last);
                assert(registered + (first + second + input + last) =~= registered + first + second + input + last);
                assert(none() + (none() + none() + input + last) =~= input + last);
            }
        }
    }
}

} // verus!
