//! The transactions that routes are made of, and what moves a token from one
//! place to another.

use vstd::prelude::*;

use crate::account::{opt_account, AccountId};
use crate::asset::{asset_text, AssetId, AssetIdView};
use crate::ident::Ident;
use crate::json::{json_bytes, no_fields, no_items, to_vec, Json, JsonArray, JsonObject, JsonView};
use crate::network::{needs_storage_deposit, needs_storage_deposit_for_contract, Network, NetworkState};
use crate::text::{decimal_text, u128_to_text};
use crate::types::{
    action_views, instruction_views, opt_instructions, Action, ActionView, ExecutionInstruction,
    FunctionCallAction, InstructionView, TokenId, TokenIdView,
};

verus! {

/// The contract of the wrapped native coin.
pub const WRAP_NEAR: &'static str = "wrap.near";

/// Who refers a swap where nobody else does.
pub const DEFAULT_REFERRER_ID: &'static str = "dex-aggregator.intear.near";

/// The contract of Rhea.
pub const RHEA_CONTRACT: &'static str = "v2.ref-finance.near";

/// The contract of the Intear DEX.
pub const INTEAR_CONTRACT: &'static str = "dex.intear.near";

/// The gas units of one teragas.
pub const TGAS: u64 = 1_000_000_000_000;

/// What storage on a token costs.
pub const TOKEN_STORAGE: u128 = 1_250_000_000_000_000_000_000;

/// What storage on Rhea costs.
pub const RHEA_STORAGE_DEPOSIT: u128 = 10_000_000_000_000_000_000_000;

/// What storage on the Intear DEX costs.
pub const INTEAR_STORAGE_DEPOSIT: u128 = 5_000_000_000_000_000_000_000;

/// A call with arguments in JSON.
pub open spec fn call(method: Seq<char>, args: JsonView, tgas: u64, deposit: u128) -> ActionView {
    ActionView { method, args: json_bytes(args), gas: (tgas * TGAS) as u64, deposit }
}

/// An object without fields.
pub open spec fn nothing() -> JsonView {
    JsonView::Object(no_fields())
}

/// An amount as JSON: its decimal digits.
pub open spec fn amount_json(amount: u128) -> JsonView {
    JsonView::Text(decimal_text(amount as nat))
}

/// One transaction with one action.
pub open spec fn transaction(receiver: Seq<char>, action: ActionView) -> Seq<InstructionView> {
    seq![InstructionView::Transaction { receiver, actions: seq![action] }]
}

/// One transaction with two actions.
pub open spec fn transaction_of_two(receiver: Seq<char>, first: ActionView, second: ActionView) -> Seq<
    InstructionView,
> {
    seq![InstructionView::Transaction { receiver, actions: seq![first, second] }]
}

/// No instructions.
pub open spec fn none() -> Seq<InstructionView> {
    Seq::empty()
}

/// Calls a method with arguments in JSON.
pub(crate) fn call_action(method: &str, args: Json, tgas: u64, deposit: u128) -> (r: Action)
    requires
        tgas <= 300,
    ensures
        r@ == call(method@, args@, tgas, deposit),
{
    Action::FunctionCall(
        FunctionCallAction { method_name: method.to_string(), args: to_vec(&args), gas: tgas * TGAS, deposit },
    )
}

/// An object without fields.
pub(crate) fn no_args() -> (r: Json)
    ensures
        r@ == nothing(),
{
    JsonObject::new().done()
}

/// An amount as JSON.
pub(crate) fn amount_text(amount: u128) -> (r: Json)
    ensures
        r@ == amount_json(amount),
{
    Json::Text(u128_to_text(amount))
}

/// The account of a contract.
pub(crate) fn contract(name: &str) -> (r: AccountId)
    ensures
        r@ == name@,
{
    AccountId::new_unvalidated(name)
}

/// One transaction with one action.
pub(crate) fn one_transaction(receiver: &AccountId, action: Action) -> (r: Vec<ExecutionInstruction>)
    ensures
        instruction_views(r@) == transaction(receiver@, action@),
{
    let mut actions: Vec<Action> = Vec::new();
    actions.push(action);
    assert(action_views(actions@) =~= seq![action@]);
    let mut r: Vec<ExecutionInstruction> = Vec::new();
    r.push(ExecutionInstruction::NearTransaction { receiver_id: receiver.duplicate(), actions });
    assert(instruction_views(r@) =~= transaction(receiver@, action@));
    r
}

/// One transaction with two actions.
pub(crate) fn one_transaction_of_two(receiver: &AccountId, first: Action, second: Action) -> (r: Vec<
    ExecutionInstruction,
>)
    ensures
        instruction_views(r@) == transaction_of_two(receiver@, first@, second@),
{
    let mut actions: Vec<Action> = Vec::new();
    actions.push(first);
    actions.push(second);
    assert(action_views(actions@) =~= seq![first@, second@]);
    let mut r: Vec<ExecutionInstruction> = Vec::new();
    r.push(ExecutionInstruction::NearTransaction { receiver_id: receiver.duplicate(), actions });
    assert(instruction_views(r@) =~= transaction_of_two(receiver@, first@, second@));
    r
}

/// No instructions.
pub(crate) fn no_instructions() -> (r: Vec<ExecutionInstruction>)
    ensures
        instruction_views(r@) == none(),
{
    let r: Vec<ExecutionInstruction> = Vec::new();
    assert(instruction_views(r@) =~= none());
    r
}

/// Some instructions, and others after them.
pub(crate) fn followed_by(first: Vec<ExecutionInstruction>, second: Vec<ExecutionInstruction>) -> (r: Vec<
    ExecutionInstruction,
>)
    ensures
        instruction_views(r@) == instruction_views(first@) + instruction_views(second@),
{
    let mut r: Vec<ExecutionInstruction> = first;
    let mut second: Vec<ExecutionInstruction> = second;
    let ghost more = second@;
    r.append(&mut second);
    assert(instruction_views(r@) =~= instruction_views(first@) + instruction_views(more));
    r
}

/// Wraps an amount of the native coin.
pub open spec fn wrap_action(amount: u128) -> ActionView {
    call("near_deposit"@, nothing(), 2, amount)
}

/// Wraps an amount of the native coin.
pub fn create_wrap_action(amount: u128) -> (r: Action)
    ensures
        r@ == wrap_action(amount),
{
    call_action("near_deposit", no_args(), 2, amount)
}

/// Unwraps an amount of the native coin.
pub open spec fn unwrap_action(amount: u128) -> ActionView {
    call("near_withdraw"@, JsonView::Object(no_fields().push(("amount"@, amount_json(amount)))), 5, 1)
}

/// Unwraps an amount of the native coin.
pub fn create_unwrap_action(amount: u128) -> (r: Action)
    ensures
        r@ == unwrap_action(amount),
{
    call_action("near_withdraw", JsonObject::new().with("amount", amount_text(amount)).done(), 5, 1)
}

/// Withdraws a token from Rhea.
pub open spec fn rhea_withdraw_action(token: Seq<char>, amount: u128, unwrap_near: bool) -> ActionView {
    call(
        "withdraw"@,
        JsonView::Object(
            no_fields().push(("token_id"@, JsonView::Text(token))).push(("amount"@, amount_json(amount))).push(
                ("skip_unwrap_near"@, JsonView::Bool(!unwrap_near)),
            ),
        ),
        50,
        1,
    )
}

/// Withdraws a token from Rhea, as the native coin where that is asked for.
pub fn create_rhea_withdraw_action(token_id: &AccountId, amount: u128, unwrap_near: bool) -> (r: Action)
    ensures
        r@ == rhea_withdraw_action(token_id@, amount, unwrap_near),
{
    let args: Json = JsonObject::new().with_text("token_id", token_id.as_str()).with(
        "amount",
        amount_text(amount),
    ).with("skip_unwrap_near", Json::Bool(!unwrap_near)).done();
    call_action("withdraw", args, 50, 1)
}

/// Withdraws an asset from the Intear DEX.
pub open spec fn intear_withdraw_action(asset: AssetIdView, amount: u128) -> ActionView {
    call(
        "withdraw"@,
        JsonView::Object(
            no_fields().push(("asset_id"@, JsonView::Text(asset_text(asset)))).push(
                ("amount"@, JsonView::Object(no_fields().push(("Exact"@, amount_json(amount))))),
            ),
        ),
        50,
        1,
    )
}

/// Withdraws an asset from the Intear DEX.
pub fn create_intear_dex_withdraw_action(asset_id: &AssetId, amount: u128) -> (r: Action)
    ensures
        r@ == intear_withdraw_action(asset_id@, amount),
{
    let exact: Json = JsonObject::new().with("Exact", amount_text(amount)).done();
    let args: Json = JsonObject::new().with_text("asset_id", asset_id.to_text().as_str()).with("amount", exact).done();
    call_action("withdraw", args, 50, 1)
}

/// Deposits a fungible token into a contract.
pub open spec fn deposit_action(contract: Seq<char>, amount: u128) -> ActionView {
    call(
        "ft_transfer_call"@,
        JsonView::Object(
            no_fields().push(("receiver_id"@, JsonView::Text(contract))).push(("amount"@, amount_json(amount))).push(
                ("msg"@, JsonView::Text(""@)),
            ),
        ),
        50,
        1,
    )
}

/// Deposits a fungible token into Rhea.
pub fn create_rhea_nep141_deposit_action(contract_id: &AccountId, amount: u128) -> (r: Action)
    ensures
        r@ == deposit_action(contract_id@, amount),
{
    let args: Json = JsonObject::new().with_text("receiver_id", contract_id.as_str()).with(
        "amount",
        amount_text(amount),
    ).with_text("msg", "").done();
    call_action("ft_transfer_call", args, 50, 1)
}

/// Deposits a fungible token into the Intear DEX.
pub fn create_intear_nep141_deposit_action(contract_id: &AccountId, amount: u128) -> (r: Action)
    ensures
        r@ == deposit_action(contract_id@, amount),
{
    create_rhea_nep141_deposit_action(contract_id, amount)
}

/// Pays for the caller's own storage on a contract: for the registration
/// only, the rest being paid back, or for all that the amount is good for.
pub open spec fn storage_action(amount: u128, registration_only: bool) -> ActionView {
    call(
        "storage_deposit"@,
        JsonView::Object(no_fields().push(("registration_only"@, JsonView::Bool(registration_only)))),
        10,
        amount,
    )
}

/// Pays for the caller's own storage on a contract.
pub fn create_storage_deposit_action_for_contract(amount: u128, registration_only: bool) -> (r: Action)
    ensures
        r@ == storage_action(amount, registration_only),
{
    let args: Json = JsonObject::new().with("registration_only", Json::Bool(registration_only)).done();
    call_action("storage_deposit", args, 10, amount)
}

/// Pays for another account's storage on a contract.
pub open spec fn storage_action_for(amount: u128, account: Seq<char>) -> ActionView {
    call(
        "storage_deposit"@,
        JsonView::Object(
            no_fields().push(("registration_only"@, JsonView::Bool(true))).push(
                ("account_id"@, JsonView::Text(account)),
            ),
        ),
        10,
        amount,
    )
}

/// Pays for another account's storage on a contract.
pub fn create_storage_deposit_action_for_someone(amount: u128, account_id: &AccountId) -> (r: Action)
    ensures
        r@ == storage_action_for(amount, account_id@),
{
    let args: Json = JsonObject::new().with("registration_only", Json::Bool(true)).with_text(
        "account_id",
        account_id.as_str(),
    ).done();
    call_action("storage_deposit", args, 10, amount)
}

/// Registers names in a list under a key.
pub open spec fn register_action(method: Seq<char>, key: Seq<char>, name: Seq<char>) -> ActionView {
    call(method, JsonView::Object(no_fields().push((key, JsonView::Array(no_items().push(JsonView::Text(name)))))), 10, 1)
}

/// Registers a name in a list under a key.
fn create_register_action(method: &str, key: &str, name: &str) -> (r: Action)
    ensures
        r@ == register_action(method@, key@, name@),
{
    let names: Json = JsonArray::new().with(Json::text(name)).done();
    call_action(method, JsonObject::new().with(key, names).done(), 10, 1)
}

/// What an account needs before it can hold a token.
pub open spec fn storage_instructions(token: TokenIdView) -> Seq<InstructionView> {
    match token {
        TokenIdView::Near => none(),
        TokenIdView::Nep141(contract) => transaction(contract, storage_action(TOKEN_STORAGE, true)),
        TokenIdView::Nep141OnRhea(contract) => transaction_of_two(
            RHEA_CONTRACT@,
            storage_action(RHEA_STORAGE_DEPOSIT, false),
            register_action("register_tokens"@, "token_ids"@, contract),
        ),
        TokenIdView::TokenOnIntearDex(asset) => transaction_of_two(
            INTEAR_CONTRACT@,
            call("storage_deposit"@, nothing(), 10, INTEAR_STORAGE_DEPOSIT),
            register_action("register_assets"@, "asset_ids"@, asset_text(asset)),
        ),
    }
}

/// What an account needs before it can hold a token. The native coin needs
/// nothing.
pub fn create_storage_deposit_action(token_id: &TokenId) -> (r: Vec<ExecutionInstruction>)
    requires
        token_id@ !is Near,
    ensures
        instruction_views(r@) == storage_instructions(token_id@),
{
    match token_id {
        TokenId::Near => no_instructions(),
        TokenId::Nep141(token) => one_transaction(token, create_storage_deposit_action_for_contract(TOKEN_STORAGE, true)),
        TokenId::Nep141OnRhea(token) => one_transaction_of_two(
            &contract(RHEA_CONTRACT),
            create_storage_deposit_action_for_contract(RHEA_STORAGE_DEPOSIT, false),
            create_register_action("register_tokens", "token_ids", token.as_str()),
        ),
        TokenId::TokenOnIntearDex(asset) => one_transaction_of_two(
            &contract(INTEAR_CONTRACT),
            call_action("storage_deposit", no_args(), 10, INTEAR_STORAGE_DEPOSIT),
            create_register_action("register_assets", "asset_ids", asset.to_text().as_str()),
        ),
    }
}

/// What the trader, if there is one, still needs before holding a token.
pub open spec fn storage_if_needed(network: NetworkState, token: TokenIdView, trader: Option<Seq<char>>) -> Seq<
    InstructionView,
> {
    match trader {
        Some(trader) => if network.needs(trader, token) {
            storage_instructions(token)
        } else {
            none()
        },
        None => none(),
    }
}

/// What the trader, if there is one, still needs before holding a token.
pub fn deposit_storage_if_needed(network: &Network, token_id: &TokenId, trader_account_id: &Option<AccountId>) -> (r:
    Vec<ExecutionInstruction>)
    ensures
        instruction_views(r@) == storage_if_needed(network@, token_id@, opt_account(*trader_account_id)),
{
    match trader_account_id {
        Some(trader) => {
            if needs_storage_deposit(network, trader, token_id) {
                create_storage_deposit_action(token_id)
            } else {
                no_instructions()
            }
        },
        None => no_instructions(),
    }
}

/// What the trader, if there is one, still has to pay for storage on a
/// contract.
pub open spec fn contract_storage_if_needed(
    network: NetworkState,
    contract: Seq<char>,
    trader: Option<Seq<char>>,
    amount: u128,
) -> Seq<InstructionView> {
    match trader {
        Some(trader) => if network.needs_on_contract(trader, contract) {
            transaction(contract, storage_action(amount, true))
        } else {
            none()
        },
        None => none(),
    }
}

/// What the trader, if there is one, still has to pay for storage on a
/// contract.
pub fn deposit_storage_on_contract_if_needed(
    network: &Network,
    contract_id: &AccountId,
    trader_account_id: &Option<AccountId>,
    amount: u128,
) -> (r: Vec<ExecutionInstruction>)
    ensures
        instruction_views(r@) == contract_storage_if_needed(
            network@,
            contract_id@,
            opt_account(*trader_account_id),
            amount,
        ),
{
    match trader_account_id {
        Some(trader) => {
            if needs_storage_deposit_for_contract(network, trader, contract_id) {
                one_transaction(contract_id, create_storage_deposit_action_for_contract(amount, true))
            } else {
                no_instructions()
            }
        },
        None => no_instructions(),
    }
}

/// The registrations with a token before it is deposited into a contract:
/// the trader's, then the contract's.
pub open spec fn deposit_registrations(
    network: NetworkState,
    contract: Seq<char>,
    token: Seq<char>,
    trader: Option<Seq<char>>,
) -> Seq<InstructionView> {
    let own = match trader {
        Some(trader) => if network.needs_on_contract(trader, token) {
            seq![storage_action(TOKEN_STORAGE, true)]
        } else {
            Seq::empty()
        },
        None => Seq::empty(),
    };
    let theirs = if network.needs_on_contract(contract, token) {
        seq![storage_action_for(TOKEN_STORAGE, contract)]
    } else {
        Seq::empty()
    };
    let actions = own + theirs;
    if actions.len() == 0 {
        none()
    } else {
        seq![InstructionView::Transaction { receiver: token, actions }]
    }
}

/// The registrations with a token before it is deposited into a contract.
fn create_ft_deposit_registrations(
    network: &Network,
    contract_id: &AccountId,
    token_id: &AccountId,
    trader_account_id: &Option<AccountId>,
) -> (r: Vec<ExecutionInstruction>)
    ensures
        instruction_views(r@) == deposit_registrations(
            network@,
            contract_id@,
            token_id@,
            opt_account(*trader_account_id),
        ),
{
    let mut actions: Vec<Action> = Vec::new();
    match trader_account_id {
        Some(trader) => {
            if needs_storage_deposit_for_contract(network, trader, token_id) {
                actions.push(create_storage_deposit_action_for_contract(TOKEN_STORAGE, true));
            }
        },
        None => {},
    }
    if needs_storage_deposit_for_contract(network, contract_id, token_id) {
        actions.push(create_storage_deposit_action_for_someone(TOKEN_STORAGE, contract_id));
    }
    let ghost wanted = deposit_registrations(network@, contract_id@, token_id@, opt_account(*trader_account_id));
    if actions.len() == 0 {
        no_instructions()
    } else {
        proof {
            let made = InstructionView::Transaction { receiver: token_id@, actions: action_views(actions@) };
            assert(action_views(actions@) =~= wanted[0]->actions);
        }
        let mut r: Vec<ExecutionInstruction> = Vec::new();
        r.push(ExecutionInstruction::NearTransaction { receiver_id: token_id.duplicate(), actions });
        assert(instruction_views(r@) =~= wanted);
        r
    }
}

/// Whether the token is the native coin in one of its forms.
pub open spec fn near_token(token: TokenIdView) -> bool {
    match token {
        TokenIdView::Near => true,
        TokenIdView::Nep141(contract) => contract == WRAP_NEAR@,
        TokenIdView::Nep141OnRhea(contract) => contract == WRAP_NEAR@,
        TokenIdView::TokenOnIntearDex(asset) => match asset {
            AssetIdView::Near => true,
            AssetIdView::Nep141(contract) => contract == WRAP_NEAR@,
            _ => false,
        },
    }
}

/// Whether the token is the native coin in one of its forms.
pub fn is_near(token_id: &TokenId) -> (r: bool)
    ensures
        r == near_token(token_id@),
{
    match token_id {
        TokenId::Near => true,
        TokenId::Nep141(token) => token.is(WRAP_NEAR),
        TokenId::Nep141OnRhea(token) => token.is(WRAP_NEAR),
        TokenId::TokenOnIntearDex(asset) => match asset {
            AssetId::Near => true,
            AssetId::Nep141(token) => token.is(WRAP_NEAR),
            _ => false,
        },
    }
}

/// Wraps an amount, if it is any.
pub open spec fn wrap_instructions(amount: u128) -> Seq<InstructionView> {
    if amount > 0 {
        transaction(WRAP_NEAR@, wrap_action(amount))
    } else {
        none()
    }
}

/// Wraps an amount, if it is any.
fn wrap(amount: u128) -> (r: Vec<ExecutionInstruction>)
    ensures
        instruction_views(r@) == wrap_instructions(amount),
{
    if amount > 0 {
        one_transaction(&contract(WRAP_NEAR), create_wrap_action(amount))
    } else {
        no_instructions()
    }
}

/// The fungible token in the wallet that the token can be turned into, and
/// what turns an amount of it; none where there is no such token.
pub open spec fn to_nep141(token: TokenIdView, amount: u128) -> Option<(Seq<InstructionView>, Seq<char>)> {
    match token {
        TokenIdView::Near => Some((wrap_instructions(amount), WRAP_NEAR@)),
        TokenIdView::Nep141(contract) => Some((none(), contract)),
        TokenIdView::Nep141OnRhea(contract) => Some(
            (transaction(RHEA_CONTRACT@, rhea_withdraw_action(contract, amount, false)), contract),
        ),
        TokenIdView::TokenOnIntearDex(asset) => {
            let withdraw = if amount > 0 {
                transaction(INTEAR_CONTRACT@, intear_withdraw_action(asset, amount))
            } else {
                none()
            };
            match asset {
                AssetIdView::Near => Some((withdraw + wrap_instructions(amount), WRAP_NEAR@)),
                AssetIdView::Nep141(contract) => Some((withdraw, contract)),
                _ => None,
            }
        },
    }
}

/// The fungible token in the wallet that the token can be turned into, and
/// what turns an amount of it.
pub fn convert_to_nep141(token_id: &TokenId, amount: u128) -> (r: Option<(Vec<ExecutionInstruction>, AccountId)>)
    ensures
        match r {
            Some(r) => to_nep141(token_id@, amount) == Some((instruction_views(r.0@), r.1@)),
            None => to_nep141(token_id@, amount) is None,
        },
{
    match token_id {
        TokenId::Near => Some((wrap(amount), contract(WRAP_NEAR))),
        TokenId::Nep141(token) => Some((no_instructions(), token.duplicate())),
        TokenId::Nep141OnRhea(token) => Some(
            (
                one_transaction(&contract(RHEA_CONTRACT), create_rhea_withdraw_action(token, amount, false)),
                token.duplicate(),
            ),
        ),
        TokenId::TokenOnIntearDex(asset) => {
            let withdraw: Vec<ExecutionInstruction> = if amount > 0 {
                one_transaction(&contract(INTEAR_CONTRACT), create_intear_dex_withdraw_action(asset, amount))
            } else {
                no_instructions()
            };
            match asset {
                AssetId::Near => Some((followed_by(withdraw, wrap(amount)), contract(WRAP_NEAR))),
                AssetId::Nep141(token) => Some((withdraw, token.duplicate())),
                _ => None,
            }
        },
    }
}

/// What turns an amount of the token into a fungible token in the wallet,
/// where that can be done.
pub open spec fn input_instructions(token: TokenIdView, amount: u128) -> Seq<InstructionView> {
    match to_nep141(token, amount) {
        Some((instructions, _)) => instructions,
        None => none(),
    }
}

/// The fungible token in the wallet that the token can be turned into.
pub open spec fn nep141_of(token: TokenIdView) -> Option<Seq<char>> {
    match token {
        TokenIdView::Near => Some(WRAP_NEAR@),
        TokenIdView::Nep141(contract) => Some(contract),
        TokenIdView::Nep141OnRhea(contract) => Some(contract),
        TokenIdView::TokenOnIntearDex(AssetIdView::Near) => Some(WRAP_NEAR@),
        TokenIdView::TokenOnIntearDex(AssetIdView::Nep141(contract)) => Some(contract),
        TokenIdView::TokenOnIntearDex(_) => None,
    }
}

/// The fungible token in the wallet that the token can be turned into.
pub(crate) fn wallet_token(token_id: &TokenId) -> (r: Option<AccountId>)
    ensures
        opt_account(r) == nep141_of(token_id@),
{
    match convert_to_nep141(token_id, 0) {
        Some((_, token)) => Some(token),
        None => None,
    }
}

/// What turns an amount of a token into the native coin; none where it is not
/// one of its forms, or where there is nothing to turn.
pub open spec fn to_native(token: TokenIdView, amount: u128) -> Option<Seq<InstructionView>> {
    match token {
        TokenIdView::Near => Some(none()),
        TokenIdView::Nep141(contract) => if contract == WRAP_NEAR@ && amount > 0 {
            Some(transaction(contract, unwrap_action(amount)))
        } else {
            None
        },
        TokenIdView::Nep141OnRhea(contract) => if contract == WRAP_NEAR@ && amount > 0 {
            Some(transaction(RHEA_CONTRACT@, rhea_withdraw_action(contract, amount, true)))
        } else {
            None
        },
        TokenIdView::TokenOnIntearDex(asset) => if amount == 0 {
            None
        } else {
            let withdraw = transaction(INTEAR_CONTRACT@, intear_withdraw_action(asset, amount));
            match asset {
                AssetIdView::Near => Some(withdraw),
                AssetIdView::Nep141(contract) => if contract == WRAP_NEAR@ {
                    Some(withdraw + transaction(contract, unwrap_action(amount)))
                } else {
                    None
                },
                _ => None,
            }
        },
    }
}

/// What turns an amount of a token into the native coin.
pub fn convert_to_native(token_id: &TokenId, amount: u128) -> (r: Option<Vec<ExecutionInstruction>>)
    ensures
        opt_instructions(r) == to_native(token_id@, amount),
{
    match token_id {
        TokenId::Near => Some(no_instructions()),
        TokenId::Nep141(token) => {
            if token.is(WRAP_NEAR) && amount > 0 {
                Some(one_transaction(token, create_unwrap_action(amount)))
            } else {
                None
            }
        },
        TokenId::Nep141OnRhea(token) => {
            if token.is(WRAP_NEAR) && amount > 0 {
                Some(one_transaction(&contract(RHEA_CONTRACT), create_rhea_withdraw_action(token, amount, true)))
            } else {
                None
            }
        },
        TokenId::TokenOnIntearDex(asset) => {
            if amount == 0 {
                return None;
            }
            let withdraw: Vec<ExecutionInstruction> = one_transaction(
                &contract(INTEAR_CONTRACT),
                create_intear_dex_withdraw_action(asset, amount),
            );
            match asset {
                AssetId::Near => Some(withdraw),
                AssetId::Nep141(token) => {
                    if token.is(WRAP_NEAR) {
                        Some(followed_by(withdraw, one_transaction(token, create_unwrap_action(amount))))
                    } else {
                        None
                    }
                },
                _ => None,
            }
        },
    }
}

/// A token in the wallet.
#[derive(Debug, PartialEq)]
pub enum BaseTokenId {
    Near,
    Nep141(AccountId),
}

/// A token in the wallet.
pub enum BaseView {
    Near,
    Nep141(Seq<char>),
}

impl View for BaseTokenId {
    type V = BaseView;

    open spec fn view(&self) -> BaseView {
        match self {
            BaseTokenId::Near => BaseView::Near,
            BaseTokenId::Nep141(contract) => BaseView::Nep141(contract@),
        }
    }
}

/// The token in the wallet that the token is a location of.
pub open spec fn base_of(token: TokenIdView) -> Option<BaseView> {
    match token {
        TokenIdView::Near => Some(BaseView::Near),
        TokenIdView::Nep141(contract) => Some(BaseView::Nep141(contract)),
        TokenIdView::Nep141OnRhea(contract) => Some(BaseView::Nep141(contract)),
        TokenIdView::TokenOnIntearDex(AssetIdView::Near) => Some(BaseView::Near),
        TokenIdView::TokenOnIntearDex(AssetIdView::Nep141(contract)) => Some(BaseView::Nep141(contract)),
        TokenIdView::TokenOnIntearDex(_) => None,
    }
}

/// The token in the wallet that the token is a location of.
pub fn base_token(token_id: &TokenId) -> (r: Option<BaseTokenId>)
    ensures
        match r {
            Some(base) => base_of(token_id@) == Some(base@),
            None => base_of(token_id@) is None,
        },
{
    match token_id {
        TokenId::Near => Some(BaseTokenId::Near),
        TokenId::Nep141(token) => Some(BaseTokenId::Nep141(token.duplicate())),
        TokenId::Nep141OnRhea(token) => Some(BaseTokenId::Nep141(token.duplicate())),
        TokenId::TokenOnIntearDex(asset) => match asset {
            AssetId::Near => Some(BaseTokenId::Near),
            AssetId::Nep141(token) => Some(BaseTokenId::Nep141(token.duplicate())),
            _ => None,
        },
    }
}

/// Whether a withdrawal from Rhea hands out the native coin.
pub open spec fn unwraps_on_rhea(from: TokenIdView, to: TokenIdView) -> bool {
    from matches TokenIdView::Nep141OnRhea(contract) && contract == WRAP_NEAR@ && base_of(to) == Some(BaseView::Near)
}

/// What brings an amount out of an inner balance into the wallet.
pub open spec fn withdraw_instructions(from: TokenIdView, to: TokenIdView, amount: u128) -> Seq<InstructionView> {
    match from {
        TokenIdView::Nep141OnRhea(contract) => transaction(
            RHEA_CONTRACT@,
            rhea_withdraw_action(contract, amount, unwraps_on_rhea(from, to)),
        ),
        TokenIdView::TokenOnIntearDex(asset) => transaction(INTEAR_CONTRACT@, intear_withdraw_action(asset, amount)),
        _ => none(),
    }
}

/// What the trader and the contract need before a deposit into an inner
/// balance.
pub open spec fn register_instructions(network: NetworkState, to: TokenIdView, trader: Option<Seq<char>>) -> Seq<
    InstructionView,
> {
    match to {
        TokenIdView::Nep141OnRhea(token) => storage_if_needed(network, to, trader) + deposit_registrations(
            network,
            RHEA_CONTRACT@,
            token,
            trader,
        ),
        TokenIdView::TokenOnIntearDex(AssetIdView::Nep141(token)) => storage_if_needed(network, to, trader)
            + deposit_registrations(network, INTEAR_CONTRACT@, token, trader),
        TokenIdView::TokenOnIntearDex(AssetIdView::Near) => storage_if_needed(network, to, trader),
        _ => none(),
    }
}

/// What brings an amount from the wallet into an inner balance.
pub open spec fn deposit_instructions(to: TokenIdView, amount: u128) -> Seq<InstructionView> {
    match to {
        TokenIdView::Nep141OnRhea(token) => transaction(token, deposit_action(RHEA_CONTRACT@, amount)),
        TokenIdView::TokenOnIntearDex(AssetIdView::Nep141(token)) => transaction(
            token,
            deposit_action(INTEAR_CONTRACT@, amount),
        ),
        TokenIdView::TokenOnIntearDex(AssetIdView::Near) => transaction(
            INTEAR_CONTRACT@,
            call("deposit_near"@, nothing(), 10, amount),
        ),
        _ => none(),
    }
}

/// What wraps or unwraps an amount in the wallet.
pub open spec fn rewrap_instructions(from: BaseView, to: BaseView, amount: u128) -> Seq<InstructionView> {
    match (from, to) {
        (BaseView::Near, BaseView::Nep141(_)) => wrap_instructions(amount),
        (BaseView::Nep141(token), BaseView::Near) => if token == WRAP_NEAR@ && amount > 0 {
            transaction(WRAP_NEAR@, unwrap_action(amount))
        } else {
            none()
        },
        _ => none(),
    }
}

/// What brings an amount of a token to another of its locations: register
/// there, withdraw into the wallet, wrap or unwrap, deposit.
pub open spec fn conversion(
    network: NetworkState,
    from: TokenIdView,
    to: TokenIdView,
    amount: u128,
    trader: Option<Seq<char>>,
) -> Seq<InstructionView> {
    if from == to {
        none()
    } else {
        match (base_of(from), base_of(to)) {
            (Some(from_base), Some(to_base)) => {
                let held = if unwraps_on_rhea(from, to) {
                    BaseView::Near
                } else {
                    from_base
                };
                register_instructions(network, to, trader) + withdraw_instructions(from, to, amount)
                    + rewrap_instructions(held, to_base, amount) + deposit_instructions(to, amount)
            },
            _ => none(),
        }
    }
}

/// What the trader and the contract need before a deposit.
fn register(network: &Network, to: &TokenId, trader_account_id: &Option<AccountId>) -> (r: Vec<ExecutionInstruction>)
    ensures
        instruction_views(r@) == register_instructions(network@, to@, opt_account(*trader_account_id)),
{
    match to {
        TokenId::Nep141OnRhea(token) => followed_by(
            deposit_storage_if_needed(network, to, trader_account_id),
            create_ft_deposit_registrations(network, &contract(RHEA_CONTRACT), token, trader_account_id),
        ),
        TokenId::TokenOnIntearDex(asset) => match asset {
            AssetId::Nep141(token) => followed_by(
                deposit_storage_if_needed(network, to, trader_account_id),
                create_ft_deposit_registrations(network, &contract(INTEAR_CONTRACT), token, trader_account_id),
            ),
            AssetId::Near => deposit_storage_if_needed(network, to, trader_account_id),
            _ => no_instructions(),
        },
        _ => no_instructions(),
    }
}

/// What brings an amount from the wallet into an inner balance.
fn deposit(to: &TokenId, amount: u128) -> (r: Vec<ExecutionInstruction>)
    ensures
        instruction_views(r@) == deposit_instructions(to@, amount),
{
    match to {
        TokenId::Nep141OnRhea(token) => one_transaction(
            token,
            create_rhea_nep141_deposit_action(&contract(RHEA_CONTRACT), amount),
        ),
        TokenId::TokenOnIntearDex(asset) => match asset {
            AssetId::Nep141(token) => one_transaction(
                token,
                create_intear_nep141_deposit_action(&contract(INTEAR_CONTRACT), amount),
            ),
            AssetId::Near => one_transaction(
                &contract(INTEAR_CONTRACT),
                call_action("deposit_near", no_args(), 10, amount),
            ),
            _ => no_instructions(),
        },
        _ => no_instructions(),
    }
}

/// What brings an amount out of an inner balance, with whether Rhea unwraps.
fn withdraw(from: &TokenId, unwrap_near: bool, amount: u128) -> (r: Vec<ExecutionInstruction>)
    ensures
        instruction_views(r@) == match from@ {
            TokenIdView::Nep141OnRhea(token) => transaction(
                RHEA_CONTRACT@,
                rhea_withdraw_action(token, amount, unwrap_near),
            ),
            TokenIdView::TokenOnIntearDex(asset) => transaction(
                INTEAR_CONTRACT@,
                intear_withdraw_action(asset, amount),
            ),
            _ => none(),
        },
{
    match from {
        TokenId::Nep141OnRhea(token) => one_transaction(
            &contract(RHEA_CONTRACT),
            create_rhea_withdraw_action(token, amount, unwrap_near),
        ),
        TokenId::TokenOnIntearDex(asset) => one_transaction(
            &contract(INTEAR_CONTRACT),
            create_intear_dex_withdraw_action(asset, amount),
        ),
        _ => no_instructions(),
    }
}

/// What wraps or unwraps an amount in the wallet.
fn rewrap(from: &BaseTokenId, to: &BaseTokenId, amount: u128) -> (r: Vec<ExecutionInstruction>)
    ensures
        instruction_views(r@) == rewrap_instructions(from@, to@, amount),
{
    match (from, to) {
        (BaseTokenId::Near, BaseTokenId::Nep141(_)) => wrap(amount),
        (BaseTokenId::Nep141(token), BaseTokenId::Near) => {
            if token.is(WRAP_NEAR) && amount > 0 {
                one_transaction(&contract(WRAP_NEAR), create_unwrap_action(amount))
            } else {
                no_instructions()
            }
        },
        _ => no_instructions(),
    }
}

/// What brings an amount of a token to another of its locations.
pub fn convert_to(
    network: &Network,
    from: &TokenId,
    to: &TokenId,
    amount: u128,
    trader_account_id: &Option<AccountId>,
) -> (r: Vec<ExecutionInstruction>)
    ensures
        instruction_views(r@) == conversion(network@, from@, to@, amount, opt_account(*trader_account_id)),
{
    if from.same(to) {
        return no_instructions();
    }
    let (from_base, to_base): (BaseTokenId, BaseTokenId) = match (base_token(from), base_token(to)) {
        (Some(from_base), Some(to_base)) => (from_base, to_base),
        _ => {
            return no_instructions();
        },
    };
    let to_near: bool = match &to_base {
        BaseTokenId::Near => true,
        BaseTokenId::Nep141(_) => false,
    };
    let unwrap_near: bool = match from {
        TokenId::Nep141OnRhea(token) => token.is(WRAP_NEAR) && to_near,
        _ => false,
    };
    let held: BaseTokenId = if unwrap_near {
        BaseTokenId::Near
    } else {
        from_base
    };
    followed_by(
        followed_by(
            followed_by(register(network, to, trader_account_id), withdraw(from, unwrap_near, amount)),
            rewrap(&held, &to_base, amount),
        ),
        deposit(to, amount),
    )
}

} // verus!
