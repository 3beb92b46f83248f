//! Trading the tokens of aidols.near.

use dex_aggregator::account::AccountId;
use dex_aggregator::asset::AssetId;
use dex_aggregator::decimal::Decimal;
use dex_aggregator::network::Network;
use dex_aggregator::providers::aidols::{AidolsEmulateSwap, AidolsProvider, AIDOLS_CONTRACT_ID};
use dex_aggregator::shared_utils::{
    create_intear_dex_withdraw_action, create_rhea_withdraw_action, create_storage_deposit_action_for_contract,
    create_wrap_action, DEFAULT_REFERRER_ID, TGAS, TOKEN_STORAGE, WRAP_NEAR,
};
use dex_aggregator::slippage::Market;
use dex_aggregator::types::{
    Action, Amount, DexId, ExecutionInstruction, FunctionCallAction, Route, Slippage, SwapRequest, TokenId,
};
use serde_json::Value;

fn account(name: &str) -> AccountId {
    AccountId::parse(name).unwrap()
}

fn decimal(text: &str) -> Decimal {
    Decimal::parse(text).unwrap()
}

fn call(action: FunctionCallAction) -> FunctionCallAction {
    action
}

fn obj(fields: Vec<(&str, Value)>) -> Value {
    fields.into_iter().map(|(key, value)| (key.to_string(), value)).collect()
}

fn val<T: Into<Value>>(value: T) -> Value {
    value.into()
}

fn market() -> Market {
    Market { tokens: None, height: None }
}


struct TestAidolsQuotes {
    emulate_swap: Option<AidolsEmulateSwap>,
    emulate_swap_by_out: Option<AidolsEmulateSwap>,
}

fn quote(amount: u128, is_tradable: bool) -> Option<AidolsEmulateSwap> {
    Some(AidolsEmulateSwap { amount, fee: 0, is_deployed: true, is_tradable })
}

impl TestAidolsQuotes {
    fn default() -> Self {
        Self { emulate_swap: quote(80, true), emulate_swap_by_out: quote(100, true) }
    }

    fn none() -> Self {
        Self { emulate_swap: None, emulate_swap_by_out: None }
    }

    fn not_tradable() -> Self {
        Self { emulate_swap: quote(80, false), emulate_swap_by_out: quote(100, false) }
    }
}

fn is_wrap_aidols_pair(input_token: &AccountId, output_token: &AccountId) -> bool {
    (input_token.is(WRAP_NEAR) && output_token.is_sub_account_of(AIDOLS_CONTRACT_ID))
        || (output_token.is(WRAP_NEAR) && input_token.is_sub_account_of(AIDOLS_CONTRACT_ID))
}

fn route(request: SwapRequest, network: &Network, quotes: &TestAidolsQuotes) -> Option<Route> {
    let query = AidolsProvider.query(&request)?;
    let answer = if !is_wrap_aidols_pair(&query.input_token, &query.output_token) {
        None
    } else {
        match request.amount {
            Amount::AmountIn(_) => quotes.emulate_swap,
            Amount::AmountOut(_) => quotes.emulate_swap_by_out,
        }
    };
    AidolsProvider.route(&request, network, &market(), answer)
}

#[test]
fn amount_in_buy_native_near() {
    assert_eq!(
        route(
            SwapRequest {
                token_in: TokenId::Near,
                token_out: TokenId::Nep141(account("token.aidols.near")),
                amount: Amount::AmountIn(100),
                max_wait_ms: 1_000,
                slippage: Slippage::Fixed {
                    slippage: decimal("0.01"),
                },
                dexes: None,
                trader_account_id: Some(account("trader.near")),
                signing_public_key: None,
                referrer_id: None,
            },
            &Network::new(),
            &TestAidolsQuotes::default(),
        ),
        Some(Route {
            deadline: None,
            has_slippage: true,
            estimated_amount: Amount::AmountOut(80),
            worst_case_amount: Amount::AmountOut(79),
            dex_id: DexId::Aidols,
            execution_instructions: vec![
                ExecutionInstruction::NearTransaction {
                    receiver_id: account("token.aidols.near"),
                    actions: vec![create_storage_deposit_action_for_contract(TOKEN_STORAGE, true)],
                },
                ExecutionInstruction::NearTransaction {
                    receiver_id: account(WRAP_NEAR),
                    actions: vec![create_storage_deposit_action_for_contract(TOKEN_STORAGE, true)],
                },
                ExecutionInstruction::NearTransaction {
                    receiver_id: account(WRAP_NEAR),
                    actions: vec![create_wrap_action(100)],
                },
                ExecutionInstruction::NearTransaction {
                    receiver_id: account(WRAP_NEAR),
                    actions: vec![Action::FunctionCall(call(FunctionCallAction {
                        method_name: "ft_transfer_call".to_string(),
                        args: serde_json::to_vec(&obj(vec![("receiver_id", val("aidols.near")), ("amount", val("100")), ("msg", val(serde_json::to_string(&obj(vec![("token", val("token.aidols.near")), ("min_swap_amount", val("79")), ("referral", val(DEFAULT_REFERRER_ID))]))
                            .unwrap()))]))
                        .unwrap(),
                        gas: 50 * TGAS,
                        deposit: 1,
                    }))],
                },
            ],
            deprecated_needs_unwrap_always_false: false,
            token_output: TokenId::Nep141(account("token.aidols.near")),
        })
    );
}

#[test]
fn amount_in_buy_wnear() {
    assert_eq!(
        route(
            SwapRequest {
                token_in: TokenId::Nep141(account(WRAP_NEAR)),
                token_out: TokenId::Nep141(account("token.aidols.near")),
                amount: Amount::AmountIn(100),
                max_wait_ms: 1_000,
                slippage: Slippage::Fixed {
                    slippage: decimal("0.01"),
                },
                dexes: None,
                trader_account_id: Some(account("trader.near")),
                signing_public_key: None,
                referrer_id: None,
            },
            &Network::new(),
            &TestAidolsQuotes::default(),
        ),
        Some(Route {
            deadline: None,
            has_slippage: true,
            estimated_amount: Amount::AmountOut(80),
            worst_case_amount: Amount::AmountOut(79),
            dex_id: DexId::Aidols,
            execution_instructions: vec![
                ExecutionInstruction::NearTransaction {
                    receiver_id: account("token.aidols.near"),
                    actions: vec![create_storage_deposit_action_for_contract(TOKEN_STORAGE, true)],
                },
                ExecutionInstruction::NearTransaction {
                    receiver_id: account(WRAP_NEAR),
                    actions: vec![create_storage_deposit_action_for_contract(TOKEN_STORAGE, true)],
                },
                ExecutionInstruction::NearTransaction {
                    receiver_id: account(WRAP_NEAR),
                    actions: vec![Action::FunctionCall(call(FunctionCallAction {
                        method_name: "ft_transfer_call".to_string(),
                        args: serde_json::to_vec(&obj(vec![("receiver_id", val("aidols.near")), ("amount", val("100")), ("msg", val(serde_json::to_string(&obj(vec![("token", val("token.aidols.near")), ("min_swap_amount", val("79")), ("referral", val(DEFAULT_REFERRER_ID))]))
                            .unwrap()))]))
                        .unwrap(),
                        gas: 50 * TGAS,
                        deposit: 1,
                    }))],
                },
            ],
            deprecated_needs_unwrap_always_false: false,
            token_output: TokenId::Nep141(account("token.aidols.near")),
        })
    );
}

#[test]
fn amount_in_buy_rhea_wnear() {
    assert_eq!(
        route(
            SwapRequest {
                token_in: TokenId::Nep141OnRhea(account(WRAP_NEAR)),
                token_out: TokenId::Nep141(account("token.aidols.near")),
                amount: Amount::AmountIn(100),
                max_wait_ms: 1_000,
                slippage: Slippage::Fixed {
                    slippage: decimal("0.01"),
                },
                dexes: None,
                trader_account_id: Some(account("trader.near")),
                signing_public_key: None,
                referrer_id: None,
            },
            &Network::new(),
            &TestAidolsQuotes::default(),
        ),
        Some(Route {
            deadline: None,
            has_slippage: true,
            estimated_amount: Amount::AmountOut(80),
            worst_case_amount: Amount::AmountOut(79),
            dex_id: DexId::Aidols,
            execution_instructions: vec![
                ExecutionInstruction::NearTransaction {
                    receiver_id: account("token.aidols.near"),
                    actions: vec![create_storage_deposit_action_for_contract(TOKEN_STORAGE, true)],
                },
                ExecutionInstruction::NearTransaction {
                    receiver_id: account(WRAP_NEAR),
                    actions: vec![create_storage_deposit_action_for_contract(TOKEN_STORAGE, true)],
                },
                ExecutionInstruction::NearTransaction {
                    receiver_id: account("v2.ref-finance.near"),
                    actions: vec![create_rhea_withdraw_action(
                        &account(WRAP_NEAR),
                        100,
                        false,
                    )],
                },
                ExecutionInstruction::NearTransaction {
                    receiver_id: account(WRAP_NEAR),
                    actions: vec![Action::FunctionCall(call(FunctionCallAction {
                        method_name: "ft_transfer_call".to_string(),
                        args: serde_json::to_vec(&obj(vec![("receiver_id", val("aidols.near")), ("amount", val("100")), ("msg", val(serde_json::to_string(&obj(vec![("token", val("token.aidols.near")), ("min_swap_amount", val("79")), ("referral", val(DEFAULT_REFERRER_ID))]))
                            .unwrap()))]))
                        .unwrap(),
                        gas: 50 * TGAS,
                        deposit: 1,
                    }))],
                },
            ],
            deprecated_needs_unwrap_always_false: false,
            token_output: TokenId::Nep141(account("token.aidols.near")),
        })
    );
}

#[test]
fn amount_in_buy_intear_near() {
    assert_eq!(
        route(
            SwapRequest {
                token_in: TokenId::TokenOnIntearDex(AssetId::Near),
                token_out: TokenId::Nep141(account("token.aidols.near")),
                amount: Amount::AmountIn(100),
                max_wait_ms: 1_000,
                slippage: Slippage::Fixed {
                    slippage: decimal("0.01"),
                },
                dexes: None,
                trader_account_id: Some(account("trader.near")),
                signing_public_key: None,
                referrer_id: None,
            },
            &Network::new(),
            &TestAidolsQuotes::default(),
        ),
        Some(Route {
            deadline: None,
            has_slippage: true,
            estimated_amount: Amount::AmountOut(80),
            worst_case_amount: Amount::AmountOut(79),
            dex_id: DexId::Aidols,
            execution_instructions: vec![
                ExecutionInstruction::NearTransaction {
                    receiver_id: account("token.aidols.near"),
                    actions: vec![create_storage_deposit_action_for_contract(TOKEN_STORAGE, true)],
                },
                ExecutionInstruction::NearTransaction {
                    receiver_id: account(WRAP_NEAR),
                    actions: vec![create_storage_deposit_action_for_contract(TOKEN_STORAGE, true)],
                },
                ExecutionInstruction::NearTransaction {
                    receiver_id: account("dex.intear.near"),
                    actions: vec![create_intear_dex_withdraw_action(&AssetId::Near, 100)],
                },
                ExecutionInstruction::NearTransaction {
                    receiver_id: account(WRAP_NEAR),
                    actions: vec![create_wrap_action(100)],
                },
                ExecutionInstruction::NearTransaction {
                    receiver_id: account(WRAP_NEAR),
                    actions: vec![Action::FunctionCall(call(FunctionCallAction {
                        method_name: "ft_transfer_call".to_string(),
                        args: serde_json::to_vec(&obj(vec![("receiver_id", val("aidols.near")), ("amount", val("100")), ("msg", val(serde_json::to_string(&obj(vec![("token", val("token.aidols.near")), ("min_swap_amount", val("79")), ("referral", val(DEFAULT_REFERRER_ID))]))
                            .unwrap()))]))
                        .unwrap(),
                        gas: 50 * TGAS,
                        deposit: 1,
                    }))],
                },
            ],
            deprecated_needs_unwrap_always_false: false,
            token_output: TokenId::Nep141(account("token.aidols.near")),
        })
    );
}

#[test]
fn amount_in_buy_intear_wnear() {
    assert_eq!(
        route(
            SwapRequest {
                token_in: TokenId::TokenOnIntearDex(AssetId::Nep141(
                    account(WRAP_NEAR)
                )),
                token_out: TokenId::Nep141(account("token.aidols.near")),
                amount: Amount::AmountIn(100),
                max_wait_ms: 1_000,
                slippage: Slippage::Fixed {
                    slippage: decimal("0.01"),
                },
                dexes: None,
                trader_account_id: Some(account("trader.near")),
                signing_public_key: None,
                referrer_id: None,
            },
            &Network::new(),
            &TestAidolsQuotes::default(),
        ),
        Some(Route {
            deadline: None,
            has_slippage: true,
            estimated_amount: Amount::AmountOut(80),
            worst_case_amount: Amount::AmountOut(79),
            dex_id: DexId::Aidols,
            execution_instructions: vec![
                ExecutionInstruction::NearTransaction {
                    receiver_id: account("token.aidols.near"),
                    actions: vec![create_storage_deposit_action_for_contract(TOKEN_STORAGE, true)],
                },
                ExecutionInstruction::NearTransaction {
                    receiver_id: account(WRAP_NEAR),
                    actions: vec![create_storage_deposit_action_for_contract(TOKEN_STORAGE, true)],
                },
                ExecutionInstruction::NearTransaction {
                    receiver_id: account("dex.intear.near"),
                    actions: vec![create_intear_dex_withdraw_action(
                        &AssetId::Nep141(account(WRAP_NEAR)),
                        100,
                    )],
                },
                ExecutionInstruction::NearTransaction {
                    receiver_id: account(WRAP_NEAR),
                    actions: vec![Action::FunctionCall(call(FunctionCallAction {
                        method_name: "ft_transfer_call".to_string(),
                        args: serde_json::to_vec(&obj(vec![("receiver_id", val("aidols.near")), ("amount", val("100")), ("msg", val(serde_json::to_string(&obj(vec![("token", val("token.aidols.near")), ("min_swap_amount", val("79")), ("referral", val(DEFAULT_REFERRER_ID))]))
                            .unwrap()))]))
                        .unwrap(),
                        gas: 50 * TGAS,
                        deposit: 1,
                    }))],
                },
            ],
            deprecated_needs_unwrap_always_false: false,
            token_output: TokenId::Nep141(account("token.aidols.near")),
        })
    );
}

#[test]
fn amount_in_sell_nep141() {
    assert_eq!(
        route(
            SwapRequest {
                token_in: TokenId::Nep141(account("token.aidols.near")),
                token_out: TokenId::Nep141(account(WRAP_NEAR)),
                amount: Amount::AmountIn(100),
                max_wait_ms: 1_000,
                slippage: Slippage::Fixed {
                    slippage: decimal("0.01"),
                },
                dexes: None,
                trader_account_id: Some(account("trader.near")),
                signing_public_key: None,
                referrer_id: None,
            },
            &Network::new(),
            &TestAidolsQuotes::default(),
        ),
        Some(Route {
            deadline: None,
            has_slippage: true,
            estimated_amount: Amount::AmountOut(80),
            worst_case_amount: Amount::AmountOut(79),
            dex_id: DexId::Aidols,
            execution_instructions: vec![
                ExecutionInstruction::NearTransaction {
                    receiver_id: account(WRAP_NEAR),
                    actions: vec![create_storage_deposit_action_for_contract(TOKEN_STORAGE, true)],
                },
                ExecutionInstruction::NearTransaction {
                    receiver_id: account("token.aidols.near"),
                    actions: vec![create_storage_deposit_action_for_contract(TOKEN_STORAGE, true)],
                },
                ExecutionInstruction::NearTransaction {
                    receiver_id: account("token.aidols.near"),
                    actions: vec![Action::FunctionCall(call(FunctionCallAction {
                        method_name: "ft_transfer_call".to_string(),
                        args: serde_json::to_vec(&obj(vec![("receiver_id", val("aidols.near")), ("amount", val("100")), ("msg", val(serde_json::to_string(&obj(vec![("token", Value::Null), ("min_swap_amount", val("79")), ("referral", val(DEFAULT_REFERRER_ID))]))
                            .unwrap()))]))
                        .unwrap(),
                        gas: 50 * TGAS,
                        deposit: 1,
                    }))],
                },
            ],
            deprecated_needs_unwrap_always_false: false,
            token_output: TokenId::Nep141(account(WRAP_NEAR)),
        })
    );
}

#[test]
fn amount_in_sell_rhea() {
    assert_eq!(
        route(
            SwapRequest {
                token_in: TokenId::Nep141OnRhea(account("token.aidols.near")),
                token_out: TokenId::Near,
                amount: Amount::AmountIn(100),
                max_wait_ms: 1_000,
                slippage: Slippage::Fixed {
                    slippage: decimal("0.01"),
                },
                dexes: None,
                trader_account_id: Some(account("trader.near")),
                signing_public_key: None,
                referrer_id: None,
            },
            &Network::new(),
            &TestAidolsQuotes::default(),
        ),
        Some(Route {
            deadline: None,
            has_slippage: true,
            estimated_amount: Amount::AmountOut(80),
            worst_case_amount: Amount::AmountOut(79),
            dex_id: DexId::Aidols,
            execution_instructions: vec![
                ExecutionInstruction::NearTransaction {
                    receiver_id: account(WRAP_NEAR),
                    actions: vec![create_storage_deposit_action_for_contract(TOKEN_STORAGE, true)],
                },
                ExecutionInstruction::NearTransaction {
                    receiver_id: account("token.aidols.near"),
                    actions: vec![create_storage_deposit_action_for_contract(TOKEN_STORAGE, true)],
                },
                ExecutionInstruction::NearTransaction {
                    receiver_id: account("v2.ref-finance.near"),
                    actions: vec![create_rhea_withdraw_action(
                        &account("token.aidols.near"),
                        100,
                        false,
                    )],
                },
                ExecutionInstruction::NearTransaction {
                    receiver_id: account("token.aidols.near"),
                    actions: vec![Action::FunctionCall(call(FunctionCallAction {
                        method_name: "ft_transfer_call".to_string(),
                        args: serde_json::to_vec(&obj(vec![("receiver_id", val("aidols.near")), ("amount", val("100")), ("msg", val(serde_json::to_string(&obj(vec![("token", Value::Null), ("min_swap_amount", val("79")), ("referral", val(DEFAULT_REFERRER_ID))]))
                            .unwrap()))]))
                        .unwrap(),
                        gas: 50 * TGAS,
                        deposit: 1,
                    }))],
                },
            ],
            deprecated_needs_unwrap_always_false: false,
            token_output: TokenId::Nep141(account(WRAP_NEAR)),
        })
    );
}

#[test]
fn amount_in_sell_intear() {
    assert_eq!(
        route(
            SwapRequest {
                token_in: TokenId::TokenOnIntearDex(AssetId::Nep141(
                    account("token.aidols.near"),
                )),
                token_out: TokenId::TokenOnIntearDex(AssetId::Near),
                amount: Amount::AmountIn(100),
                max_wait_ms: 1_000,
                slippage: Slippage::Fixed {
                    slippage: decimal("0.01"),
                },
                dexes: None,
                trader_account_id: Some(account("trader.near")),
                signing_public_key: None,
                referrer_id: None,
            },
            &Network::new(),
            &TestAidolsQuotes::default(),
        ),
        Some(Route {
            deadline: None,
            has_slippage: true,
            estimated_amount: Amount::AmountOut(80),
            worst_case_amount: Amount::AmountOut(79),
            dex_id: DexId::Aidols,
            execution_instructions: vec![
                ExecutionInstruction::NearTransaction {
                    receiver_id: account(WRAP_NEAR),
                    actions: vec![create_storage_deposit_action_for_contract(TOKEN_STORAGE, true)],
                },
                ExecutionInstruction::NearTransaction {
                    receiver_id: account("token.aidols.near"),
                    actions: vec![create_storage_deposit_action_for_contract(TOKEN_STORAGE, true)],
                },
                ExecutionInstruction::NearTransaction {
                    receiver_id: account("dex.intear.near"),
                    actions: vec![create_intear_dex_withdraw_action(
                        &AssetId::Nep141(account("token.aidols.near")),
                        100,
                    )],
                },
                ExecutionInstruction::NearTransaction {
                    receiver_id: account("token.aidols.near"),
                    actions: vec![Action::FunctionCall(call(FunctionCallAction {
                        method_name: "ft_transfer_call".to_string(),
                        args: serde_json::to_vec(&obj(vec![("receiver_id", val("aidols.near")), ("amount", val("100")), ("msg", val(serde_json::to_string(&obj(vec![("token", Value::Null), ("min_swap_amount", val("79")), ("referral", val(DEFAULT_REFERRER_ID))]))
                            .unwrap()))]))
                        .unwrap(),
                        gas: 50 * TGAS,
                        deposit: 1,
                    }))],
                },
            ],
            deprecated_needs_unwrap_always_false: false,
            token_output: TokenId::Nep141(account(WRAP_NEAR)),
        })
    );
}

#[test]
fn amount_out_buy_native_near() {
    assert_eq!(
        route(
            SwapRequest {
                token_in: TokenId::Near,
                token_out: TokenId::Nep141(account("token.aidols.near")),
                amount: Amount::AmountOut(80),
                max_wait_ms: 1_000,
                slippage: Slippage::Fixed {
                    slippage: decimal("0.01"),
                },
                dexes: None,
                trader_account_id: Some(account("trader.near")),
                signing_public_key: None,
                referrer_id: None,
            },
            &Network::new(),
            &TestAidolsQuotes::default(),
        ),
        Some(Route {
            deadline: None,
            has_slippage: true,
            estimated_amount: Amount::AmountIn(100),
            worst_case_amount: Amount::AmountIn(101),
            dex_id: DexId::Aidols,
            execution_instructions: vec![
                ExecutionInstruction::NearTransaction {
                    receiver_id: account("token.aidols.near"),
                    actions: vec![create_storage_deposit_action_for_contract(TOKEN_STORAGE, true)],
                },
                ExecutionInstruction::NearTransaction {
                    receiver_id: account(WRAP_NEAR),
                    actions: vec![create_storage_deposit_action_for_contract(TOKEN_STORAGE, true)],
                },
                ExecutionInstruction::NearTransaction {
                    receiver_id: account(WRAP_NEAR),
                    actions: vec![create_wrap_action(101)],
                },
                ExecutionInstruction::NearTransaction {
                    receiver_id: account(WRAP_NEAR),
                    actions: vec![Action::FunctionCall(call(FunctionCallAction {
                        method_name: "ft_transfer_call".to_string(),
                        args: serde_json::to_vec(&obj(vec![("receiver_id", val("aidols.near")), ("amount", val("101")), ("msg", val(serde_json::to_string(&obj(vec![("token", val("token.aidols.near")), ("amount_out", val("80")), ("min_swap_amount", val(u128::MAX.to_string())), ("referral", val(DEFAULT_REFERRER_ID))]))
                            .unwrap()))]))
                        .unwrap(),
                        gas: 50 * TGAS,
                        deposit: 1,
                    }))],
                },
            ],
            deprecated_needs_unwrap_always_false: false,
            token_output: TokenId::Nep141(account("token.aidols.near")),
        })
    );
}

#[test]
fn amount_out_sell_nep141() {
    assert_eq!(
        route(
            SwapRequest {
                token_in: TokenId::Nep141(account("token.aidols.near")),
                token_out: TokenId::Near,
                amount: Amount::AmountOut(80),
                max_wait_ms: 1_000,
                slippage: Slippage::Fixed {
                    slippage: decimal("0.01"),
                },
                dexes: None,
                trader_account_id: Some(account("trader.near")),
                signing_public_key: None,
                referrer_id: None,
            },
            &Network::new(),
            &TestAidolsQuotes::default(),
        ),
        Some(Route {
            deadline: None,
            has_slippage: true,
            estimated_amount: Amount::AmountIn(100),
            worst_case_amount: Amount::AmountIn(101),
            dex_id: DexId::Aidols,
            execution_instructions: vec![
                ExecutionInstruction::NearTransaction {
                    receiver_id: account(WRAP_NEAR),
                    actions: vec![create_storage_deposit_action_for_contract(TOKEN_STORAGE, true)],
                },
                ExecutionInstruction::NearTransaction {
                    receiver_id: account("token.aidols.near"),
                    actions: vec![create_storage_deposit_action_for_contract(TOKEN_STORAGE, true)],
                },
                ExecutionInstruction::NearTransaction {
                    receiver_id: account("token.aidols.near"),
                    actions: vec![Action::FunctionCall(call(FunctionCallAction {
                        method_name: "ft_transfer_call".to_string(),
                        args: serde_json::to_vec(&obj(vec![("receiver_id", val("aidols.near")), ("amount", val("101")), ("msg", val(serde_json::to_string(&obj(vec![("token", Value::Null), ("amount_out", val("80")), ("min_swap_amount", val(u128::MAX.to_string())), ("referral", val(DEFAULT_REFERRER_ID))]))
                            .unwrap()))]))
                        .unwrap(),
                        gas: 50 * TGAS,
                        deposit: 1,
                    }))],
                },
            ],
            deprecated_needs_unwrap_always_false: false,
            token_output: TokenId::Nep141(account(WRAP_NEAR)),
        })
    );
}

#[test]
fn buy_output_location_does_not_change_route() {
    let to_nep141 = route(
        SwapRequest {
            token_in: TokenId::Near,
            token_out: TokenId::Nep141(account("token.aidols.near")),
            amount: Amount::AmountIn(100),
            max_wait_ms: 1_000,
            slippage: Slippage::Fixed {
                slippage: decimal("0.01"),
            },
            dexes: None,
            trader_account_id: Some(account("trader.near")),
            signing_public_key: None,
            referrer_id: None,
        },
        &Network::new(),
        &TestAidolsQuotes::default(),
    );
    let to_rhea = route(
        SwapRequest {
            token_in: TokenId::Near,
            token_out: TokenId::Nep141OnRhea(account("token.aidols.near")),
            amount: Amount::AmountIn(100),
            max_wait_ms: 1_000,
            slippage: Slippage::Fixed {
                slippage: decimal("0.01"),
            },
            dexes: None,
            trader_account_id: Some(account("trader.near")),
            signing_public_key: None,
            referrer_id: None,
        },
        &Network::new(),
        &TestAidolsQuotes::default(),
    );
    let to_intear = route(
        SwapRequest {
            token_in: TokenId::Near,
            token_out: TokenId::TokenOnIntearDex(AssetId::Nep141(
                account("token.aidols.near"),
            )),
            amount: Amount::AmountIn(100),
            max_wait_ms: 1_000,
            slippage: Slippage::Fixed {
                slippage: decimal("0.01"),
            },
            dexes: None,
            trader_account_id: Some(account("trader.near")),
            signing_public_key: None,
            referrer_id: None,
        },
        &Network::new(),
        &TestAidolsQuotes::default(),
    );
    assert_eq!(to_nep141, to_rhea);
    assert_eq!(to_nep141, to_intear);
}

#[test]
fn non_aidols_token_returns_none() {
    assert_eq!(
        route(
            SwapRequest {
                token_in: TokenId::Nep141(account(WRAP_NEAR)),
                token_out: TokenId::Nep141(account("ft.near")),
                amount: Amount::AmountIn(100),
                max_wait_ms: 1_000,
                slippage: Slippage::Fixed {
                    slippage: decimal("0.01"),
                },
                dexes: None,
                trader_account_id: Some(account("trader.near")),
                signing_public_key: None,
                referrer_id: None,
            },
            &Network::new(),
            &TestAidolsQuotes::default(),
        ),
        None
    );
    assert_eq!(
        route(
            SwapRequest {
                token_in: TokenId::Nep141(account("ft.near")),
                token_out: TokenId::Nep141(account("token.aidols.near")),
                amount: Amount::AmountIn(100),
                max_wait_ms: 1_000,
                slippage: Slippage::Fixed {
                    slippage: decimal("0.01"),
                },
                dexes: None,
                trader_account_id: Some(account("trader.near")),
                signing_public_key: None,
                referrer_id: None,
            },
            &Network::new(),
            &TestAidolsQuotes::default(),
        ),
        None
    );
    assert_eq!(
        route(
            SwapRequest {
                token_in: TokenId::Nep141(account("token.aidols.near")),
                token_out: TokenId::Nep141(account("ft.near")),
                amount: Amount::AmountIn(100),
                max_wait_ms: 1_000,
                slippage: Slippage::Fixed {
                    slippage: decimal("0.01"),
                },
                dexes: None,
                trader_account_id: Some(account("trader.near")),
                signing_public_key: None,
                referrer_id: None,
            },
            &Network::new(),
            &TestAidolsQuotes::default(),
        ),
        None
    );
}

#[test]
fn not_tradable_returns_none() {
    assert_eq!(
        route(
            SwapRequest {
                token_in: TokenId::Near,
                token_out: TokenId::Nep141(account("token.aidols.near")),
                amount: Amount::AmountIn(100),
                max_wait_ms: 1_000,
                slippage: Slippage::Fixed {
                    slippage: decimal("0.01"),
                },
                dexes: None,
                trader_account_id: Some(account("trader.near")),
                signing_public_key: None,
                referrer_id: None,
            },
            &Network::new(),
            &TestAidolsQuotes::not_tradable(),
        ),
        None
    );
    assert_eq!(
        route(
            SwapRequest {
                token_in: TokenId::Near,
                token_out: TokenId::Nep141(account("token.aidols.near")),
                amount: Amount::AmountOut(80),
                max_wait_ms: 1_000,
                slippage: Slippage::Fixed {
                    slippage: decimal("0.01"),
                },
                dexes: None,
                trader_account_id: Some(account("trader.near")),
                signing_public_key: None,
                referrer_id: None,
            },
            &Network::new(),
            &TestAidolsQuotes::not_tradable(),
        ),
        None
    );
}

#[test]
fn aidols_missing_quote_returns_none() {
    assert_eq!(
        route(
            SwapRequest {
                token_in: TokenId::Near,
                token_out: TokenId::Nep141(account("token.aidols.near")),
                amount: Amount::AmountIn(100),
                max_wait_ms: 1_000,
                slippage: Slippage::Fixed {
                    slippage: decimal("0.01"),
                },
                dexes: None,
                trader_account_id: Some(account("trader.near")),
                signing_public_key: None,
                referrer_id: None,
            },
            &Network::new(),
            &TestAidolsQuotes::none(),
        ),
        None
    );
    assert_eq!(
        route(
            SwapRequest {
                token_in: TokenId::Near,
                token_out: TokenId::Nep141(account("token.aidols.near")),
                amount: Amount::AmountOut(80),
                max_wait_ms: 1_000,
                slippage: Slippage::Fixed {
                    slippage: decimal("0.01"),
                },
                dexes: None,
                trader_account_id: Some(account("trader.near")),
                signing_public_key: None,
                referrer_id: None,
            },
            &Network::new(),
            &TestAidolsQuotes::none(),
        ),
        None
    );
}

#[test]
fn no_trader_omits_storage_deposits() {
    assert_eq!(
        route(
            SwapRequest {
                token_in: TokenId::Near,
                token_out: TokenId::Nep141(account("token.aidols.near")),
                amount: Amount::AmountIn(100),
                max_wait_ms: 1_000,
                slippage: Slippage::Fixed {
                    slippage: decimal("0.01"),
                },
                dexes: None,
                trader_account_id: None,
                signing_public_key: None,
                referrer_id: None,
            },
            &Network::new(),
            &TestAidolsQuotes::default(),
        ),
        Some(Route {
            deadline: None,
            has_slippage: true,
            estimated_amount: Amount::AmountOut(80),
            worst_case_amount: Amount::AmountOut(79),
            dex_id: DexId::Aidols,
            execution_instructions: vec![
                ExecutionInstruction::NearTransaction {
                    receiver_id: account(WRAP_NEAR),
                    actions: vec![create_wrap_action(100)],
                },
                ExecutionInstruction::NearTransaction {
                    receiver_id: account(WRAP_NEAR),
                    actions: vec![Action::FunctionCall(call(FunctionCallAction {
                        method_name: "ft_transfer_call".to_string(),
                        args: serde_json::to_vec(&obj(vec![("receiver_id", val("aidols.near")), ("amount", val("100")), ("msg", val(serde_json::to_string(&obj(vec![("token", val("token.aidols.near")), ("min_swap_amount", val("79")), ("referral", val(DEFAULT_REFERRER_ID))]))
                            .unwrap()))]))
                        .unwrap(),
                        gas: 50 * TGAS,
                        deposit: 1,
                    }))],
                },
            ],
            deprecated_needs_unwrap_always_false: false,
            token_output: TokenId::Nep141(account("token.aidols.near")),
        })
    );
}

#[test]
fn aidols_custom_referrer_id_is_passed_in_swap_msg() {
    assert_eq!(
        route(
            SwapRequest {
                token_in: TokenId::Near,
                token_out: TokenId::Nep141(account("token.aidols.near")),
                amount: Amount::AmountIn(100),
                max_wait_ms: 1_000,
                slippage: Slippage::Fixed {
                    slippage: decimal("0.01"),
                },
                dexes: None,
                trader_account_id: Some(account("trader.near")),
                signing_public_key: None,
                referrer_id: Some(account("ref.near")),
            },
            &Network::new(),
            &TestAidolsQuotes::default(),
        ),
        Some(Route {
            deadline: None,
            has_slippage: true,
            estimated_amount: Amount::AmountOut(80),
            worst_case_amount: Amount::AmountOut(79),
            dex_id: DexId::Aidols,
            execution_instructions: vec![
                ExecutionInstruction::NearTransaction {
                    receiver_id: account("token.aidols.near"),
                    actions: vec![create_storage_deposit_action_for_contract(TOKEN_STORAGE, true)],
                },
                ExecutionInstruction::NearTransaction {
                    receiver_id: account(WRAP_NEAR),
                    actions: vec![create_storage_deposit_action_for_contract(TOKEN_STORAGE, true)],
                },
                ExecutionInstruction::NearTransaction {
                    receiver_id: account(WRAP_NEAR),
                    actions: vec![create_wrap_action(100)],
                },
                ExecutionInstruction::NearTransaction {
                    receiver_id: account(WRAP_NEAR),
                    actions: vec![Action::FunctionCall(call(FunctionCallAction {
                        method_name: "ft_transfer_call".to_string(),
                        args: serde_json::to_vec(&obj(vec![("receiver_id", val("aidols.near")), ("amount", val("100")), ("msg", val(serde_json::to_string(&obj(vec![("token", val("token.aidols.near")), ("min_swap_amount", val("79")), ("referral", val("ref.near"))]))
                            .unwrap()))]))
                        .unwrap(),
                        gas: 50 * TGAS,
                        deposit: 1,
                    }))],
                },
            ],
            deprecated_needs_unwrap_always_false: false,
            token_output: TokenId::Nep141(account("token.aidols.near")),
        })
    );
}
