//! Staking into LiNEAR.

use dex_aggregator::account::AccountId;
use dex_aggregator::asset::AssetId;
use dex_aggregator::decimal::Decimal;
use dex_aggregator::network::Network;
use dex_aggregator::providers::linear::{LinearProvider, LINEAR_CONTRACT};
use dex_aggregator::shared_utils::{
    create_intear_dex_withdraw_action, create_rhea_withdraw_action, create_storage_deposit_action_for_contract,
    create_unwrap_action, TGAS, TOKEN_STORAGE, WRAP_NEAR,
};
use dex_aggregator::types::{
    Action, Amount, DexId, ExecutionInstruction, FunctionCallAction, Route, Slippage, SwapRequest, TokenId,
};
use serde_json::Value;

fn account(name: &str) -> AccountId {
    AccountId::parse(name).unwrap()
}

fn decimal(text: &str) -> Decimal {
    Decimal::parse(text).unwrap()
}

fn call(action: FunctionCallAction) -> FunctionCallAction {
    action
}

fn obj(fields: Vec<(&str, Value)>) -> Value {
    fields.into_iter().map(|(key, value)| (key.to_string(), value)).collect()
}

fn near(amount: u128) -> u128 {
    amount * 1_000_000_000_000_000_000_000_000
}


struct TestLinearQuotes {
    price: Option<u128>,
}

impl TestLinearQuotes {
    fn default() -> Self {
        Self { price: Some(near(1)) }
    }

    fn none() -> Self {
        Self { price: None }
    }
}

fn route(request: SwapRequest, network: &Network, quotes: &TestLinearQuotes) -> Option<Route> {
    if !LinearProvider.needs_price(&request) {
        assert_eq!(LinearProvider.route(&request, network, quotes.price), None);
        return None;
    }
    LinearProvider.route(&request, network, quotes.price)
}

#[test]
fn amount_in_near_to_linear() {
    assert_eq!(
        route(
            SwapRequest {
                token_in: TokenId::Near,
                token_out: TokenId::Nep141(account(LINEAR_CONTRACT)),
                amount: Amount::AmountIn(100),
                max_wait_ms: 1_000,
                slippage: Slippage::Fixed {
                    slippage: decimal("0.01"),
                },
                dexes: None,
                trader_account_id: Some(account("trader.near")),
                signing_public_key: None,
                referrer_id: None,
            },
            &Network::new(),
            &TestLinearQuotes::default(),
        ),
        Some(Route {
            deadline: None,
            has_slippage: false,
            estimated_amount: Amount::AmountOut(99),
            worst_case_amount: Amount::AmountOut(99),
            dex_id: DexId::Linear,
            execution_instructions: vec![
                ExecutionInstruction::NearTransaction {
                    receiver_id: account(LINEAR_CONTRACT),
                    actions: vec![create_storage_deposit_action_for_contract(TOKEN_STORAGE, true)],
                },
                ExecutionInstruction::NearTransaction {
                    receiver_id: account(LINEAR_CONTRACT),
                    actions: vec![Action::FunctionCall(call(FunctionCallAction {
                        method_name: "deposit_and_stake".to_string(),
                        args: serde_json::to_vec(&obj(vec![])).unwrap(),
                        gas: 10 * TGAS,
                        deposit: 100,
                    }))],
                },
            ],
            deprecated_needs_unwrap_always_false: false,
            token_output: TokenId::Nep141(account(LINEAR_CONTRACT)),
        })
    );
}

#[test]
fn amount_in_wnear_to_linear() {
    assert_eq!(
        route(
            SwapRequest {
                token_in: TokenId::Nep141(account(WRAP_NEAR)),
                token_out: TokenId::Nep141(account(LINEAR_CONTRACT)),
                amount: Amount::AmountIn(100),
                max_wait_ms: 1_000,
                slippage: Slippage::Fixed {
                    slippage: decimal("0.01"),
                },
                dexes: None,
                trader_account_id: Some(account("trader.near")),
                signing_public_key: None,
                referrer_id: None,
            },
            &Network::new(),
            &TestLinearQuotes::default(),
        ),
        Some(Route {
            deadline: None,
            has_slippage: false,
            estimated_amount: Amount::AmountOut(99),
            worst_case_amount: Amount::AmountOut(99),
            dex_id: DexId::Linear,
            execution_instructions: vec![
                ExecutionInstruction::NearTransaction {
                    receiver_id: account(WRAP_NEAR),
                    actions: vec![create_unwrap_action(100)],
                },
                ExecutionInstruction::NearTransaction {
                    receiver_id: account(LINEAR_CONTRACT),
                    actions: vec![create_storage_deposit_action_for_contract(TOKEN_STORAGE, true)],
                },
                ExecutionInstruction::NearTransaction {
                    receiver_id: account(LINEAR_CONTRACT),
                    actions: vec![Action::FunctionCall(call(FunctionCallAction {
                        method_name: "deposit_and_stake".to_string(),
                        args: serde_json::to_vec(&obj(vec![])).unwrap(),
                        gas: 10 * TGAS,
                        deposit: 100,
                    }))],
                },
            ],
            deprecated_needs_unwrap_always_false: false,
            token_output: TokenId::Nep141(account(LINEAR_CONTRACT)),
        })
    );
}

#[test]
fn amount_in_rhea_wnear_to_linear() {
    assert_eq!(
        route(
            SwapRequest {
                token_in: TokenId::Nep141OnRhea(account(WRAP_NEAR)),
                token_out: TokenId::Nep141(account(LINEAR_CONTRACT)),
                amount: Amount::AmountIn(100),
                max_wait_ms: 1_000,
                slippage: Slippage::Fixed {
                    slippage: decimal("0.01"),
                },
                dexes: None,
                trader_account_id: Some(account("trader.near")),
                signing_public_key: None,
                referrer_id: None,
            },
            &Network::new(),
            &TestLinearQuotes::default(),
        ),
        Some(Route {
            deadline: None,
            has_slippage: false,
            estimated_amount: Amount::AmountOut(99),
            worst_case_amount: Amount::AmountOut(99),
            dex_id: DexId::Linear,
            execution_instructions: vec![
                ExecutionInstruction::NearTransaction {
                    receiver_id: account("v2.ref-finance.near"),
                    actions: vec![create_rhea_withdraw_action(
                        &account(WRAP_NEAR),
                        100,
                        true,
                    )],
                },
                ExecutionInstruction::NearTransaction {
                    receiver_id: account(LINEAR_CONTRACT),
                    actions: vec![create_storage_deposit_action_for_contract(TOKEN_STORAGE, true)],
                },
                ExecutionInstruction::NearTransaction {
                    receiver_id: account(LINEAR_CONTRACT),
                    actions: vec![Action::FunctionCall(call(FunctionCallAction {
                        method_name: "deposit_and_stake".to_string(),
                        args: serde_json::to_vec(&obj(vec![])).unwrap(),
                        gas: 10 * TGAS,
                        deposit: 100,
                    }))],
                },
            ],
            deprecated_needs_unwrap_always_false: false,
            token_output: TokenId::Nep141(account(LINEAR_CONTRACT)),
        })
    );
}

#[test]
fn amount_in_intear_near_to_linear() {
    assert_eq!(
        route(
            SwapRequest {
                token_in: TokenId::TokenOnIntearDex(AssetId::Near),
                token_out: TokenId::Nep141(account(LINEAR_CONTRACT)),
                amount: Amount::AmountIn(100),
                max_wait_ms: 1_000,
                slippage: Slippage::Fixed {
                    slippage: decimal("0.01"),
                },
                dexes: None,
                trader_account_id: Some(account("trader.near")),
                signing_public_key: None,
                referrer_id: None,
            },
            &Network::new(),
            &TestLinearQuotes::default(),
        ),
        Some(Route {
            deadline: None,
            has_slippage: false,
            estimated_amount: Amount::AmountOut(99),
            worst_case_amount: Amount::AmountOut(99),
            dex_id: DexId::Linear,
            execution_instructions: vec![
                ExecutionInstruction::NearTransaction {
                    receiver_id: account("dex.intear.near"),
                    actions: vec![create_intear_dex_withdraw_action(&AssetId::Near, 100)],
                },
                ExecutionInstruction::NearTransaction {
                    receiver_id: account(LINEAR_CONTRACT),
                    actions: vec![create_storage_deposit_action_for_contract(TOKEN_STORAGE, true)],
                },
                ExecutionInstruction::NearTransaction {
                    receiver_id: account(LINEAR_CONTRACT),
                    actions: vec![Action::FunctionCall(call(FunctionCallAction {
                        method_name: "deposit_and_stake".to_string(),
                        args: serde_json::to_vec(&obj(vec![])).unwrap(),
                        gas: 10 * TGAS,
                        deposit: 100,
                    }))],
                },
            ],
            deprecated_needs_unwrap_always_false: false,
            token_output: TokenId::Nep141(account(LINEAR_CONTRACT)),
        })
    );
}

#[test]
fn amount_out_near_to_linear() {
    assert_eq!(
        route(
            SwapRequest {
                token_in: TokenId::Near,
                token_out: TokenId::Nep141(account(LINEAR_CONTRACT)),
                amount: Amount::AmountOut(80),
                max_wait_ms: 1_000,
                slippage: Slippage::Fixed {
                    slippage: decimal("0.01"),
                },
                dexes: None,
                trader_account_id: Some(account("trader.near")),
                signing_public_key: None,
                referrer_id: None,
            },
            &Network::new(),
            &TestLinearQuotes::default(),
        ),
        Some(Route {
            deadline: None,
            has_slippage: false,
            estimated_amount: Amount::AmountIn(80),
            worst_case_amount: Amount::AmountIn(80),
            dex_id: DexId::Linear,
            execution_instructions: vec![
                ExecutionInstruction::NearTransaction {
                    receiver_id: account(LINEAR_CONTRACT),
                    actions: vec![create_storage_deposit_action_for_contract(TOKEN_STORAGE, true)],
                },
                ExecutionInstruction::NearTransaction {
                    receiver_id: account(LINEAR_CONTRACT),
                    actions: vec![Action::FunctionCall(call(FunctionCallAction {
                        method_name: "deposit_and_stake".to_string(),
                        args: serde_json::to_vec(&obj(vec![])).unwrap(),
                        gas: 10 * TGAS,
                        deposit: 80,
                    }))],
                },
            ],
            deprecated_needs_unwrap_always_false: false,
            token_output: TokenId::Nep141(account(LINEAR_CONTRACT)),
        })
    );
}

#[test]
fn wrong_output_token_returns_none() {
    assert_eq!(
        route(
            SwapRequest {
                token_in: TokenId::Near,
                token_out: TokenId::Nep141(account("ft")),
                amount: Amount::AmountIn(100),
                max_wait_ms: 1_000,
                slippage: Slippage::Fixed {
                    slippage: decimal("0.01"),
                },
                dexes: None,
                trader_account_id: Some(account("trader.near")),
                signing_public_key: None,
                referrer_id: None,
            },
            &Network::new(),
            &TestLinearQuotes::default(),
        ),
        None
    );
}

#[test]
fn non_near_input_returns_none() {
    assert_eq!(
        route(
            SwapRequest {
                token_in: TokenId::Nep141(account(LINEAR_CONTRACT)),
                token_out: TokenId::Near,
                amount: Amount::AmountIn(100),
                max_wait_ms: 1_000,
                slippage: Slippage::Fixed {
                    slippage: decimal("0.01"),
                },
                dexes: None,
                trader_account_id: Some(account("trader.near")),
                signing_public_key: None,
                referrer_id: None,
            },
            &Network::new(),
            &TestLinearQuotes::default(),
        ),
        None
    );
}

#[test]
fn linear_missing_quote_returns_none() {
    assert_eq!(
        route(
            SwapRequest {
                token_in: TokenId::Near,
                token_out: TokenId::Nep141(account(LINEAR_CONTRACT)),
                amount: Amount::AmountIn(100),
                max_wait_ms: 1_000,
                slippage: Slippage::Fixed {
                    slippage: decimal("0.01"),
                },
                dexes: None,
                trader_account_id: Some(account("trader.near")),
                signing_public_key: None,
                referrer_id: None,
            },
            &Network::new(),
            &TestLinearQuotes::none(),
        ),
        None
    );
}

#[test]
fn linear_no_trader_omits_storage() {
    assert_eq!(
        route(
            SwapRequest {
                token_in: TokenId::Near,
                token_out: TokenId::Nep141(account(LINEAR_CONTRACT)),
                amount: Amount::AmountIn(100),
                max_wait_ms: 1_000,
                slippage: Slippage::Fixed {
                    slippage: decimal("0.01"),
                },
                dexes: None,
                trader_account_id: None,
                signing_public_key: None,
                referrer_id: None,
            },
            &Network::new(),
            &TestLinearQuotes::default(),
        ),
        Some(Route {
            deadline: None,
            has_slippage: false,
            estimated_amount: Amount::AmountOut(99),
            worst_case_amount: Amount::AmountOut(99),
            dex_id: DexId::Linear,
            execution_instructions: vec![ExecutionInstruction::NearTransaction {
                receiver_id: account(LINEAR_CONTRACT),
                actions: vec![Action::FunctionCall(call(FunctionCallAction {
                    method_name: "deposit_and_stake".to_string(),
                    args: serde_json::to_vec(&obj(vec![])).unwrap(),
                    gas: 10 * TGAS,
                    deposit: 100,
                }))],
            }],
            deprecated_needs_unwrap_always_false: false,
            token_output: TokenId::Nep141(account(LINEAR_CONTRACT)),
        })
    );
}
