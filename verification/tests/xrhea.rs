//! Staking RHEA, and unstaking it.

use dex_aggregator::account::AccountId;
use dex_aggregator::decimal::Decimal;
use dex_aggregator::network::Network;
use dex_aggregator::providers::xrhea::{XRheaProvider, RHEA_TOKEN as RHEA_CONTRACT, XRHEA_TOKEN as XRHEA_CONTRACT};
use dex_aggregator::shared_utils::{
    create_rhea_withdraw_action, create_storage_deposit_action_for_contract, TGAS, TOKEN_STORAGE,
};
use dex_aggregator::types::{
    Action, Amount, DexId, ExecutionInstruction, FunctionCallAction, Route, Slippage, SwapRequest, TokenId,
};
use serde_json::Value;

fn account(name: &str) -> AccountId {
    AccountId::parse(name).unwrap()
}

fn decimal(text: &str) -> Decimal {
    Decimal::parse(text).unwrap()
}

fn call(action: FunctionCallAction) -> FunctionCallAction {
    action
}

fn obj(fields: Vec<(&str, Value)>) -> Value {
    fields.into_iter().map(|(key, value)| (key.to_string(), value)).collect()
}

fn val<T: Into<Value>>(value: T) -> Value {
    value.into()
}


struct TestXRheaQuotes {
    virtual_price: Option<u128>,
}

impl TestXRheaQuotes {
    fn default() -> Self {
        Self { virtual_price: Some(100_000_000) }
    }

    fn none() -> Self {
        Self { virtual_price: None }
    }
}

fn route(request: SwapRequest, network: &Network, quotes: &TestXRheaQuotes) -> Option<Route> {
    if !XRheaProvider.needs_price(&request) {
        assert_eq!(XRheaProvider.route(&request, network, quotes.virtual_price), None);
        return None;
    }
    XRheaProvider.route(&request, network, quotes.virtual_price)
}

#[test]
fn amount_in_rhea_to_xrhea() {
    assert_eq!(
        route(
            SwapRequest {
                token_in: TokenId::Nep141(account(RHEA_CONTRACT)),
                token_out: TokenId::Nep141(account(XRHEA_CONTRACT)),
                amount: Amount::AmountIn(100),
                max_wait_ms: 1_000,
                slippage: Slippage::Fixed {
                    slippage: decimal("0.01"),
                },
                dexes: None,
                trader_account_id: Some(account("trader.near")),
                signing_public_key: None,
                referrer_id: None,
            },
            &Network::new(),
            &TestXRheaQuotes::default(),
        ),
        Some(Route {
            deadline: None,
            has_slippage: false,
            estimated_amount: Amount::AmountOut(100),
            worst_case_amount: Amount::AmountOut(100),
            dex_id: DexId::XRhea,
            execution_instructions: vec![
                ExecutionInstruction::NearTransaction {
                    receiver_id: account(XRHEA_CONTRACT),
                    actions: vec![create_storage_deposit_action_for_contract(TOKEN_STORAGE, true)],
                },
                ExecutionInstruction::NearTransaction {
                    receiver_id: account(RHEA_CONTRACT),
                    actions: vec![Action::FunctionCall(call(FunctionCallAction {
                        method_name: "ft_transfer_call".to_string(),
                        args: serde_json::to_vec(&obj(vec![("receiver_id", val(XRHEA_CONTRACT)), ("amount", val("100")), ("msg", val(serde_json::to_string(&obj(vec![("Stake", obj(vec![]))]))
                            .unwrap()))]))
                        .unwrap(),
                        gas: 50 * TGAS,
                        deposit: 1,
                    }))],
                },
            ],
            deprecated_needs_unwrap_always_false: false,
            token_output: TokenId::Nep141(account(XRHEA_CONTRACT)),
        })
    );
}

#[test]
fn amount_in_rhea_on_rhea_to_xrhea() {
    assert_eq!(
        route(
            SwapRequest {
                token_in: TokenId::Nep141OnRhea(account(RHEA_CONTRACT)),
                token_out: TokenId::Nep141(account(XRHEA_CONTRACT)),
                amount: Amount::AmountIn(100),
                max_wait_ms: 1_000,
                slippage: Slippage::Fixed {
                    slippage: decimal("0.01"),
                },
                dexes: None,
                trader_account_id: Some(account("trader.near")),
                signing_public_key: None,
                referrer_id: None,
            },
            &Network::new(),
            &TestXRheaQuotes::default(),
        ),
        Some(Route {
            deadline: None,
            has_slippage: false,
            estimated_amount: Amount::AmountOut(100),
            worst_case_amount: Amount::AmountOut(100),
            dex_id: DexId::XRhea,
            execution_instructions: vec![
                ExecutionInstruction::NearTransaction {
                    receiver_id: account(XRHEA_CONTRACT),
                    actions: vec![create_storage_deposit_action_for_contract(TOKEN_STORAGE, true)],
                },
                ExecutionInstruction::NearTransaction {
                    receiver_id: account("v2.ref-finance.near"),
                    actions: vec![create_rhea_withdraw_action(
                        &account(RHEA_CONTRACT),
                        100,
                        false,
                    )],
                },
                ExecutionInstruction::NearTransaction {
                    receiver_id: account(RHEA_CONTRACT),
                    actions: vec![Action::FunctionCall(call(FunctionCallAction {
                        method_name: "ft_transfer_call".to_string(),
                        args: serde_json::to_vec(&obj(vec![("receiver_id", val(XRHEA_CONTRACT)), ("amount", val("100")), ("msg", val(serde_json::to_string(&obj(vec![("Stake", obj(vec![]))]))
                            .unwrap()))]))
                        .unwrap(),
                        gas: 50 * TGAS,
                        deposit: 1,
                    }))],
                },
            ],
            deprecated_needs_unwrap_always_false: false,
            token_output: TokenId::Nep141(account(XRHEA_CONTRACT)),
        })
    );
}

#[test]
fn amount_in_xrhea_to_rhea() {
    assert_eq!(
        route(
            SwapRequest {
                token_in: TokenId::Nep141(account(XRHEA_CONTRACT)),
                token_out: TokenId::Nep141(account(RHEA_CONTRACT)),
                amount: Amount::AmountIn(100),
                max_wait_ms: 1_000,
                slippage: Slippage::Fixed {
                    slippage: decimal("0.01"),
                },
                dexes: None,
                trader_account_id: Some(account("trader.near")),
                signing_public_key: None,
                referrer_id: None,
            },
            &Network::new(),
            &TestXRheaQuotes::default(),
        ),
        Some(Route {
            deadline: None,
            has_slippage: false,
            estimated_amount: Amount::AmountOut(100),
            worst_case_amount: Amount::AmountOut(100),
            dex_id: DexId::XRhea,
            execution_instructions: vec![
                ExecutionInstruction::NearTransaction {
                    receiver_id: account(RHEA_CONTRACT),
                    actions: vec![create_storage_deposit_action_for_contract(TOKEN_STORAGE, true)],
                },
                ExecutionInstruction::NearTransaction {
                    receiver_id: account(XRHEA_CONTRACT),
                    actions: vec![Action::FunctionCall(call(FunctionCallAction {
                        method_name: "unstake".to_string(),
                        args: serde_json::to_vec(&obj(vec![("amount", val("100")), ("msg", val(""))]))
                        .unwrap(),
                        gas: 50 * TGAS,
                        deposit: 1,
                    }))],
                },
            ],
            deprecated_needs_unwrap_always_false: false,
            token_output: TokenId::Nep141(account(RHEA_CONTRACT)),
        })
    );
}

#[test]
fn amount_out_rhea_to_xrhea() {
    assert_eq!(
        route(
            SwapRequest {
                token_in: TokenId::Nep141(account(RHEA_CONTRACT)),
                token_out: TokenId::Nep141(account(XRHEA_CONTRACT)),
                amount: Amount::AmountOut(80),
                max_wait_ms: 1_000,
                slippage: Slippage::Fixed {
                    slippage: decimal("0.01"),
                },
                dexes: None,
                trader_account_id: Some(account("trader.near")),
                signing_public_key: None,
                referrer_id: None,
            },
            &Network::new(),
            &TestXRheaQuotes::default(),
        ),
        Some(Route {
            deadline: None,
            has_slippage: false,
            estimated_amount: Amount::AmountIn(80),
            worst_case_amount: Amount::AmountIn(80),
            dex_id: DexId::XRhea,
            execution_instructions: vec![
                ExecutionInstruction::NearTransaction {
                    receiver_id: account(XRHEA_CONTRACT),
                    actions: vec![create_storage_deposit_action_for_contract(TOKEN_STORAGE, true)],
                },
                ExecutionInstruction::NearTransaction {
                    receiver_id: account(RHEA_CONTRACT),
                    actions: vec![Action::FunctionCall(call(FunctionCallAction {
                        method_name: "ft_transfer_call".to_string(),
                        args: serde_json::to_vec(&obj(vec![("receiver_id", val(XRHEA_CONTRACT)), ("amount", val("80")), ("msg", val(serde_json::to_string(&obj(vec![("Stake", obj(vec![]))]))
                            .unwrap()))]))
                        .unwrap(),
                        gas: 50 * TGAS,
                        deposit: 1,
                    }))],
                },
            ],
            deprecated_needs_unwrap_always_false: false,
            token_output: TokenId::Nep141(account(XRHEA_CONTRACT)),
        })
    );
}

#[test]
fn amount_out_xrhea_to_rhea() {
    assert_eq!(
        route(
            SwapRequest {
                token_in: TokenId::Nep141(account(XRHEA_CONTRACT)),
                token_out: TokenId::Nep141(account(RHEA_CONTRACT)),
                amount: Amount::AmountOut(80),
                max_wait_ms: 1_000,
                slippage: Slippage::Fixed {
                    slippage: decimal("0.01"),
                },
                dexes: None,
                trader_account_id: Some(account("trader.near")),
                signing_public_key: None,
                referrer_id: None,
            },
            &Network::new(),
            &TestXRheaQuotes::default(),
        ),
        Some(Route {
            deadline: None,
            has_slippage: false,
            estimated_amount: Amount::AmountIn(80),
            worst_case_amount: Amount::AmountIn(80),
            dex_id: DexId::XRhea,
            execution_instructions: vec![
                ExecutionInstruction::NearTransaction {
                    receiver_id: account(RHEA_CONTRACT),
                    actions: vec![create_storage_deposit_action_for_contract(TOKEN_STORAGE, true)],
                },
                ExecutionInstruction::NearTransaction {
                    receiver_id: account(XRHEA_CONTRACT),
                    actions: vec![Action::FunctionCall(call(FunctionCallAction {
                        method_name: "unstake".to_string(),
                        args: serde_json::to_vec(&obj(vec![("amount", val("80")), ("msg", val(""))]))
                        .unwrap(),
                        gas: 50 * TGAS,
                        deposit: 1,
                    }))],
                },
            ],
            deprecated_needs_unwrap_always_false: false,
            token_output: TokenId::Nep141(account(RHEA_CONTRACT)),
        })
    );
}

#[test]
fn wrong_pair_returns_none() {
    assert_eq!(
        route(
            SwapRequest {
                token_in: TokenId::Near,
                token_out: TokenId::Nep141(account(XRHEA_CONTRACT)),
                amount: Amount::AmountIn(100),
                max_wait_ms: 1_000,
                slippage: Slippage::Fixed {
                    slippage: decimal("0.01"),
                },
                dexes: None,
                trader_account_id: Some(account("trader.near")),
                signing_public_key: None,
                referrer_id: None,
            },
            &Network::new(),
            &TestXRheaQuotes::default(),
        ),
        None
    );
}

#[test]
fn xrhea_missing_quote_returns_none() {
    assert_eq!(
        route(
            SwapRequest {
                token_in: TokenId::Nep141(account(RHEA_CONTRACT)),
                token_out: TokenId::Nep141(account(XRHEA_CONTRACT)),
                amount: Amount::AmountIn(100),
                max_wait_ms: 1_000,
                slippage: Slippage::Fixed {
                    slippage: decimal("0.01"),
                },
                dexes: None,
                trader_account_id: Some(account("trader.near")),
                signing_public_key: None,
                referrer_id: None,
            },
            &Network::new(),
            &TestXRheaQuotes::none(),
        ),
        None
    );
}

#[test]
fn xrhea_no_trader_omits_storage() {
    assert_eq!(
        route(
            SwapRequest {
                token_in: TokenId::Nep141(account(RHEA_CONTRACT)),
                token_out: TokenId::Nep141(account(XRHEA_CONTRACT)),
                amount: Amount::AmountIn(100),
                max_wait_ms: 1_000,
                slippage: Slippage::Fixed {
                    slippage: decimal("0.01"),
                },
                dexes: None,
                trader_account_id: None,
                signing_public_key: None,
                referrer_id: None,
            },
            &Network::new(),
            &TestXRheaQuotes::default(),
        ),
        Some(Route {
            deadline: None,
            has_slippage: false,
            estimated_amount: Amount::AmountOut(100),
            worst_case_amount: Amount::AmountOut(100),
            dex_id: DexId::XRhea,
            execution_instructions: vec![ExecutionInstruction::NearTransaction {
                receiver_id: account(RHEA_CONTRACT),
                actions: vec![Action::FunctionCall(call(FunctionCallAction {
                    method_name: "ft_transfer_call".to_string(),
                    args: serde_json::to_vec(&obj(vec![("receiver_id", val(XRHEA_CONTRACT)), ("amount", val("100")), ("msg", val(serde_json::to_string(&obj(vec![("Stake", obj(vec![]))]))
                        .unwrap()))]))
                    .unwrap(),
                    gas: 50 * TGAS,
                    deposit: 1,
                }))],
            }],
            deprecated_needs_unwrap_always_false: false,
            token_output: TokenId::Nep141(account(XRHEA_CONTRACT)),
        })
    );
}
