//! Routes through the pools of concentrated liquidity.

use dex_aggregator::account::AccountId;
use dex_aggregator::asset::AssetId;
use dex_aggregator::decimal::Decimal;
use dex_aggregator::network::Network;
use dex_aggregator::providers::rhea_dcl::{RheaDclProvider, RHEA_DCL_CONTRACT_ID};
use dex_aggregator::shared_utils::{
    create_intear_dex_withdraw_action, create_rhea_withdraw_action, create_storage_deposit_action_for_contract,
    create_wrap_action, TGAS, TOKEN_STORAGE, WRAP_NEAR,
};
use dex_aggregator::slippage::Market;
use dex_aggregator::types::{
    Action, Amount, DexId, ExecutionInstruction, FunctionCallAction, Route, Slippage, SwapRequest, TokenId,
};
use serde_json::Value;

fn account(name: &str) -> AccountId {
    AccountId::parse(name).unwrap()
}

fn decimal(text: &str) -> Decimal {
    Decimal::parse(text).unwrap()
}

fn call(action: FunctionCallAction) -> FunctionCallAction {
    action
}

fn obj(fields: Vec<(&str, Value)>) -> Value {
    fields.into_iter().map(|(key, value)| (key.to_string(), value)).collect()
}

fn list(items: Vec<Value>) -> Value {
    Value::Array(items)
}

fn val<T: Into<Value>>(value: T) -> Value {
    value.into()
}

fn millinear(amount: u128) -> u128 {
    amount * 1_000_000_000_000_000_000_000
}

fn with_native_balance(name: &str, balance: u128) -> Network {
    let mut network = Network::new();
    network.native_balances.insert(account(name), balance);
    network
}

fn market() -> Market {
    Market { tokens: None, height: None }
}


struct TestRheaDclQuotes {
    enabled: bool,
    zero_quotes: bool,
}

impl TestRheaDclQuotes {
    fn default() -> Self {
        Self { enabled: true, zero_quotes: false }
    }

    fn none() -> Self {
        Self { enabled: false, zero_quotes: false }
    }

    fn zero_quotes() -> Self {
        Self { enabled: true, zero_quotes: true }
    }

    fn quote(&self, pool_id: &str, preferred: u128, other: u128) -> Option<u128> {
        if !self.enabled {
            return None;
        }
        if self.zero_quotes {
            return Some(0);
        }
        Some(if pool_id.ends_with("|2000") { preferred } else { other })
    }
}

fn route(request: SwapRequest, network: &Network, quotes: &TestRheaDclQuotes) -> Option<Route> {
    let query = RheaDclProvider.query(&request)?;
    let answers = query
        .pool_ids
        .iter()
        .map(|pool_id| match request.amount {
            Amount::AmountIn(_) => quotes.quote(pool_id, 80, 70),
            Amount::AmountOut(_) => quotes.quote(pool_id, 100, 110),
        })
        .collect();
    RheaDclProvider.route(&request, network, &market(), &answers)
}

#[test]
fn rhea_dcl_amount_in_near_to_ft() {
    assert_eq!(
        route(
            SwapRequest {
                token_in: TokenId::Near,
                token_out: TokenId::Nep141(account("ft")),
                amount: Amount::AmountIn(100),
                max_wait_ms: 1_000,
                slippage: Slippage::Fixed {
                    slippage: decimal("0.01"),
                },
                dexes: None,
                trader_account_id: Some(account("trader.near")),
                signing_public_key: None,
                referrer_id: None,
            },
            &Network::new(),
            &TestRheaDclQuotes::default(),
        ),
        Some(Route {
            deadline: None,
            has_slippage: true,
            estimated_amount: Amount::AmountOut(80),
            worst_case_amount: Amount::AmountOut(79),
            dex_id: DexId::RheaDcl,
            execution_instructions: vec![
                ExecutionInstruction::NearTransaction {
                    receiver_id: account(RHEA_DCL_CONTRACT_ID),
                    actions: vec![create_storage_deposit_action_for_contract(millinear(500), true)],
                },
                ExecutionInstruction::NearTransaction {
                    receiver_id: account("ft"),
                    actions: vec![create_storage_deposit_action_for_contract(TOKEN_STORAGE, true)],
                },
                ExecutionInstruction::NearTransaction {
                    receiver_id: account(WRAP_NEAR),
                    actions: vec![create_storage_deposit_action_for_contract(TOKEN_STORAGE, true)],
                },
                ExecutionInstruction::NearTransaction {
                    receiver_id: account(WRAP_NEAR),
                    actions: vec![create_wrap_action(100)],
                },
                ExecutionInstruction::NearTransaction {
                    receiver_id: account(WRAP_NEAR),
                    actions: vec![Action::FunctionCall(call(FunctionCallAction {
                        method_name: "ft_transfer_call".to_string(),
                        args: serde_json::to_vec(&obj(vec![("receiver_id", val(RHEA_DCL_CONTRACT_ID)), ("amount", val("100")), ("msg", val(serde_json::to_string(&obj(vec![("Swap", obj(vec![("pool_ids", val(vec!["ft|wrap.near|2000"])), ("output_token", val("ft")), ("min_output_amount", val("79")), ("skip_unwrap_near", val(true))]))]))
                            .unwrap()))]))
                        .unwrap(),
                        gas: 100 * TGAS,
                        deposit: 1,
                    }))],
                },
            ],
            deprecated_needs_unwrap_always_false: false,
            token_output: TokenId::Nep141(account("ft")),
        })
    );
}

#[test]
fn rhea_dcl_amount_in_wnear_to_ft() {
    assert_eq!(
        route(
            SwapRequest {
                token_in: TokenId::Nep141(account(WRAP_NEAR)),
                token_out: TokenId::Nep141(account("ft")),
                amount: Amount::AmountIn(100),
                max_wait_ms: 1_000,
                slippage: Slippage::Fixed {
                    slippage: decimal("0.01"),
                },
                dexes: None,
                trader_account_id: Some(account("trader.near")),
                signing_public_key: None,
                referrer_id: None,
            },
            &Network::new(),
            &TestRheaDclQuotes::default(),
        ),
        Some(Route {
            deadline: None,
            has_slippage: true,
            estimated_amount: Amount::AmountOut(80),
            worst_case_amount: Amount::AmountOut(79),
            dex_id: DexId::RheaDcl,
            execution_instructions: vec![
                ExecutionInstruction::NearTransaction {
                    receiver_id: account(RHEA_DCL_CONTRACT_ID),
                    actions: vec![create_storage_deposit_action_for_contract(millinear(500), true)],
                },
                ExecutionInstruction::NearTransaction {
                    receiver_id: account("ft"),
                    actions: vec![create_storage_deposit_action_for_contract(TOKEN_STORAGE, true)],
                },
                ExecutionInstruction::NearTransaction {
                    receiver_id: account(WRAP_NEAR),
                    actions: vec![create_storage_deposit_action_for_contract(TOKEN_STORAGE, true)],
                },
                ExecutionInstruction::NearTransaction {
                    receiver_id: account(WRAP_NEAR),
                    actions: vec![Action::FunctionCall(call(FunctionCallAction {
                        method_name: "ft_transfer_call".to_string(),
                        args: serde_json::to_vec(&obj(vec![("receiver_id", val(RHEA_DCL_CONTRACT_ID)), ("amount", val("100")), ("msg", val(serde_json::to_string(&obj(vec![("Swap", obj(vec![("pool_ids", val(vec!["ft|wrap.near|2000"])), ("output_token", val("ft")), ("min_output_amount", val("79")), ("skip_unwrap_near", val(true))]))]))
                            .unwrap()))]))
                        .unwrap(),
                        gas: 100 * TGAS,
                        deposit: 1,
                    }))],
                },
            ],
            deprecated_needs_unwrap_always_false: false,
            token_output: TokenId::Nep141(account("ft")),
        })
    );
}

#[test]
fn rhea_dcl_amount_in_rhea_wnear_to_ft() {
    assert_eq!(
        route(
            SwapRequest {
                token_in: TokenId::Nep141OnRhea(account(WRAP_NEAR)),
                token_out: TokenId::Nep141(account("ft")),
                amount: Amount::AmountIn(100),
                max_wait_ms: 1_000,
                slippage: Slippage::Fixed {
                    slippage: decimal("0.01"),
                },
                dexes: None,
                trader_account_id: Some(account("trader.near")),
                signing_public_key: None,
                referrer_id: None,
            },
            &Network::new(),
            &TestRheaDclQuotes::default(),
        ),
        Some(Route {
            deadline: None,
            has_slippage: true,
            estimated_amount: Amount::AmountOut(80),
            worst_case_amount: Amount::AmountOut(79),
            dex_id: DexId::RheaDcl,
            execution_instructions: vec![
                ExecutionInstruction::NearTransaction {
                    receiver_id: account(RHEA_DCL_CONTRACT_ID),
                    actions: vec![create_storage_deposit_action_for_contract(millinear(500), true)],
                },
                ExecutionInstruction::NearTransaction {
                    receiver_id: account("ft"),
                    actions: vec![create_storage_deposit_action_for_contract(TOKEN_STORAGE, true)],
                },
                ExecutionInstruction::NearTransaction {
                    receiver_id: account(WRAP_NEAR),
                    actions: vec![create_storage_deposit_action_for_contract(TOKEN_STORAGE, true)],
                },
                ExecutionInstruction::NearTransaction {
                    receiver_id: account("v2.ref-finance.near"),
                    actions: vec![create_rhea_withdraw_action(
                        &account(WRAP_NEAR),
                        100,
                        false,
                    )],
                },
                ExecutionInstruction::NearTransaction {
                    receiver_id: account(WRAP_NEAR),
                    actions: vec![Action::FunctionCall(call(FunctionCallAction {
                        method_name: "ft_transfer_call".to_string(),
                        args: serde_json::to_vec(&obj(vec![("receiver_id", val(RHEA_DCL_CONTRACT_ID)), ("amount", val("100")), ("msg", val(serde_json::to_string(&obj(vec![("Swap", obj(vec![("pool_ids", val(vec!["ft|wrap.near|2000"])), ("output_token", val("ft")), ("min_output_amount", val("79")), ("skip_unwrap_near", val(true))]))]))
                            .unwrap()))]))
                        .unwrap(),
                        gas: 100 * TGAS,
                        deposit: 1,
                    }))],
                },
            ],
            deprecated_needs_unwrap_always_false: false,
            token_output: TokenId::Nep141(account("ft")),
        })
    );
}

#[test]
fn rhea_dcl_amount_in_intear_near_to_ft() {
    assert_eq!(
        route(
            SwapRequest {
                token_in: TokenId::TokenOnIntearDex(AssetId::Near),
                token_out: TokenId::Nep141(account("ft")),
                amount: Amount::AmountIn(100),
                max_wait_ms: 1_000,
                slippage: Slippage::Fixed {
                    slippage: decimal("0.01"),
                },
                dexes: None,
                trader_account_id: Some(account("trader.near")),
                signing_public_key: None,
                referrer_id: None,
            },
            &Network::new(),
            &TestRheaDclQuotes::default(),
        ),
        Some(Route {
            deadline: None,
            has_slippage: true,
            estimated_amount: Amount::AmountOut(80),
            worst_case_amount: Amount::AmountOut(79),
            dex_id: DexId::RheaDcl,
            execution_instructions: vec![
                ExecutionInstruction::NearTransaction {
                    receiver_id: account(RHEA_DCL_CONTRACT_ID),
                    actions: vec![create_storage_deposit_action_for_contract(millinear(500), true)],
                },
                ExecutionInstruction::NearTransaction {
                    receiver_id: account("ft"),
                    actions: vec![create_storage_deposit_action_for_contract(TOKEN_STORAGE, true)],
                },
                ExecutionInstruction::NearTransaction {
                    receiver_id: account(WRAP_NEAR),
                    actions: vec![create_storage_deposit_action_for_contract(TOKEN_STORAGE, true)],
                },
                ExecutionInstruction::NearTransaction {
                    receiver_id: account("dex.intear.near"),
                    actions: vec![create_intear_dex_withdraw_action(&AssetId::Near, 100)],
                },
                ExecutionInstruction::NearTransaction {
                    receiver_id: account(WRAP_NEAR),
                    actions: vec![create_wrap_action(100)],
                },
                ExecutionInstruction::NearTransaction {
                    receiver_id: account(WRAP_NEAR),
                    actions: vec![Action::FunctionCall(call(FunctionCallAction {
                        method_name: "ft_transfer_call".to_string(),
                        args: serde_json::to_vec(&obj(vec![("receiver_id", val(RHEA_DCL_CONTRACT_ID)), ("amount", val("100")), ("msg", val(serde_json::to_string(&obj(vec![("Swap", obj(vec![("pool_ids", val(vec!["ft|wrap.near|2000"])), ("output_token", val("ft")), ("min_output_amount", val("79")), ("skip_unwrap_near", val(true))]))]))
                            .unwrap()))]))
                        .unwrap(),
                        gas: 100 * TGAS,
                        deposit: 1,
                    }))],
                },
            ],
            deprecated_needs_unwrap_always_false: false,
            token_output: TokenId::Nep141(account("ft")),
        })
    );
}

#[test]
fn amount_in_rhea_to_rhea() {
    assert_eq!(
        route(
            SwapRequest {
                token_in: TokenId::Nep141OnRhea(account("ft")),
                token_out: TokenId::Nep141OnRhea(account("other")),
                amount: Amount::AmountIn(100),
                max_wait_ms: 1_000,
                slippage: Slippage::Fixed {
                    slippage: decimal("0.01"),
                },
                dexes: None,
                trader_account_id: Some(account("trader.near")),
                signing_public_key: None,
                referrer_id: None,
            },
            &Network::new(),
            &TestRheaDclQuotes::default(),
        ),
        Some(Route {
            deadline: None,
            has_slippage: true,
            estimated_amount: Amount::AmountOut(80),
            worst_case_amount: Amount::AmountOut(79),
            dex_id: DexId::RheaDcl,
            execution_instructions: vec![
                ExecutionInstruction::NearTransaction {
                    receiver_id: account(RHEA_DCL_CONTRACT_ID),
                    actions: vec![create_storage_deposit_action_for_contract(millinear(500), true)],
                },
                ExecutionInstruction::NearTransaction {
                    receiver_id: account("v2.ref-finance.near"),
                    actions: vec![
                        create_storage_deposit_action_for_contract(millinear(10), false),
                        Action::FunctionCall(call(FunctionCallAction {
                            method_name: "register_tokens".to_string(),
                            args: serde_json::to_vec(&obj(vec![("token_ids", list(vec![val("other")]))]))
                            .unwrap(),
                            gas: 10 * TGAS,
                            deposit: 1,
                        })),
                    ],
                },
                ExecutionInstruction::NearTransaction {
                    receiver_id: account("ft"),
                    actions: vec![create_storage_deposit_action_for_contract(TOKEN_STORAGE, true)],
                },
                ExecutionInstruction::NearTransaction {
                    receiver_id: account("v2.ref-finance.near"),
                    actions: vec![create_rhea_withdraw_action(
                        &account("ft"),
                        100,
                        false,
                    )],
                },
                ExecutionInstruction::NearTransaction {
                    receiver_id: account("ft"),
                    actions: vec![Action::FunctionCall(call(FunctionCallAction {
                        method_name: "ft_transfer_call".to_string(),
                        args: serde_json::to_vec(&obj(vec![("receiver_id", val(RHEA_DCL_CONTRACT_ID)), ("amount", val("100")), ("msg", val(serde_json::to_string(&obj(vec![("Swap", obj(vec![("pool_ids", val(vec!["ft|other|2000"])), ("output_token", val("other")), ("min_output_amount", val("79")), ("skip_unwrap_near", val(true))]))]))
                            .unwrap()))]))
                        .unwrap(),
                        gas: 100 * TGAS,
                        deposit: 1,
                    }))],
                },
            ],
            deprecated_needs_unwrap_always_false: false,
            token_output: TokenId::Nep141(account("other")),
        })
    );
}

#[test]
fn rhea_dcl_amount_in_ft_to_near() {
    assert_eq!(
        route(
            SwapRequest {
                token_in: TokenId::Nep141(account("ft")),
                token_out: TokenId::Near,
                amount: Amount::AmountIn(100),
                max_wait_ms: 1_000,
                slippage: Slippage::Fixed {
                    slippage: decimal("0.01"),
                },
                dexes: None,
                trader_account_id: Some(account("trader.near")),
                signing_public_key: None,
                referrer_id: None,
            },
            &Network::new(),
            &TestRheaDclQuotes::default(),
        ),
        Some(Route {
            deadline: None,
            has_slippage: true,
            estimated_amount: Amount::AmountOut(80),
            worst_case_amount: Amount::AmountOut(79),
            dex_id: DexId::RheaDcl,
            execution_instructions: vec![
                ExecutionInstruction::NearTransaction {
                    receiver_id: account(RHEA_DCL_CONTRACT_ID),
                    actions: vec![create_storage_deposit_action_for_contract(millinear(500), true)],
                },
                ExecutionInstruction::NearTransaction {
                    receiver_id: account("ft"),
                    actions: vec![create_storage_deposit_action_for_contract(TOKEN_STORAGE, true)],
                },
                ExecutionInstruction::NearTransaction {
                    receiver_id: account("ft"),
                    actions: vec![Action::FunctionCall(call(FunctionCallAction {
                        method_name: "ft_transfer_call".to_string(),
                        args: serde_json::to_vec(&obj(vec![("receiver_id", val(RHEA_DCL_CONTRACT_ID)), ("amount", val("100")), ("msg", val(serde_json::to_string(&obj(vec![("Swap", obj(vec![("pool_ids", val(vec!["ft|wrap.near|2000"])), ("output_token", val(WRAP_NEAR)), ("min_output_amount", val("79")), ("skip_unwrap_near", val(false))]))]))
                            .unwrap()))]))
                        .unwrap(),
                        gas: 100 * TGAS,
                        deposit: 1,
                    }))],
                },
            ],
            deprecated_needs_unwrap_always_false: false,
            token_output: TokenId::Near,
        })
    );
}

#[test]
fn rhea_dcl_amount_in_rhea_ft_to_near() {
    assert_eq!(
        route(
            SwapRequest {
                token_in: TokenId::Nep141OnRhea(account("ft")),
                token_out: TokenId::Near,
                amount: Amount::AmountIn(100),
                max_wait_ms: 1_000,
                slippage: Slippage::Fixed {
                    slippage: decimal("0.01"),
                },
                dexes: None,
                trader_account_id: Some(account("trader.near")),
                signing_public_key: None,
                referrer_id: None,
            },
            &Network::new(),
            &TestRheaDclQuotes::default(),
        ),
        Some(Route {
            deadline: None,
            has_slippage: true,
            estimated_amount: Amount::AmountOut(80),
            worst_case_amount: Amount::AmountOut(79),
            dex_id: DexId::RheaDcl,
            execution_instructions: vec![
                ExecutionInstruction::NearTransaction {
                    receiver_id: account(RHEA_DCL_CONTRACT_ID),
                    actions: vec![create_storage_deposit_action_for_contract(millinear(500), true)],
                },
                ExecutionInstruction::NearTransaction {
                    receiver_id: account("ft"),
                    actions: vec![create_storage_deposit_action_for_contract(TOKEN_STORAGE, true)],
                },
                ExecutionInstruction::NearTransaction {
                    receiver_id: account("v2.ref-finance.near"),
                    actions: vec![create_rhea_withdraw_action(
                        &account("ft"),
                        100,
                        false,
                    )],
                },
                ExecutionInstruction::NearTransaction {
                    receiver_id: account("ft"),
                    actions: vec![Action::FunctionCall(call(FunctionCallAction {
                        method_name: "ft_transfer_call".to_string(),
                        args: serde_json::to_vec(&obj(vec![("receiver_id", val(RHEA_DCL_CONTRACT_ID)), ("amount", val("100")), ("msg", val(serde_json::to_string(&obj(vec![("Swap", obj(vec![("pool_ids", val(vec!["ft|wrap.near|2000"])), ("output_token", val(WRAP_NEAR)), ("min_output_amount", val("79")), ("skip_unwrap_near", val(false))]))]))
                            .unwrap()))]))
                        .unwrap(),
                        gas: 100 * TGAS,
                        deposit: 1,
                    }))],
                },
            ],
            deprecated_needs_unwrap_always_false: false,
            token_output: TokenId::Near,
        })
    );
}

#[test]
fn amount_in_ft_to_rhea_ft() {
    assert_eq!(
        route(
            SwapRequest {
                token_in: TokenId::Nep141(account("ft")),
                token_out: TokenId::Nep141OnRhea(account("other")),
                amount: Amount::AmountIn(100),
                max_wait_ms: 1_000,
                slippage: Slippage::Fixed {
                    slippage: decimal("0.01"),
                },
                dexes: None,
                trader_account_id: Some(account("trader.near")),
                signing_public_key: None,
                referrer_id: None,
            },
            &Network::new(),
            &TestRheaDclQuotes::default(),
        ),
        Some(Route {
            deadline: None,
            has_slippage: true,
            estimated_amount: Amount::AmountOut(80),
            worst_case_amount: Amount::AmountOut(79),
            dex_id: DexId::RheaDcl,
            execution_instructions: vec![
                ExecutionInstruction::NearTransaction {
                    receiver_id: account(RHEA_DCL_CONTRACT_ID),
                    actions: vec![create_storage_deposit_action_for_contract(millinear(500), true)],
                },
                ExecutionInstruction::NearTransaction {
                    receiver_id: account("v2.ref-finance.near"),
                    actions: vec![
                        create_storage_deposit_action_for_contract(millinear(10), false),
                        Action::FunctionCall(call(FunctionCallAction {
                            method_name: "register_tokens".to_string(),
                            args: serde_json::to_vec(&obj(vec![("token_ids", list(vec![val("other")]))]))
                            .unwrap(),
                            gas: 10 * TGAS,
                            deposit: 1,
                        })),
                    ],
                },
                ExecutionInstruction::NearTransaction {
                    receiver_id: account("ft"),
                    actions: vec![create_storage_deposit_action_for_contract(TOKEN_STORAGE, true)],
                },
                ExecutionInstruction::NearTransaction {
                    receiver_id: account("ft"),
                    actions: vec![Action::FunctionCall(call(FunctionCallAction {
                        method_name: "ft_transfer_call".to_string(),
                        args: serde_json::to_vec(&obj(vec![("receiver_id", val(RHEA_DCL_CONTRACT_ID)), ("amount", val("100")), ("msg", val(serde_json::to_string(&obj(vec![("Swap", obj(vec![("pool_ids", val(vec!["ft|other|2000"])), ("output_token", val("other")), ("min_output_amount", val("79")), ("skip_unwrap_near", val(true))]))]))
                            .unwrap()))]))
                        .unwrap(),
                        gas: 100 * TGAS,
                        deposit: 1,
                    }))],
                },
            ],
            deprecated_needs_unwrap_always_false: false,
            token_output: TokenId::Nep141(account("other")),
        })
    );
}

#[test]
fn rhea_dcl_amount_out_near_to_ft() {
    assert_eq!(
        route(
            SwapRequest {
                token_in: TokenId::Near,
                token_out: TokenId::Nep141(account("ft")),
                amount: Amount::AmountOut(80),
                max_wait_ms: 1_000,
                slippage: Slippage::Fixed {
                    slippage: decimal("0.01"),
                },
                dexes: None,
                trader_account_id: Some(account("trader.near")),
                signing_public_key: None,
                referrer_id: None,
            },
            &Network::new(),
            &TestRheaDclQuotes::default(),
        ),
        Some(Route {
            deadline: None,
            has_slippage: true,
            estimated_amount: Amount::AmountIn(100),
            worst_case_amount: Amount::AmountIn(101),
            dex_id: DexId::RheaDcl,
            execution_instructions: vec![
                ExecutionInstruction::NearTransaction {
                    receiver_id: account(RHEA_DCL_CONTRACT_ID),
                    actions: vec![create_storage_deposit_action_for_contract(millinear(500), true)],
                },
                ExecutionInstruction::NearTransaction {
                    receiver_id: account("ft"),
                    actions: vec![create_storage_deposit_action_for_contract(TOKEN_STORAGE, true)],
                },
                ExecutionInstruction::NearTransaction {
                    receiver_id: account(WRAP_NEAR),
                    actions: vec![create_storage_deposit_action_for_contract(TOKEN_STORAGE, true)],
                },
                ExecutionInstruction::NearTransaction {
                    receiver_id: account(WRAP_NEAR),
                    actions: vec![create_wrap_action(101)],
                },
                ExecutionInstruction::NearTransaction {
                    receiver_id: account(WRAP_NEAR),
                    actions: vec![Action::FunctionCall(call(FunctionCallAction {
                        method_name: "ft_transfer_call".to_string(),
                        args: serde_json::to_vec(&obj(vec![("receiver_id", val(RHEA_DCL_CONTRACT_ID)), ("amount", val("101")), ("msg", val(serde_json::to_string(&obj(vec![("SwapByOutput", obj(vec![("pool_ids", val(vec!["ft|wrap.near|2000"])), ("output_token", val("ft")), ("output_amount", val("80")), ("skip_unwrap_near", val(true))]))]))
                            .unwrap()))]))
                        .unwrap(),
                        gas: 100 * TGAS,
                        deposit: 1,
                    }))],
                },
            ],
            deprecated_needs_unwrap_always_false: false,
            token_output: TokenId::Nep141(account("ft")),
        })
    );
}

#[test]
fn amount_out_ft_to_near() {
    assert_eq!(
        route(
            SwapRequest {
                token_in: TokenId::Nep141(account("ft")),
                token_out: TokenId::Near,
                amount: Amount::AmountOut(80),
                max_wait_ms: 1_000,
                slippage: Slippage::Fixed {
                    slippage: decimal("0.01"),
                },
                dexes: None,
                trader_account_id: Some(account("trader.near")),
                signing_public_key: None,
                referrer_id: None,
            },
            &Network::new(),
            &TestRheaDclQuotes::default(),
        ),
        Some(Route {
            deadline: None,
            has_slippage: true,
            estimated_amount: Amount::AmountIn(100),
            worst_case_amount: Amount::AmountIn(101),
            dex_id: DexId::RheaDcl,
            execution_instructions: vec![
                ExecutionInstruction::NearTransaction {
                    receiver_id: account(RHEA_DCL_CONTRACT_ID),
                    actions: vec![create_storage_deposit_action_for_contract(millinear(500), true)],
                },
                ExecutionInstruction::NearTransaction {
                    receiver_id: account("ft"),
                    actions: vec![create_storage_deposit_action_for_contract(TOKEN_STORAGE, true)],
                },
                ExecutionInstruction::NearTransaction {
                    receiver_id: account("ft"),
                    actions: vec![Action::FunctionCall(call(FunctionCallAction {
                        method_name: "ft_transfer_call".to_string(),
                        args: serde_json::to_vec(&obj(vec![("receiver_id", val(RHEA_DCL_CONTRACT_ID)), ("amount", val("101")), ("msg", val(serde_json::to_string(&obj(vec![("SwapByOutput", obj(vec![("pool_ids", val(vec!["ft|wrap.near|2000"])), ("output_token", val(WRAP_NEAR)), ("output_amount", val("80")), ("skip_unwrap_near", val(false))]))]))
                            .unwrap()))]))
                        .unwrap(),
                        gas: 100 * TGAS,
                        deposit: 1,
                    }))],
                },
            ],
            deprecated_needs_unwrap_always_false: false,
            token_output: TokenId::Near,
        })
    );
}

#[test]
fn rhea_dcl_same_near_family_returns_none() {
    assert_eq!(
        route(
            SwapRequest {
                token_in: TokenId::Near,
                token_out: TokenId::Nep141(account(WRAP_NEAR)),
                amount: Amount::AmountIn(100),
                max_wait_ms: 1_000,
                slippage: Slippage::Fixed {
                    slippage: decimal("0.01"),
                },
                dexes: None,
                trader_account_id: Some(account("trader.near")),
                signing_public_key: None,
                referrer_id: None,
            },
            &Network::new(),
            &TestRheaDclQuotes::default(),
        ),
        None
    );
}

#[test]
fn rhea_dcl_missing_quote_returns_none() {
    assert_eq!(
        route(
            SwapRequest {
                token_in: TokenId::Near,
                token_out: TokenId::Nep141(account("ft")),
                amount: Amount::AmountIn(100),
                max_wait_ms: 1_000,
                slippage: Slippage::Fixed {
                    slippage: decimal("0.01"),
                },
                dexes: None,
                trader_account_id: Some(account("trader.near")),
                signing_public_key: None,
                referrer_id: None,
            },
            &Network::new(),
            &TestRheaDclQuotes::none(),
        ),
        None
    );
}

#[test]
fn zero_quotes_returns_none() {
    assert_eq!(
        route(
            SwapRequest {
                token_in: TokenId::Near,
                token_out: TokenId::Nep141(account("ft")),
                amount: Amount::AmountIn(100),
                max_wait_ms: 1_000,
                slippage: Slippage::Fixed {
                    slippage: decimal("0.01"),
                },
                dexes: None,
                trader_account_id: Some(account("trader.near")),
                signing_public_key: None,
                referrer_id: None,
            },
            &Network::new(),
            &TestRheaDclQuotes::zero_quotes(),
        ),
        None
    );
}

#[test]
fn rhea_dcl_no_trader_omits_storage() {
    assert_eq!(
        route(
            SwapRequest {
                token_in: TokenId::Near,
                token_out: TokenId::Nep141(account("ft")),
                amount: Amount::AmountIn(100),
                max_wait_ms: 1_000,
                slippage: Slippage::Fixed {
                    slippage: decimal("0.01"),
                },
                dexes: None,
                trader_account_id: None,
                signing_public_key: None,
                referrer_id: None,
            },
            &Network::new(),
            &TestRheaDclQuotes::default(),
        ),
        Some(Route {
            deadline: None,
            has_slippage: true,
            estimated_amount: Amount::AmountOut(80),
            worst_case_amount: Amount::AmountOut(79),
            dex_id: DexId::RheaDcl,
            execution_instructions: vec![
                ExecutionInstruction::NearTransaction {
                    receiver_id: account(WRAP_NEAR),
                    actions: vec![create_wrap_action(100)],
                },
                ExecutionInstruction::NearTransaction {
                    receiver_id: account(WRAP_NEAR),
                    actions: vec![Action::FunctionCall(call(FunctionCallAction {
                        method_name: "ft_transfer_call".to_string(),
                        args: serde_json::to_vec(&obj(vec![("receiver_id", val(RHEA_DCL_CONTRACT_ID)), ("amount", val("100")), ("msg", val(serde_json::to_string(&obj(vec![("Swap", obj(vec![("pool_ids", val(vec!["ft|wrap.near|2000"])), ("output_token", val("ft")), ("min_output_amount", val("79")), ("skip_unwrap_near", val(true))]))]))
                            .unwrap()))]))
                        .unwrap(),
                        gas: 100 * TGAS,
                        deposit: 1,
                    }))],
                },
            ],
            deprecated_needs_unwrap_always_false: false,
            token_output: TokenId::Nep141(account("ft")),
        })
    );
}

#[test]
fn poor_account_returns_none() {
    assert_eq!(
        route(
            SwapRequest {
                token_in: TokenId::Near,
                token_out: TokenId::Nep141(account("ft")),
                amount: Amount::AmountIn(100),
                max_wait_ms: 1_000,
                slippage: Slippage::Fixed {
                    slippage: decimal("0.01"),
                },
                dexes: None,
                trader_account_id: Some(account("trader.near")),
                signing_public_key: None,
                referrer_id: None,
            },
            &with_native_balance("trader.near", millinear(500)),
            &TestRheaDclQuotes::default(),
        ),
        None
    );
}
