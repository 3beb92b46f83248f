//! Routes through the pools of Intear Plach.

use dex_aggregator::account::AccountId;
use dex_aggregator::asset::AssetId;
use dex_aggregator::decimal::Decimal;
use dex_aggregator::network::Network;
use dex_aggregator::plach::api::{
    ExactInPoolStep, ExactInRoute, ExactOutPoolStep, ExactOutRoute, SplitRouteApiResponse,
};
use dex_aggregator::providers::intear_plach::{IntearPlachProvider, PLACH_DEX_ID};
use dex_aggregator::shared_utils::{
    create_rhea_withdraw_action, create_storage_deposit_action_for_contract, create_unwrap_action,
    DEFAULT_REFERRER_ID, INTEAR_CONTRACT as INTEAR_DEX_CONTRACT_ID, INTEAR_STORAGE_DEPOSIT, TGAS, TOKEN_STORAGE,
    WRAP_NEAR,
};
use dex_aggregator::slippage::Market;
use base64::prelude::BASE64_STANDARD;
use base64::Engine;
use dex_aggregator::types::{
    Action, Amount, DexId, ExecutionInstruction, FunctionCallAction, Route, Slippage, SwapRequest, TokenId,
};
use serde_json::Value;

fn account(name: &str) -> AccountId {
    AccountId::parse(name).unwrap()
}

fn decimal(text: &str) -> Decimal {
    Decimal::parse(text).unwrap()
}

fn call(action: FunctionCallAction) -> FunctionCallAction {
    action
}

fn obj(fields: Vec<(&str, Value)>) -> Value {
    fields.into_iter().map(|(key, value)| (key.to_string(), value)).collect()
}

fn market() -> Market {
    Market { tokens: None, height: None }
}


struct U128(u128);

impl U128 {
    fn from(amount: u128) -> U128 {
        U128(amount)
    }

    fn json(self) -> Value {
        Value::String(self.0.to_string())
    }
}

enum SwapRequestAmount {
    ExactIn(U128),
    ExactOut(U128),
}

enum SwapOperationAmount {
    Amount(SwapRequestAmount),
}

enum WithdrawAmount {
    Full { at_least: Option<U128> },
    Exact(U128),
}

enum Operation {
    SwapSimple {
        dex_id: String,
        message: String,
        asset_in: AssetId,
        asset_out: AssetId,
        amount: SwapOperationAmount,
        constraint: Option<U128>,
    },
    Withdraw { asset_id: AssetId, amount: WithdrawAmount, to: Option<AccountId>, rescue_address: Option<AccountId> },
}

trait IntoJson {
    fn json(self) -> Value;
}

impl IntoJson for &str {
    fn json(self) -> Value {
        Value::String(self.to_string())
    }
}

impl IntoJson for String {
    fn json(self) -> Value {
        Value::String(self)
    }
}

impl IntoJson for AssetId {
    fn json(self) -> Value {
        Value::String(self.to_text())
    }
}

impl IntoJson for Operation {
    fn json(self) -> Value {
        match self {
            Operation::SwapSimple { dex_id, message, asset_in, asset_out, amount, constraint } => {
                let SwapOperationAmount::Amount(amount) = amount;
                let amount = match amount {
                    SwapRequestAmount::ExactIn(amount) => ("ExactIn", amount),
                    SwapRequestAmount::ExactOut(amount) => ("ExactOut", amount),
                };
                obj(vec![(
                    "SwapSimple",
                    obj(vec![
                        ("dex_id", dex_id.json()),
                        ("message", message.json()),
                        ("asset_in", asset_in.json()),
                        ("asset_out", asset_out.json()),
                        ("amount", obj(vec![("Amount", obj(vec![(amount.0, amount.1.json())]))])),
                        ("constraint", constraint.map_or(Value::Null, U128::json)),
                    ]),
                )])
            }
            Operation::Withdraw { asset_id, amount, to, rescue_address } => {
                let amount = match amount {
                    WithdrawAmount::Full { at_least } => {
                        ("Full", obj(vec![("at_least", at_least.map_or(Value::Null, U128::json))]))
                    }
                    WithdrawAmount::Exact(amount) => ("Exact", amount.json()),
                };
                assert_eq!((to, rescue_address), (None, None));
                obj(vec![(
                    "Withdraw",
                    obj(vec![
                        ("asset_id", asset_id.json()),
                        ("amount", obj(vec![amount])),
                        ("to", Value::Null),
                        ("rescue_address", Value::Null),
                    ]),
                )])
            }
        }
    }
}

impl<T: IntoJson> IntoJson for Vec<T> {
    fn json(self) -> Value {
        Value::Array(self.into_iter().map(T::json).collect())
    }
}

fn val<T: IntoJson>(value: T) -> Value {
    value.json()
}

struct TestPlachQuotes {
    enabled: bool,
    empty_routes: bool,
}

impl TestPlachQuotes {
    fn default() -> Self {
        Self { enabled: true, empty_routes: false }
    }

    fn none() -> Self {
        Self { enabled: false, empty_routes: false }
    }

    fn empty_routes() -> Self {
        Self { enabled: true, empty_routes: true }
    }

    fn find_path(&self, token_in: AssetId, token_out: AssetId, amount: Amount) -> Option<SplitRouteApiResponse> {
        if !self.enabled {
            return None;
        }
        if self.empty_routes {
            return Some(SplitRouteApiResponse::ExactIn {
                routes: vec![],
                contract_in: token_in,
                contract_out: token_out,
                amount_in: 100,
                amount_out: 80,
            });
        }
        match amount {
            Amount::AmountIn(_) => Some(SplitRouteApiResponse::ExactIn {
                routes: vec![ExactInRoute {
                    pools: vec![ExactInPoolStep {
                        pool_id: 1,
                        token_in: token_in.clone(),
                        token_out: token_out.clone(),
                        amount_in: 100,
                        min_amount_out: 79,
                    }],
                    amount_in: 100,
                    min_amount_out: 79,
                    amount_out: 80,
                }],
                contract_in: token_in,
                contract_out: token_out,
                amount_in: 100,
                amount_out: 80,
            }),
            Amount::AmountOut(_) => Some(SplitRouteApiResponse::ExactOut {
                routes: vec![ExactOutRoute {
                    pools: vec![ExactOutPoolStep {
                        pool_id: 1,
                        token_in: token_in.clone(),
                        token_out: token_out.clone(),
                        amount_in: 100,
                        amount_out: 80,
                        max_amount_in: 101,
                    }],
                    amount_in: 100,
                    max_amount_in: 101,
                    amount_out: 80,
                }],
                contract_in: token_in,
                contract_out: token_out,
                amount_in: 100,
                max_amount_in: 101,
                amount_out: 80,
            }),
        }
    }
}

fn route(request: SwapRequest, network: &Network, quotes: &TestPlachQuotes) -> Option<Route> {
    let query = IntearPlachProvider.query(&request, &market())?;
    assert_eq!(query.slippage, decimal("0.01"));
    let offer = quotes.find_path(query.token_in, query.token_out, query.amount);
    IntearPlachProvider.route(&request, network, &offer)
}

#[test]
fn intear_plach_amount_in_near_to_ft() {
    let token_in = AssetId::Near;
    let token_out = AssetId::Nep141(account("ft"));
    assert_eq!(
        route(
            SwapRequest {
                token_in: TokenId::Near,
                token_out: TokenId::Nep141(account("ft")),
                amount: Amount::AmountIn(100),
                max_wait_ms: 1_000,
                slippage: Slippage::Fixed {
                    slippage: decimal("0.01"),
                },
                dexes: None,
                trader_account_id: Some(account("trader.near")),
                signing_public_key: None,
                referrer_id: None,
            },
            &Network::new(),
            &TestPlachQuotes::default(),
        ),
        Some(Route {
            deadline: None,
            has_slippage: true,
            estimated_amount: Amount::AmountOut(80),
            worst_case_amount: Amount::AmountOut(79),
            dex_id: DexId::Plach,
            execution_instructions: vec![
                ExecutionInstruction::NearTransaction {
                    receiver_id: account(INTEAR_DEX_CONTRACT_ID),
                    actions: vec![
                        Action::FunctionCall(call(FunctionCallAction {
                            method_name: "storage_deposit".to_string(),
                            args: serde_json::to_vec(&obj(vec![])).unwrap(),
                            gas: 5 * TGAS,
                            deposit: INTEAR_STORAGE_DEPOSIT,
                        })),
                        Action::FunctionCall(call(FunctionCallAction {
                            method_name: "register_assets".to_string(),
                            args: serde_json::to_vec(&obj(vec![("asset_ids", val(vec![token_in.clone(), token_out.clone()]))]))
                            .unwrap(),
                            gas: 5 * TGAS,
                            deposit: 1,
                        })),
                    ],
                },
                ExecutionInstruction::NearTransaction {
                    receiver_id: account("ft"),
                    actions: vec![create_storage_deposit_action_for_contract(TOKEN_STORAGE, true)],
                },
                ExecutionInstruction::NearTransaction {
                    receiver_id: account(INTEAR_DEX_CONTRACT_ID),
                    actions: vec![Action::FunctionCall(call(FunctionCallAction {
                        method_name: "deposit_near".to_string(),
                        args: serde_json::to_vec(&obj(vec![("operations", obj(vec![("operations", val(vec![
                                    Operation::SwapSimple {
                                        dex_id: PLACH_DEX_ID.to_string(),
                                        message: BASE64_STANDARD.encode(borsh::to_vec(&1u32).unwrap()),
                                        asset_in: token_in.clone(),
                                        asset_out: token_out.clone(),
                                        amount: SwapOperationAmount::Amount(SwapRequestAmount::ExactIn(U128::from(100))),
                                        constraint: Some(U128::from(79)),
                                    },
                                    Operation::Withdraw {
                                        asset_id: token_out.clone(),
                                        amount: WithdrawAmount::Full {
                                            at_least: Some(U128::from(79)),
                                        },
                                        to: None,
                                        rescue_address: None,
                                    },
                                ])), ("referrer", val(DEFAULT_REFERRER_ID))]))]))
                        .unwrap(),
                        gas: 280 * TGAS,
                        deposit: 100,
                    }))],
                },
            ],
            deprecated_needs_unwrap_always_false: false,
            token_output: TokenId::Nep141(account("ft")),
        })
    );
}

#[test]
fn intear_plach_amount_in_wnear_to_ft() {
    let token_in = AssetId::Near;
    let token_out = AssetId::Nep141(account("ft"));
    assert_eq!(
        route(
            SwapRequest {
                token_in: TokenId::Nep141(account(WRAP_NEAR)),
                token_out: TokenId::Nep141(account("ft")),
                amount: Amount::AmountIn(100),
                max_wait_ms: 1_000,
                slippage: Slippage::Fixed {
                    slippage: decimal("0.01"),
                },
                dexes: None,
                trader_account_id: Some(account("trader.near")),
                signing_public_key: None,
                referrer_id: None,
            },
            &Network::new(),
            &TestPlachQuotes::default(),
        ),
        Some(Route {
            deadline: None,
            has_slippage: true,
            estimated_amount: Amount::AmountOut(80),
            worst_case_amount: Amount::AmountOut(79),
            dex_id: DexId::Plach,
            execution_instructions: vec![
                ExecutionInstruction::NearTransaction {
                    receiver_id: account(INTEAR_DEX_CONTRACT_ID),
                    actions: vec![
                        Action::FunctionCall(call(FunctionCallAction {
                            method_name: "storage_deposit".to_string(),
                            args: serde_json::to_vec(&obj(vec![])).unwrap(),
                            gas: 5 * TGAS,
                            deposit: INTEAR_STORAGE_DEPOSIT,
                        })),
                        Action::FunctionCall(call(FunctionCallAction {
                            method_name: "register_assets".to_string(),
                            args: serde_json::to_vec(&obj(vec![("asset_ids", val(vec![token_in.clone(), token_out.clone()]))]))
                            .unwrap(),
                            gas: 5 * TGAS,
                            deposit: 1,
                        })),
                    ],
                },
                ExecutionInstruction::NearTransaction {
                    receiver_id: account("ft"),
                    actions: vec![create_storage_deposit_action_for_contract(TOKEN_STORAGE, true)],
                },
                ExecutionInstruction::NearTransaction {
                    receiver_id: account(WRAP_NEAR),
                    actions: vec![create_unwrap_action(100)],
                },
                ExecutionInstruction::NearTransaction {
                    receiver_id: account(INTEAR_DEX_CONTRACT_ID),
                    actions: vec![Action::FunctionCall(call(FunctionCallAction {
                        method_name: "deposit_near".to_string(),
                        args: serde_json::to_vec(&obj(vec![("operations", obj(vec![("operations", val(vec![
                                    Operation::SwapSimple {
                                        dex_id: PLACH_DEX_ID.to_string(),
                                        message: BASE64_STANDARD.encode(borsh::to_vec(&1u32).unwrap()),
                                        asset_in: token_in.clone(),
                                        asset_out: token_out.clone(),
                                        amount: SwapOperationAmount::Amount(SwapRequestAmount::ExactIn(U128::from(100))),
                                        constraint: Some(U128::from(79)),
                                    },
                                    Operation::Withdraw {
                                        asset_id: token_out.clone(),
                                        amount: WithdrawAmount::Full {
                                            at_least: Some(U128::from(79)),
                                        },
                                        to: None,
                                        rescue_address: None,
                                    },
                                ])), ("referrer", val(DEFAULT_REFERRER_ID))]))]))
                        .unwrap(),
                        gas: 280 * TGAS,
                        deposit: 100,
                    }))],
                },
            ],
            deprecated_needs_unwrap_always_false: false,
            token_output: TokenId::Nep141(account("ft")),
        })
    );
}

#[test]
fn intear_plach_amount_in_rhea_wnear_to_ft() {
    let token_in = AssetId::Near;
    let token_out = AssetId::Nep141(account("ft"));
    assert_eq!(
        route(
            SwapRequest {
                token_in: TokenId::Nep141OnRhea(account(WRAP_NEAR)),
                token_out: TokenId::Nep141(account("ft")),
                amount: Amount::AmountIn(100),
                max_wait_ms: 1_000,
                slippage: Slippage::Fixed {
                    slippage: decimal("0.01"),
                },
                dexes: None,
                trader_account_id: Some(account("trader.near")),
                signing_public_key: None,
                referrer_id: None,
            },
            &Network::new(),
            &TestPlachQuotes::default(),
        ),
        Some(Route {
            deadline: None,
            has_slippage: true,
            estimated_amount: Amount::AmountOut(80),
            worst_case_amount: Amount::AmountOut(79),
            dex_id: DexId::Plach,
            execution_instructions: vec![
                ExecutionInstruction::NearTransaction {
                    receiver_id: account(INTEAR_DEX_CONTRACT_ID),
                    actions: vec![
                        Action::FunctionCall(call(FunctionCallAction {
                            method_name: "storage_deposit".to_string(),
                            args: serde_json::to_vec(&obj(vec![])).unwrap(),
                            gas: 5 * TGAS,
                            deposit: INTEAR_STORAGE_DEPOSIT,
                        })),
                        Action::FunctionCall(call(FunctionCallAction {
                            method_name: "register_assets".to_string(),
                            args: serde_json::to_vec(&obj(vec![("asset_ids", val(vec![token_in.clone(), token_out.clone()]))]))
                            .unwrap(),
                            gas: 5 * TGAS,
                            deposit: 1,
                        })),
                    ],
                },
                ExecutionInstruction::NearTransaction {
                    receiver_id: account("ft"),
                    actions: vec![create_storage_deposit_action_for_contract(TOKEN_STORAGE, true)],
                },
                ExecutionInstruction::NearTransaction {
                    receiver_id: account("v2.ref-finance.near"),
                    actions: vec![create_rhea_withdraw_action(
                        &account(WRAP_NEAR),
                        100,
                        true,
                    )],
                },
                ExecutionInstruction::NearTransaction {
                    receiver_id: account(INTEAR_DEX_CONTRACT_ID),
                    actions: vec![Action::FunctionCall(call(FunctionCallAction {
                        method_name: "deposit_near".to_string(),
                        args: serde_json::to_vec(&obj(vec![("operations", obj(vec![("operations", val(vec![
                                    Operation::SwapSimple {
                                        dex_id: PLACH_DEX_ID.to_string(),
                                        message: BASE64_STANDARD.encode(borsh::to_vec(&1u32).unwrap()),
                                        asset_in: token_in.clone(),
                                        asset_out: token_out.clone(),
                                        amount: SwapOperationAmount::Amount(SwapRequestAmount::ExactIn(U128::from(100))),
                                        constraint: Some(U128::from(79)),
                                    },
                                    Operation::Withdraw {
                                        asset_id: token_out.clone(),
                                        amount: WithdrawAmount::Full {
                                            at_least: Some(U128::from(79)),
                                        },
                                        to: None,
                                        rescue_address: None,
                                    },
                                ])), ("referrer", val(DEFAULT_REFERRER_ID))]))]))
                        .unwrap(),
                        gas: 280 * TGAS,
                        deposit: 100,
                    }))],
                },
            ],
            deprecated_needs_unwrap_always_false: false,
            token_output: TokenId::Nep141(account("ft")),
        })
    );
}

#[test]
fn amount_in_intear_near_to_ft_fast_path() {
    let token_in = AssetId::Near;
    let token_out = AssetId::Nep141(account("ft"));
    assert_eq!(
        route(
            SwapRequest {
                token_in: TokenId::TokenOnIntearDex(AssetId::Near),
                token_out: TokenId::Nep141(account("ft")),
                amount: Amount::AmountIn(100),
                max_wait_ms: 1_000,
                slippage: Slippage::Fixed {
                    slippage: decimal("0.01"),
                },
                dexes: None,
                trader_account_id: Some(account("trader.near")),
                signing_public_key: None,
                referrer_id: None,
            },
            &Network::new(),
            &TestPlachQuotes::default(),
        ),
        Some(Route {
            deadline: None,
            has_slippage: true,
            estimated_amount: Amount::AmountOut(80),
            worst_case_amount: Amount::AmountOut(79),
            dex_id: DexId::Plach,
            execution_instructions: vec![
                ExecutionInstruction::NearTransaction {
                    receiver_id: account(INTEAR_DEX_CONTRACT_ID),
                    actions: vec![
                        Action::FunctionCall(call(FunctionCallAction {
                            method_name: "storage_deposit".to_string(),
                            args: serde_json::to_vec(&obj(vec![])).unwrap(),
                            gas: 5 * TGAS,
                            deposit: INTEAR_STORAGE_DEPOSIT,
                        })),
                        Action::FunctionCall(call(FunctionCallAction {
                            method_name: "register_assets".to_string(),
                            args: serde_json::to_vec(&obj(vec![("asset_ids", val(vec![token_in.clone(), token_out.clone()]))]))
                            .unwrap(),
                            gas: 5 * TGAS,
                            deposit: 1,
                        })),
                    ],
                },
                ExecutionInstruction::NearTransaction {
                    receiver_id: account(INTEAR_DEX_CONTRACT_ID),
                    actions: vec![Action::FunctionCall(call(FunctionCallAction {
                        method_name: "execute_operations".to_string(),
                        args: serde_json::to_vec(&obj(vec![("operations", val(vec![Operation::SwapSimple {
                                dex_id: PLACH_DEX_ID.to_string(),
                                message: BASE64_STANDARD.encode(borsh::to_vec(&1u32).unwrap()),
                                asset_in: token_in.clone(),
                                asset_out: token_out.clone(),
                                amount: SwapOperationAmount::Amount(SwapRequestAmount::ExactIn(U128::from(100))),
                                constraint: Some(U128::from(79)),
                            }])), ("referrer", val(DEFAULT_REFERRER_ID))]))
                        .unwrap(),
                        gas: 280 * TGAS,
                        deposit: 1,
                    }))],
                },
            ],
            deprecated_needs_unwrap_always_false: false,
            token_output: TokenId::TokenOnIntearDex(token_out),
        })
    );
}

#[test]
fn intear_plach_amount_in_ft_to_near() {
    let token_in = AssetId::Nep141(account("ft"));
    let token_out = AssetId::Near;
    assert_eq!(
        route(
            SwapRequest {
                token_in: TokenId::Nep141(account("ft")),
                token_out: TokenId::Near,
                amount: Amount::AmountIn(100),
                max_wait_ms: 1_000,
                slippage: Slippage::Fixed {
                    slippage: decimal("0.01"),
                },
                dexes: None,
                trader_account_id: Some(account("trader.near")),
                signing_public_key: None,
                referrer_id: None,
            },
            &Network::new(),
            &TestPlachQuotes::default(),
        ),
        Some(Route {
            deadline: None,
            has_slippage: true,
            estimated_amount: Amount::AmountOut(80),
            worst_case_amount: Amount::AmountOut(79),
            dex_id: DexId::Plach,
            execution_instructions: vec![
                ExecutionInstruction::NearTransaction {
                    receiver_id: account(INTEAR_DEX_CONTRACT_ID),
                    actions: vec![
                        Action::FunctionCall(call(FunctionCallAction {
                            method_name: "storage_deposit".to_string(),
                            args: serde_json::to_vec(&obj(vec![])).unwrap(),
                            gas: 5 * TGAS,
                            deposit: INTEAR_STORAGE_DEPOSIT,
                        })),
                        Action::FunctionCall(call(FunctionCallAction {
                            method_name: "register_assets".to_string(),
                            args: serde_json::to_vec(&obj(vec![("asset_ids", val(vec![token_in.clone(), token_out.clone()]))]))
                            .unwrap(),
                            gas: 5 * TGAS,
                            deposit: 1,
                        })),
                    ],
                },
                ExecutionInstruction::NearTransaction {
                    receiver_id: account("ft"),
                    actions: vec![create_storage_deposit_action_for_contract(TOKEN_STORAGE, true)],
                },
                ExecutionInstruction::NearTransaction {
                    receiver_id: account("ft"),
                    actions: vec![Action::FunctionCall(call(FunctionCallAction {
                        method_name: "ft_transfer_call".to_string(),
                        args: serde_json::to_vec(&obj(vec![("receiver_id", val(INTEAR_DEX_CONTRACT_ID)), ("amount", val("100")), ("msg", val(serde_json::to_string(&obj(vec![("operations", val(vec![
                                    Operation::SwapSimple {
                                        dex_id: PLACH_DEX_ID.to_string(),
                                        message: BASE64_STANDARD.encode(borsh::to_vec(&1u32).unwrap()),
                                        asset_in: token_in.clone(),
                                        asset_out: token_out.clone(),
                                        amount: SwapOperationAmount::Amount(SwapRequestAmount::ExactIn(U128::from(100))),
                                        constraint: Some(U128::from(79)),
                                    },
                                    Operation::Withdraw {
                                        asset_id: token_out.clone(),
                                        amount: WithdrawAmount::Full {
                                            at_least: Some(U128::from(79)),
                                        },
                                        to: None,
                                        rescue_address: None,
                                    },
                                ])), ("referrer", val(DEFAULT_REFERRER_ID))]))
                            .unwrap()))]))
                        .unwrap(),
                        gas: 280 * TGAS,
                        deposit: 1,
                    }))],
                },
            ],
            deprecated_needs_unwrap_always_false: false,
            token_output: TokenId::Near,
        })
    );
}

#[test]
fn intear_plach_amount_in_rhea_ft_to_near() {
    let token_in = AssetId::Nep141(account("ft"));
    let token_out = AssetId::Near;
    assert_eq!(
        route(
            SwapRequest {
                token_in: TokenId::Nep141OnRhea(account("ft")),
                token_out: TokenId::Near,
                amount: Amount::AmountIn(100),
                max_wait_ms: 1_000,
                slippage: Slippage::Fixed {
                    slippage: decimal("0.01"),
                },
                dexes: None,
                trader_account_id: Some(account("trader.near")),
                signing_public_key: None,
                referrer_id: None,
            },
            &Network::new(),
            &TestPlachQuotes::default(),
        ),
        Some(Route {
            deadline: None,
            has_slippage: true,
            estimated_amount: Amount::AmountOut(80),
            worst_case_amount: Amount::AmountOut(79),
            dex_id: DexId::Plach,
            execution_instructions: vec![
                ExecutionInstruction::NearTransaction {
                    receiver_id: account(INTEAR_DEX_CONTRACT_ID),
                    actions: vec![
                        Action::FunctionCall(call(FunctionCallAction {
                            method_name: "storage_deposit".to_string(),
                            args: serde_json::to_vec(&obj(vec![])).unwrap(),
                            gas: 5 * TGAS,
                            deposit: INTEAR_STORAGE_DEPOSIT,
                        })),
                        Action::FunctionCall(call(FunctionCallAction {
                            method_name: "register_assets".to_string(),
                            args: serde_json::to_vec(&obj(vec![("asset_ids", val(vec![token_in.clone(), token_out.clone()]))]))
                            .unwrap(),
                            gas: 5 * TGAS,
                            deposit: 1,
                        })),
                    ],
                },
                ExecutionInstruction::NearTransaction {
                    receiver_id: account("ft"),
                    actions: vec![create_storage_deposit_action_for_contract(TOKEN_STORAGE, true)],
                },
                ExecutionInstruction::NearTransaction {
                    receiver_id: account("v2.ref-finance.near"),
                    actions: vec![create_rhea_withdraw_action(
                        &account("ft"),
                        100,
                        false,
                    )],
                },
                ExecutionInstruction::NearTransaction {
                    receiver_id: account("ft"),
                    actions: vec![Action::FunctionCall(call(FunctionCallAction {
                        method_name: "ft_transfer_call".to_string(),
                        args: serde_json::to_vec(&obj(vec![("receiver_id", val(INTEAR_DEX_CONTRACT_ID)), ("amount", val("100")), ("msg", val(serde_json::to_string(&obj(vec![("operations", val(vec![
                                    Operation::SwapSimple {
                                        dex_id: PLACH_DEX_ID.to_string(),
                                        message: BASE64_STANDARD.encode(borsh::to_vec(&1u32).unwrap()),
                                        asset_in: token_in.clone(),
                                        asset_out: token_out.clone(),
                                        amount: SwapOperationAmount::Amount(SwapRequestAmount::ExactIn(U128::from(100))),
                                        constraint: Some(U128::from(79)),
                                    },
                                    Operation::Withdraw {
                                        asset_id: token_out.clone(),
                                        amount: WithdrawAmount::Full {
                                            at_least: Some(U128::from(79)),
                                        },
                                        to: None,
                                        rescue_address: None,
                                    },
                                ])), ("referrer", val(DEFAULT_REFERRER_ID))]))
                            .unwrap()))]))
                        .unwrap(),
                        gas: 280 * TGAS,
                        deposit: 1,
                    }))],
                },
            ],
            deprecated_needs_unwrap_always_false: false,
            token_output: TokenId::Near,
        })
    );
}

#[test]
fn intear_plach_amount_out_near_to_ft() {
    let token_in = AssetId::Near;
    let token_out = AssetId::Nep141(account("ft"));
    assert_eq!(
        route(
            SwapRequest {
                token_in: TokenId::Near,
                token_out: TokenId::Nep141(account("ft")),
                amount: Amount::AmountOut(80),
                max_wait_ms: 1_000,
                slippage: Slippage::Fixed {
                    slippage: decimal("0.01"),
                },
                dexes: None,
                trader_account_id: Some(account("trader.near")),
                signing_public_key: None,
                referrer_id: None,
            },
            &Network::new(),
            &TestPlachQuotes::default(),
        ),
        Some(Route {
            deadline: None,
            has_slippage: true,
            estimated_amount: Amount::AmountIn(100),
            worst_case_amount: Amount::AmountIn(101),
            dex_id: DexId::Plach,
            execution_instructions: vec![
                ExecutionInstruction::NearTransaction {
                    receiver_id: account(INTEAR_DEX_CONTRACT_ID),
                    actions: vec![
                        Action::FunctionCall(call(FunctionCallAction {
                            method_name: "storage_deposit".to_string(),
                            args: serde_json::to_vec(&obj(vec![])).unwrap(),
                            gas: 5 * TGAS,
                            deposit: INTEAR_STORAGE_DEPOSIT,
                        })),
                        Action::FunctionCall(call(FunctionCallAction {
                            method_name: "register_assets".to_string(),
                            args: serde_json::to_vec(&obj(vec![("asset_ids", val(vec![token_in.clone(), token_out.clone()]))]))
                            .unwrap(),
                            gas: 5 * TGAS,
                            deposit: 1,
                        })),
                    ],
                },
                ExecutionInstruction::NearTransaction {
                    receiver_id: account("ft"),
                    actions: vec![create_storage_deposit_action_for_contract(TOKEN_STORAGE, true)],
                },
                ExecutionInstruction::NearTransaction {
                    receiver_id: account(INTEAR_DEX_CONTRACT_ID),
                    actions: vec![Action::FunctionCall(call(FunctionCallAction {
                        method_name: "deposit_near".to_string(),
                        args: serde_json::to_vec(&obj(vec![("operations", obj(vec![("operations", val(vec![
                                    Operation::SwapSimple {
                                        dex_id: PLACH_DEX_ID.to_string(),
                                        message: BASE64_STANDARD.encode(borsh::to_vec(&1u32).unwrap()),
                                        asset_in: token_in.clone(),
                                        asset_out: token_out.clone(),
                                        amount: SwapOperationAmount::Amount(SwapRequestAmount::ExactOut(U128::from(80))),
                                        constraint: Some(U128::from(101)),
                                    },
                                    Operation::Withdraw {
                                        asset_id: token_out.clone(),
                                        amount: WithdrawAmount::Full {
                                            at_least: Some(U128::from(80)),
                                        },
                                        to: None,
                                        rescue_address: None,
                                    },
                                    Operation::Withdraw {
                                        asset_id: token_in.clone(),
                                        amount: WithdrawAmount::Full { at_least: None },
                                        to: None,
                                        rescue_address: None,
                                    },
                                ])), ("referrer", val(DEFAULT_REFERRER_ID))]))]))
                        .unwrap(),
                        gas: 280 * TGAS,
                        deposit: 101,
                    }))],
                },
            ],
            deprecated_needs_unwrap_always_false: false,
            token_output: TokenId::Nep141(account("ft")),
        })
    );
}

#[test]
fn amount_out_intear_near_to_ft_withdraws_exact() {
    let token_in = AssetId::Near;
    let token_out = AssetId::Nep141(account("ft"));
    assert_eq!(
        route(
            SwapRequest {
                token_in: TokenId::TokenOnIntearDex(AssetId::Near),
                token_out: TokenId::Nep141(account("ft")),
                amount: Amount::AmountOut(80),
                max_wait_ms: 1_000,
                slippage: Slippage::Fixed {
                    slippage: decimal("0.01"),
                },
                dexes: None,
                trader_account_id: Some(account("trader.near")),
                signing_public_key: None,
                referrer_id: None,
            },
            &Network::new(),
            &TestPlachQuotes::default(),
        ),
        Some(Route {
            deadline: None,
            has_slippage: true,
            estimated_amount: Amount::AmountIn(100),
            worst_case_amount: Amount::AmountIn(101),
            dex_id: DexId::Plach,
            execution_instructions: vec![
                ExecutionInstruction::NearTransaction {
                    receiver_id: account(INTEAR_DEX_CONTRACT_ID),
                    actions: vec![
                        Action::FunctionCall(call(FunctionCallAction {
                            method_name: "storage_deposit".to_string(),
                            args: serde_json::to_vec(&obj(vec![])).unwrap(),
                            gas: 5 * TGAS,
                            deposit: INTEAR_STORAGE_DEPOSIT,
                        })),
                        Action::FunctionCall(call(FunctionCallAction {
                            method_name: "register_assets".to_string(),
                            args: serde_json::to_vec(&obj(vec![("asset_ids", val(vec![token_in.clone(), token_out.clone()]))]))
                            .unwrap(),
                            gas: 5 * TGAS,
                            deposit: 1,
                        })),
                    ],
                },
                ExecutionInstruction::NearTransaction {
                    receiver_id: account(INTEAR_DEX_CONTRACT_ID),
                    actions: vec![Action::FunctionCall(call(FunctionCallAction {
                        method_name: "execute_operations".to_string(),
                        args: serde_json::to_vec(&obj(vec![("operations", val(vec![
                                Operation::SwapSimple {
                                    dex_id: PLACH_DEX_ID.to_string(),
                                    message: BASE64_STANDARD.encode(borsh::to_vec(&1u32).unwrap()),
                                    asset_in: token_in.clone(),
                                    asset_out: token_out.clone(),
                                    amount: SwapOperationAmount::Amount(SwapRequestAmount::ExactOut(U128::from(80))),
                                    constraint: Some(U128::from(101)),
                                },
                                Operation::Withdraw {
                                    asset_id: token_out.clone(),
                                    amount: WithdrawAmount::Exact(U128::from(80)),
                                    to: None,
                                    rescue_address: None,
                                },
                            ])), ("referrer", val(DEFAULT_REFERRER_ID))]))
                        .unwrap(),
                        gas: 280 * TGAS,
                        deposit: 1,
                    }))],
                },
            ],
            deprecated_needs_unwrap_always_false: false,
            token_output: TokenId::Nep141(account("ft")),
        })
    );
}

#[test]
fn amount_out_intear_to_intear_leaves_output_on_dex() {
    let token_in = AssetId::Near;
    let token_out = AssetId::Nep141(account("ft"));
    assert_eq!(
        route(
            SwapRequest {
                token_in: TokenId::TokenOnIntearDex(AssetId::Near),
                token_out: TokenId::TokenOnIntearDex(AssetId::Nep141(account("ft"))),
                amount: Amount::AmountOut(80),
                max_wait_ms: 1_000,
                slippage: Slippage::Fixed {
                    slippage: decimal("0.01"),
                },
                dexes: None,
                trader_account_id: Some(account("trader.near")),
                signing_public_key: None,
                referrer_id: None,
            },
            &Network::new(),
            &TestPlachQuotes::default(),
        ),
        Some(Route {
            deadline: None,
            has_slippage: true,
            estimated_amount: Amount::AmountIn(100),
            worst_case_amount: Amount::AmountIn(101),
            dex_id: DexId::Plach,
            execution_instructions: vec![
                ExecutionInstruction::NearTransaction {
                    receiver_id: account(INTEAR_DEX_CONTRACT_ID),
                    actions: vec![
                        Action::FunctionCall(call(FunctionCallAction {
                            method_name: "storage_deposit".to_string(),
                            args: serde_json::to_vec(&obj(vec![])).unwrap(),
                            gas: 5 * TGAS,
                            deposit: INTEAR_STORAGE_DEPOSIT,
                        })),
                        Action::FunctionCall(call(FunctionCallAction {
                            method_name: "register_assets".to_string(),
                            args: serde_json::to_vec(&obj(vec![("asset_ids", val(vec![token_in.clone(), token_out.clone()]))]))
                            .unwrap(),
                            gas: 5 * TGAS,
                            deposit: 1,
                        })),
                    ],
                },
                ExecutionInstruction::NearTransaction {
                    receiver_id: account(INTEAR_DEX_CONTRACT_ID),
                    actions: vec![Action::FunctionCall(call(FunctionCallAction {
                        method_name: "execute_operations".to_string(),
                        args: serde_json::to_vec(&obj(vec![("operations", val(vec![Operation::SwapSimple {
                                dex_id: PLACH_DEX_ID.to_string(),
                                message: BASE64_STANDARD.encode(borsh::to_vec(&1u32).unwrap()),
                                asset_in: token_in.clone(),
                                asset_out: token_out.clone(),
                                amount: SwapOperationAmount::Amount(SwapRequestAmount::ExactOut(U128::from(80))),
                                constraint: Some(U128::from(101)),
                            }])), ("referrer", val(DEFAULT_REFERRER_ID))]))
                        .unwrap(),
                        gas: 280 * TGAS,
                        deposit: 1,
                    }))],
                },
            ],
            deprecated_needs_unwrap_always_false: false,
            token_output: TokenId::TokenOnIntearDex(token_out),
        })
    );
}

#[test]
fn intear_plach_same_near_family_returns_none() {
    assert_eq!(
        route(
            SwapRequest {
                token_in: TokenId::Near,
                token_out: TokenId::Nep141(account(WRAP_NEAR)),
                amount: Amount::AmountIn(100),
                max_wait_ms: 1_000,
                slippage: Slippage::Fixed {
                    slippage: decimal("0.01"),
                },
                dexes: None,
                trader_account_id: Some(account("trader.near")),
                signing_public_key: None,
                referrer_id: None,
            },
            &Network::new(),
            &TestPlachQuotes::default(),
        ),
        None
    );
}

#[test]
fn intear_plach_missing_quote_returns_none() {
    assert_eq!(
        route(
            SwapRequest {
                token_in: TokenId::Near,
                token_out: TokenId::Nep141(account("ft")),
                amount: Amount::AmountIn(100),
                max_wait_ms: 1_000,
                slippage: Slippage::Fixed {
                    slippage: decimal("0.01"),
                },
                dexes: None,
                trader_account_id: Some(account("trader.near")),
                signing_public_key: None,
                referrer_id: None,
            },
            &Network::new(),
            &TestPlachQuotes::none(),
        ),
        None
    );
}

#[test]
fn intear_plach_empty_routes_returns_none() {
    assert_eq!(
        route(
            SwapRequest {
                token_in: TokenId::Near,
                token_out: TokenId::Nep141(account("ft")),
                amount: Amount::AmountIn(100),
                max_wait_ms: 1_000,
                slippage: Slippage::Fixed {
                    slippage: decimal("0.01"),
                },
                dexes: None,
                trader_account_id: Some(account("trader.near")),
                signing_public_key: None,
                referrer_id: None,
            },
            &Network::new(),
            &TestPlachQuotes::empty_routes(),
        ),
        None
    );
}

#[test]
fn no_trader_omits_registration_and_storage() {
    assert_eq!(
        route(
            SwapRequest {
                token_in: TokenId::Near,
                token_out: TokenId::Nep141(account("ft")),
                amount: Amount::AmountIn(100),
                max_wait_ms: 1_000,
                slippage: Slippage::Fixed {
                    slippage: decimal("0.01"),
                },
                dexes: None,
                trader_account_id: None,
                signing_public_key: None,
                referrer_id: None,
            },
            &Network::new(),
            &TestPlachQuotes::default(),
        ),
        Some(Route {
            deadline: None,
            has_slippage: true,
            estimated_amount: Amount::AmountOut(80),
            worst_case_amount: Amount::AmountOut(79),
            dex_id: DexId::Plach,
            execution_instructions: vec![ExecutionInstruction::NearTransaction {
                receiver_id: account(INTEAR_DEX_CONTRACT_ID),
                actions: vec![Action::FunctionCall(call(FunctionCallAction {
                    method_name: "deposit_near".to_string(),
                    args: serde_json::to_vec(&obj(vec![("operations", obj(vec![("operations", val(vec![
                                Operation::SwapSimple {
                                    dex_id: PLACH_DEX_ID.to_string(),
                                    message: BASE64_STANDARD.encode(borsh::to_vec(&1u32).unwrap()),
                                    asset_in: AssetId::Near,
                                    asset_out: AssetId::Nep141(account("ft")),
                                    amount: SwapOperationAmount::Amount(SwapRequestAmount::ExactIn(U128::from(100))),
                                    constraint: Some(U128::from(79)),
                                },
                                Operation::Withdraw {
                                    asset_id: AssetId::Nep141(account("ft")),
                                    amount: WithdrawAmount::Full {
                                        at_least: Some(U128::from(79)),
                                    },
                                    to: None,
                                    rescue_address: None,
                                },
                            ])), ("referrer", val(DEFAULT_REFERRER_ID))]))]))
                    .unwrap(),
                    gas: 280 * TGAS,
                    deposit: 100,
                }))],
            }],
            deprecated_needs_unwrap_always_false: false,
            token_output: TokenId::Nep141(account("ft")),
        })
    );
}

#[test]
fn custom_referrer_id_is_passed_in_operations() {
    assert_eq!(
        route(
            SwapRequest {
                token_in: TokenId::Near,
                token_out: TokenId::Nep141(account("ft")),
                amount: Amount::AmountIn(100),
                max_wait_ms: 1_000,
                slippage: Slippage::Fixed {
                    slippage: decimal("0.01"),
                },
                dexes: None,
                trader_account_id: None,
                signing_public_key: None,
                referrer_id: Some(account("ref.near")),
            },
            &Network::new(),
            &TestPlachQuotes::default(),
        ),
        Some(Route {
            deadline: None,
            has_slippage: true,
            estimated_amount: Amount::AmountOut(80),
            worst_case_amount: Amount::AmountOut(79),
            dex_id: DexId::Plach,
            execution_instructions: vec![ExecutionInstruction::NearTransaction {
                receiver_id: account(INTEAR_DEX_CONTRACT_ID),
                actions: vec![Action::FunctionCall(call(FunctionCallAction {
                    method_name: "deposit_near".to_string(),
                    args: serde_json::to_vec(&obj(vec![("operations", obj(vec![("operations", val(vec![
                                Operation::SwapSimple {
                                    dex_id: PLACH_DEX_ID.to_string(),
                                    message: BASE64_STANDARD.encode(borsh::to_vec(&1u32).unwrap()),
                                    asset_in: AssetId::Near,
                                    asset_out: AssetId::Nep141(account("ft")),
                                    amount: SwapOperationAmount::Amount(SwapRequestAmount::ExactIn(U128::from(100))),
                                    constraint: Some(U128::from(79)),
                                },
                                Operation::Withdraw {
                                    asset_id: AssetId::Nep141(account("ft")),
                                    amount: WithdrawAmount::Full {
                                        at_least: Some(U128::from(79)),
                                    },
                                    to: None,
                                    rescue_address: None,
                                },
                            ])), ("referrer", val("ref.near"))]))]))
                    .unwrap(),
                    gas: 280 * TGAS,
                    deposit: 100,
                }))],
            }],
            deprecated_needs_unwrap_always_false: false,
            token_output: TokenId::Nep141(account("ft")),
        })
    );
}
