//! Routes through the pools of Rhea.

use dex_aggregator::account::AccountId;
use dex_aggregator::asset::AssetId;
use dex_aggregator::decimal::Decimal;
use dex_aggregator::network::Network;
use dex_aggregator::json::{Json, JsonField};
use dex_aggregator::providers::rhea::{RheaProvider, RheaSmartRouterResultData, RheaSmartRouterRoute};
use dex_aggregator::shared_utils::{
    create_intear_dex_withdraw_action, create_rhea_withdraw_action, create_storage_deposit_action_for_contract,
    create_wrap_action, DEFAULT_REFERRER_ID, RHEA_CONTRACT as RHEA_CONTRACT_ID, TGAS, TOKEN_STORAGE, WRAP_NEAR,
};
use dex_aggregator::slippage::Market;
use dex_aggregator::types::{
    Action, Amount, DexId, ExecutionInstruction, FunctionCallAction, Route, Slippage, SwapRequest, TokenId,
};
use serde_json::Value;

fn account(name: &str) -> AccountId {
    AccountId::parse(name).unwrap()
}

fn decimal(text: &str) -> Decimal {
    Decimal::parse(text).unwrap()
}

fn call(action: FunctionCallAction) -> FunctionCallAction {
    action
}

fn obj(fields: Vec<(&str, Value)>) -> Value {
    fields.into_iter().map(|(key, value)| (key.to_string(), value)).collect()
}

fn val<T: Into<Value>>(value: T) -> Value {
    value.into()
}

fn market() -> Market {
    Market { tokens: None, height: None }
}


struct TestRheaQuotes {
    enabled: bool,
    empty_routes: bool,
}

impl TestRheaQuotes {
    fn default() -> Self {
        Self { enabled: true, empty_routes: false }
    }

    fn none() -> Self {
        Self { enabled: false, empty_routes: false }
    }

    fn empty_routes() -> Self {
        Self { enabled: true, empty_routes: true }
    }
}

fn field(key: &str, value: &str) -> JsonField {
    JsonField { key: key.to_string(), value: Json::Text(value.to_string()) }
}

fn route(request: SwapRequest, network: &Network, quotes: &TestRheaQuotes) -> Option<Route> {
    let query = RheaProvider.query(&request, &market())?;
    assert_eq!(query.slippage, decimal("0.01"));
    let offer = if !quotes.enabled {
        None
    } else if quotes.empty_routes {
        Some(RheaSmartRouterResultData { routes: vec![], amount_out: 80 })
    } else {
        Some(RheaSmartRouterResultData {
            routes: vec![RheaSmartRouterRoute {
                pools: vec![Json::Object(vec![
                    field("pool_id", "1"),
                    field("token_in", query.token_in.as_str()),
                    field("token_out", query.token_out.as_str()),
                    field("amount_in", "100"),
                    field("amount_out", "0"),
                    field("min_amount_out", "79"),
                ])],
                min_amount_out: 79,
            }],
            amount_out: 80,
        })
    };
    RheaProvider.route(&request, network, &offer)
}

#[test]
fn rhea_amount_in_near_to_ft() {
    assert_eq!(
        route(
            SwapRequest {
                token_in: TokenId::Near,
                token_out: TokenId::Nep141(account("ft")),
                amount: Amount::AmountIn(100),
                max_wait_ms: 1_000,
                slippage: Slippage::Fixed {
                    slippage: decimal("0.01"),
                },
                dexes: None,
                trader_account_id: Some(account("trader.near")),
                signing_public_key: None,
                referrer_id: None,
            },
            &Network::new(),
            &TestRheaQuotes::default(),
        ),
        Some(Route {
            deadline: None,
            has_slippage: true,
            estimated_amount: Amount::AmountOut(80),
            worst_case_amount: Amount::AmountOut(79),
            dex_id: DexId::Rhea,
            execution_instructions: vec![
                ExecutionInstruction::NearTransaction {
                    receiver_id: account("ft"),
                    actions: vec![create_storage_deposit_action_for_contract(TOKEN_STORAGE, true)],
                },
                ExecutionInstruction::NearTransaction {
                    receiver_id: account(WRAP_NEAR),
                    actions: vec![create_storage_deposit_action_for_contract(TOKEN_STORAGE, true)],
                },
                ExecutionInstruction::NearTransaction {
                    receiver_id: account(WRAP_NEAR),
                    actions: vec![create_wrap_action(100)],
                },
                ExecutionInstruction::NearTransaction {
                    receiver_id: account(WRAP_NEAR),
                    actions: vec![Action::FunctionCall(call(FunctionCallAction {
                        method_name: "ft_transfer_call".to_string(),
                        args: serde_json::to_vec(&obj(vec![("receiver_id", val(RHEA_CONTRACT_ID)), ("amount", val("100")), ("msg", val(serde_json::to_string(&obj(vec![("force", val(0)), ("actions", val(vec![obj(vec![("pool_id", val(1)), ("token_in", val(WRAP_NEAR)), ("token_out", val("ft")), ("amount_in", val("100")), ("amount_out", val("0")), ("min_amount_out", val("79"))])])), ("skip_degen_price_sync", val(true)), ("skip_unwrap_near", val(true)), ("referral_id", val(DEFAULT_REFERRER_ID))]))
                            .unwrap()))]))
                        .unwrap(),
                        gas: 150 * TGAS,
                        deposit: 1,
                    }))],
                },
            ],
            deprecated_needs_unwrap_always_false: false,
            token_output: TokenId::Nep141(account("ft")),
        })
    );
}

#[test]
fn rhea_amount_in_wnear_to_ft() {
    assert_eq!(
        route(
            SwapRequest {
                token_in: TokenId::Nep141(account(WRAP_NEAR)),
                token_out: TokenId::Nep141(account("ft")),
                amount: Amount::AmountIn(100),
                max_wait_ms: 1_000,
                slippage: Slippage::Fixed {
                    slippage: decimal("0.01"),
                },
                dexes: None,
                trader_account_id: Some(account("trader.near")),
                signing_public_key: None,
                referrer_id: None,
            },
            &Network::new(),
            &TestRheaQuotes::default(),
        ),
        Some(Route {
            deadline: None,
            has_slippage: true,
            estimated_amount: Amount::AmountOut(80),
            worst_case_amount: Amount::AmountOut(79),
            dex_id: DexId::Rhea,
            execution_instructions: vec![
                ExecutionInstruction::NearTransaction {
                    receiver_id: account("ft"),
                    actions: vec![create_storage_deposit_action_for_contract(TOKEN_STORAGE, true)],
                },
                ExecutionInstruction::NearTransaction {
                    receiver_id: account(WRAP_NEAR),
                    actions: vec![create_storage_deposit_action_for_contract(TOKEN_STORAGE, true)],
                },
                ExecutionInstruction::NearTransaction {
                    receiver_id: account(WRAP_NEAR),
                    actions: vec![Action::FunctionCall(call(FunctionCallAction {
                        method_name: "ft_transfer_call".to_string(),
                        args: serde_json::to_vec(&obj(vec![("receiver_id", val(RHEA_CONTRACT_ID)), ("amount", val("100")), ("msg", val(serde_json::to_string(&obj(vec![("force", val(0)), ("actions", val(vec![obj(vec![("pool_id", val(1)), ("token_in", val(WRAP_NEAR)), ("token_out", val("ft")), ("amount_in", val("100")), ("amount_out", val("0")), ("min_amount_out", val("79"))])])), ("skip_degen_price_sync", val(true)), ("skip_unwrap_near", val(true)), ("referral_id", val(DEFAULT_REFERRER_ID))]))
                            .unwrap()))]))
                        .unwrap(),
                        gas: 150 * TGAS,
                        deposit: 1,
                    }))],
                },
            ],
            deprecated_needs_unwrap_always_false: false,
            token_output: TokenId::Nep141(account("ft")),
        })
    );
}

#[test]
fn rhea_amount_in_rhea_wnear_to_ft() {
    assert_eq!(
        route(
            SwapRequest {
                token_in: TokenId::Nep141OnRhea(account(WRAP_NEAR)),
                token_out: TokenId::Nep141(account("ft")),
                amount: Amount::AmountIn(100),
                max_wait_ms: 1_000,
                slippage: Slippage::Fixed {
                    slippage: decimal("0.01"),
                },
                dexes: None,
                trader_account_id: Some(account("trader.near")),
                signing_public_key: None,
                referrer_id: None,
            },
            &Network::new(),
            &TestRheaQuotes::default(),
        ),
        Some(Route {
            deadline: None,
            has_slippage: true,
            estimated_amount: Amount::AmountOut(80),
            worst_case_amount: Amount::AmountOut(79),
            dex_id: DexId::Rhea,
            execution_instructions: vec![
                ExecutionInstruction::NearTransaction {
                    receiver_id: account("ft"),
                    actions: vec![create_storage_deposit_action_for_contract(TOKEN_STORAGE, true)],
                },
                ExecutionInstruction::NearTransaction {
                    receiver_id: account(WRAP_NEAR),
                    actions: vec![create_storage_deposit_action_for_contract(TOKEN_STORAGE, true)],
                },
                ExecutionInstruction::NearTransaction {
                    receiver_id: account(RHEA_CONTRACT_ID),
                    actions: vec![create_rhea_withdraw_action(
                        &account(WRAP_NEAR),
                        100,
                        false,
                    )],
                },
                ExecutionInstruction::NearTransaction {
                    receiver_id: account(WRAP_NEAR),
                    actions: vec![Action::FunctionCall(call(FunctionCallAction {
                        method_name: "ft_transfer_call".to_string(),
                        args: serde_json::to_vec(&obj(vec![("receiver_id", val(RHEA_CONTRACT_ID)), ("amount", val("100")), ("msg", val(serde_json::to_string(&obj(vec![("force", val(0)), ("actions", val(vec![obj(vec![("pool_id", val(1)), ("token_in", val(WRAP_NEAR)), ("token_out", val("ft")), ("amount_in", val("100")), ("amount_out", val("0")), ("min_amount_out", val("79"))])])), ("skip_degen_price_sync", val(true)), ("skip_unwrap_near", val(true)), ("referral_id", val(DEFAULT_REFERRER_ID))]))
                            .unwrap()))]))
                        .unwrap(),
                        gas: 150 * TGAS,
                        deposit: 1,
                    }))],
                },
            ],
            deprecated_needs_unwrap_always_false: false,
            token_output: TokenId::Nep141(account("ft")),
        })
    );
}

#[test]
fn rhea_amount_in_intear_near_to_ft() {
    assert_eq!(
        route(
            SwapRequest {
                token_in: TokenId::TokenOnIntearDex(AssetId::Near),
                token_out: TokenId::Nep141(account("ft")),
                amount: Amount::AmountIn(100),
                max_wait_ms: 1_000,
                slippage: Slippage::Fixed {
                    slippage: decimal("0.01"),
                },
                dexes: None,
                trader_account_id: Some(account("trader.near")),
                signing_public_key: None,
                referrer_id: None,
            },
            &Network::new(),
            &TestRheaQuotes::default(),
        ),
        Some(Route {
            deadline: None,
            has_slippage: true,
            estimated_amount: Amount::AmountOut(80),
            worst_case_amount: Amount::AmountOut(79),
            dex_id: DexId::Rhea,
            execution_instructions: vec![
                ExecutionInstruction::NearTransaction {
                    receiver_id: account("ft"),
                    actions: vec![create_storage_deposit_action_for_contract(TOKEN_STORAGE, true)],
                },
                ExecutionInstruction::NearTransaction {
                    receiver_id: account(WRAP_NEAR),
                    actions: vec![create_storage_deposit_action_for_contract(TOKEN_STORAGE, true)],
                },
                ExecutionInstruction::NearTransaction {
                    receiver_id: account("dex.intear.near"),
                    actions: vec![create_intear_dex_withdraw_action(&AssetId::Near, 100)],
                },
                ExecutionInstruction::NearTransaction {
                    receiver_id: account(WRAP_NEAR),
                    actions: vec![create_wrap_action(100)],
                },
                ExecutionInstruction::NearTransaction {
                    receiver_id: account(WRAP_NEAR),
                    actions: vec![Action::FunctionCall(call(FunctionCallAction {
                        method_name: "ft_transfer_call".to_string(),
                        args: serde_json::to_vec(&obj(vec![("receiver_id", val(RHEA_CONTRACT_ID)), ("amount", val("100")), ("msg", val(serde_json::to_string(&obj(vec![("force", val(0)), ("actions", val(vec![obj(vec![("pool_id", val(1)), ("token_in", val(WRAP_NEAR)), ("token_out", val("ft")), ("amount_in", val("100")), ("amount_out", val("0")), ("min_amount_out", val("79"))])])), ("skip_degen_price_sync", val(true)), ("skip_unwrap_near", val(true)), ("referral_id", val(DEFAULT_REFERRER_ID))]))
                            .unwrap()))]))
                        .unwrap(),
                        gas: 150 * TGAS,
                        deposit: 1,
                    }))],
                },
            ],
            deprecated_needs_unwrap_always_false: false,
            token_output: TokenId::Nep141(account("ft")),
        })
    );
}

#[test]
fn amount_in_rhea_to_rhea_fast_path() {
    assert_eq!(
        route(
            SwapRequest {
                token_in: TokenId::Nep141OnRhea(account("ft")),
                token_out: TokenId::Nep141OnRhea(account("other")),
                amount: Amount::AmountIn(100),
                max_wait_ms: 1_000,
                slippage: Slippage::Fixed {
                    slippage: decimal("0.01"),
                },
                dexes: None,
                trader_account_id: Some(account("trader.near")),
                signing_public_key: None,
                referrer_id: None,
            },
            &Network::new(),
            &TestRheaQuotes::default(),
        ),
        Some(Route {
            deadline: None,
            has_slippage: true,
            estimated_amount: Amount::AmountOut(80),
            worst_case_amount: Amount::AmountOut(79),
            dex_id: DexId::Rhea,
            execution_instructions: vec![ExecutionInstruction::NearTransaction {
                receiver_id: account(RHEA_CONTRACT_ID),
                actions: vec![Action::FunctionCall(call(FunctionCallAction {
                    method_name: "swap".to_string(),
                    args: serde_json::to_vec(&obj(vec![("actions", val(vec![obj(vec![("pool_id", val(1)), ("token_in", val("ft")), ("token_out", val("other")), ("amount_in", val("100")), ("amount_out", val("0")), ("min_amount_out", val("79"))])])), ("referral_id", val(DEFAULT_REFERRER_ID))]))
                    .unwrap(),
                    gas: 150 * TGAS,
                    deposit: 1,
                }))],
            }],
            deprecated_needs_unwrap_always_false: false,
            token_output: TokenId::Nep141OnRhea(account("other")),
        })
    );
}

#[test]
fn rhea_amount_in_ft_to_near() {
    assert_eq!(
        route(
            SwapRequest {
                token_in: TokenId::Nep141(account("ft")),
                token_out: TokenId::Near,
                amount: Amount::AmountIn(100),
                max_wait_ms: 1_000,
                slippage: Slippage::Fixed {
                    slippage: decimal("0.01"),
                },
                dexes: None,
                trader_account_id: Some(account("trader.near")),
                signing_public_key: None,
                referrer_id: None,
            },
            &Network::new(),
            &TestRheaQuotes::default(),
        ),
        Some(Route {
            deadline: None,
            has_slippage: true,
            estimated_amount: Amount::AmountOut(80),
            worst_case_amount: Amount::AmountOut(79),
            dex_id: DexId::Rhea,
            execution_instructions: vec![
                ExecutionInstruction::NearTransaction {
                    receiver_id: account("ft"),
                    actions: vec![create_storage_deposit_action_for_contract(TOKEN_STORAGE, true)],
                },
                ExecutionInstruction::NearTransaction {
                    receiver_id: account("ft"),
                    actions: vec![Action::FunctionCall(call(FunctionCallAction {
                        method_name: "ft_transfer_call".to_string(),
                        args: serde_json::to_vec(&obj(vec![("receiver_id", val(RHEA_CONTRACT_ID)), ("amount", val("100")), ("msg", val(serde_json::to_string(&obj(vec![("force", val(0)), ("actions", val(vec![obj(vec![("pool_id", val(1)), ("token_in", val("ft")), ("token_out", val(WRAP_NEAR)), ("amount_in", val("100")), ("amount_out", val("0")), ("min_amount_out", val("79"))])])), ("skip_degen_price_sync", val(true)), ("skip_unwrap_near", val(false)), ("referral_id", val(DEFAULT_REFERRER_ID))]))
                            .unwrap()))]))
                        .unwrap(),
                        gas: 150 * TGAS,
                        deposit: 1,
                    }))],
                },
            ],
            deprecated_needs_unwrap_always_false: false,
            token_output: TokenId::Near,
        })
    );
}

#[test]
fn rhea_amount_in_rhea_ft_to_near() {
    assert_eq!(
        route(
            SwapRequest {
                token_in: TokenId::Nep141OnRhea(account("ft")),
                token_out: TokenId::Near,
                amount: Amount::AmountIn(100),
                max_wait_ms: 1_000,
                slippage: Slippage::Fixed {
                    slippage: decimal("0.01"),
                },
                dexes: None,
                trader_account_id: Some(account("trader.near")),
                signing_public_key: None,
                referrer_id: None,
            },
            &Network::new(),
            &TestRheaQuotes::default(),
        ),
        Some(Route {
            deadline: None,
            has_slippage: true,
            estimated_amount: Amount::AmountOut(80),
            worst_case_amount: Amount::AmountOut(79),
            dex_id: DexId::Rhea,
            execution_instructions: vec![
                ExecutionInstruction::NearTransaction {
                    receiver_id: account("ft"),
                    actions: vec![create_storage_deposit_action_for_contract(TOKEN_STORAGE, true)],
                },
                ExecutionInstruction::NearTransaction {
                    receiver_id: account(RHEA_CONTRACT_ID),
                    actions: vec![create_rhea_withdraw_action(
                        &account("ft"),
                        100,
                        false,
                    )],
                },
                ExecutionInstruction::NearTransaction {
                    receiver_id: account("ft"),
                    actions: vec![Action::FunctionCall(call(FunctionCallAction {
                        method_name: "ft_transfer_call".to_string(),
                        args: serde_json::to_vec(&obj(vec![("receiver_id", val(RHEA_CONTRACT_ID)), ("amount", val("100")), ("msg", val(serde_json::to_string(&obj(vec![("force", val(0)), ("actions", val(vec![obj(vec![("pool_id", val(1)), ("token_in", val("ft")), ("token_out", val(WRAP_NEAR)), ("amount_in", val("100")), ("amount_out", val("0")), ("min_amount_out", val("79"))])])), ("skip_degen_price_sync", val(true)), ("skip_unwrap_near", val(false)), ("referral_id", val(DEFAULT_REFERRER_ID))]))
                            .unwrap()))]))
                        .unwrap(),
                        gas: 150 * TGAS,
                        deposit: 1,
                    }))],
                },
            ],
            deprecated_needs_unwrap_always_false: false,
            token_output: TokenId::Near,
        })
    );
}

#[test]
fn amount_in_ft_to_rhea_ft_outputs_wallet_nep141() {
    assert_eq!(
        route(
            SwapRequest {
                token_in: TokenId::Nep141(account("ft")),
                token_out: TokenId::Nep141OnRhea(account("other")),
                amount: Amount::AmountIn(100),
                max_wait_ms: 1_000,
                slippage: Slippage::Fixed {
                    slippage: decimal("0.01"),
                },
                dexes: None,
                trader_account_id: Some(account("trader.near")),
                signing_public_key: None,
                referrer_id: None,
            },
            &Network::new(),
            &TestRheaQuotes::default(),
        ),
        Some(Route {
            deadline: None,
            has_slippage: true,
            estimated_amount: Amount::AmountOut(80),
            worst_case_amount: Amount::AmountOut(79),
            dex_id: DexId::Rhea,
            execution_instructions: vec![
                ExecutionInstruction::NearTransaction {
                    receiver_id: account("other"),
                    actions: vec![create_storage_deposit_action_for_contract(TOKEN_STORAGE, true)],
                },
                ExecutionInstruction::NearTransaction {
                    receiver_id: account("ft"),
                    actions: vec![create_storage_deposit_action_for_contract(TOKEN_STORAGE, true)],
                },
                ExecutionInstruction::NearTransaction {
                    receiver_id: account("ft"),
                    actions: vec![Action::FunctionCall(call(FunctionCallAction {
                        method_name: "ft_transfer_call".to_string(),
                        args: serde_json::to_vec(&obj(vec![("receiver_id", val(RHEA_CONTRACT_ID)), ("amount", val("100")), ("msg", val(serde_json::to_string(&obj(vec![("force", val(0)), ("actions", val(vec![obj(vec![("pool_id", val(1)), ("token_in", val("ft")), ("token_out", val("other")), ("amount_in", val("100")), ("amount_out", val("0")), ("min_amount_out", val("79"))])])), ("skip_degen_price_sync", val(true)), ("skip_unwrap_near", val(true)), ("referral_id", val(DEFAULT_REFERRER_ID))]))
                            .unwrap()))]))
                        .unwrap(),
                        gas: 150 * TGAS,
                        deposit: 1,
                    }))],
                },
            ],
            deprecated_needs_unwrap_always_false: false,
            token_output: TokenId::Nep141(account("other")),
        })
    );
}

#[test]
fn amount_out_returns_none() {
    assert_eq!(
        route(
            SwapRequest {
                token_in: TokenId::Near,
                token_out: TokenId::Nep141(account("ft")),
                amount: Amount::AmountOut(80),
                max_wait_ms: 1_000,
                slippage: Slippage::Fixed {
                    slippage: decimal("0.01"),
                },
                dexes: None,
                trader_account_id: Some(account("trader.near")),
                signing_public_key: None,
                referrer_id: None,
            },
            &Network::new(),
            &TestRheaQuotes::default(),
        ),
        None
    );
}

#[test]
fn rhea_same_near_family_returns_none() {
    assert_eq!(
        route(
            SwapRequest {
                token_in: TokenId::Near,
                token_out: TokenId::Nep141(account(WRAP_NEAR)),
                amount: Amount::AmountIn(100),
                max_wait_ms: 1_000,
                slippage: Slippage::Fixed {
                    slippage: decimal("0.01"),
                },
                dexes: None,
                trader_account_id: Some(account("trader.near")),
                signing_public_key: None,
                referrer_id: None,
            },
            &Network::new(),
            &TestRheaQuotes::default(),
        ),
        None
    );
}

#[test]
fn rhea_missing_quote_returns_none() {
    assert_eq!(
        route(
            SwapRequest {
                token_in: TokenId::Near,
                token_out: TokenId::Nep141(account("ft")),
                amount: Amount::AmountIn(100),
                max_wait_ms: 1_000,
                slippage: Slippage::Fixed {
                    slippage: decimal("0.01"),
                },
                dexes: None,
                trader_account_id: Some(account("trader.near")),
                signing_public_key: None,
                referrer_id: None,
            },
            &Network::new(),
            &TestRheaQuotes::none(),
        ),
        None
    );
}

#[test]
fn rhea_empty_routes_returns_none() {
    assert_eq!(
        route(
            SwapRequest {
                token_in: TokenId::Near,
                token_out: TokenId::Nep141(account("ft")),
                amount: Amount::AmountIn(100),
                max_wait_ms: 1_000,
                slippage: Slippage::Fixed {
                    slippage: decimal("0.01"),
                },
                dexes: None,
                trader_account_id: Some(account("trader.near")),
                signing_public_key: None,
                referrer_id: None,
            },
            &Network::new(),
            &TestRheaQuotes::empty_routes(),
        ),
        None
    );
}

#[test]
fn rhea_no_trader_omits_storage() {
    assert_eq!(
        route(
            SwapRequest {
                token_in: TokenId::Near,
                token_out: TokenId::Nep141(account("ft")),
                amount: Amount::AmountIn(100),
                max_wait_ms: 1_000,
                slippage: Slippage::Fixed {
                    slippage: decimal("0.01"),
                },
                dexes: None,
                trader_account_id: None,
                signing_public_key: None,
                referrer_id: None,
            },
            &Network::new(),
            &TestRheaQuotes::default(),
        ),
        Some(Route {
            deadline: None,
            has_slippage: true,
            estimated_amount: Amount::AmountOut(80),
            worst_case_amount: Amount::AmountOut(79),
            dex_id: DexId::Rhea,
            execution_instructions: vec![
                ExecutionInstruction::NearTransaction {
                    receiver_id: account(WRAP_NEAR),
                    actions: vec![create_wrap_action(100)],
                },
                ExecutionInstruction::NearTransaction {
                    receiver_id: account(WRAP_NEAR),
                    actions: vec![Action::FunctionCall(call(FunctionCallAction {
                        method_name: "ft_transfer_call".to_string(),
                        args: serde_json::to_vec(&obj(vec![("receiver_id", val(RHEA_CONTRACT_ID)), ("amount", val("100")), ("msg", val(serde_json::to_string(&obj(vec![("force", val(0)), ("actions", val(vec![obj(vec![("pool_id", val(1)), ("token_in", val(WRAP_NEAR)), ("token_out", val("ft")), ("amount_in", val("100")), ("amount_out", val("0")), ("min_amount_out", val("79"))])])), ("skip_degen_price_sync", val(true)), ("skip_unwrap_near", val(true)), ("referral_id", val(DEFAULT_REFERRER_ID))]))
                            .unwrap()))]))
                        .unwrap(),
                        gas: 150 * TGAS,
                        deposit: 1,
                    }))],
                },
            ],
            deprecated_needs_unwrap_always_false: false,
            token_output: TokenId::Nep141(account("ft")),
        })
    );
}

#[test]
fn rhea_custom_referrer_id_is_passed_in_swap_msg() {
    assert_eq!(
        route(
            SwapRequest {
                token_in: TokenId::Near,
                token_out: TokenId::Nep141(account("ft")),
                amount: Amount::AmountIn(100),
                max_wait_ms: 1_000,
                slippage: Slippage::Fixed {
                    slippage: decimal("0.01"),
                },
                dexes: None,
                trader_account_id: None,
                signing_public_key: None,
                referrer_id: Some(account("ref.near")),
            },
            &Network::new(),
            &TestRheaQuotes::default(),
        ),
        Some(Route {
            deadline: None,
            has_slippage: true,
            estimated_amount: Amount::AmountOut(80),
            worst_case_amount: Amount::AmountOut(79),
            dex_id: DexId::Rhea,
            execution_instructions: vec![
                ExecutionInstruction::NearTransaction {
                    receiver_id: account(WRAP_NEAR),
                    actions: vec![create_wrap_action(100)],
                },
                ExecutionInstruction::NearTransaction {
                    receiver_id: account(WRAP_NEAR),
                    actions: vec![Action::FunctionCall(call(FunctionCallAction {
                        method_name: "ft_transfer_call".to_string(),
                        args: serde_json::to_vec(&obj(vec![("receiver_id", val(RHEA_CONTRACT_ID)), ("amount", val("100")), ("msg", val(serde_json::to_string(&obj(vec![("force", val(0)), ("actions", val(vec![obj(vec![("pool_id", val(1)), ("token_in", val(WRAP_NEAR)), ("token_out", val("ft")), ("amount_in", val("100")), ("amount_out", val("0")), ("min_amount_out", val("79"))])])), ("skip_degen_price_sync", val(true)), ("skip_unwrap_near", val(true)), ("referral_id", val("ref.near"))]))
                            .unwrap()))]))
                        .unwrap(),
                        gas: 150 * TGAS,
                        deposit: 1,
                    }))],
                },
            ],
            deprecated_needs_unwrap_always_false: false,
            token_output: TokenId::Nep141(account("ft")),
        })
    );
}
