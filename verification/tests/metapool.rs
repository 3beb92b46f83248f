//! Staking into stNEAR, and selling it back.

use dex_aggregator::account::AccountId;
use dex_aggregator::asset::AssetId;
use dex_aggregator::decimal::Decimal;
use dex_aggregator::network::Network;
use dex_aggregator::providers::metapool::{MetapoolContractState, MetapoolProvider, METAPOOL_CONTRACT};
use dex_aggregator::shared_utils::{
    create_intear_dex_withdraw_action, create_rhea_withdraw_action, create_storage_deposit_action_for_contract,
    create_unwrap_action, TGAS, TOKEN_STORAGE, WRAP_NEAR,
};
use dex_aggregator::slippage::Market;
use dex_aggregator::types::{
    Action, Amount, DexId, ExecutionInstruction, FunctionCallAction, Route, Slippage, SwapRequest, TokenId,
};
use serde_json::Value;

fn account(name: &str) -> AccountId {
    AccountId::parse(name).unwrap()
}

fn decimal(text: &str) -> Decimal {
    Decimal::parse(text).unwrap()
}

fn call(action: FunctionCallAction) -> FunctionCallAction {
    action
}

fn obj(fields: Vec<(&str, Value)>) -> Value {
    fields.into_iter().map(|(key, value)| (key.to_string(), value)).collect()
}

fn val<T: Into<Value>>(value: T) -> Value {
    value.into()
}

fn near(amount: u128) -> u128 {
    amount * 1_000_000_000_000_000_000_000_000
}

fn millinear(amount: u128) -> u128 {
    amount * 1_000_000_000_000_000_000_000
}

fn market() -> Market {
    Market { tokens: None, height: None }
}


struct TestMetapoolQuotes {
    state: Option<MetapoolContractState>,
    discount_basis_points: Option<u16>,
}

impl TestMetapoolQuotes {
    fn default() -> Self {
        Self {
            state: Some(MetapoolContractState { st_near_price: near(1), nslp_liquidity: near(1000) }),
            discount_basis_points: Some(0),
        }
    }

    fn none() -> Self {
        Self { state: None, discount_basis_points: Some(0) }
    }

    fn no_discount() -> Self {
        Self { discount_basis_points: None, ..Self::default() }
    }

    fn low_liquidity() -> Self {
        Self {
            state: Some(MetapoolContractState { st_near_price: near(1), nslp_liquidity: millinear(500) }),
            discount_basis_points: Some(0),
        }
    }
}

fn route(request: SwapRequest, network: &Network, quotes: &TestMetapoolQuotes) -> Option<Route> {
    if !MetapoolProvider.needs_state(&request) {
        return None;
    }
    let discount = match quotes.state {
        Some(state) => match MetapoolProvider.discounted_amount(&request, state) {
            Some(_) => quotes.discount_basis_points,
            None => None,
        },
        None => None,
    };
    MetapoolProvider.route(&request, network, &market(), quotes.state, discount)
}

#[test]
fn amount_in_near_to_stnear() {
    let one_near = near(1);
    assert_eq!(
        route(
            SwapRequest {
                token_in: TokenId::Near,
                token_out: TokenId::Nep141(account(METAPOOL_CONTRACT)),
                amount: Amount::AmountIn(one_near),
                max_wait_ms: 1_000,
                slippage: Slippage::Fixed {
                    slippage: decimal("0.01"),
                },
                dexes: None,
                trader_account_id: Some(account("trader.near")),
                signing_public_key: None,
                referrer_id: None,
            },
            &Network::new(),
            &TestMetapoolQuotes::default(),
        ),
        Some(Route {
            deadline: None,
            has_slippage: false,
            estimated_amount: Amount::AmountOut(one_near - 1),
            worst_case_amount: Amount::AmountOut(one_near - 1),
            dex_id: DexId::MetaPool,
            execution_instructions: vec![
                ExecutionInstruction::NearTransaction {
                    receiver_id: account(METAPOOL_CONTRACT),
                    actions: vec![create_storage_deposit_action_for_contract(TOKEN_STORAGE, true)],
                },
                ExecutionInstruction::NearTransaction {
                    receiver_id: account(METAPOOL_CONTRACT),
                    actions: vec![Action::FunctionCall(call(FunctionCallAction {
                        method_name: "deposit_and_stake".to_string(),
                        args: serde_json::to_vec(&obj(vec![])).unwrap(),
                        gas: 10 * TGAS,
                        deposit: near(1),
                    }))],
                },
            ],
            deprecated_needs_unwrap_always_false: false,
            token_output: TokenId::Nep141(account(METAPOOL_CONTRACT)),
        })
    );
}

#[test]
fn amount_in_wnear_to_stnear() {
    let one_near = near(1);
    assert_eq!(
        route(
            SwapRequest {
                token_in: TokenId::Nep141(account(WRAP_NEAR)),
                token_out: TokenId::Nep141(account(METAPOOL_CONTRACT)),
                amount: Amount::AmountIn(one_near),
                max_wait_ms: 1_000,
                slippage: Slippage::Fixed {
                    slippage: decimal("0.01"),
                },
                dexes: None,
                trader_account_id: Some(account("trader.near")),
                signing_public_key: None,
                referrer_id: None,
            },
            &Network::new(),
            &TestMetapoolQuotes::default(),
        ),
        Some(Route {
            deadline: None,
            has_slippage: false,
            estimated_amount: Amount::AmountOut(one_near - 1),
            worst_case_amount: Amount::AmountOut(one_near - 1),
            dex_id: DexId::MetaPool,
            execution_instructions: vec![
                ExecutionInstruction::NearTransaction {
                    receiver_id: account(WRAP_NEAR),
                    actions: vec![create_unwrap_action(near(1))],
                },
                ExecutionInstruction::NearTransaction {
                    receiver_id: account(METAPOOL_CONTRACT),
                    actions: vec![create_storage_deposit_action_for_contract(TOKEN_STORAGE, true)],
                },
                ExecutionInstruction::NearTransaction {
                    receiver_id: account(METAPOOL_CONTRACT),
                    actions: vec![Action::FunctionCall(call(FunctionCallAction {
                        method_name: "deposit_and_stake".to_string(),
                        args: serde_json::to_vec(&obj(vec![])).unwrap(),
                        gas: 10 * TGAS,
                        deposit: near(1),
                    }))],
                },
            ],
            deprecated_needs_unwrap_always_false: false,
            token_output: TokenId::Nep141(account(METAPOOL_CONTRACT)),
        })
    );
}

#[test]
fn amount_in_rhea_wnear_to_stnear() {
    let one_near = near(1);
    assert_eq!(
        route(
            SwapRequest {
                token_in: TokenId::Nep141OnRhea(account(WRAP_NEAR)),
                token_out: TokenId::Nep141(account(METAPOOL_CONTRACT)),
                amount: Amount::AmountIn(one_near),
                max_wait_ms: 1_000,
                slippage: Slippage::Fixed {
                    slippage: decimal("0.01"),
                },
                dexes: None,
                trader_account_id: Some(account("trader.near")),
                signing_public_key: None,
                referrer_id: None,
            },
            &Network::new(),
            &TestMetapoolQuotes::default(),
        ),
        Some(Route {
            deadline: None,
            has_slippage: false,
            estimated_amount: Amount::AmountOut(one_near - 1),
            worst_case_amount: Amount::AmountOut(one_near - 1),
            dex_id: DexId::MetaPool,
            execution_instructions: vec![
                ExecutionInstruction::NearTransaction {
                    receiver_id: account("v2.ref-finance.near"),
                    actions: vec![create_rhea_withdraw_action(
                        &account(WRAP_NEAR),
                        one_near,
                        true,
                    )],
                },
                ExecutionInstruction::NearTransaction {
                    receiver_id: account(METAPOOL_CONTRACT),
                    actions: vec![create_storage_deposit_action_for_contract(TOKEN_STORAGE, true)],
                },
                ExecutionInstruction::NearTransaction {
                    receiver_id: account(METAPOOL_CONTRACT),
                    actions: vec![Action::FunctionCall(call(FunctionCallAction {
                        method_name: "deposit_and_stake".to_string(),
                        args: serde_json::to_vec(&obj(vec![])).unwrap(),
                        gas: 10 * TGAS,
                        deposit: near(1),
                    }))],
                },
            ],
            deprecated_needs_unwrap_always_false: false,
            token_output: TokenId::Nep141(account(METAPOOL_CONTRACT)),
        })
    );
}

#[test]
fn amount_in_intear_near_to_stnear() {
    let one_near = near(1);
    assert_eq!(
        route(
            SwapRequest {
                token_in: TokenId::TokenOnIntearDex(AssetId::Near),
                token_out: TokenId::Nep141(account(METAPOOL_CONTRACT)),
                amount: Amount::AmountIn(one_near),
                max_wait_ms: 1_000,
                slippage: Slippage::Fixed {
                    slippage: decimal("0.01"),
                },
                dexes: None,
                trader_account_id: Some(account("trader.near")),
                signing_public_key: None,
                referrer_id: None,
            },
            &Network::new(),
            &TestMetapoolQuotes::default(),
        ),
        Some(Route {
            deadline: None,
            has_slippage: false,
            estimated_amount: Amount::AmountOut(one_near - 1),
            worst_case_amount: Amount::AmountOut(one_near - 1),
            dex_id: DexId::MetaPool,
            execution_instructions: vec![
                ExecutionInstruction::NearTransaction {
                    receiver_id: account("dex.intear.near"),
                    actions: vec![create_intear_dex_withdraw_action(&AssetId::Near, one_near)],
                },
                ExecutionInstruction::NearTransaction {
                    receiver_id: account(METAPOOL_CONTRACT),
                    actions: vec![create_storage_deposit_action_for_contract(TOKEN_STORAGE, true)],
                },
                ExecutionInstruction::NearTransaction {
                    receiver_id: account(METAPOOL_CONTRACT),
                    actions: vec![Action::FunctionCall(call(FunctionCallAction {
                        method_name: "deposit_and_stake".to_string(),
                        args: serde_json::to_vec(&obj(vec![])).unwrap(),
                        gas: 10 * TGAS,
                        deposit: near(1),
                    }))],
                },
            ],
            deprecated_needs_unwrap_always_false: false,
            token_output: TokenId::Nep141(account(METAPOOL_CONTRACT)),
        })
    );
}

#[test]
fn amount_out_near_to_stnear() {
    let one_near = near(1);
    assert_eq!(
        route(
            SwapRequest {
                token_in: TokenId::Near,
                token_out: TokenId::Nep141(account(METAPOOL_CONTRACT)),
                amount: Amount::AmountOut(one_near),
                max_wait_ms: 1_000,
                slippage: Slippage::Fixed {
                    slippage: decimal("0.01"),
                },
                dexes: None,
                trader_account_id: Some(account("trader.near")),
                signing_public_key: None,
                referrer_id: None,
            },
            &Network::new(),
            &TestMetapoolQuotes::default(),
        ),
        Some(Route {
            deadline: None,
            has_slippage: false,
            estimated_amount: Amount::AmountIn(one_near),
            worst_case_amount: Amount::AmountIn(one_near),
            dex_id: DexId::MetaPool,
            execution_instructions: vec![
                ExecutionInstruction::NearTransaction {
                    receiver_id: account(METAPOOL_CONTRACT),
                    actions: vec![create_storage_deposit_action_for_contract(TOKEN_STORAGE, true)],
                },
                ExecutionInstruction::NearTransaction {
                    receiver_id: account(METAPOOL_CONTRACT),
                    actions: vec![Action::FunctionCall(call(FunctionCallAction {
                        method_name: "deposit_and_stake".to_string(),
                        args: serde_json::to_vec(&obj(vec![])).unwrap(),
                        gas: 10 * TGAS,
                        deposit: near(1),
                    }))],
                },
            ],
            deprecated_needs_unwrap_always_false: false,
            token_output: TokenId::Nep141(account(METAPOOL_CONTRACT)),
        })
    );
}

#[test]
fn amount_in_stnear_to_near() {
    let one_near = near(1);
    assert_eq!(
        route(
            SwapRequest {
                token_in: TokenId::Nep141(account(METAPOOL_CONTRACT)),
                token_out: TokenId::Near,
                amount: Amount::AmountIn(one_near),
                max_wait_ms: 1_000,
                slippage: Slippage::Fixed {
                    slippage: decimal("0.01"),
                },
                dexes: None,
                trader_account_id: Some(account("trader.near")),
                signing_public_key: None,
                referrer_id: None,
            },
            &Network::new(),
            &TestMetapoolQuotes::default(),
        ),
        Some(Route {
            deadline: None,
            has_slippage: true,
            estimated_amount: Amount::AmountOut(one_near - 1),
            worst_case_amount: Amount::AmountOut(990099009900990099009900),
            dex_id: DexId::MetaPool,
            execution_instructions: vec![ExecutionInstruction::NearTransaction {
                receiver_id: account(METAPOOL_CONTRACT),
                actions: vec![Action::FunctionCall(call(FunctionCallAction {
                    method_name: "liquid_unstake".to_string(),
                    args: serde_json::to_vec(&obj(vec![("st_near_to_burn", val(one_near.to_string())), ("min_expected_near", val("990099009900990099009900"))]))
                    .unwrap(),
                    gas: 10 * TGAS,
                    deposit: 0,
                }))],
            }],
            deprecated_needs_unwrap_always_false: false,
            token_output: TokenId::Near,
        })
    );
}

#[test]
fn amount_in_rhea_stnear_to_near() {
    let one_near = near(1);
    assert_eq!(
        route(
            SwapRequest {
                token_in: TokenId::Nep141OnRhea(account(METAPOOL_CONTRACT)),
                token_out: TokenId::Near,
                amount: Amount::AmountIn(one_near),
                max_wait_ms: 1_000,
                slippage: Slippage::Fixed {
                    slippage: decimal("0.01"),
                },
                dexes: None,
                trader_account_id: Some(account("trader.near")),
                signing_public_key: None,
                referrer_id: None,
            },
            &Network::new(),
            &TestMetapoolQuotes::default(),
        ),
        Some(Route {
            deadline: None,
            has_slippage: true,
            estimated_amount: Amount::AmountOut(one_near - 1),
            worst_case_amount: Amount::AmountOut(990099009900990099009900),
            dex_id: DexId::MetaPool,
            execution_instructions: vec![
                ExecutionInstruction::NearTransaction {
                    receiver_id: account("v2.ref-finance.near"),
                    actions: vec![create_rhea_withdraw_action(
                        &account(METAPOOL_CONTRACT),
                        one_near,
                        false,
                    )],
                },
                ExecutionInstruction::NearTransaction {
                    receiver_id: account(METAPOOL_CONTRACT),
                    actions: vec![Action::FunctionCall(call(FunctionCallAction {
                        method_name: "liquid_unstake".to_string(),
                        args: serde_json::to_vec(&obj(vec![("st_near_to_burn", val(one_near.to_string())), ("min_expected_near", val("990099009900990099009900"))]))
                        .unwrap(),
                        gas: 10 * TGAS,
                        deposit: 0,
                    }))],
                },
            ],
            deprecated_needs_unwrap_always_false: false,
            token_output: TokenId::Near,
        })
    );
}

#[test]
fn amount_out_stnear_to_near() {
    let one_near = near(1);
    assert_eq!(
        route(
            SwapRequest {
                token_in: TokenId::Nep141(account(METAPOOL_CONTRACT)),
                token_out: TokenId::Near,
                amount: Amount::AmountOut(one_near),
                max_wait_ms: 1_000,
                slippage: Slippage::Fixed {
                    slippage: decimal("0.01"),
                },
                dexes: None,
                trader_account_id: Some(account("trader.near")),
                signing_public_key: None,
                referrer_id: None,
            },
            &Network::new(),
            &TestMetapoolQuotes::default(),
        ),
        Some(Route {
            deadline: None,
            has_slippage: true,
            estimated_amount: Amount::AmountIn(one_near),
            worst_case_amount: Amount::AmountIn(1010101010101010101010101),
            dex_id: DexId::MetaPool,
            execution_instructions: vec![ExecutionInstruction::NearTransaction {
                receiver_id: account(METAPOOL_CONTRACT),
                actions: vec![Action::FunctionCall(call(FunctionCallAction {
                    method_name: "liquid_unstake".to_string(),
                    args: serde_json::to_vec(&obj(vec![("st_near_to_burn", val("1010101010101010101010101")), ("min_expected_near", val(one_near.to_string()))]))
                    .unwrap(),
                    gas: 10 * TGAS,
                    deposit: 0,
                }))],
            }],
            deprecated_needs_unwrap_always_false: false,
            token_output: TokenId::Near,
        })
    );
}

#[test]
fn deposit_below_minimum_returns_none() {
    assert_eq!(
        route(
            SwapRequest {
                token_in: TokenId::Near,
                token_out: TokenId::Nep141(account(METAPOOL_CONTRACT)),
                amount: Amount::AmountIn(100),
                max_wait_ms: 1_000,
                slippage: Slippage::Fixed {
                    slippage: decimal("0.01"),
                },
                dexes: None,
                trader_account_id: Some(account("trader.near")),
                signing_public_key: None,
                referrer_id: None,
            },
            &Network::new(),
            &TestMetapoolQuotes::default(),
        ),
        None
    );
}

#[test]
fn unstake_below_minimum_returns_none() {
    assert_eq!(
        route(
            SwapRequest {
                token_in: TokenId::Nep141(account(METAPOOL_CONTRACT)),
                token_out: TokenId::Near,
                amount: Amount::AmountIn(100),
                max_wait_ms: 1_000,
                slippage: Slippage::Fixed {
                    slippage: decimal("0.01"),
                },
                dexes: None,
                trader_account_id: Some(account("trader.near")),
                signing_public_key: None,
                referrer_id: None,
            },
            &Network::new(),
            &TestMetapoolQuotes::default(),
        ),
        None
    );
}

#[test]
fn insufficient_liquidity_returns_none() {
    assert_eq!(
        route(
            SwapRequest {
                token_in: TokenId::Nep141(account(METAPOOL_CONTRACT)),
                token_out: TokenId::Near,
                amount: Amount::AmountIn(near(1)),
                max_wait_ms: 1_000,
                slippage: Slippage::Fixed {
                    slippage: decimal("0.01"),
                },
                dexes: None,
                trader_account_id: Some(account("trader.near")),
                signing_public_key: None,
                referrer_id: None,
            },
            &Network::new(),
            &TestMetapoolQuotes::low_liquidity(),
        ),
        None
    );
}

#[test]
fn metapool_missing_quote_returns_none() {
    assert_eq!(
        route(
            SwapRequest {
                token_in: TokenId::Near,
                token_out: TokenId::Nep141(account(METAPOOL_CONTRACT)),
                amount: Amount::AmountIn(near(1)),
                max_wait_ms: 1_000,
                slippage: Slippage::Fixed {
                    slippage: decimal("0.01"),
                },
                dexes: None,
                trader_account_id: Some(account("trader.near")),
                signing_public_key: None,
                referrer_id: None,
            },
            &Network::new(),
            &TestMetapoolQuotes::none(),
        ),
        None
    );
}

#[test]
fn missing_discount_returns_none() {
    assert_eq!(
        route(
            SwapRequest {
                token_in: TokenId::Nep141(account(METAPOOL_CONTRACT)),
                token_out: TokenId::Near,
                amount: Amount::AmountIn(near(1)),
                max_wait_ms: 1_000,
                slippage: Slippage::Fixed {
                    slippage: decimal("0.01"),
                },
                dexes: None,
                trader_account_id: Some(account("trader.near")),
                signing_public_key: None,
                referrer_id: None,
            },
            &Network::new(),
            &TestMetapoolQuotes::no_discount(),
        ),
        None
    );
}

#[test]
fn wrong_token_returns_none() {
    assert_eq!(
        route(
            SwapRequest {
                token_in: TokenId::Near,
                token_out: TokenId::Nep141(account("ft")),
                amount: Amount::AmountIn(near(1)),
                max_wait_ms: 1_000,
                slippage: Slippage::Fixed {
                    slippage: decimal("0.01"),
                },
                dexes: None,
                trader_account_id: Some(account("trader.near")),
                signing_public_key: None,
                referrer_id: None,
            },
            &Network::new(),
            &TestMetapoolQuotes::default(),
        ),
        None
    );
}

#[test]
fn metapool_no_trader_omits_storage() {
    let one_near = near(1);
    assert_eq!(
        route(
            SwapRequest {
                token_in: TokenId::Near,
                token_out: TokenId::Nep141(account(METAPOOL_CONTRACT)),
                amount: Amount::AmountIn(one_near),
                max_wait_ms: 1_000,
                slippage: Slippage::Fixed {
                    slippage: decimal("0.01"),
                },
                dexes: None,
                trader_account_id: None,
                signing_public_key: None,
                referrer_id: None,
            },
            &Network::new(),
            &TestMetapoolQuotes::default(),
        ),
        Some(Route {
            deadline: None,
            has_slippage: false,
            estimated_amount: Amount::AmountOut(one_near - 1),
            worst_case_amount: Amount::AmountOut(one_near - 1),
            dex_id: DexId::MetaPool,
            execution_instructions: vec![ExecutionInstruction::NearTransaction {
                receiver_id: account(METAPOOL_CONTRACT),
                actions: vec![Action::FunctionCall(call(FunctionCallAction {
                    method_name: "deposit_and_stake".to_string(),
                    args: serde_json::to_vec(&obj(vec![])).unwrap(),
                    gas: 10 * TGAS,
                    deposit: near(1),
                }))],
            }],
            deprecated_needs_unwrap_always_false: false,
            token_output: TokenId::Nep141(account(METAPOOL_CONTRACT)),
        })
    );
}
