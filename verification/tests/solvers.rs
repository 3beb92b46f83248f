//! The exchanges that quote in their own way: solvers, Veax, gra-fun.near and
//! rNEAR.

use dex_aggregator::account::AccountId;
use dex_aggregator::decimal::Decimal;
use dex_aggregator::network::Network;
use dex_aggregator::providers::aidols::AidolsProvider;
use dex_aggregator::providers::grafun::{GraFunProvider, GraFunQuote};
use dex_aggregator::providers::near_intents::{ExactAmount, NearIntentsProvider, NearIntentsQuote};
use dex_aggregator::providers::rhea_dcl::RheaDclProvider;
use dex_aggregator::providers::rnear::{RNearProvider, RNEAR_CONTRACT};
use dex_aggregator::providers::veax::{VeaxProvider, VeaxQuote};
use dex_aggregator::providers::views::ViewCall;
use dex_aggregator::shared_utils::{
    create_storage_deposit_action_for_contract, create_wrap_action, TGAS, TOKEN_STORAGE, WRAP_NEAR,
};
use dex_aggregator::types::{
    Action, Amount, DexId, ExecutionInstruction, FunctionCallAction, Slippage, SwapRequest, TokenId,
};

fn account(name: &str) -> AccountId {
    AccountId::parse(name).unwrap()
}

fn request(token_in: TokenId, token_out: TokenId, amount: Amount) -> SwapRequest {
    SwapRequest {
        token_in,
        token_out,
        amount,
        max_wait_ms: 1_000,
        slippage: Slippage::Fixed { slippage: Decimal::parse("0.01").unwrap() },
        dexes: None,
        trader_account_id: Some(account("trader.near")),
        signing_public_key: None,
        referrer_id: None,
    }
}

fn ft() -> TokenId {
    TokenId::Nep141(account("ft"))
}

fn tx(receiver: &str, actions: Vec<Action>) -> ExecutionInstruction {
    ExecutionInstruction::NearTransaction { receiver_id: account(receiver), actions }
}

fn call(method: &str, args: &str, tgas: u64, deposit: u128) -> Action {
    Action::FunctionCall(FunctionCallAction {
        method_name: method.to_string(),
        args: args.as_bytes().to_vec(),
        gas: tgas * TGAS,
        deposit,
    })
}

fn storage() -> Action {
    create_storage_deposit_action_for_contract(TOKEN_STORAGE, true)
}

fn quote(amount_in: u128, amount_out: u128, hash: &str) -> NearIntentsQuote {
    NearIntentsQuote {
        defuse_asset_identifier_in: "nep141:wrap.near".to_string(),
        defuse_asset_identifier_out: "nep141:ft".to_string(),
        amount_in,
        amount_out,
        expiration_time: "2025-01-01T00:00:00Z".to_string(),
        quote_hash: hash.to_string(),
    }
}

#[test]
fn solvers_are_asked() {
    let mut wanted = request(TokenId::Near, ft(), Amount::AmountIn(100));
    let params = NearIntentsProvider.query(&wanted).unwrap();
    assert_eq!(params.defuse_asset_identifier_in, "nep141:wrap.near");
    assert_eq!(params.defuse_asset_identifier_out, "nep141:ft");
    assert_eq!(params.amount, ExactAmount::ExactAmountIn(100));
    assert_eq!((params.min_deadline_ms, params.wait_ms), (15_000, 500));
    wanted.max_wait_ms = 60_000;
    assert_eq!(NearIntentsProvider.query(&wanted).unwrap().wait_ms, 5_000);
    wanted.max_wait_ms = 499;
    assert_eq!(NearIntentsProvider.query(&wanted), None);
    wanted.max_wait_ms = 1_000;
    wanted.trader_account_id = None;
    assert_eq!(NearIntentsProvider.query(&wanted), None);
    assert_eq!(NearIntentsProvider.route(&wanted, &Network::new(), &vec![quote(100, 80, "h")], None), None);
}

#[test]
fn best_solver_is_taken() {
    let mut wanted = request(TokenId::Near, ft(), Amount::AmountIn(100));
    wanted.signing_public_key = Some("ed25519:key".to_string());
    let mut other = quote(100, 99, "other");
    other.defuse_asset_identifier_out = "nep141:other".to_string();
    let quotes = vec![quote(100, 80, "a"), quote(100, 82, "b"), quote(100, 82, "c"), other];
    let route = NearIntentsProvider.route(&wanted, &Network::new(), &quotes, Some(false)).unwrap();
    assert_eq!(route.dex_id, DexId::NearIntents);
    assert_eq!(route.deadline.as_deref(), Some("2025-01-01T00:00:00Z"));
    assert_eq!(route.estimated_amount, Amount::AmountOut(82));
    assert_eq!(route.worst_case_amount, Amount::AmountOut(82));
    assert_eq!(route.token_output, ft());
    let message = concat_message("82");
    assert_eq!(
        route.execution_instructions,
        vec![
            tx("intents.near", vec![call("add_public_key", r#"{"public_key":"ed25519:key"}"#, 5, 1)]),
            tx("ft", vec![storage()]),
            tx(WRAP_NEAR, vec![create_wrap_action(100)]),
            tx(
                WRAP_NEAR,
                vec![call("ft_transfer_call", r#"{"amount":"100","msg":"","receiver_id":"intents.near"}"#, 40, 1)]
            ),
            ExecutionInstruction::IntentsQuote { message_to_sign: message, quote_hash: "b".to_string() },
        ]
    );
    wanted.amount = Amount::AmountOut(80);
    let quotes = vec![quote(100, 80, "a"), quote(98, 80, "b"), quote(98, 80, "c")];
    let route = NearIntentsProvider.route(&wanted, &Network::new(), &quotes, Some(true)).unwrap();
    assert_eq!(route.estimated_amount, Amount::AmountIn(98));
    assert!(matches!(
        route.execution_instructions.last(),
        Some(ExecutionInstruction::IntentsQuote { quote_hash, .. }) if quote_hash == "b"
    ));
    assert_eq!(NearIntentsProvider.route(&wanted, &Network::new(), &vec![], None), None);
}

fn concat_message(amount_out: &str) -> String {
    format!(
        "{{\"deadline\":\"2025-01-01T00:00:00Z\",\"intents\":[{{\"diff\":{{\"nep141:ft\":\"{amount_out}\",\
         \"nep141:wrap.near\":\"-100\"}},\"intent\":\"token_diff\"}},{{\"amount\":\"{amount_out}\",\
         \"intent\":\"ft_withdraw\",\"receiver_id\":\"trader.near\",\"token\":\"ft\"}}],\
         \"signer_id\":\"trader.near\"}}"
    )
}

#[test]
fn veax_registers_and_swaps() {
    let wanted = request(TokenId::Near, ft(), Amount::AmountIn(100));
    let query = VeaxProvider.query(&wanted).unwrap();
    assert_eq!((query.token_in, query.token_out), (account(WRAP_NEAR), account("ft")));
    let answer = Some(VeaxQuote { estimated: 80, worst_case: 79 });
    let route = VeaxProvider.route(&wanted, &Network::new(), answer, &Some(vec![account(WRAP_NEAR)])).unwrap();
    assert_eq!(route.estimated_amount, Amount::AmountOut(80));
    assert_eq!(route.worst_case_amount, Amount::AmountOut(79));
    assert_eq!(route.token_output, ft());
    let message = "[\\\"Deposit\\\",{\\\"SwapExactIn\\\":{\\\"amount\\\":\\\"100\\\",\\\"amount_limit\\\":\\\"79\\\",\
                   \\\"token_in\\\":\\\"wrap.near\\\",\\\"token_out\\\":\\\"ft\\\"}},\
                   {\\\"Withdraw\\\":[\\\"wrap.near\\\",\\\"0\\\",null]},{\\\"Withdraw\\\":[\\\"ft\\\",\\\"0\\\",null]}]";
    let args = format!("{{\"amount\":\"100\",\"msg\":\"{message}\",\"receiver_id\":\"veax.near\"}}");
    assert_eq!(
        route.execution_instructions,
        vec![
            tx(
                "veax.near",
                vec![
                    create_storage_deposit_action_for_contract(3_660_000_000_000_000_000_000, true),
                    call("storage_deposit", "{}", 10, 2_840_000_000_000_000_000_000),
                    call("register_tokens", r#"{"token_ids":["ft"]}"#, 10, 1),
                ]
            ),
            tx(
                WRAP_NEAR,
                vec![storage(), create_wrap_action(100), call("ft_transfer_call", &args, 120, 1)]
            ),
        ]
    );
    let wanted = request(ft(), TokenId::Near, Amount::AmountOut(80));
    let route = VeaxProvider.route(&wanted, &Network::new(), Some(VeaxQuote { estimated: 100, worst_case: 101 }), &None);
    let route = route.unwrap();
    assert_eq!(route.worst_case_amount, Amount::AmountIn(101));
    assert_eq!(route.execution_instructions.len(), 2);
    assert_eq!(route.token_output, TokenId::Nep141(account(WRAP_NEAR)));
    assert_eq!(VeaxProvider.route(&wanted, &Network::new(), None, &None), None);
    let inside = request(TokenId::Nep141OnRhea(account("ft")), TokenId::Near, Amount::AmountIn(1));
    assert_eq!(VeaxProvider.query(&inside), None);
    assert_eq!(VeaxProvider.dex_id(), DexId::Veax);
}

#[test]
fn grafun_buys_and_sells() {
    let token = TokenId::Nep141(account("token.gra-fun.near"));
    let answer = GraFunQuote { amount_out: 80, min_amount_out: 79, is_tradable: true };
    let buy = request(TokenId::Near, token.clone(), Amount::AmountIn(100));
    let trade = GraFunProvider.query(&buy).unwrap();
    assert!(trade.is_buy && trade.is_native);
    let route = GraFunProvider.route(&buy, &Network::new(), Some(answer)).unwrap();
    let args = "{\"amount\":\"100\",\"msg\":\"{\\\"min_swap_amount\\\":\\\"79\\\",\\\"token\\\":\\\"token.gra-fun.near\\\"}\",\
                \"receiver_id\":\"gra-fun.near\"}";
    assert_eq!(
        route.execution_instructions,
        vec![
            tx("token.gra-fun.near", vec![storage()]),
            tx(WRAP_NEAR, vec![storage(), create_wrap_action(100), call("ft_transfer_call", args, 50, 1)]),
        ]
    );
    assert_eq!(route.token_output, token);
    let sell = request(token.clone(), TokenId::Near, Amount::AmountIn(100));
    let route = GraFunProvider.route(&sell, &Network::new(), Some(answer)).unwrap();
    let args = "{\"amount\":\"100\",\"msg\":\"{\\\"min_swap_amount\\\":\\\"79\\\",\\\"token\\\":null}\",\
                \"receiver_id\":\"gra-fun.near\"}";
    assert_eq!(
        route.execution_instructions,
        vec![tx("token.gra-fun.near", vec![call("ft_transfer_call", args, 50, 1)])]
    );
    assert_eq!(route.token_output, TokenId::Nep141(account(WRAP_NEAR)));
    let locked = GraFunQuote { is_tradable: false, ..answer };
    assert_eq!(GraFunProvider.route(&sell, &Network::new(), Some(locked)), None);
    assert_eq!(GraFunProvider.route(&sell, &Network::new(), None), None);
    assert_eq!(GraFunProvider.query(&request(token, TokenId::Near, Amount::AmountOut(1))), None);
    assert_eq!(GraFunProvider.query(&request(TokenId::Near, ft(), Amount::AmountIn(1))), None);
    assert_eq!(GraFunProvider.dex_id(), DexId::GraFun);
}

#[test]
fn rnear_is_staked_at_its_price() {
    let rnear = TokenId::Nep141(account(RNEAR_CONTRACT));
    let one = 1_000_000_000_000_000_000_000_000;
    let wanted = request(TokenId::Near, rnear.clone(), Amount::AmountIn(3 * one));
    assert!(RNearProvider.needs_price(&wanted));
    let route = RNearProvider.route(&wanted, &Network::new(), Some(one + one / 2)).unwrap();
    assert_eq!(route.estimated_amount, Amount::AmountOut(2 * one - 1));
    assert_eq!(
        route.execution_instructions,
        vec![
            tx(RNEAR_CONTRACT, vec![storage()]),
            tx(RNEAR_CONTRACT, vec![call("deposit_and_stake", "{}", 10, 3 * one)]),
        ]
    );
    let wanted = request(TokenId::Near, rnear.clone(), Amount::AmountOut(2 * one));
    let route = RNearProvider.route(&wanted, &Network::new(), Some(one + one / 2)).unwrap();
    assert_eq!(route.estimated_amount, Amount::AmountIn(3 * one));
    assert_eq!(RNearProvider.route(&wanted, &Network::new(), None), None);
    let back = request(rnear, TokenId::Near, Amount::AmountIn(one));
    assert!(!RNearProvider.needs_price(&back));
    assert_eq!(RNearProvider.route(&back, &Network::new(), Some(one)), None);
    assert_eq!(RNearProvider.dex_id(), DexId::RNear);
}

fn asks(call: &ViewCall, method: &str, args: &str) {
    assert_eq!(call.method, method);
    let asked: serde_json::Value = serde_json::from_slice(&call.args).unwrap();
    let wanted: serde_json::Value = serde_json::from_str(args).unwrap();
    assert_eq!(asked, wanted);
}

#[test]
fn contracts_are_asked_for_quotes() {
    let curve = || TokenId::Nep141(account("t.aidols.near"));
    let wanted = request(TokenId::Near, curve(), Amount::AmountIn(100));
    let query = AidolsProvider.query(&wanted).unwrap();
    let args = r#"{"input_token":"wrap.near","output_token":"t.aidols.near","amount":"100"}"#;
    asks(&query.call(wanted.amount), "emulate_swap", args);
    let args = r#"{"input_token":"wrap.near","output_token":"t.aidols.near","amount_out":"70"}"#;
    asks(&query.call(Amount::AmountOut(70)), "emulate_swap_by_out", args);

    let token = || TokenId::Nep141(account("t.gra-fun.near"));
    let buy = GraFunProvider.query(&request(TokenId::Near, token(), Amount::AmountIn(100))).unwrap();
    let args = r#"{"input_token":"wrap.near","output_token":"t.gra-fun.near","amount":"100"}"#;
    asks(&buy.call(), "emulate_swap", args);
    let sell = GraFunProvider.query(&request(token(), TokenId::Near, Amount::AmountIn(9))).unwrap();
    let args = r#"{"input_token":"t.gra-fun.near","output_token":"wrap.near","amount":"9"}"#;
    asks(&sell.call(), "emulate_swap", args);

    let wanted = request(TokenId::Near, ft(), Amount::AmountOut(5));
    let query = VeaxProvider.query(&wanted).unwrap();
    for (amount, exact, units) in [(Amount::AmountIn(7), "true", 7), (wanted.amount, "false", 5)] {
        let args = format!(
            r#"{{"is_exact_in":{exact},"token_in":"wrap.near","token_out":"ft","amount":"{units}","slippage_tolerance_bp":0}}"#
        );
        asks(&query.call(amount), "estimate_swap_exact", &args);
    }

    let query = RheaDclProvider.query(&wanted).unwrap();
    for (amount, method, key) in
        [(Amount::AmountIn(5), "quote", "input_amount"), (Amount::AmountOut(5), "quote_by_output", "output_amount")]
    {
        let calls = query.calls(amount);
        assert_eq!(calls.len(), query.pool_ids.len());
        assert!(calls.len() > 1);
        for (call, pool) in calls.iter().zip(&query.pool_ids) {
            let args = format!(
                r#"{{"pool_ids":["{pool}"],"input_token":"wrap.near","output_token":"ft","{key}":"5"}}"#
            );
            asks(call, method, &args);
        }
    }
}

#[test]
fn path_finders_are_asked() {
    let market = dex_aggregator::slippage::Market { tokens: None, height: None };
    let mut wanted = request(TokenId::Near, ft(), Amount::AmountIn(100));
    let query = dex_aggregator::providers::rhea::RheaProvider.query(&wanted, &market).unwrap();
    assert_eq!(
        query.url(),
        "http://localhost:12345/findPath?tokenIn=wrap.near&tokenOut=ft&maxHops=Four&slippage=0.01&amountIn=100"
    );
    let plach = dex_aggregator::providers::intear_plach::IntearPlachProvider;
    assert_eq!(
        plach.query(&wanted, &market).unwrap().url(),
        "http://localhost:12346/findPath?tokenIn=near&tokenOut=nep141:ft&maxHops=Four&slippage=0.01&amountIn=100"
    );
    wanted.amount = Amount::AmountOut(7);
    assert_eq!(
        plach.query(&wanted, &market).unwrap().url(),
        "http://localhost:12346/findPath?tokenIn=near&tokenOut=nep141:ft&maxHops=DirectOnly&slippage=0.01&amountOut=7"
    );
}

#[test]
fn traders_are_asked_about() {
    let mut wanted = request(TokenId::Near, ft(), Amount::AmountIn(100));
    let call = VeaxProvider.tokens_call(&wanted).unwrap();
    asks(&call, "get_user_tokens", r#"{"account_id":"trader.near"}"#);
    assert_eq!(NearIntentsProvider.key_call(&wanted), None);
    wanted.signing_public_key = Some("ed25519:abc".to_string());
    let call = NearIntentsProvider.key_call(&wanted).unwrap();
    asks(&call, "has_public_key", r#"{"account_id":"trader.near","public_key":"ed25519:abc"}"#);
    wanted.trader_account_id = None;
    assert_eq!(VeaxProvider.tokens_call(&wanted), None);
    assert_eq!(NearIntentsProvider.key_call(&wanted), None);
    let call = dex_aggregator::providers::metapool::MetapoolProvider.discount_call(12);
    asks(&call, "nslp_get_discount_basis_points", r#"{"stnear_to_sell":"12"}"#);
}

#[test]
fn solvers_are_sent_the_question() {
    for (amount, key) in [(Amount::AmountIn(100), "exact_amount_in"), (Amount::AmountOut(100), "exact_amount_out")] {
        let params = NearIntentsProvider.query(&request(TokenId::Near, ft(), amount)).unwrap();
        let sent: serde_json::Value = serde_json::from_slice(&params.body()).unwrap();
        let wanted = format!(
            r#"{{"jsonrpc":"2.0","id":"dontcare","method":"quote","params":[{{
                "defuse_asset_identifier_out":"nep141:ft","defuse_asset_identifier_in":"nep141:wrap.near",
                "{key}":"100","min_deadline_ms":15000,"wait_ms":500}}]}}"#
        );
        let wanted: serde_json::Value = serde_json::from_str(&wanted).unwrap();
        assert_eq!(sent, wanted);
    }
}
