//! Checking requests, slippage, and the order of routes.

use dex_aggregator::account::AccountId;
use dex_aggregator::asset::AssetId;
use dex_aggregator::decimal::{larger, Decimal};
use dex_aggregator::facts::facts_for;
use dex_aggregator::ident::IdentPair;
use dex_aggregator::network::Network;
use dex_aggregator::providers::metapool::{MetapoolContractState, MetapoolProvider, METAPOOL_CONTRACT};
use dex_aggregator::providers::wrap::WrapProvider;
use dex_aggregator::providers::xrhea::{XRheaProvider, RHEA_TOKEN, XRHEA_TOKEN};
use dex_aggregator::router::{answer_routes, check_request, exchanges, finish_route, is_asked, rank_routes, RequestError};
use dex_aggregator::shared_utils::{create_unwrap_action, create_wrap_action, WRAP_NEAR};
use dex_aggregator::slippage::{add_native, get_slippage, read_price, Market, TokenEntry, TokenInfo};
use dex_aggregator::types::{Amount, DexId, ExecutionInstruction, Route, Slippage, SwapRequest, TokenId};

fn account(name: &str) -> AccountId {
    AccountId::parse(name).unwrap()
}

fn decimal(text: &str) -> Decimal {
    Decimal::parse(text).unwrap()
}

fn fixed(text: &str) -> Slippage {
    Slippage::Fixed { slippage: decimal(text) }
}

fn auto(max: &str, min: &str) -> Slippage {
    Slippage::Auto { max_slippage: decimal(max), min_slippage: decimal(min) }
}

fn request() -> SwapRequest {
    SwapRequest {
        token_in: TokenId::Near,
        token_out: TokenId::Nep141(account("ft")),
        amount: Amount::AmountIn(100),
        max_wait_ms: 1_000,
        slippage: fixed("0.01"),
        dexes: None,
        trader_account_id: None,
        signing_public_key: None,
        referrer_id: None,
    }
}

fn refused(change: impl Fn(&mut SwapRequest)) -> RequestError {
    let mut request = request();
    change(&mut request);
    check_request(&request).unwrap_err()
}

#[test]
fn requests_are_checked() {
    assert_eq!(check_request(&request()), Ok(()));
    let error = refused(|request| request.slippage = auto("1.1", "0"));
    assert_eq!(error, RequestError::MaxSlippageOutOfRange);
    assert_eq!(error.message(), "Max slippage must be between 0.00 and 1.00");
    let error = refused(|request| request.slippage = auto("0.1", "-0.1"));
    assert_eq!(error, RequestError::MinSlippageOutOfRange);
    assert_eq!(error.message(), "Min slippage must be between 0.00 and 1.00");
    let error = refused(|request| request.slippage = auto("0.1", "0.2"));
    assert_eq!(error, RequestError::MaxSlippageBelowMin);
    assert_eq!(error.message(), "Max slippage must be greater than min slippage");
    let error = refused(|request| request.slippage = fixed("1.5"));
    assert_eq!(error, RequestError::SlippageOutOfRange);
    assert_eq!(error.message(), "Slippage must be between 0.00 and 1.00");
    let error = refused(|request| request.token_out = TokenId::Near);
    assert_eq!(error, RequestError::SameTokens);
    assert_eq!(error.message(), "Token in and token out must be different");
    let error = refused(|request| request.max_wait_ms = 60_001);
    assert_eq!(error, RequestError::WaitTooLong);
    assert_eq!(error.message(), "Max wait must be less than 60 seconds");
    let error = refused(|request| request.dexes = Some(vec![]));
    assert_eq!(error, RequestError::NoDexes);
    assert_eq!(error.message(), "Dexes must not be an empty array");
}

#[test]
fn exchanges_are_listed_once() {
    let all = exchanges(&None);
    assert_eq!(all.len(), 12);
    for dex_id in &all {
        assert_eq!(all.iter().filter(|other| *other == dex_id).count(), 1);
    }
    let named = vec![DexId::Plach, DexId::Rhea, DexId::Plach];
    assert_eq!(exchanges(&Some(named)), vec![DexId::Rhea, DexId::Plach]);
    assert_eq!(exchanges(&Some(vec![])), vec![]);
}

fn pairs(noted: &[IdentPair<AccountId, AccountId>]) -> Vec<(&str, &str)> {
    let mut pairs: Vec<(&str, &str)> =
        noted.iter().map(|pair| (pair.first.as_str(), pair.second.as_str())).collect();
    pairs.sort();
    pairs
}

#[test]
fn facts_are_asked_for() {
    let mut wanted = request();
    let facts = facts_for(&wanted);
    assert_eq!(pairs(&facts.storage), vec![("dex.intear.near", "ft"), ("v2.ref-finance.near", "ft")]);
    assert!(facts.on_rhea.is_empty() && facts.on_intear.is_empty() && facts.balances.is_empty());

    wanted.trader_account_id = Some(account("me.near"));
    wanted.token_out = TokenId::Nep141OnRhea(account("ft"));
    let facts = facts_for(&wanted);
    assert_eq!(
        pairs(&facts.storage),
        vec![
            ("dex.intear.near", "ft"),
            ("me.near", "dclv2.ref-labs.near"),
            ("me.near", "ft"),
            ("me.near", "veax.near"),
            ("me.near", "wrap.near"),
            ("v2.ref-finance.near", "ft"),
        ]
    );
    assert_eq!(pairs(&facts.on_rhea), vec![("me.near", "ft")]);
    let mut inner: Vec<String> = facts.on_intear.iter().map(|pair| pair.second.to_text()).collect();
    inner.sort();
    assert_eq!(inner, vec!["near", "nep141:ft", "nep141:wrap.near"]);
    assert_eq!(facts.balances, vec![account("me.near")]);

    let gold = AssetId::Nep245(account("mt"), "gold".to_string());
    wanted.token_in = TokenId::TokenOnIntearDex(gold.clone());
    let facts = facts_for(&wanted);
    assert!(facts.on_intear.iter().any(|pair| pair.first == account("me.near") && pair.second == gold));
}

#[test]
fn routes_rest_on_what_was_asked() {
    let mut wanted = request();
    wanted.trader_account_id = Some(account("me.near"));
    wanted.token_out = TokenId::Nep141OnRhea(account("ft"));
    let finished = |network: &Network| {
        let mut route = out(DexId::Rhea, 7);
        route.token_output = TokenId::Nep141(account("ft"));
        finish_route(&wanted, network, route).execution_instructions
    };
    let mut known = Network::new();
    for pair in facts_for(&wanted).storage {
        known.storage_totals.insert(pair, 1);
    }
    let mut more = Network::new();
    for pair in facts_for(&wanted).storage {
        more.storage_totals.insert(pair, 1);
    }
    more.storage_totals.insert(IdentPair { first: account("me.near"), second: account("other") }, 1);
    more.native_balances.insert(account("other"), 1);
    assert_eq!(finished(&known), finished(&more));
    assert_ne!(finished(&known), finished(&Network::new()));
}

#[test]
fn named_exchanges_are_asked() {
    assert!(is_asked(&None, DexId::Rhea));
    assert!(is_asked(&Some(vec![DexId::Wrap, DexId::Rhea]), DexId::Rhea));
    assert!(!is_asked(&Some(vec![DexId::Wrap]), DexId::Rhea));
}

fn info(created_at: u64) -> TokenInfo {
    TokenInfo {
        price_usd_raw: decimal("1"),
        price_usd_raw_24h_ago: decimal("1"),
        circulating_supply: 1_000_000,
        liquidity_usd: decimal("1000"),
        volume_usd_24h: decimal("0"),
        created_at,
    }
}

fn market(entries: Vec<(&str, TokenInfo)>) -> Market {
    let tokens = entries
        .into_iter()
        .map(|(name, info)| TokenEntry { token: TokenId::Nep141(account(name)), info })
        .collect();
    Market { tokens: Some(add_native(tokens)), height: Some(1_000_000) }
}

/// Whether the slippage for a swap lies between two numbers.
fn between(market: &Market, slippage: &Slippage, low: &str, high: &str) -> bool {
    let given = get_slippage(market, slippage, &TokenId::Near, &TokenId::Nep141(account("ft")));
    larger(given.duplicate(), decimal(low)) == given && larger(given.duplicate(), decimal(high)) == decimal(high)
}

#[test]
fn fixed_slippage_is_kept_in_reach() {
    let market = Market { tokens: None, height: None };
    let ft = TokenId::Nep141(account("ft"));
    assert_eq!(get_slippage(&market, &fixed("0.01"), &TokenId::Near, &ft), decimal("0.01"));
    assert!(between(&market, &fixed("0"), "0.000099999", "0.000100001"));
    assert!(between(&market, &fixed("1"), "0.999899999", "0.999900001"));
}

#[test]
fn auto_slippage_follows_the_market() {
    let slippage = auto("0.11", "0.01");
    let calm = market(vec![("wrap.near", info(0)), ("ft", info(0))]);
    assert!(between(&calm, &slippage, "0.0099999", "0.0100001"));
    let new = market(vec![("wrap.near", info(0)), ("ft", info(999_950))]);
    assert!(between(&new, &slippage, "0.1099999", "0.1100001"));
    let fresh = market(vec![("wrap.near", info(0)), ("ft", info(999_500))]);
    assert!(between(&fresh, &slippage, "0.0699999", "0.0700001"));
    let unlisted = market(vec![("wrap.near", info(0))]);
    assert!(between(&unlisted, &slippage, "0.0899999", "0.0900001"));
    let unknown = Market { tokens: None, height: None };
    assert!(between(&unknown, &slippage, "0.0104999", "0.0105001"));
    let mut wild = info(0);
    wild.price_usd_raw_24h_ago = decimal("2");
    wild.volume_usd_24h = decimal("2000000");
    let wild = market(vec![("wrap.near", info(0)), ("ft", wild)]);
    assert!(between(&wild, &slippage, "0.0699999", "0.0700001"));
    let mut moved = info(0);
    moved.price_usd_raw_24h_ago = decimal("1.3");
    let moved = market(vec![("wrap.near", info(0)), ("ft", moved)]);
    assert!(between(&moved, &slippage, "0.0149999", "0.0150001"));
}

#[test]
fn prices_are_per_unit() {
    assert_eq!(read_price("ft", "2500000"), Some((account("ft"), decimal("2.5"))));
    assert_eq!(read_price("No account", "1"), None);
    assert_eq!(read_price("ft", "much"), None);
    assert_eq!(read_price("ft", "1e-20000000"), Some((account("ft"), decimal("1e-20000006"))));
}

fn route(dex_id: DexId, estimated: Amount, worst: Amount) -> Route {
    Route {
        dex_id,
        deadline: None,
        has_slippage: estimated != worst,
        estimated_amount: estimated,
        worst_case_amount: worst,
        execution_instructions: vec![],
        deprecated_needs_unwrap_always_false: false,
        token_output: TokenId::Nep141(account(WRAP_NEAR)),
    }
}

fn out(dex_id: DexId, amount: u128) -> Route {
    route(dex_id, Amount::AmountOut(amount), Amount::AmountOut(amount))
}

fn order(routes: Vec<Route>) -> Vec<DexId> {
    rank_routes(routes).into_iter().map(|route| route.dex_id).collect()
}

#[test]
fn best_route_comes_first() {
    assert_eq!(
        order(vec![out(DexId::Rhea, 5), out(DexId::Veax, 9), out(DexId::Plach, 5), out(DexId::Wrap, u128::MAX)]),
        vec![DexId::Wrap, DexId::Veax, DexId::Rhea, DexId::Plach]
    );
    let taken = |dex_id, amount| route(dex_id, Amount::AmountIn(amount), Amount::AmountIn(amount));
    assert_eq!(
        order(vec![taken(DexId::Rhea, 5), taken(DexId::Veax, 9), taken(DexId::Plach, 4)]),
        vec![DexId::Plach, DexId::Rhea, DexId::Veax]
    );
    assert_eq!(order(vec![]), vec![]);
}

#[test]
fn known_output_is_delivered() {
    let network = Network::new();
    let unwrap = |amount| {
        vec![ExecutionInstruction::NearTransaction {
            receiver_id: account(WRAP_NEAR),
            actions: vec![create_unwrap_action(amount)],
        }]
    };
    let mut wanted = request();
    wanted.token_out = TokenId::Near;
    assert_eq!(finish_route(&wanted, &network, out(DexId::Rhea, 5)).execution_instructions, unwrap(5));
    let sliding = route(DexId::Rhea, Amount::AmountOut(5), Amount::AmountOut(4));
    assert_eq!(finish_route(&wanted, &network, sliding).execution_instructions, vec![]);
    wanted.amount = Amount::AmountOut(7);
    let exact = route(DexId::Rhea, Amount::AmountIn(5), Amount::AmountIn(6));
    assert_eq!(finish_route(&wanted, &network, exact).execution_instructions, unwrap(7));
    let answers = answer_routes(
        &wanted,
        &network,
        vec![
            route(DexId::Rhea, Amount::AmountIn(5), Amount::AmountIn(6)),
            route(DexId::Veax, Amount::AmountIn(4), Amount::AmountIn(6)),
        ],
    );
    assert_eq!(answers.len(), 2);
    assert_eq!(answers[0].dex_id, DexId::Veax);
    assert_eq!(answers[1].execution_instructions, unwrap(7));
}

/// What a swap between RHEA and xRHEA gives for an amount.
fn staked(token_in: &str, token_out: &str, amount: u128, price: u128) -> Option<Route> {
    let mut request = request();
    request.token_in = TokenId::Nep141(account(token_in));
    request.token_out = TokenId::Nep141(account(token_out));
    request.amount = Amount::AmountIn(amount);
    XRheaProvider.route(&request, &Network::new(), Some(price))
}

#[test]
fn staking_and_unstaking_never_gain() {
    for price in [1, 99_999_999, 100_000_000, 123_456_789, 300_000_001] {
        let there = staked(RHEA_TOKEN, XRHEA_TOKEN, 1_000_000_007, price).unwrap();
        let brought = 1_000_000_007 * 100_000_000 / price;
        assert_eq!(there.estimated_amount, Amount::AmountOut(brought));
        assert_eq!(there.worst_case_amount, Amount::AmountOut(brought));
        let back = staked(XRHEA_TOKEN, RHEA_TOKEN, brought, price).unwrap();
        let given = brought * price / 100_000_000;
        assert_eq!(back.estimated_amount, Amount::AmountOut(given));
        assert!(given <= 1_000_000_007);
        assert!(!there.has_slippage && !back.has_slippage);
    }
    assert_eq!(staked(RHEA_TOKEN, XRHEA_TOKEN, 1, 0), None);
}

#[test]
fn discount_is_taken_exactly() {
    let near = 1_000_000_000_000_000_000_000_000;
    let mut request = request();
    request.token_in = TokenId::Nep141(account(METAPOOL_CONTRACT));
    request.token_out = TokenId::Near;
    request.amount = Amount::AmountIn(3 * near);
    let market = Market { tokens: None, height: None };
    let state = MetapoolContractState { st_near_price: near, nslp_liquidity: 100 * near };
    let given = |request: &SwapRequest, bp| {
        MetapoolProvider.route(request, &Network::new(), &market, Some(state), Some(bp)).map(|route| route.estimated_amount)
    };
    assert_eq!(given(&request, 300), Some(Amount::AmountOut((3 * near - 1) * 10_000 / 10_300)));
    assert_eq!(given(&request, 0), Some(Amount::AmountOut(3 * near - 1)));
    request.amount = Amount::AmountOut(3 * near);
    assert_eq!(given(&request, 300), Some(Amount::AmountIn(3 * near * 10_000 / 9_700)));
    assert_eq!(given(&request, 10_000), None);
    assert_eq!(given(&request, 10_001), None);
}

#[test]
fn far_scales_are_left_out() {
    assert!(request().slippage.is_usable());
    assert!(!fixed("1e-20000000").is_usable());
    assert!(!auto("0.1", "1e-20000000").is_usable());
    assert_eq!(refused(|request| request.slippage = fixed("1e9000000")), RequestError::SlippageOutOfRange);
    let mut tiny = request();
    tiny.slippage = fixed("1e-9000000");
    assert_eq!(check_request(&tiny), Ok(()));
}

#[test]
fn wrapping_is_one_for_one() {
    let mut wanted = request();
    wanted.token_out = TokenId::Nep141(account(WRAP_NEAR));
    let route = WrapProvider.route(&wanted).unwrap();
    assert_eq!(route.estimated_amount, Amount::AmountOut(100));
    assert_eq!(route.worst_case_amount, Amount::AmountOut(100));
    assert!(!route.has_slippage);
    assert_eq!(route.execution_instructions, vec![]);
    assert_eq!(route.token_output, TokenId::Near);
    assert_eq!(
        finish_route(&wanted, &Network::new(), route).execution_instructions,
        vec![ExecutionInstruction::NearTransaction {
            receiver_id: account(WRAP_NEAR),
            actions: vec![create_wrap_action(100)],
        }]
    );
    wanted.token_out = TokenId::Nep141(account("ft"));
    assert_eq!(WrapProvider.route(&wanted), None);
    wanted.token_in = TokenId::Nep141OnRhea(account("ft"));
    wanted.amount = Amount::AmountOut(7);
    assert_eq!(WrapProvider.route(&wanted).unwrap().estimated_amount, Amount::AmountIn(7));
    assert_eq!(WrapProvider.dex_id(), DexId::Wrap);
}
