//! Finding paths through pools, and answering queries for them.

use dex_aggregator::account::AccountId;
use dex_aggregator::asset::AssetId;
use dex_aggregator::decimal::Decimal;
use dex_aggregator::paging::{RC_INVALID_SLIPPAGE, RC_ROUTE_ERROR, RC_SUCCESS};
use dex_aggregator::pathfinder::choice::{OfferError, RouteError};
use dex_aggregator::pathfinder::market::PoolsDelta;
use dex_aggregator::pathfinder::pools::Pools;
use dex_aggregator::pathfinder::route::{QuoteAmount, Route, RouteStep};
use dex_aggregator::pathfinder::search::{find_best_route, find_best_routes, MaxHops};
use dex_aggregator::pathfinder::split::{find_best_split_route, SplitRoute, SplitRouteStep};
use dex_aggregator::plach;
use dex_aggregator::plach::fees::{CurrentFees, FeeConfiguration, FeeReceiver};
use dex_aggregator::rhea;
use dex_aggregator::rhea::api::{PoolsError, QuerySlippage};
use dex_aggregator::rhea::pool::{Pool, PoolDetailInfo, PoolInfo, PoolKind, SimplePoolInfo};

fn account(name: &str) -> AccountId {
    AccountId::parse(name).unwrap()
}

fn info(tokens: [&str; 2], amounts: [u128; 2]) -> PoolInfo {
    PoolInfo {
        amounts: amounts.to_vec(),
        amp: 0,
        pool_kind: PoolKind::SimplePool,
        shares_total_supply: "1".to_string(),
        token_account_ids: tokens.iter().map(|token| account(token)).collect(),
        total_fee: 30,
    }
}

fn detail(tokens: [&str; 2], amounts: [u128; 2]) -> PoolDetailInfo {
    PoolDetailInfo::SimplePoolInfo(SimplePoolInfo {
        token_account_ids: tokens.iter().map(|token| account(token)).collect(),
        amounts: amounts.to_vec(),
        total_fee: 30,
        shares_total_supply: 1,
    })
}

fn rhea_pools(pools: &[([&str; 2], [u128; 2])]) -> Pools<Pool> {
    let infos = pools.iter().map(|(tokens, amounts)| info(*tokens, *amounts)).collect();
    let details = pools.iter().map(|(tokens, amounts)| detail(*tokens, *amounts)).collect();
    match rhea::api::build_pools(infos, details) {
        Ok(pools) => pools,
        Err(_) => panic!("as many infos as details"),
    }
}

fn triangle() -> Pools<Pool> {
    rhea_pools(&[
        (["aa", "bb"], [1_000_000, 1_000_000]),
        (["bb", "cc"], [1_000_000, 1_000_000]),
        (["aa", "cc"], [1_000_000, 500_000]),
    ])
}

#[test]
fn pools_and_details_go_together() {
    let refused = rhea::api::build_pools(vec![info(["aa", "bb"], [1, 1])], vec![]);
    assert!(matches!(refused, Err(PoolsError::DifferentLengths)));
}

#[test]
fn pools_are_found_by_their_tokens() {
    let pools = triangle();
    assert!(pools.has_direct_pool(&account("aa"), &account("cc")));
    assert!(!pools.has_direct_pool(&account("aa"), &account("dd")));
    assert_eq!(pools.direct_pools(&account("cc"), &account("aa")).len(), 1);
    assert_eq!(pools.neighbours(&account("aa")).len(), 3);
    let more = rhea_pools(&[
        (["aa", "bb"], [1, 1]),
        (["bb", "cc"], [1, 1]),
        (["bb", "aa"], [1, 1]),
        (["aa", "cc"], [1, 1]),
    ]);
    let ids = |found: Vec<&Pool>| found.iter().map(|pool| pool.id).collect::<Vec<_>>();
    assert_eq!(ids(more.direct_pools(&account("aa"), &account("bb"))), vec![0, 2]);
    assert_eq!(ids(more.direct_pools(&account("bb"), &account("aa"))), vec![0, 2]);
    assert_eq!(ids(more.pools_with_token(&account("aa"))), vec![0, 2, 3]);
    assert_eq!(ids(more.pools_with_token(&account("dd"))), Vec::<u64>::new());
}

#[test]
fn routes_keep_to_the_hops() {
    let chain = rhea_pools(&[
        (["aa", "bb"], [1_000_000, 1_000_000]),
        (["bb", "cc"], [1_000_000, 1_000_000]),
        (["cc", "dd"], [1_000_000, 1_000_000]),
    ]);
    let quote = QuoteAmount::ExactIn(1_000);
    let (a, c, d) = (account("aa"), account("cc"), account("dd"));
    assert!(find_best_route(&chain, quote, &a, &c, MaxHops::DirectOnly).is_none());
    assert_eq!(find_best_route(&chain, quote, &a, &c, MaxHops::Two).unwrap().steps.len(), 2);
    assert!(find_best_route(&chain, quote, &a, &d, MaxHops::Two).is_none());
    for hops in [MaxHops::Three, MaxHops::Four, MaxHops::Max] {
        assert_eq!(find_best_route(&chain, quote, &a, &d, hops).unwrap().steps.len(), 3);
    }
}

#[test]
fn two_pools_beat_one() {
    let pools = triangle();
    let quote = QuoteAmount::ExactIn(1_000);
    let direct = find_best_route(&pools, quote, &account("aa"), &account("cc"), MaxHops::DirectOnly).unwrap();
    assert_eq!(direct.to_text(), "Route: aa --- (2) ---> cc");
    assert_eq!(direct.emulate(&account("aa"), &account("cc"), quote), Some(498));
    let best = find_best_route(&pools, quote, &account("aa"), &account("cc"), MaxHops::Two).unwrap();
    assert_eq!(best.to_text(), "Route: aa --- (0) ---> bb --- (1) ---> cc");
    assert_eq!(best.emulate(&account("aa"), &account("cc"), quote), Some(992));
    let both = find_best_routes(&pools, quote, &account("aa"), &account("cc"), MaxHops::Two, 2);
    assert_eq!(both.len(), 2);
    assert!(find_best_route(&pools, quote, &account("aa"), &account("dd"), MaxHops::Max).is_none());
    let changed = best.emulate_swap_exact_in(&account("aa"), &account("cc"), 1_000, PoolsDelta::new());
    assert_eq!(changed.map(|(out, _)| out), Some(992));
}

#[test]
fn direct_pools_go_by_their_detail() {
    let (a, b) = (["aa", "bb"], account("bb"));
    let listed = vec![info(a, [1_000_000, 10]), info(a, [1_000_000, 1_000_000])];
    let details = vec![detail(a, [1_000_000, 2_000_000]), detail(a, [1_000_000, 1_000_000])];
    let pools = rhea::api::build_pools(listed, details).ok().unwrap();
    let quote = QuoteAmount::ExactIn(1_000);
    let best = find_best_route(&pools, quote, &account("aa"), &b, MaxHops::DirectOnly).unwrap();
    assert_eq!(best.to_text(), "Route: aa --- (0) ---> bb");
    let both = find_best_routes(&pools, quote, &account("aa"), &b, MaxHops::DirectOnly, 2);
    let ids: Vec<u64> = both.iter().map(|route| route.steps[0].pool.id).collect();
    assert_eq!(ids, vec![0, 1]);
}

#[test]
fn plach_pages_are_asked_for() {
    assert_eq!(plach::api::answer_bytes("BAEAAA=="), Some(vec![4, 1, 0, 0]));
    assert_eq!(plach::api::answer_bytes("BAEAAA"), None);
    assert_eq!(plach::api::read_pool_count("BAEAAA=="), Some(260));
    for answer in ["", "BAEA", "BAEAAAA=", "not base64"] {
        assert_eq!(plach::api::read_pool_count(answer), None);
    }
    assert_eq!(plach::api::counted(&Some(vec![4, 1, 0, 0])), Some(260));
    assert_eq!(plach::api::counted(&None), None);
    assert_eq!(plach::api::page_args(300, 100), borsh::to_vec(&(300u32, 100u32)).unwrap());
    let asked = |call: dex_aggregator::providers::views::ViewCall| {
        let args: serde_json::Value = serde_json::from_slice(&call.args).unwrap();
        let field = |name: &str| args[name].as_str().unwrap().to_string();
        assert_eq!(args.as_object().unwrap().len(), 3);
        (call.method.clone(), field("dex_id"), field("method"), field("args"))
    };
    let question = |method: &str, args: &str| {
        ("dex_view".to_string(), "slimedragon.near/xyk".to_string(), method.to_string(), args.to_string())
    };
    assert_eq!(asked(plach::api::pool_count_call()), question("get_pool_count", ""));
    assert_eq!(asked(plach::api::pools_call(300)), question("get_pools", "LAEAABQAAAA="));
}

#[test]
fn routes_have_a_text() {
    let empty: Route<Pool> = Route { steps: vec![] };
    assert_eq!(empty.to_text(), "(empty route)");
    let none: SplitRoute<Pool> = SplitRoute::new(vec![]);
    assert_eq!(none.to_text(), "Split Route:\n");
    let single: SplitRoute<Pool> = SplitRoute::single(Route { steps: vec![] });
    assert_eq!(single.to_text(), "Split Route:\n  100% (empty route)");
    assert_eq!(MaxHops::DirectOnly.name(), "DirectOnly");
    assert_eq!(MaxHops::Four.name(), "Four");
}

#[test]
fn equal_pools_share_the_amount() {
    let pools = rhea_pools(&[
        (["aa", "bb"], [1_000_000, 1_000_000]),
        (["aa", "bb"], [1_000_000, 1_000_000]),
    ]);
    let (a, b) = (account("aa"), account("bb"));
    let quote = QuoteAmount::ExactIn(500_000);
    let routes = find_best_routes(&pools, quote, &a, &b, MaxHops::DirectOnly, 2);
    let split = match find_best_split_route(&routes, quote, &a, &b, 1, false) {
        Some(split) => split,
        None => panic!("two routes can be split"),
    };
    assert_eq!(split.steps.iter().map(|step| step.weight).sum::<u32>(), 100);
    assert_eq!(split.steps.len(), 2);
    let alone = routes[0].emulate(&a, &b, quote).unwrap();
    let offer = rhea::api::to_api_response(&split, &a, &b, 500_000, 50).unwrap();
    assert!(offer.amount_out > alone);
    assert_eq!(offer.routes.iter().map(|route| route.amount_in).sum::<u128>(), 500_000);
    assert!(offer.routes.iter().all(|route| route.amount_out == 0));
}

#[test]
fn rhea_query_is_answered() {
    let pools = triangle();
    let (a, c) = (account("aa"), account("cc"));
    let answer =
        rhea::api::handle_find_path(&pools, &a, &c, 1_000, MaxHops::DirectOnly, QuerySlippage::BasisPoints(50));
    assert_eq!(answer.result_code, RC_SUCCESS);
    assert_eq!(answer.result_message, "");
    let offer = answer.result_data.unwrap();
    assert_eq!((offer.amount_in, offer.amount_out), (1_000, 498));
    assert_eq!(offer.routes.len(), 1);
    assert_eq!(offer.routes[0].min_amount_out, 495);
    assert_eq!(offer.routes[0].pools.len(), 1);
    assert_eq!(offer.routes[0].pools[0].pool_id, 2);
    assert_eq!(offer.routes[0].pools[0].min_amount_out, 495);
    let same = rhea::api::handle_find_path(&pools, &a, &c, 1_000, MaxHops::DirectOnly, QuerySlippage::Missing);
    assert_eq!(same.result_data.unwrap().routes[0].min_amount_out, 495);
}

#[test]
fn rhea_query_is_refused() {
    let pools = triangle();
    let (a, d) = (account("aa"), account("dd"));
    for slippage in [QuerySlippage::Invalid, QuerySlippage::BasisPoints(10_001)] {
        let answer = rhea::api::handle_find_path(&pools, &a, &d, 1_000, MaxHops::Two, slippage);
        assert_eq!(answer.result_code, RC_INVALID_SLIPPAGE);
        assert_eq!(answer.result_message, "Invalid slippage");
        assert!(answer.result_data.is_none());
    }
    let answer = rhea::api::handle_find_path(&pools, &a, &d, 1_000, MaxHops::Two, QuerySlippage::Missing);
    assert_eq!((answer.result_code, answer.result_message.as_str()), (RC_ROUTE_ERROR, "No routes found"));
    assert!(matches!(rhea::api::route(&a, &d, 1_000, &pools, MaxHops::Two), Err(RouteError::NoRoutes)));
    let zero = rhea::api::route(&a, &account("cc"), 1, &pools, MaxHops::DirectOnly);
    assert!(matches!(zero, Err(RouteError::NoSplit | RouteError::Zero)));
    assert_eq!(rhea::api::min_amount_of(1_000, 50), Some(995));
    assert_eq!(rhea::api::min_amount_of(u128::MAX, 50), None);
}

fn nep141(name: &str) -> AssetId {
    AssetId::Nep141(account(name))
}

fn fees(fractions: &[u32]) -> CurrentFees {
    CurrentFees { receivers: fractions.iter().map(|fraction| (FeeReceiver::Pool, *fraction)).collect() }
}

fn plach_pool(balances: [u128; 2], fractions: &[u32]) -> plach::pool::PoolData {
    plach::pool::PoolData::Public {
        assets: (
            plach::pool::AssetWithBalance { asset_id: AssetId::Near, balance: balances[0] },
            plach::pool::AssetWithBalance { asset_id: nep141("bb"), balance: balances[1] },
        ),
        fees: fees(fractions),
        fee_configuration: FeeConfiguration::V1(fees(fractions)),
        total_shares: Some(1),
    }
}

#[test]
fn plach_pool_swaps_both_ways() {
    let mut pool = plach::pool::Pool { id: 0, data: plach_pool([1_000_000_000, 2_000_000_000], &[3_000]) };
    assert_eq!(pool.emulate_swap(&AssetId::Near, &nep141("bb"), 1_000_000), Some(1_992_013));
    assert_eq!(pool.emulate_swap(&AssetId::Near, &nep141("cc"), 1_000_000), None);
    let mut pool = plach::pool::Pool { id: 0, data: plach_pool([1_000_000_000, 2_000_000_000], &[3_000]) };
    assert_eq!(pool.emulate_swap_exact_out(&AssetId::Near, &nep141("bb"), 1_000_000), Some(501_757));
    assert_eq!(pool.emulate_swap_exact_out(&AssetId::Near, &nep141("bb"), 2_000_000_000), None);
    let mut launch = plach::pool::Pool {
        id: 1,
        data: plach::pool::PoolData::Launch {
            near_amount: 2_000_000_000,
            launched_asset: plach::pool::AssetWithBalance { asset_id: nep141("bb"), balance: 2_000_000_000 },
            fees: fees(&[3_000]),
            fee_configuration: FeeConfiguration::V1(fees(&[3_000])),
            phantom_liquidity_near: 1_000_000_000,
        },
    };
    assert_eq!(launch.emulate_swap(&AssetId::Near, &nep141("bb"), 1_000_000), Some(996_503));
}

#[test]
fn plach_query_is_answered() {
    let pools = plach::api::build_pools(vec![plach_pool([1_000_000_000, 2_000_000_000], &[3_000])]);
    let slippage = Decimal::parse("0.005").unwrap();
    let (near, b) = (AssetId::Near, nep141("bb"));
    let answer =
        plach::api::handle_find_path(&pools, &near, &b, Some(1_000_000), None, MaxHops::Four, &slippage);
    assert_eq!((answer.result_code, answer.result_message.as_str()), (RC_SUCCESS, ""));
    match answer.result_data {
        Some(plach::api::SplitRouteApiResponse::ExactIn { routes, amount_in, amount_out, .. }) => {
            assert_eq!((amount_in, amount_out), (1_000_000, 1_992_013));
            assert_eq!(routes.len(), 1);
            assert_eq!(routes[0].pools[0].amount_in, 1_000_000);
            assert_eq!(routes[0].min_amount_out, 1_982_052);
        }
        other => panic!("{other:?}"),
    }
    let answer =
        plach::api::handle_find_path(&pools, &near, &b, None, Some(1_000_000), MaxHops::DirectOnly, &slippage);
    match answer.result_data {
        Some(plach::api::SplitRouteApiResponse::ExactOut { routes, amount_in, max_amount_in, amount_out, .. }) => {
            assert_eq!((amount_in, amount_out), (501_757, 1_000_000));
            assert!(max_amount_in >= amount_in);
            assert_eq!(routes[0].max_amount_in, max_amount_in);
        }
        other => panic!("{other:?}"),
    }
}

#[test]
fn small_amounts_go_in_quarters() {
    let pools = plach::api::build_pools(vec![
        plach_pool([1_000_000, 2_000_000], &[]),
        plach_pool([1_000_000, 2_000_000], &[]),
    ]);
    let (near, b) = (AssetId::Near, nep141("bb"));
    for amount in [900, 500_000] {
        let quote = QuoteAmount::ExactIn(amount);
        let split = match plach::api::route(&near, &b, quote, &pools, MaxHops::DirectOnly) {
            Ok(split) => split,
            Err(e) => panic!("{e:?}"),
        };
        let weights: Vec<u32> = split.steps.iter().map(|step| step.weight).collect();
        assert_eq!(weights.iter().sum::<u32>(), 100);
        assert!(weights.windows(2).all(|pair| pair[0] >= pair[1]));
        if amount < 1_000 {
            assert!(weights.iter().all(|weight| weight % 25 == 0));
        }
    }
}

/// Half of an amount through each of two pools between the same assets.
fn halves(pools: &Pools<plach::pool::Pool>, weight: u32) -> SplitRoute<'_, plach::pool::Pool> {
    let steps = pools
        .pools
        .iter()
        .map(|pool| SplitRouteStep {
            route: Route { steps: vec![RouteStep { pool, token_in: AssetId::Near, token_out: nep141("bb") }] },
            weight,
        })
        .collect();
    SplitRoute::new(steps)
}

#[test]
fn splits_are_not_offered() {
    let (near, b) = (AssetId::Near, nep141("bb"));
    let half = 1u128 << 127;

    let pools = plach::api::build_pools(vec![plach_pool([1_000, 1_000], &[]), plach_pool([1_000, 1_000], &[])]);
    let offer = |weight, quote, token: &AssetId| {
        plach::api::to_api_response(&halves(&pools, weight), &near, token, quote, 10_000).err()
    };
    assert_eq!(offer(10, QuoteAmount::ExactIn(1_000), &b), Some(OfferError::Parts));
    assert_eq!(offer(60, QuoteAmount::ExactIn(1_000), &b), Some(OfferError::Parts));
    assert_eq!(offer(50, QuoteAmount::ExactIn(1_000), &nep141("cc")), Some(OfferError::Emulation));
    assert_eq!(offer(50, QuoteAmount::ExactOut(4_000), &b), Some(OfferError::Emulation));
    assert_eq!(offer(50, QuoteAmount::ExactIn(1_000), &b), None);

    let rich = plach::api::build_pools(vec![plach_pool([1, u128::MAX], &[]), plach_pool([1, u128::MAX], &[])]);
    let offer = |bp| {
        plach::api::to_api_response(&halves(&rich, 50), &near, &b, QuoteAmount::ExactIn(2_000), bp).err()
    };
    assert_eq!(offer(10_000), Some(OfferError::TotalOut));
    assert_eq!(offer(0), Some(OfferError::Bound));

    let dear = plach::api::build_pools(vec![plach_pool([half / 4 * 3, 2], &[]), plach_pool([half / 4 * 3, 2], &[])]);
    let offer =
        |bp| plach::api::to_api_response(&halves(&dear, 50), &near, &b, QuoteAmount::ExactOut(2), bp).err();
    assert_eq!(offer(0), None);
    assert_eq!(offer(10_000), Some(OfferError::TotalMost));

    let dearer = plach::api::build_pools(vec![plach_pool([half - 1, 2], &[]), plach_pool([half - 1, 2], &[])]);
    let offer =
        |bp| plach::api::to_api_response(&halves(&dearer, 50), &near, &b, QuoteAmount::ExactOut(2), bp).err();
    assert_eq!(offer(0), Some(OfferError::TotalIn));
    assert_eq!(offer(10_000), Some(OfferError::Bound));
}

#[test]
fn plach_query_is_refused() {
    let pools = plach::api::build_pools(vec![plach_pool([1_000_000_000, 2_000_000_000], &[3_000])]);
    let (near, b, c) = (AssetId::Near, nep141("bb"), nep141("cc"));
    let ask = |amount_in, amount_out, token: &AssetId, slippage: &str| {
        let slippage = Decimal::parse(slippage).unwrap();
        let answer =
            plach::api::handle_find_path(&pools, &near, token, amount_in, amount_out, MaxHops::Two, &slippage);
        assert!(answer.result_data.is_none());
        (answer.result_code, answer.result_message)
    };
    let both = "Provide either amountIn or amountOut".to_string();
    assert_eq!(ask(Some(1), Some(1), &b, "0.1"), (RC_ROUTE_ERROR, both.clone()));
    assert_eq!(ask(None, None, &b, "0.1"), (RC_ROUTE_ERROR, both));
    assert_eq!(ask(Some(1), None, &b, "1.1"), (RC_INVALID_SLIPPAGE, "Invalid slippage".to_string()));
    assert_eq!(ask(Some(1_000), None, &c, "0.1"), (RC_ROUTE_ERROR, "No routes found".to_string()));
}
