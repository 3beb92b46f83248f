//! Swaps in the pools of Rhea.

use dex_aggregator::account::AccountId;
use dex_aggregator::rhea::pool::{
    DegenPoolInfo, PoolDetailInfo, RatedPoolInfo, SimplePoolInfo, StablePoolInfo, SwapError,
};
use dex_aggregator::rhea::{rated, stable};

fn account(name: &str) -> AccountId {
    AccountId::parse(name).unwrap()
}

fn pair() -> Vec<AccountId> {
    vec![account("a.near"), account("b.near")]
}

const E24: u128 = 1_000_000_000_000_000_000_000_000;
const E21: u128 = 1_000_000_000_000_000_000_000;

fn simple(amounts: [u128; 2]) -> SimplePoolInfo {
    SimplePoolInfo {
        token_account_ids: pair(),
        amounts: amounts.to_vec(),
        total_fee: 30,
        shares_total_supply: 1,
    }
}

fn stable_pool() -> StablePoolInfo {
    StablePoolInfo {
        token_account_ids: pair(),
        decimals: vec![18, 6],
        amounts: vec![E24, 2_000_000_000_000],
        c_amounts: vec![E24, 2 * E24],
        total_fee: 5,
        shares_total_supply: 1,
        amp: 100,
    }
}

#[test]
fn simple_swap_takes_the_fee() {
    let mut pool = simple([1_000_000, 2_000_000]);
    assert_eq!(pool.emulate_swap(&account("a.near"), &account("b.near"), 1_000), Ok(1_992));
    assert_eq!(pool.amounts, vec![1_001_000, 1_998_008]);
    assert!(pool.amounts[0] * pool.amounts[1] >= 1_000_000 * 2_000_000);
}

#[test]
fn simple_swap_refuses() {
    let (a, b, c) = (account("a.near"), account("b.near"), account("c.near"));
    assert_eq!(simple([1, 1]).emulate_swap(&c, &b, 1), Err(SwapError::TokenInNotFound));
    assert_eq!(simple([1, 1]).emulate_swap(&a, &c, 1), Err(SwapError::TokenOutNotFound));
    assert_eq!(simple([0, 1]).emulate_swap(&a, &b, 1), Err(SwapError::InBalanceZero));
    assert_eq!(simple([1, 0]).emulate_swap(&a, &b, 1), Err(SwapError::OutBalanceZero));
    assert_eq!(simple([1, 1]).emulate_swap(&a, &a, 1), Err(SwapError::SameToken));
    assert_eq!(simple([1, 1]).emulate_swap(&a, &b, 0), Err(SwapError::AmountInZero));
    assert_eq!(simple([u128::MAX, 1]).emulate_swap(&a, &b, 1), Err(SwapError::Arithmetic));
}

#[test]
fn stable_curve_is_solved() {
    let curve = stable::StableSwap::new(100);
    let amounts = [E24, 2 * E24];
    assert_eq!(curve.compute_amp_factor(), Some(100));
    assert_eq!(curve.compute_d(&amounts).unwrap().to_u128(), Some(2_999_068_031_122_620_559_438_984));
    assert_eq!(
        curve.compute_y(E24 + E21, &amounts, 0, 1).unwrap().to_u128(),
        Some(1_998_995_809_161_168_298_852_415)
    );
    let swap = curve.swap_to(0, E21, 1, &amounts, &stable::Fees::new(5)).unwrap();
    assert_eq!(swap.new_source_amount, E24 + E21);
    assert_eq!(swap.new_destination_amount, 1_998_996_311_256_587_714_702_989);
    assert_eq!(swap.amount_swapped, 1_003_688_743_412_285_297_011);
    let three = [E24, 2 * E24, 3 * E24];
    let swap = stable::StableSwap::new(240).swap_to(2, 5 * E21, 0, &three, &stable::Fees::new(20)).unwrap();
    assert_eq!(swap.amount_swapped, 4_985_874_915_725_516_224_856);
    assert_eq!(curve.compute_d(&[0, 0]).unwrap().to_u128(), Some(0));
    assert_eq!(curve.compute_d(&[E24, E24]).unwrap().to_u128(), Some(2 * E24));
    assert_eq!(curve.compute_d(&[E21, E21, E21]).unwrap().to_u128(), Some(3 * E21));
    assert!(curve.compute_d(&[0, 1]).is_none());
}

#[test]
fn stable_pool_scales_decimals() {
    let mut pool = stable_pool();
    assert_eq!(pool.emulate_swap(&account("a.near"), &account("b.near"), E21), Ok(1_003_688_743));
    assert_eq!(pool.c_amounts, vec![E24 + E21, 1_998_996_311_256_587_714_702_989]);
    assert_eq!(
        stable_pool().emulate_swap(&account("c.near"), &account("b.near"), 1),
        Err(SwapError::TokenInNotFound)
    );
    assert_eq!(
        stable_pool().emulate_swap(&account("a.near"), &account("c.near"), 1),
        Err(SwapError::TokenOutNotFound)
    );
    let mut empty = stable_pool();
    empty.c_amounts = vec![0, 1];
    assert_eq!(empty.emulate_swap(&account("a.near"), &account("b.near"), 1), Err(SwapError::CannotSwap));
    let mut low = stable_pool();
    low.c_amounts = vec![stable::MIN_RESERVE, stable::MIN_RESERVE];
    assert_eq!(
        low.emulate_swap(&account("a.near"), &account("b.near"), stable::MIN_RESERVE),
        Err(SwapError::MinReserveNotMet)
    );
}

#[test]
fn rated_curve_applies_rates() {
    let rates = vec![E24, E24 + E24 / 5];
    let curve = rated::RatedSwap::new(240, &rates);
    let amounts = vec![1_000_000 * E24, 1_000_000 * E24];
    let swap = curve.swap_to(0, 1_000 * E24, 1, &amounts, &rated::Fees::new(5)).unwrap();
    assert_eq!(swap.new_source_amount, 1_001_000 * E24);
    assert_eq!(swap.new_destination_amount, 999_166_764_833_192_342_483_706_472_125);
    assert_eq!(swap.amount_swapped, 833_235_166_807_657_516_293_527_874);
    assert_eq!(rated::Fees::new(5).trade_fee(20_000), 10);
}

#[test]
fn rated_pool_swaps() {
    let mut pool = RatedPoolInfo {
        token_account_ids: pair(),
        decimals: vec![24, 24],
        amounts: vec![1_000_000 * E24, 1_000_000 * E24],
        c_amounts: vec![1_000_000 * E24, 1_000_000 * E24],
        total_fee: 5,
        shares_total_supply: 1,
        amp: 240,
        rates: vec![E24, E24 + E24 / 5],
    };
    assert_eq!(
        pool.emulate_swap(&account("a.near"), &account("b.near"), 1_000 * E24),
        Ok(833_235_166_807_657_516_293_527_874)
    );
    assert_eq!(pool.emulate_swap(&account("c.near"), &account("b.near"), 1), Err(SwapError::TokenInNotFound));
    assert_eq!(pool.emulate_swap(&account("a.near"), &account("c.near"), 1), Err(SwapError::TokenOutNotFound));
}

#[test]
fn degen_pools_are_not_swapped_in() {
    let pool = DegenPoolInfo {
        token_account_ids: pair(),
        decimals: vec![24, 24],
        amounts: vec![E24, E24],
        c_amounts: vec![E24, E24],
        total_fee: 5,
        shares_total_supply: 1,
        amp: 240,
        degens: vec![E24, E24],
    };
    let mut detail = PoolDetailInfo::DegenPoolInfo(pool);
    assert_eq!(
        detail.emulate_swap(&account("a.near"), &account("b.near"), 1),
        Err(SwapError::Unsupported)
    );
    assert_eq!(detail.emulate_swap(&account("c.near"), &account("d.near"), 1), Err(SwapError::TokenInNotFound));
    assert_eq!(detail.emulate_swap(&account("a.near"), &account("d.near"), 1), Err(SwapError::TokenOutNotFound));
}
