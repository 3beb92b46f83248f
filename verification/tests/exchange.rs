//! The exchange of constant-product pools.

use dex_aggregator::account::AccountId;
use dex_aggregator::asset::AssetId;
use dex_aggregator::keyed::KeyedMap;
use dex_aggregator::xyk::call::{
    named_pool, AssetWithdrawRequest, AssetWithdrawalType, AttachedAssets, DexCallResponse, StorageUsage,
};
use dex_aggregator::xyk::dex::{DexSwapRequest, SwapRequestAmount};
use dex_aggregator::xyk::pools::{CreatePoolArgs, PoolView};
use dex_aggregator::xyk::state::{DexError, FeeConfiguration, FeeReceiver, XykDex, INITIAL_SHARES};

fn account(name: &str) -> AccountId {
    AccountId::parse(name).unwrap()
}

fn token() -> AssetId {
    AssetId::Nep141(account("ft"))
}

fn attached(assets: &[(AssetId, u128)]) -> AttachedAssets {
    let mut map: AttachedAssets = KeyedMap::new();
    for (asset, amount) in assets {
        map.insert(asset.clone(), *amount);
    }
    map
}

fn fees(receivers: &[(&str, u32)]) -> FeeConfiguration {
    FeeConfiguration {
        receivers: receivers.iter().map(|(name, fraction)| (FeeReceiver::Account(account(name)), *fraction)).collect(),
    }
}

fn storage() -> StorageUsage {
    StorageUsage { before: 100, after: 110, byte_cost: 3 }
}

fn paid(asset_id: AssetId, amount: u128, to: &str) -> AssetWithdrawRequest {
    AssetWithdrawRequest {
        asset_id,
        amount,
        withdrawal_type: AssetWithdrawalType::ToInternalUserBalance(account(to)),
    }
}

fn answer(requests: Vec<AssetWithdrawRequest>) -> DexCallResponse {
    DexCallResponse { asset_withdraw_requests: requests, add_storage_deposit: 0, response: vec![] }
}

fn pool_args(is_public: bool, receivers: &[(&str, u32)]) -> CreatePoolArgs {
    CreatePoolArgs { first: AssetId::Near, second: token(), fees: fees(receivers), is_public }
}

/// The message of a swap, and the arguments of a registration.
fn pool_bytes(pool_id: u32) -> Vec<u8> {
    borsh::to_vec(&pool_id).unwrap()
}

fn asset_bytes(asset: &AssetId) -> Vec<u8> {
    match asset {
        AssetId::Near => vec![0],
        AssetId::Nep141(contract) => borsh::to_vec(&(1u8, contract.as_str())).unwrap(),
        AssetId::Nep245(contract, token) => borsh::to_vec(&(2u8, contract.as_str(), token)).unwrap(),
        AssetId::Nep171(contract, token) => borsh::to_vec(&(3u8, contract.as_str(), token)).unwrap(),
    }
}

fn fee_bytes(fees: &FeeConfiguration) -> Vec<u8> {
    let receivers: Vec<(u8, &str, u32)> =
        fees.receivers.iter().map(|(receiver, fraction)| (0, receiver.account().as_str(), *fraction)).collect();
    borsh::to_vec(&receivers).unwrap()
}

fn create_args(pool: &CreatePoolArgs) -> Vec<u8> {
    [asset_bytes(&pool.first), asset_bytes(&pool.second), fee_bytes(&pool.fees), vec![pool.is_public as u8]].concat()
}

fn fee_args(pool_id: u32, fees: &FeeConfiguration) -> Vec<u8> {
    [pool_bytes(pool_id), fee_bytes(fees)].concat()
}

fn asset_args(assets: &[AssetId]) -> Vec<u8> {
    let mut args = borsh::to_vec(&(assets.len() as u32)).unwrap();
    args.extend(assets.iter().flat_map(asset_bytes));
    args
}

fn deposit_args(pool_id: u32, least: Option<u128>) -> Vec<u8> {
    borsh::to_vec(&(pool_id, least)).unwrap()
}

fn withdraw_args(pool_id: u32, shares: Option<u128>, least: Option<(u128, u128)>) -> Vec<u8> {
    borsh::to_vec(&(pool_id, shares, least)).unwrap()
}

fn create(dex: &mut XykDex, is_public: bool, receivers: &[(&str, u32)]) -> Result<DexCallResponse, DexError> {
    create_by("owner.near", dex, is_public, receivers)
}

fn create_by(
    creator: &str,
    dex: &mut XykDex,
    is_public: bool,
    receivers: &[(&str, u32)],
) -> Result<DexCallResponse, DexError> {
    dex.create_pool(
        &account(creator),
        1,
        &attached(&[(AssetId::Near, 100)]),
        &create_args(&pool_args(is_public, receivers)),
        storage(),
    )
}

/// An exchange with a private pool and a public one, both with liquidity.
fn exchange() -> XykDex {
    let mut dex = XykDex::new(1).ok().unwrap();
    create(&mut dex, false, &[("fee.near", 10_000)]).unwrap();
    create_by("first.near", &mut dex, true, &[("fee.near", 10_000)]).unwrap();
    let both = attached(&[(AssetId::Near, 1_000_000), (token(), 2_000_000)]);
    assert_eq!(dex.add_liquidity(&account("owner.near"), 1, &both, &deposit_args(0, None)), Ok(answer(vec![])));
    assert_eq!(dex.add_liquidity(&account("first.near"), 1, &both, &deposit_args(1, None)), Ok(answer(vec![])));
    dex
}

fn swap(dex: &mut XykDex, pool_id: u32, amount: SwapRequestAmount) -> Result<(u128, u128), DexError> {
    let request =
        DexSwapRequest { message: pool_bytes(pool_id), asset_in: AssetId::Near, asset_out: token(), amount };
    dex.swap(&request).map(|outcome| (outcome.amount_in, outcome.amount_out))
}

fn balances(dex: &XykDex, pool_id: u32) -> (u128, u128) {
    match dex.get_pool(pool_id).unwrap() {
        PoolView::Private { assets, .. } | PoolView::Public { assets, .. } => (assets.0.balance, assets.1.balance),
    }
}

#[test]
fn pools_are_created() {
    assert_eq!(XykDex::new(0).err(), Some(DexError::OneYoctoRequired));
    let mut dex = XykDex::new(1).ok().unwrap();
    assert_eq!(
        create(&mut dex, true, &[]),
        Ok(DexCallResponse {
            asset_withdraw_requests: vec![paid(AssetId::Near, 70, "owner.near")],
            add_storage_deposit: 30,
            response: vec![0, 0, 0, 0],
        })
    );
    assert_eq!(create(&mut dex, false, &[]).unwrap().response, vec![1, 0, 0, 0]);
    assert_eq!(dex.get_pool_count(), 2);
    assert_eq!(dex.get_pools(0, 10).len(), 2);
    assert_eq!(dex.get_pools(1, 10).len(), 1);
    assert_eq!(dex.get_pools(2, 10).len(), 0);
    assert_eq!(dex.get_pools(0, 1).len(), 1);
    assert!(dex.get_pool(2).is_none());
    match dex.get_pool(1) {
        Some(PoolView::Private { owner_id, .. }) => assert_eq!(owner_id, account("owner.near")),
        other => panic!("{other:?}"),
    }
}

#[test]
fn creator_holds_all_shares() {
    let mut dex = XykDex::new(1).ok().unwrap();
    create(&mut dex, true, &[]).unwrap();
    let (owner, other) = (account("owner.near"), account("other.near"));
    assert_eq!(dex.get_pool_shares(0, &owner), Some(1_000_000_000_000_000_000));
    assert_eq!(dex.get_pool_shares(0, &other), None);
    assert!(matches!(dex.get_pool(0), Some(PoolView::Public { total_shares: Some(INITIAL_SHARES), .. })));
    assert_eq!(balances(&dex, 0), (0, 0));

    // The first deposit fills the pool and mints nothing.
    let both = attached(&[(AssetId::Near, 1_000_000), (token(), 2_000_000)]);
    assert_eq!(dex.add_liquidity(&other, 1, &both, &deposit_args(0, None)), Err(DexError::NotRegistered));
    assert_eq!(dex.add_liquidity(&owner, 1, &both, &deposit_args(0, Some(1))), Err(DexError::MinSharesNotAllowed));
    assert_eq!(dex.add_liquidity(&owner, 1, &both, &deposit_args(0, None)), Ok(answer(vec![])));
    assert_eq!(dex.get_pool_shares(0, &owner), Some(INITIAL_SHARES));
    assert_eq!(balances(&dex, 0), (1_000_000, 2_000_000));

    // Once all shares are gone, the next deposit gets the initial ones.
    let paid_out = answer(vec![paid(AssetId::Near, 1_000_000, "owner.near"), paid(token(), 2_000_000, "owner.near")]);
    assert_eq!(dex.remove_liquidity(&owner, 1, &attached(&[]), &withdraw_args(0, None, None)), Ok(paid_out));
    assert!(matches!(dex.get_pool(0), Some(PoolView::Public { total_shares: None, .. })));
    dex.register_liquidity(&other, 1, &attached(&[(AssetId::Near, 30)]), &pool_bytes(0), storage()).unwrap();
    assert_eq!(dex.add_liquidity(&other, 1, &both, &deposit_args(0, None)), Ok(answer(vec![])));
    assert_eq!(dex.get_pool_shares(0, &other), Some(INITIAL_SHARES));
    assert_eq!(dex.get_pool_shares(0, &owner), Some(0));
}

#[test]
fn pools_are_refused() {
    let mut dex = XykDex::new(1).ok().unwrap();
    let caller = account("owner.near");
    let near = attached(&[(AssetId::Near, 100)]);
    let args = pool_args(true, &[]);
    assert_eq!(dex.create_pool(&caller, 0, &near, &create_args(&args), storage()), Err(DexError::OneYoctoRequired));
    let same = CreatePoolArgs { first: token(), second: token(), fees: fees(&[]), is_public: true };
    assert_eq!(dex.create_pool(&caller, 1, &near, &create_args(&same), storage()), Err(DexError::SameAssets));
    assert_eq!(create(&mut dex, true, &[("a.near", 1_000_000)]), Err(DexError::FeeTooHigh));
    assert_eq!(create(&mut dex, true, &[("a.near", 500_000), ("b.near", 500_000)]), Err(DexError::FeesTooHigh));
    assert_eq!(create(&mut dex, true, &vec![("a.near", 1); 43]), Err(DexError::TooManyFeeReceivers));
    let shrunk = StorageUsage { before: 2, after: 1, byte_cost: 1 };
    assert_eq!(dex.create_pool(&caller, 1, &near, &create_args(&args), shrunk), Err(DexError::Arithmetic));
    assert_eq!(dex.create_pool(&caller, 1, &attached(&[]), &create_args(&args), storage()), Err(DexError::NearNotAttached));
    let little = attached(&[(AssetId::Near, 29)]);
    assert_eq!(dex.create_pool(&caller, 1, &little, &create_args(&args), storage()), Err(DexError::NotEnoughNear));
    let more = attached(&[(AssetId::Near, 100), (token(), 1)]);
    assert_eq!(dex.create_pool(&caller, 1, &more, &create_args(&args), storage()), Err(DexError::UnexpectedAssets));
    assert_eq!(dex.get_pool_count(), 0);
}

#[test]
fn swaps_credit_fees() {
    let mut dex = exchange();
    assert_eq!(swap(&mut dex, 0, SwapRequestAmount::ExactIn(1_000)), Ok((1_000, 1_978)));
    assert_eq!(balances(&dex, 0), (1_000_990, 1_998_022));
    assert_eq!(balances(&dex, 1), (1_000_000, 2_000_000));
    let owed = dex.get_pending_fees(&account("fee.near"), &vec![AssetId::Near, token()]);
    assert_eq!(owed, vec![(AssetId::Near, 10), (token(), 0)]);
    assert_eq!(dex.get_pending_fees(&account("other.near"), &vec![AssetId::Near]), vec![]);
    assert_eq!(swap(&mut dex, 1, SwapRequestAmount::ExactOut(1_978)), Ok((1_000, 1_978)));
    let request = DexSwapRequest {
        message: pool_bytes(0),
        asset_in: AssetId::Near,
        asset_out: token(),
        amount: SwapRequestAmount::ExactIn(1_000),
    };
    let outcome = dex.swap(&request).unwrap();
    assert_eq!(outcome.fees_breakdown, vec![(FeeReceiver::Account(account("fee.near")), 10)]);
    assert!(balances(&dex, 0).0 * balances(&dex, 0).1 >= 2_000_000_000_000);
}

#[test]
fn swaps_lose_nothing() {
    for amount in [SwapRequestAmount::ExactIn(12_345), SwapRequestAmount::ExactOut(6_789)] {
        let mut dex = exchange();
        let before = balances(&dex, 0);
        let request =
            DexSwapRequest { message: pool_bytes(0), asset_in: AssetId::Near, asset_out: token(), amount };
        let outcome = dex.swap(&request).unwrap();
        let after = balances(&dex, 0);
        let fees: u128 = outcome.fees_breakdown.iter().map(|(_, fee)| *fee).sum();
        assert!(fees > 0);
        assert_eq!(after.0 + fees, before.0 + outcome.amount_in);
        assert_eq!(after.1 + outcome.amount_out, before.1);
        assert_eq!(dex.get_pending_fees(&account("fee.near"), &vec![AssetId::Near]), vec![(AssetId::Near, fees)]);
    }
}

#[test]
fn swaps_are_refused() {
    let mut dex = exchange();
    assert_eq!(swap(&mut dex, 7, SwapRequestAmount::ExactIn(1)), Err(DexError::PoolNotFound));
    assert_eq!(swap(&mut dex, 0, SwapRequestAmount::ExactIn(0)), Err(DexError::AmountIsZero));
    assert_eq!(swap(&mut dex, 0, SwapRequestAmount::ExactOut(0)), Err(DexError::AmountIsZero));
    assert_eq!(swap(&mut dex, 0, SwapRequestAmount::ExactOut(2_000_000)), Err(DexError::AmountTooLarge));
    create(&mut dex, false, &[]).unwrap();
    let both = attached(&[(AssetId::Near, 1), (token(), 1)]);
    dex.add_liquidity(&account("owner.near"), 1, &both, &deposit_args(2, None)).unwrap();
    assert_eq!(swap(&mut dex, 2, SwapRequestAmount::ExactIn(u128::MAX)), Err(DexError::Arithmetic));
    let other = AssetId::Nep141(account("other"));
    let mut ask = |asset_in: &AssetId, asset_out: &AssetId| {
        let amount = SwapRequestAmount::ExactIn(1);
        let (asset_in, asset_out) = (asset_in.clone(), asset_out.clone());
        dex.swap(&DexSwapRequest { message: pool_bytes(0), asset_in, asset_out, amount }).err()
    };
    assert_eq!(ask(&other, &token()), Some(DexError::InvalidAssetIn));
    assert_eq!(ask(&token(), &other), Some(DexError::InvalidAssetOut));
    assert_eq!(ask(&token(), &token()), Some(DexError::InvalidAssets));
    let mut empty = XykDex::new(1).ok().unwrap();
    create(&mut empty, true, &[]).unwrap();
    assert_eq!(swap(&mut empty, 0, SwapRequestAmount::ExactIn(1)), Err(DexError::PoolIsEmpty));
}

#[test]
fn shares_are_minted_and_burnt() {
    let mut dex = exchange();
    assert_eq!(dex.get_pool_shares(1, &account("first.near")), Some(INITIAL_SHARES));
    assert_eq!(dex.get_pool_shares(1, &account("second.near")), None);
    assert_eq!(dex.get_pool_shares(0, &account("owner.near")), None);
    let second = account("second.near");
    dex.register_liquidity(&second, 1, &attached(&[(AssetId::Near, 30)]), &pool_bytes(1), storage()).unwrap();
    assert_eq!(dex.get_pool_shares(1, &second), Some(0));
    let both = attached(&[(AssetId::Near, 1_001), (token(), 3_000)]);
    assert_eq!(
        dex.add_liquidity(&second, 1, &both, &deposit_args(1, Some(INITIAL_SHARES / 1_000))),
        Ok(answer(vec![paid(AssetId::Near, 0, "second.near"), paid(token(), 999, "second.near")]))
    );
    assert_eq!(dex.get_pool_shares(1, &second), Some(INITIAL_SHARES / 1_000));
    assert_eq!(balances(&dex, 1), (1_001_001, 2_002_001));
    let nothing = attached(&[]);
    assert_eq!(
        dex.remove_liquidity(&second, 1, &nothing, &withdraw_args(1, None, Some((1_000, 2_000)))),
        Ok(answer(vec![paid(AssetId::Near, 1_000, "second.near"), paid(token(), 2_000, "second.near")]))
    );
    assert_eq!(dex.get_pool_shares(1, &second), Some(0));
    assert_eq!(
        dex.remove_liquidity(&account("first.near"), 1, &nothing, &withdraw_args(1, None, None)),
        Ok(answer(vec![paid(AssetId::Near, 1_000_001, "first.near"), paid(token(), 2_000_001, "first.near")]))
    );
    assert_eq!(balances(&dex, 1), (0, 0));
    assert_eq!(
        dex.remove_liquidity(&account("owner.near"), 1, &nothing, &withdraw_args(0, None, None)),
        Ok(answer(vec![paid(AssetId::Near, 1_000_000, "owner.near"), paid(token(), 2_000_000, "owner.near")]))
    );
}

#[test]
fn deposits_are_refused() {
    let mut dex = exchange();
    let both = attached(&[(AssetId::Near, 1_000), (token(), 2_000)]);
    let (owner, first) = (account("owner.near"), account("first.near"));
    assert_eq!(dex.add_liquidity(&owner, 0, &both, &deposit_args(0, None)), Err(DexError::OneYoctoRequired));
    assert_eq!(dex.add_liquidity(&owner, 1, &both, &deposit_args(9, None)), Err(DexError::PoolNotFound));
    assert_eq!(dex.add_liquidity(&first, 1, &both, &deposit_args(0, None)), Err(DexError::NotTheOwner));
    assert_eq!(dex.add_liquidity(&owner, 1, &both, &deposit_args(0, Some(1))), Err(DexError::MinSharesNotAllowed));
    let one = attached(&[(AssetId::Near, 1_000)]);
    assert_eq!(dex.add_liquidity(&owner, 1, &one, &deposit_args(0, None)), Err(DexError::AssetNotAttached));
    let three = attached(&[(AssetId::Near, 1), (token(), 2), (AssetId::Nep141(account("other")), 3)]);
    assert_eq!(dex.add_liquidity(&owner, 1, &three, &deposit_args(0, None)), Err(DexError::UnexpectedAssets));
    let huge = attached(&[(AssetId::Near, u128::MAX), (token(), 1)]);
    assert_eq!(dex.add_liquidity(&owner, 1, &huge, &deposit_args(0, None)), Err(DexError::Arithmetic));
    let zero = attached(&[(AssetId::Near, 0), (token(), 2_000)]);
    assert_eq!(dex.add_liquidity(&first, 1, &zero, &deposit_args(1, None)), Err(DexError::AmountIsZero));
    assert_eq!(dex.add_liquidity(&owner, 1, &both, &deposit_args(1, None)), Err(DexError::NotRegistered));
    let tiny = attached(&[(AssetId::Near, 1), (token(), 1)]);
    assert_eq!(dex.add_liquidity(&first, 1, &tiny, &deposit_args(1, None)), Err(DexError::NoSharesToMint));
    assert_eq!(dex.add_liquidity(&first, 1, &both, &deposit_args(1, Some(INITIAL_SHARES))), Err(DexError::Slippage));
    let mut empty = XykDex::new(1).ok().unwrap();
    create(&mut empty, true, &[]).unwrap();
    empty.register_liquidity(&first, 1, &attached(&[(AssetId::Near, 30)]), &pool_bytes(0), storage()).unwrap();
    assert_eq!(empty.add_liquidity(&first, 1, &both, &deposit_args(0, Some(1))), Err(DexError::MinSharesNotAllowed));
    assert_eq!(empty.add_liquidity(&first, 1, &both, &deposit_args(0, None)), Err(DexError::PoolIsEmpty));
    assert_eq!(balances(&empty, 0), (0, 0));
    empty.remove_liquidity(&owner, 1, &attached(&[]), &withdraw_args(0, None, None)).unwrap();
    assert_eq!(empty.add_liquidity(&first, 1, &both, &deposit_args(0, Some(1))), Err(DexError::MinSharesNotAllowed));
    assert_eq!(empty.remove_liquidity(&first, 1, &attached(&[]), &withdraw_args(0, None, None)), Err(DexError::NoShares));
}

#[test]
fn registrations_and_withdrawals_are_refused() {
    let mut dex = exchange();
    let (owner, first) = (account("owner.near"), account("first.near"));
    let near = attached(&[(AssetId::Near, 30)]);
    assert_eq!(dex.register_liquidity(&first, 0, &near, &pool_bytes(1), storage()), Err(DexError::OneYoctoRequired));
    assert_eq!(dex.register_liquidity(&first, 1, &near, &pool_bytes(9), storage()), Err(DexError::PoolNotFound));
    assert_eq!(dex.register_liquidity(&first, 1, &near, &pool_bytes(0), storage()), Err(DexError::NotAPublicPool));
    let other = attached(&[(token(), 30)]);
    assert_eq!(dex.register_liquidity(&first, 1, &other, &pool_bytes(1), storage()), Err(DexError::UnexpectedAssets));
    let none = attached(&[]);
    assert_eq!(dex.register_liquidity(&first, 1, &none, &pool_bytes(1), storage()), Err(DexError::NotEnoughNear));
    assert_eq!(dex.remove_liquidity(&first, 0, &none, &withdraw_args(1, None, None)), Err(DexError::OneYoctoRequired));
    assert_eq!(dex.remove_liquidity(&first, 1, &near, &withdraw_args(1, None, None)), Err(DexError::UnexpectedAssets));
    assert_eq!(dex.remove_liquidity(&first, 1, &none, &withdraw_args(9, None, None)), Err(DexError::PoolNotFound));
    assert_eq!(dex.remove_liquidity(&first, 1, &none, &withdraw_args(0, None, None)), Err(DexError::NotTheOwner));
    assert_eq!(dex.remove_liquidity(&owner, 1, &none, &withdraw_args(0, Some(1), None)), Err(DexError::SharesNotAllowed));
    assert_eq!(dex.remove_liquidity(&owner, 1, &none, &withdraw_args(0, None, Some((0, 0)))), Err(DexError::SharesNotAllowed));
    assert_eq!(dex.remove_liquidity(&owner, 1, &none, &withdraw_args(1, None, None)), Err(DexError::NoShares));
    let too_many = Some(INITIAL_SHARES + 1);
    assert_eq!(dex.remove_liquidity(&first, 1, &none, &withdraw_args(1, too_many, None)), Err(DexError::NotEnoughShares));
    let too_much = Some((1_000_001, 0));
    assert_eq!(dex.remove_liquidity(&first, 1, &none, &withdraw_args(1, None, too_much)), Err(DexError::Slippage));
}

#[test]
fn fees_are_edited_and_drawn() {
    let mut dex = exchange();
    let (owner, first, fee) = (account("owner.near"), account("first.near"), account("fee.near"));
    let near = attached(&[(AssetId::Near, 40)]);
    let none = attached(&[]);
    let new = fees(&[("new.near", 20_000)]);
    assert_eq!(dex.edit_fees(&owner, 0, &near, &fee_args(0, &new), storage()), Err(DexError::OneYoctoRequired));
    assert_eq!(dex.edit_fees(&owner, 1, &near, &fee_args(9, &new), storage()), Err(DexError::PoolNotFound));
    assert_eq!(dex.edit_fees(&first, 1, &near, &fee_args(0, &new), storage()), Err(DexError::NotTheOwner));
    assert_eq!(dex.edit_fees(&first, 1, &near, &fee_args(1, &new), storage()), Err(DexError::FeesNotEditable));
    let high = fees(&[("new.near", 1_000_000)]);
    assert_eq!(dex.edit_fees(&owner, 1, &near, &fee_args(0, &high), storage()), Err(DexError::FeeTooHigh));
    assert_eq!(dex.edit_fees(&owner, 1, &none, &fee_args(0, &new), storage()), Err(DexError::NotEnoughNear));
    let more = attached(&[(AssetId::Near, 40), (token(), 1)]);
    assert_eq!(dex.edit_fees(&owner, 1, &more, &fee_args(0, &new), storage()), Err(DexError::UnexpectedAssets));
    let done = dex.edit_fees(&owner, 1, &near, &fee_args(0, &new), storage()).unwrap();
    assert_eq!(done.asset_withdraw_requests, vec![paid(AssetId::Near, 10, "owner.near")]);
    assert_eq!(dex.get_pending_fees(&account("new.near"), &vec![token()]), vec![(token(), 0)]);
    swap(&mut dex, 1, SwapRequestAmount::ExactIn(1_000)).unwrap();
    let assets = vec![AssetId::Near, token()];
    assert_eq!(dex.withdraw_fees(&fee, 0, &none, &asset_args(&assets)), Err(DexError::OneYoctoRequired));
    assert_eq!(dex.withdraw_fees(&fee, 1, &near, &asset_args(&assets)), Err(DexError::UnexpectedAssets));
    assert_eq!(
        dex.withdraw_fees(&fee, 1, &none, &asset_args(&assets)),
        Ok(answer(vec![paid(AssetId::Near, 10, "fee.near")]))
    );
    assert_eq!(dex.withdraw_fees(&fee, 1, &none, &asset_args(&assets)), Ok(answer(vec![])));
}

#[test]
fn bytes_are_read() {
    let mut dex = exchange();
    let request = |message: Vec<u8>| DexSwapRequest {
        message,
        asset_in: AssetId::Near,
        asset_out: token(),
        amount: SwapRequestAmount::ExactIn(1_000),
    };
    for message in [vec![], vec![0, 0, 0], vec![0, 0, 0, 0, 0]] {
        assert_eq!(dex.swap(&request(message)).err(), Some(DexError::InvalidMessage));
    }
    assert_eq!(dex.swap(&request(vec![0, 1, 0, 0])).err(), Some(DexError::PoolNotFound));
    let mut named = exchange();
    assert_eq!(dex.swap(&request(vec![1, 0, 0, 0])), named.swap_in_pool(1, &request(vec![])));

    let (first, near, none) = (account("first.near"), attached(&[(AssetId::Near, 30)]), attached(&[]));
    for args in [vec![], vec![1, 0, 0], vec![1, 0, 0, 0, 0]] {
        let refused = Err(DexError::InvalidArgs);
        assert_eq!(dex.register_liquidity(&first, 1, &near, &args, storage()), refused);
        assert_eq!(dex.register_liquidity(&first, 0, &near, &args, storage()), Err(DexError::OneYoctoRequired));
    }
    let both = attached(&[(AssetId::Near, 1_000), (token(), 2_000)]);
    let mut long = deposit_args(1, None);
    long.push(0);
    let mut flagged = deposit_args(1, Some(1));
    flagged[4] = 2;
    for args in [vec![], pool_bytes(1), long, flagged, deposit_args(1, Some(0))] {
        assert_eq!(dex.add_liquidity(&first, 1, &both, &args), Err(DexError::InvalidArgs));
        assert_eq!(dex.add_liquidity(&first, 0, &both, &args), Err(DexError::OneYoctoRequired));
    }
    let mut cut = withdraw_args(1, None, Some((1, 2)));
    cut.pop();
    for args in [vec![], pool_bytes(1), deposit_args(1, None), cut, withdraw_args(1, Some(0), None)] {
        assert_eq!(dex.remove_liquidity(&first, 1, &none, &args), Err(DexError::InvalidArgs));
        assert_eq!(dex.remove_liquidity(&first, 0, &none, &args), Err(DexError::OneYoctoRequired));
    }
}

#[test]
fn calls_name_their_pool() {
    assert_eq!(named_pool(&vec![1, 0, 0]), None);
    assert_eq!(named_pool(&pool_bytes(0x0403_0201)), Some(0x0403_0201));
    assert_eq!(named_pool(&deposit_args(7, Some(9))), Some(7));
    assert_eq!(named_pool(&withdraw_args(u32::MAX, None, None)), Some(u32::MAX));
}

#[test]
fn decoded_calls_do_the_same() {
    let (mut by_bytes, mut decoded) = (exchange(), exchange());
    let (first, second) = (account("first.near"), account("second.near"));
    let near = attached(&[(AssetId::Near, 30)]);
    let both = attached(&[(AssetId::Near, 1_001), (token(), 3_000)]);
    let none = attached(&[]);
    let registered = decoded.register_with_pool(&second, 1, &near, 1, storage());
    assert_eq!(by_bytes.register_liquidity(&second, 1, &near, &pool_bytes(1), storage()), registered);
    let minted = decoded.deposit_into_pool(&second, 1, &both, 1, Some(5));
    assert_eq!(by_bytes.add_liquidity(&second, 1, &both, &deposit_args(1, Some(5))), minted);
    let drawn = decoded.withdraw_from_pool(&first, 1, &none, 1, Some(INITIAL_SHARES / 2), Some((1, 2)));
    let args = withdraw_args(1, Some(INITIAL_SHARES / 2), Some((1, 2)));
    assert_eq!(by_bytes.remove_liquidity(&first, 1, &none, &args), drawn);
    assert!(drawn.is_ok());
    assert_eq!(balances(&by_bytes, 1), balances(&decoded, 1));
    assert_eq!(by_bytes.get_pool_shares(1, &second), decoded.get_pool_shares(1, &second));
}

#[test]
fn pools_are_read() {
    let near = attached(&[(AssetId::Near, 100)]);
    let caller = account("owner.near");
    let multi = AssetId::Nep245(account("mt.near"), "gold:\u{e9}".to_string());
    let single = AssetId::Nep171(account("nft.near"), String::new());
    let pool = CreatePoolArgs {
        first: multi.clone(),
        second: single.clone(),
        fees: fees(&[("a.near", 7), ("b.near", 8)]),
        is_public: false,
    };
    let (mut by_bytes, mut decoded) = (XykDex::new(1).ok().unwrap(), XykDex::new(1).ok().unwrap());
    let made = decoded.open_pool(&caller, 1, &near, &pool, storage());
    assert_eq!(by_bytes.create_pool(&caller, 1, &near, &create_args(&pool), storage()), made);
    match by_bytes.get_pool(0) {
        Some(PoolView::Private { assets, fees, owner_id }) => {
            assert_eq!((assets.0.asset_id, assets.1.asset_id), (multi, single));
            assert_eq!((fees, owner_id), (pool.fees.clone(), caller.clone()));
        }
        other => panic!("{other:?}"),
    }

    let good = create_args(&pool);
    let mut long = good.clone();
    long.push(0);
    let mut flag = good.clone();
    *flag.last_mut().unwrap() = 2;
    let mut kind = good.clone();
    kind[0] = 4;
    let mut name = good.clone();
    name[5] = b'M';
    let mut text = good.clone();
    text[20] = 0xff;
    for args in [vec![], good[..good.len() - 1].to_vec(), long, flag, kind, name, text] {
        assert_eq!(by_bytes.create_pool(&caller, 1, &near, &args, storage()), Err(DexError::InvalidArgs));
        assert_eq!(by_bytes.create_pool(&caller, 0, &near, &args, storage()), Err(DexError::OneYoctoRequired));
    }
    assert_eq!(by_bytes.get_pool_count(), 1);
}

#[test]
fn fees_are_read() {
    let (mut by_bytes, mut decoded) = (exchange(), exchange());
    let (owner, near, none) = (account("owner.near"), attached(&[(AssetId::Near, 40)]), attached(&[]));
    let new = fees(&[("new.near", 20_000), ("other.near", 5)]);
    let replaced = decoded.replace_fees(&owner, 1, &near, 0, &new, storage());
    assert_eq!(by_bytes.edit_fees(&owner, 1, &near, &fee_args(0, &new), storage()), replaced);
    assert_eq!(by_bytes.get_pool(0), decoded.get_pool(0));

    let good = fee_args(0, &new);
    let mut long = good.clone();
    long.push(0);
    let mut kind = good.clone();
    kind[8] = 1;
    let mut count = good.clone();
    count[4] = 3;
    let mut name = good.clone();
    name[13] = b'.';
    for args in [vec![], good[..good.len() - 1].to_vec(), long, kind, count, name] {
        assert_eq!(by_bytes.edit_fees(&owner, 1, &near, &args, storage()), Err(DexError::InvalidArgs));
        assert_eq!(by_bytes.edit_fees(&owner, 0, &near, &args, storage()), Err(DexError::OneYoctoRequired));
    }

    let fee = account("fee.near");
    let assets = vec![token(), AssetId::Near];
    for dex in [&mut by_bytes, &mut decoded] {
        swap(dex, 1, SwapRequestAmount::ExactIn(1_000)).unwrap();
    }
    let drawn = decoded.draw_fees(&fee, 1, &none, &assets);
    assert_eq!(by_bytes.withdraw_fees(&fee, 1, &none, &asset_args(&assets)), drawn);
    assert_eq!(drawn.unwrap().asset_withdraw_requests.len(), 1);
    let good = asset_args(&assets);
    let mut long = good.clone();
    long.push(0);
    for args in [vec![], good[..good.len() - 1].to_vec(), long, vec![1, 0, 0, 0, 9]] {
        assert_eq!(by_bytes.withdraw_fees(&fee, 1, &none, &args), Err(DexError::InvalidArgs));
        assert_eq!(by_bytes.withdraw_fees(&fee, 0, &none, &args), Err(DexError::OneYoctoRequired));
    }
}
