//! Providing for pools: shares, deposits and withdrawals.

use vstd::prelude::*;

use super::args::{list_of_assets, read_assets};
use super::call::{
    answer_storage, attached_of, both_attached, only_near, storage_cost, storage_response, take_both,
    take_near, withdraw_views, AssetWithdrawRequest, AttachedAssets, AttachedView, DexCallResponse,
    ResponseView, StorageUsage, WithdrawView,
};
use super::dex::{owed, with_pool};
use super::state::{
    shares_to_tokens, tokens_to_shares, CollectedFees, CollectedView, DexError, DexState, Pool, PoolId, PoolState,
    ProvidersView, UserShares, XykDex, INITIAL_SHARES,
};
use crate::account::AccountId;
use crate::asset::{AssetId, AssetIdView};
use crate::encoding::{
    borsh_read_pool_and_bound, borsh_read_pool_bound_and_pair, borsh_read_u32, read_pool_and_bound,
    read_pool_bound_and_pair, read_u32,
};
use crate::ident::{views, Ident, IdentPair};
use crate::wide::ratio;

verus! {

/// The shares of accounts.
pub type SharesView = Map<Seq<char>, Option<u128>>;

/// The exchange after an account was registered with a public pool, and the
/// answer.
pub open spec fn dex_register_liquidity(
    state: DexState,
    caller: Seq<char>,
    deposit: u128,
    attached: AttachedView,
    pool_id: PoolId,
    storage: StorageUsage,
) -> Result<(DexState, ResponseView), DexError> {
    if deposit != 1 {
        Err(DexError::OneYoctoRequired)
    } else if pool_id >= state.pools.len() {
        Err(DexError::PoolNotFound)
    } else {
        let pool = state.pools[pool_id as int];
        match pool.providers {
            ProvidersView::Owner(_) => Err(DexError::NotAPublicPool),
            ProvidersView::Anyone { shares, total } => if !only_near(attached) {
                Err(DexError::UnexpectedAssets)
            } else if attached_of(attached, AssetIdView::Near) < storage_cost(storage) {
                Err(DexError::NotEnoughNear)
            } else {
                let registered = if shares.contains_key(caller) {
                    shares
                } else {
                    shares.insert(caller, None)
                };
                let providers = ProvidersView::Anyone { shares: registered, total };
                Ok(
                    (
                        with_pool(state, pool_id, PoolState { providers, ..pool }),
                        storage_response(
                            attached_of(attached, AssetIdView::Near),
                            storage_cost(storage),
                            caller,
                            Seq::empty(),
                        ),
                    ),
                )
            },
        }
    }
}

/// The exchange after the call that registers an account.
pub open spec fn dex_register_call(
    state: DexState,
    caller: Seq<char>,
    deposit: u128,
    attached: AttachedView,
    args: Seq<u8>,
    storage: StorageUsage,
) -> Result<(DexState, ResponseView), DexError> {
    if deposit != 1 {
        Err(DexError::OneYoctoRequired)
    } else {
        match read_u32(args) {
            None => Err(DexError::InvalidArgs),
            Some(pool_id) => dex_register_liquidity(state, caller, deposit, attached, pool_id, storage),
        }
    }
}

/// What a deposit into a pool that has shares comes to.
pub struct Minted {
    pub shares: u128,
    pub used_0: u128,
    pub used_1: u128,
}

/// The shares that an amount alone would bring: those of one unit less.
pub open spec fn shares_for(amount: u128, total: u128, balance: u128) -> Result<u128, DexError> {
    match ratio((amount - 1) as nat, total as nat, balance as nat) {
        None => Err(DexError::Arithmetic),
        Some(shares) => if shares == 0 {
            Err(DexError::NoSharesToMint)
        } else {
            Ok(shares)
        },
    }
}

/// The units that shares take: one more than they are worth.
pub open spec fn units_for(shares: u128, total: u128, balance: u128) -> Option<u128> {
    match ratio(balance as nat, shares as nat, total as nat) {
        Some(units) => if units == u128::MAX {
            None
        } else {
            Some((units + 1) as u128)
        },
        None => None,
    }
}

/// The shares that a deposit of both assets brings, the least that either
/// would, and the units that they take.
pub open spec fn mint(
    amounts: (u128, u128),
    total: u128,
    balances: (u128, u128),
    least: Option<u128>,
) -> Result<Minted, DexError> {
    if balances.0 == 0 || balances.1 == 0 {
        Err(DexError::PoolIsEmpty)
    } else {
        match shares_for(amounts.0, total, balances.0) {
            Err(e) => Err(e),
            Ok(from_0) => match shares_for(amounts.1, total, balances.1) {
                Err(e) => Err(e),
                Ok(from_1) => {
                    let shares = if from_0 <= from_1 {
                        from_0
                    } else {
                        from_1
                    };
                    if least matches Some(least) && shares < least {
                        Err(DexError::Slippage)
                    } else {
                        match (units_for(shares, total, balances.0), units_for(shares, total, balances.1)) {
                            (Some(used_0), Some(used_1)) => Ok(Minted { shares, used_0, used_1 }),
                            _ => Err(DexError::Arithmetic),
                        }
                    }
                },
            },
        }
    }
}

/// The sum of balances and amounts, where it fits.
pub open spec fn added(balances: (u128, u128), first: u128, second: u128) -> Option<(u128, u128)> {
    if balances.0 + first > u128::MAX || balances.1 + second > u128::MAX {
        None
    } else {
        Some(((balances.0 + first) as u128, (balances.1 + second) as u128))
    }
}

/// The number of shares: none is nothing.
pub open spec fn share_count(shares: Option<u128>) -> u128 {
    match shares {
        Some(shares) => shares,
        None => 0,
    }
}

/// A share count: nothing is none.
pub open spec fn nonzero(shares: u128) -> Option<u128> {
    if shares == 0 {
        None
    } else {
        Some(shares)
    }
}

/// What is paid back to the caller of the two assets: what was not used.
pub open spec fn paid_back(
    assets: (AssetIdView, AssetIdView),
    amounts: (u128, u128),
    used: (u128, u128),
    caller: Seq<char>,
) -> Seq<WithdrawView> {
    let first = if used.0 <= amounts.0 {
        seq![WithdrawView { asset: assets.0, amount: (amounts.0 - used.0) as u128, to: caller }]
    } else {
        Seq::empty()
    };
    let second = if used.1 <= amounts.1 {
        seq![WithdrawView { asset: assets.1, amount: (amounts.1 - used.1) as u128, to: caller }]
    } else {
        Seq::empty()
    };
    first + second
}

/// The pool after a deposit, and what is paid back. The first deposit into a
/// pool whose shares are given out fills it and mints none: only who holds all
/// of them can make it.
pub open spec fn pool_add(
    pool: PoolState,
    caller: Seq<char>,
    attached: AttachedView,
    least: Option<u128>,
) -> Result<(PoolState, Seq<WithdrawView>), DexError> {
    match pool.providers {
        ProvidersView::Owner(owner) => if owner != caller {
            Err(DexError::NotTheOwner)
        } else if least is Some {
            Err(DexError::MinSharesNotAllowed)
        } else {
            match both_attached(attached, pool.assets.0, pool.assets.1) {
                Err(e) => Err(e),
                Ok(amounts) => match added(pool.balances, amounts.0, amounts.1) {
                    None => Err(DexError::Arithmetic),
                    Some(balances) => Ok((PoolState { balances, ..pool }, Seq::empty())),
                },
            }
        },
        ProvidersView::Anyone { shares, total } => match both_attached(attached, pool.assets.0, pool.assets.1) {
            Err(e) => Err(e),
            Ok(amounts) => if amounts.0 == 0 || amounts.1 == 0 {
                Err(DexError::AmountIsZero)
            } else if !shares.contains_key(caller) {
                Err(DexError::NotRegistered)
            } else {
                match total {
                    None => if least is Some {
                        Err(DexError::MinSharesNotAllowed)
                    } else {
                        match added(pool.balances, amounts.0, amounts.1) {
                            None => Err(DexError::Arithmetic),
                            Some(balances) => if shares[caller] is Some {
                                Err(DexError::SharesWithoutTotal)
                            } else {
                                let providers = ProvidersView::Anyone {
                                    shares: shares.insert(caller, Some(INITIAL_SHARES)),
                                    total: Some(INITIAL_SHARES),
                                };
                                Ok((PoolState { balances, providers, ..pool }, Seq::empty()))
                            },
                        }
                    },
                    Some(total) if pool.balances == (0u128, 0u128) => if least is Some {
                        Err(DexError::MinSharesNotAllowed)
                    } else if shares[caller] != Some(total) {
                        Err(DexError::PoolIsEmpty)
                    } else {
                        Ok((PoolState { balances: amounts, ..pool }, Seq::empty()))
                    },
                    Some(total) => match mint(amounts, total, pool.balances, least) {
                        Err(e) => Err(e),
                        Ok(minted) => match added(pool.balances, minted.used_0, minted.used_1) {
                            None => Err(DexError::Arithmetic),
                            Some(balances) => if total + minted.shares > u128::MAX || share_count(shares[caller])
                                + minted.shares > u128::MAX {
                                Err(DexError::Arithmetic)
                            } else {
                                let own = (share_count(shares[caller]) + minted.shares) as u128;
                                let providers = ProvidersView::Anyone {
                                    shares: shares.insert(caller, Some(own)),
                                    total: Some((total + minted.shares) as u128),
                                };
                                Ok(
                                    (
                                        PoolState { balances, providers, ..pool },
                                        paid_back(
                                            pool.assets,
                                            amounts,
                                            (minted.used_0, minted.used_1),
                                            caller,
                                        ),
                                    ),
                                )
                            },
                        },
                    },
                }
            },
        },
    }
}

/// The exchange after a deposit, and the answer.
pub open spec fn dex_add_liquidity(
    state: DexState,
    caller: Seq<char>,
    deposit: u128,
    attached: AttachedView,
    pool_id: PoolId,
    least: Option<u128>,
) -> Result<(DexState, ResponseView), DexError> {
    if deposit != 1 {
        Err(DexError::OneYoctoRequired)
    } else if pool_id >= state.pools.len() {
        Err(DexError::PoolNotFound)
    } else {
        match pool_add(state.pools[pool_id as int], caller, attached, least) {
            Err(e) => Err(e),
            Ok((pool, withdraws)) => Ok(
                (
                    with_pool(state, pool_id, pool),
                    ResponseView { withdraws, storage_deposit: 0, response: Seq::empty() },
                ),
            ),
        }
    }
}

/// The exchange after the call that deposits.
pub open spec fn dex_add_call(
    state: DexState,
    caller: Seq<char>,
    deposit: u128,
    attached: AttachedView,
    args: Seq<u8>,
) -> Result<(DexState, ResponseView), DexError> {
    if deposit != 1 {
        Err(DexError::OneYoctoRequired)
    } else {
        match read_pool_and_bound(args) {
            None => Err(DexError::InvalidArgs),
            Some((pool_id, least)) => dex_add_liquidity(state, caller, deposit, attached, pool_id, least),
        }
    }
}

/// What shares are worth of the two balances: the whole where they are all
/// shares.
pub open spec fn worth(shares: u128, total: u128, balances: (u128, u128)) -> Option<(u128, u128)> {
    if shares == total {
        Some(balances)
    } else {
        match (worth_of(shares, total, balances.0), worth_of(shares, total, balances.1)) {
            (Some(first), Some(second)) => Some((first, second)),
            _ => None,
        }
    }
}

/// What shares are worth of a balance.
pub open spec fn worth_of(shares: u128, total: u128, balance: u128) -> Option<u128> {
    if balance == 0 {
        Some(0)
    } else {
        match ratio(balance as nat, shares as nat, total as nat) {
            Some(units) => if units > balance {
                None
            } else {
                Some(units)
            },
            None => None,
        }
    }
}

/// The pool after a withdrawal, and what is paid out.
pub open spec fn pool_remove(
    pool: PoolState,
    caller: Seq<char>,
    wanted: Option<u128>,
    least: Option<(u128, u128)>,
) -> Result<(PoolState, (u128, u128)), DexError> {
    match pool.providers {
        ProvidersView::Owner(owner) => if owner != caller {
            Err(DexError::NotTheOwner)
        } else if wanted is Some || least is Some {
            Err(DexError::SharesNotAllowed)
        } else {
            Ok((PoolState { balances: (0, 0), ..pool }, pool.balances))
        },
        ProvidersView::Anyone { shares, total } => if !shares.contains_key(caller) || shares[caller] is None {
            Err(DexError::NoShares)
        } else {
            let own = shares[caller]->0;
            let removed = match wanted {
                Some(wanted) => wanted,
                None => own,
            };
            if removed > own {
                Err(DexError::NotEnoughShares)
            } else {
                match total {
                    None => Err(DexError::SharesWithoutTotal),
                    Some(total) => match worth(removed, total, pool.balances) {
                        None => Err(DexError::Arithmetic),
                        Some(paid) => if least matches Some(least) && (paid.0 < least.0 || paid.1 < least.1) {
                            Err(DexError::Slippage)
                        } else if removed > total {
                            Err(DexError::Arithmetic)
                        } else {
                            let providers = ProvidersView::Anyone {
                                shares: shares.insert(caller, nonzero((own - removed) as u128)),
                                total: nonzero((total - removed) as u128),
                            };
                            let balances = (
                                (pool.balances.0 - paid.0) as u128,
                                (pool.balances.1 - paid.1) as u128,
                            );
                            Ok((PoolState { balances, providers, ..pool }, paid))
                        },
                    },
                }
            }
        },
    }
}

/// The exchange after a withdrawal, and the answer.
pub open spec fn dex_remove_liquidity(
    state: DexState,
    caller: Seq<char>,
    deposit: u128,
    attached: AttachedView,
    pool_id: PoolId,
    wanted: Option<u128>,
    least: Option<(u128, u128)>,
) -> Result<(DexState, ResponseView), DexError> {
    if deposit != 1 {
        Err(DexError::OneYoctoRequired)
    } else if attached != Map::<AssetIdView, u128>::empty() {
        Err(DexError::UnexpectedAssets)
    } else if pool_id >= state.pools.len() {
        Err(DexError::PoolNotFound)
    } else {
        let before = state.pools[pool_id as int];
        match pool_remove(before, caller, wanted, least) {
            Err(e) => Err(e),
            Ok((pool, paid)) => Ok(
                (
                    with_pool(state, pool_id, pool),
                    ResponseView {
                        withdraws: seq![
                            WithdrawView { asset: before.assets.0, amount: paid.0, to: caller },
                            WithdrawView { asset: before.assets.1, amount: paid.1, to: caller },
                        ],
                        storage_deposit: 0,
                        response: Seq::empty(),
                    },
                ),
            ),
        }
    }
}

/// The exchange after the call that withdraws.
pub open spec fn dex_remove_call(
    state: DexState,
    caller: Seq<char>,
    deposit: u128,
    attached: AttachedView,
    args: Seq<u8>,
) -> Result<(DexState, ResponseView), DexError> {
    if deposit != 1 {
        Err(DexError::OneYoctoRequired)
    } else {
        match read_pool_bound_and_pair(args) {
            None => Err(DexError::InvalidArgs),
            Some((pool_id, wanted, least)) => dex_remove_liquidity(
                state,
                caller,
                deposit,
                attached,
                pool_id,
                wanted,
                least,
            ),
        }
    }
}

/// What is owed after an account drew what it is owed in the first `k`
/// assets, and what it was paid.
pub open spec fn drawn(
    collected: CollectedView,
    account: Seq<char>,
    assets: Seq<AssetIdView>,
    k: int,
) -> (CollectedView, Seq<WithdrawView>)
    decreases k,
{
    if k <= 0 {
        (collected, Seq::empty())
    } else {
        let (before, paid) = drawn(collected, account, assets, k - 1);
        let amount = owed(before, account, assets[k - 1]);
        if amount == 0 {
            (before, paid)
        } else {
            (
                before.insert((account, assets[k - 1]), 0),
                paid.push(WithdrawView { asset: assets[k - 1], amount, to: account }),
            )
        }
    }
}

/// The exchange after an account drew its fees, and the answer.
pub open spec fn dex_withdraw_fees(
    state: DexState,
    caller: Seq<char>,
    deposit: u128,
    attached: AttachedView,
    assets: Seq<AssetIdView>,
) -> Result<(DexState, ResponseView), DexError> {
    if deposit != 1 {
        Err(DexError::OneYoctoRequired)
    } else if attached != Map::<AssetIdView, u128>::empty() {
        Err(DexError::UnexpectedAssets)
    } else {
        let (collected, withdraws) = drawn(state.collected, caller, assets, assets.len() as int);
        Ok(
            (
                DexState { collected, ..state },
                ResponseView { withdraws, storage_deposit: 0, response: Seq::empty() },
            ),
        )
    }
}

/// The exchange after the call that draws fees.
pub open spec fn dex_draw_call(
    state: DexState,
    caller: Seq<char>,
    deposit: u128,
    attached: AttachedView,
    args: Seq<u8>,
) -> Result<(DexState, ResponseView), DexError> {
    if deposit != 1 {
        Err(DexError::OneYoctoRequired)
    } else {
        match read_assets(args) {
            None => Err(DexError::InvalidArgs),
            Some(assets) => dex_withdraw_fees(state, caller, deposit, attached, assets),
        }
    }
}

/// What an account is owed in those of the first `k` assets that it has an
/// entry in.
pub open spec fn pending(
    collected: CollectedView,
    account: Seq<char>,
    assets: Seq<AssetIdView>,
    k: int,
) -> Seq<(AssetIdView, u128)>
    decreases k,
{
    if k <= 0 {
        Seq::empty()
    } else {
        let before = pending(collected, account, assets, k - 1);
        if collected.contains_key((account, assets[k - 1])) {
            before.push((assets[k - 1], collected[(account, assets[k - 1])]))
        } else {
            before
        }
    }
}

/// The assets and amounts.
pub open spec fn pending_view(fees: Seq<(AssetId, u128)>) -> Seq<(AssetIdView, u128)> {
    Seq::new(fees.len(), |i: int| (fees[i].0@, fees[i].1))
}

/// The shares that an amount alone would bring.
fn shares_for_amount(amount: u128, total: u128, balance: u128) -> (r: Result<u128, DexError>)
    requires
        amount > 0,
    ensures
        r == shares_for(amount, total, balance),
{
    match tokens_to_shares(amount - 1, total, balance) {
        None => Err(DexError::Arithmetic),
        Some(shares) => {
            if shares == 0 {
                Err(DexError::NoSharesToMint)
            } else {
                Ok(shares)
            }
        },
    }
}

/// The units that shares take.
fn units_for_shares(shares: u128, total: u128, balance: u128) -> (r: Option<u128>)
    ensures
        r == units_for(shares, total, balance),
{
    match shares_to_tokens(shares, total, balance) {
        Some(units) => units.checked_add(1),
        None => None,
    }
}

/// The shares that a deposit brings.
fn mint_shares(amounts: (u128, u128), total: u128, balances: (u128, u128), least: Option<u128>) -> (r: Result<
    Minted,
    DexError,
>)
    requires
        amounts.0 > 0,
        amounts.1 > 0,
    ensures
        r == mint(amounts, total, balances, least),
{
    if balances.0 == 0 || balances.1 == 0 {
        return Err(DexError::PoolIsEmpty);
    }
    let from_0: u128 = match shares_for_amount(amounts.0, total, balances.0) {
        Ok(shares) => shares,
        Err(e) => {
            return Err(e);
        },
    };
    let from_1: u128 = match shares_for_amount(amounts.1, total, balances.1) {
        Ok(shares) => shares,
        Err(e) => {
            return Err(e);
        },
    };
    let shares: u128 = if from_0 <= from_1 {
        from_0
    } else {
        from_1
    };
    match least {
        Some(least) => {
            if shares < least {
                return Err(DexError::Slippage);
            }
        },
        None => {},
    }
    match (units_for_shares(shares, total, balances.0), units_for_shares(shares, total, balances.1)) {
        (Some(used_0), Some(used_1)) => Ok(Minted { shares, used_0, used_1 }),
        _ => Err(DexError::Arithmetic),
    }
}

/// The sum of balances and amounts.
fn add_amounts(balances: (u128, u128), first: u128, second: u128) -> (r: Option<(u128, u128)>)
    ensures
        r == added(balances, first, second),
{
    match (balances.0.checked_add(first), balances.1.checked_add(second)) {
        (Some(first), Some(second)) => Some((first, second)),
        _ => None,
    }
}

/// The requests that pay back what was not used.
fn pay_back(first: &AssetId, second: &AssetId, amounts: (u128, u128), used: (u128, u128), caller: &AccountId) -> (r: Vec<
    AssetWithdrawRequest,
>)
    ensures
        withdraw_views(r@) == paid_back((first@, second@), amounts, used, caller@),
{
    let mut out: Vec<AssetWithdrawRequest> = Vec::new();
    if used.0 <= amounts.0 {
        out.push(AssetWithdrawRequest::to_balance(first, amounts.0 - used.0, caller));
    }
    if used.1 <= amounts.1 {
        out.push(AssetWithdrawRequest::to_balance(second, amounts.1 - used.1, caller));
    }
    assert(withdraw_views(out@) =~= paid_back((first@, second@), amounts, used, caller@));
    out
}

/// Whether the pool is the caller's own, or none where it is public.
fn owned_by(pool: &Pool, caller: &AccountId) -> (r: Option<bool>)
    ensures
        r == match pool@.providers {
            ProvidersView::Owner(owner) => Some(owner == caller@),
            ProvidersView::Anyone { .. } => None,
        },
{
    match pool {
        Pool::Private { owner_id, .. } => Some(owner_id.same(caller)),
        Pool::Public { .. } => None,
    }
}

/// A public pool with other balances and shares.
fn with_shares(pool: &Pool, balances: (u128, u128), caller: &AccountId, own: Option<u128>, total: Option<u128>) -> (r: Pool)
    requires
        pool@.providers is Anyone,
    ensures
        r@ == (PoolState {
            balances,
            providers: ProvidersView::Anyone { shares: pool@.providers->shares.insert(caller@, own), total },
            ..pool@
        }),
{
    let changed: Pool = pool.with_balances(balances.0, balances.1);
    match changed {
        Pool::Public { assets, fees, user_shares, .. } => {
            let mut user_shares: UserShares = user_shares;
            user_shares.insert(caller.duplicate(), own);
            Pool::Public { assets, fees, user_shares, total_shares: total }
        },
        private => private,
    }
}

/// The entry of an account in a public pool, and the total.
fn shares_of(pool: &Pool, caller: &AccountId) -> (r: (Option<Option<u128>>, Option<u128>))
    requires
        pool@.providers is Anyone,
    ensures
        r.0 == if pool@.providers->shares.contains_key(caller@) {
            Some(pool@.providers->shares[caller@])
        } else {
            None
        },
        r.1 == pool@.providers->total,
{
    match pool {
        Pool::Public { user_shares, total_shares, .. } => (user_shares.get(caller), *total_shares),
        Pool::Private { .. } => (None, None),
    }
}

/// The number of shares.
fn count_of(shares: Option<u128>) -> (r: u128)
    ensures
        r == share_count(shares),
{
    match shares {
        Some(shares) => shares,
        None => 0,
    }
}

/// A share count: nothing is none.
fn nonzero_of(shares: u128) -> (r: Option<u128>)
    ensures
        r == nonzero(shares),
{
    if shares == 0 {
        None
    } else {
        Some(shares)
    }
}

/// The pool after a deposit.
fn add_to_pool(pool: &Pool, caller: &AccountId, attached: &AttachedAssets, least: Option<u128>) -> (r: Result<
    (Pool, Vec<AssetWithdrawRequest>),
    DexError,
>)
    ensures
        match r {
            Ok(r) => pool_add(pool@, caller@, attached@, least) == Ok::<(PoolState, Seq<WithdrawView>), DexError>(
                (r.0@, withdraw_views(r.1@)),
            ),
            Err(e) => pool_add(pool@, caller@, attached@, least) == Err::<
                (PoolState, Seq<WithdrawView>),
                DexError,
            >(e),
        },
{
    let (first, second): (&AssetId, &AssetId) = pool.assets();
    let nothing: Vec<AssetWithdrawRequest> = Vec::new();
    assert(withdraw_views(nothing@) =~= Seq::empty());
    match owned_by(pool, caller) {
        Some(own) => {
            if !own {
                return Err(DexError::NotTheOwner);
            }
            if least.is_some() {
                return Err(DexError::MinSharesNotAllowed);
            }
            match take_both(attached, first, second) {
                Err(e) => Err(e),
                Ok(amounts) => match add_amounts(pool.balances(), amounts.0, amounts.1) {
                    None => Err(DexError::Arithmetic),
                    Some(balances) => Ok((pool.with_balances(balances.0, balances.1), nothing)),
                },
            }
        },
        None => {
            let amounts: (u128, u128) = match take_both(attached, first, second) {
                Err(e) => {
                    return Err(e);
                },
                Ok(amounts) => amounts,
            };
            if amounts.0 == 0 || amounts.1 == 0 {
                return Err(DexError::AmountIsZero);
            }
            let (entry, total): (Option<Option<u128>>, Option<u128>) = shares_of(pool, caller);
            let entry: Option<u128> = match entry {
                Some(entry) => entry,
                None => {
                    return Err(DexError::NotRegistered);
                },
            };
            match total {
                None => {
                    if least.is_some() {
                        return Err(DexError::MinSharesNotAllowed);
                    }
                    match add_amounts(pool.balances(), amounts.0, amounts.1) {
                        None => Err(DexError::Arithmetic),
                        Some(balances) => {
                            if entry.is_some() {
                                return Err(DexError::SharesWithoutTotal);
                            }
                            Ok(
                                (
                                    with_shares(
                                        pool,
                                        balances,
                                        caller,
                                        Some(INITIAL_SHARES),
                                        Some(INITIAL_SHARES),
                                    ),
                                    nothing,
                                ),
                            )
                        },
                    }
                },
                Some(total) => {
                    let held: (u128, u128) = pool.balances();
                    if held.0 == 0 && held.1 == 0 {
                        if least.is_some() {
                            return Err(DexError::MinSharesNotAllowed);
                        }
                        if count_of(entry) != total || entry.is_none() {
                            return Err(DexError::PoolIsEmpty);
                        }
                        return Ok((pool.with_balances(amounts.0, amounts.1), nothing));
                    }
                    let minted: Minted = match mint_shares(amounts, total, pool.balances(), least) {
                        Err(e) => {
                            return Err(e);
                        },
                        Ok(minted) => minted,
                    };
                    let used: (u128, u128) = (minted.used_0, minted.used_1);
                    match (
                        add_amounts(pool.balances(), used.0, used.1),
                        total.checked_add(minted.shares),
                        count_of(entry).checked_add(minted.shares),
                    ) {
                        (Some(balances), Some(total), Some(own)) => Ok(
                            (
                                with_shares(pool, balances, caller, Some(own), Some(total)),
                                pay_back(first, second, amounts, used, caller),
                            ),
                        ),
                        _ => Err(DexError::Arithmetic),
                    }
                },
            }
        },
    }
}

/// What shares are worth of a balance.
fn worth_in(shares: u128, total: u128, balance: u128) -> (r: Option<u128>)
    ensures
        r == worth_of(shares, total, balance),
        r matches Some(units) ==> units <= balance,
{
    if balance == 0 {
        return Some(0);
    }
    match shares_to_tokens(shares, total, balance) {
        Some(units) => {
            if units > balance {
                None
            } else {
                Some(units)
            }
        },
        None => None,
    }
}

/// What shares are worth of two balances.
fn worth_in_both(shares: u128, total: u128, balances: (u128, u128)) -> (r: Option<(u128, u128)>)
    ensures
        r == worth(shares, total, balances),
        r matches Some(paid) ==> paid.0 <= balances.0 && paid.1 <= balances.1,
{
    if shares == total {
        return Some(balances);
    }
    match (worth_in(shares, total, balances.0), worth_in(shares, total, balances.1)) {
        (Some(first), Some(second)) => Some((first, second)),
        _ => None,
    }
}

/// The pool after a withdrawal.
fn remove_from_pool(pool: &Pool, caller: &AccountId, wanted: Option<u128>, least: Option<(u128, u128)>) -> (r: Result<
    (Pool, (u128, u128)),
    DexError,
>)
    ensures
        match r {
            Ok(r) => pool_remove(pool@, caller@, wanted, least) == Ok::<(PoolState, (u128, u128)), DexError>(
                (r.0@, r.1),
            ),
            Err(e) => pool_remove(pool@, caller@, wanted, least) == Err::<(PoolState, (u128, u128)), DexError>(e),
        },
{
    match owned_by(pool, caller) {
        Some(own) => {
            if !own {
                return Err(DexError::NotTheOwner);
            }
            if wanted.is_some() || least.is_some() {
                return Err(DexError::SharesNotAllowed);
            }
            Ok((pool.with_balances(0, 0), pool.balances()))
        },
        None => {
            let (entry, total): (Option<Option<u128>>, Option<u128>) = shares_of(pool, caller);
            let own: u128 = match entry {
                Some(Some(own)) => own,
                _ => {
                    return Err(DexError::NoShares);
                },
            };
            let removed: u128 = match wanted {
                Some(wanted) => wanted,
                None => own,
            };
            if removed > own {
                return Err(DexError::NotEnoughShares);
            }
            let total: u128 = match total {
                Some(total) => total,
                None => {
                    return Err(DexError::SharesWithoutTotal);
                },
            };
            let balances: (u128, u128) = pool.balances();
            let paid: (u128, u128) = match worth_in_both(removed, total, balances) {
                Some(paid) => paid,
                None => {
                    return Err(DexError::Arithmetic);
                },
            };
            match least {
                Some(least) => {
                    if paid.0 < least.0 || paid.1 < least.1 {
                        return Err(DexError::Slippage);
                    }
                },
                None => {},
            }
            if removed > total {
                return Err(DexError::Arithmetic);
            }
            let left: (u128, u128) = (balances.0 - paid.0, balances.1 - paid.1);
            Ok(
                (
                    with_shares(pool, left, caller, nonzero_of(own - removed), nonzero_of(total - removed)),
                    paid,
                ),
            )
        },
    }
}

impl XykDex {
    /// Registers the caller with the public pool that the arguments name.
    pub fn register_liquidity(
        &mut self,
        caller: &AccountId,
        deposit: u128,
        attached: &AttachedAssets,
        args: &Vec<u8>,
        storage: StorageUsage,
    ) -> (r: Result<DexCallResponse, DexError>)
        ensures
            match r {
                Ok(response) => dex_register_call(old(self)@, caller@, deposit, attached@, args@, storage) == Ok::<
                    (DexState, ResponseView),
                    DexError,
                >((final(self)@, response@)),
                Err(e) => dex_register_call(old(self)@, caller@, deposit, attached@, args@, storage) == Err::<
                    (DexState, ResponseView),
                    DexError,
                >(e) && final(self)@ == old(self)@,
            },
    {
        if deposit != 1 {
            return Err(DexError::OneYoctoRequired);
        }
        match borsh_read_u32(args) {
            Some(pool_id) => self.register_with_pool(caller, deposit, attached, pool_id, storage),
            None => Err(DexError::InvalidArgs),
        }
    }

    /// Registers the caller with a public pool, who pays for the storage with
    /// the attached near.
    pub fn register_with_pool(
        &mut self,
        caller: &AccountId,
        deposit: u128,
        attached: &AttachedAssets,
        pool_id: PoolId,
        storage: StorageUsage,
    ) -> (r: Result<DexCallResponse, DexError>)
        ensures
            match r {
                Ok(response) => dex_register_liquidity(
                    old(self)@,
                    caller@,
                    deposit,
                    attached@,
                    pool_id,
                    storage,
                ) == Ok::<(DexState, ResponseView), DexError>((final(self)@, response@)),
                Err(e) => dex_register_liquidity(old(self)@, caller@, deposit, attached@, pool_id, storage) == Err::<
                    (DexState, ResponseView),
                    DexError,
                >(e) && final(self)@ == old(self)@,
            },
    {
        proof {
            self.lemma_view();
        }
        if deposit != 1 {
            return Err(DexError::OneYoctoRequired);
        }
        if pool_id as usize >= self.pools.len() {
            return Err(DexError::PoolNotFound);
        }
        let pool: &Pool = &self.pools[pool_id as usize];
        if owned_by(pool, caller).is_some() {
            return Err(DexError::NotAPublicPool);
        }
        let (near, nothing_else): (Option<u128>, bool) = take_near(attached);
        let near: u128 = match near {
            Some(near) => near,
            None => 0,
        };
        if !nothing_else {
            return Err(DexError::UnexpectedAssets);
        }
        let cost: u128 = storage.cost();
        if near < cost {
            return Err(DexError::NotEnoughNear);
        }
        let (entry, total): (Option<Option<u128>>, Option<u128>) = shares_of(pool, caller);
        let entry: Option<u128> = match entry {
            Some(entry) => entry,
            None => None,
        };
        let ghost shares = pool@.providers->shares;
        let changed: Pool = with_shares(pool, pool.balances(), caller, entry, total);
        proof {
            if shares.contains_key(caller@) {
                assert(shares.insert(caller@, shares[caller@]) =~= shares);
            }
        }
        self.set_pool(pool_id as usize, changed);
        Ok(answer_storage(near, cost, caller, Vec::new()))
    }

    /// Deposits the two attached assets into the pool that the arguments name.
    pub fn add_liquidity(
        &mut self,
        caller: &AccountId,
        deposit: u128,
        attached: &AttachedAssets,
        args: &Vec<u8>,
    ) -> (r: Result<DexCallResponse, DexError>)
        ensures
            match r {
                Ok(response) => dex_add_call(old(self)@, caller@, deposit, attached@, args@) == Ok::<
                    (DexState, ResponseView),
                    DexError,
                >((final(self)@, response@)),
                Err(e) => dex_add_call(old(self)@, caller@, deposit, attached@, args@) == Err::<
                    (DexState, ResponseView),
                    DexError,
                >(e) && final(self)@ == old(self)@,
            },
    {
        if deposit != 1 {
            return Err(DexError::OneYoctoRequired);
        }
        match borsh_read_pool_and_bound(args) {
            Some((pool_id, least)) => self.deposit_into_pool(caller, deposit, attached, pool_id, least),
            None => Err(DexError::InvalidArgs),
        }
    }

    /// Deposits the two attached assets into a pool. Where the pool has
    /// shares, the caller gets those that the deposit is worth, and what was
    /// not needed for them goes back.
    pub fn deposit_into_pool(
        &mut self,
        caller: &AccountId,
        deposit: u128,
        attached: &AttachedAssets,
        pool_id: PoolId,
        min_shares_received: Option<u128>,
    ) -> (r: Result<DexCallResponse, DexError>)
        ensures
            match r {
                Ok(response) => dex_add_liquidity(
                    old(self)@,
                    caller@,
                    deposit,
                    attached@,
                    pool_id,
                    min_shares_received,
                ) == Ok::<(DexState, ResponseView), DexError>((final(self)@, response@)),
                Err(e) => dex_add_liquidity(
                    old(self)@,
                    caller@,
                    deposit,
                    attached@,
                    pool_id,
                    min_shares_received,
                ) == Err::<(DexState, ResponseView), DexError>(e) && final(self)@ == old(self)@,
            },
    {
        proof {
            self.lemma_view();
        }
        if deposit != 1 {
            return Err(DexError::OneYoctoRequired);
        }
        if pool_id as usize >= self.pools.len() {
            return Err(DexError::PoolNotFound);
        }
        let pool: &Pool = &self.pools[pool_id as usize];
        match add_to_pool(pool, caller, attached, min_shares_received) {
            Err(e) => Err(e),
            Ok((changed, asset_withdraw_requests)) => {
                self.set_pool(pool_id as usize, changed);
                Ok(DexCallResponse { asset_withdraw_requests, add_storage_deposit: 0, response: Vec::new() })
            },
        }
    }

    /// Pays out of the pool that the arguments name what shares are worth.
    pub fn remove_liquidity(
        &mut self,
        caller: &AccountId,
        deposit: u128,
        attached: &AttachedAssets,
        args: &Vec<u8>,
    ) -> (r: Result<DexCallResponse, DexError>)
        ensures
            match r {
                Ok(response) => dex_remove_call(old(self)@, caller@, deposit, attached@, args@) == Ok::<
                    (DexState, ResponseView),
                    DexError,
                >((final(self)@, response@)),
                Err(e) => dex_remove_call(old(self)@, caller@, deposit, attached@, args@) == Err::<
                    (DexState, ResponseView),
                    DexError,
                >(e) && final(self)@ == old(self)@,
            },
    {
        if deposit != 1 {
            return Err(DexError::OneYoctoRequired);
        }
        match borsh_read_pool_bound_and_pair(args) {
            Some((pool_id, wanted, least)) => self.withdraw_from_pool(caller, deposit, attached, pool_id, wanted, least),
            None => Err(DexError::InvalidArgs),
        }
    }

    /// Pays out of a pool what shares are worth, or all of a private pool.
    pub fn withdraw_from_pool(
        &mut self,
        caller: &AccountId,
        deposit: u128,
        attached: &AttachedAssets,
        pool_id: PoolId,
        shares_to_remove: Option<u128>,
        min_assets_received: Option<(u128, u128)>,
    ) -> (r: Result<DexCallResponse, DexError>)
        ensures
            match r {
                Ok(response) => dex_remove_liquidity(
                    old(self)@,
                    caller@,
                    deposit,
                    attached@,
                    pool_id,
                    shares_to_remove,
                    min_assets_received,
                ) == Ok::<(DexState, ResponseView), DexError>((final(self)@, response@)),
                Err(e) => dex_remove_liquidity(
                    old(self)@,
                    caller@,
                    deposit,
                    attached@,
                    pool_id,
                    shares_to_remove,
                    min_assets_received,
                ) == Err::<(DexState, ResponseView), DexError>(e) && final(self)@ == old(self)@,
            },
    {
        proof {
            self.lemma_view();
        }
        if deposit != 1 {
            return Err(DexError::OneYoctoRequired);
        }
        if !attached.is_empty() {
            return Err(DexError::UnexpectedAssets);
        }
        if pool_id as usize >= self.pools.len() {
            return Err(DexError::PoolNotFound);
        }
        let pool: &Pool = &self.pools[pool_id as usize];
        match remove_from_pool(pool, caller, shares_to_remove, min_assets_received) {
            Err(e) => Err(e),
            Ok((changed, paid)) => {
                let (first, second): (&AssetId, &AssetId) = pool.assets();
                let mut asset_withdraw_requests: Vec<AssetWithdrawRequest> = Vec::new();
                asset_withdraw_requests.push(AssetWithdrawRequest::to_balance(first, paid.0, caller));
                asset_withdraw_requests.push(AssetWithdrawRequest::to_balance(second, paid.1, caller));
                proof {
                    assert(withdraw_views(asset_withdraw_requests@) =~= seq![
                        WithdrawView { asset: first@, amount: paid.0, to: caller@ },
                        WithdrawView { asset: second@, amount: paid.1, to: caller@ },
                    ]);
                }
                self.set_pool(pool_id as usize, changed);
                Ok(DexCallResponse { asset_withdraw_requests, add_storage_deposit: 0, response: Vec::new() })
            },
        }
    }

    /// Pays the caller the fees that it is owed in the assets that the arguments
    /// list.
    pub fn withdraw_fees(
        &mut self,
        caller: &AccountId,
        deposit: u128,
        attached: &AttachedAssets,
        args: &Vec<u8>,
    ) -> (r: Result<DexCallResponse, DexError>)
        ensures
            match r {
                Ok(response) => dex_draw_call(old(self)@, caller@, deposit, attached@, args@) == Ok::<
                    (DexState, ResponseView),
                    DexError,
                >((final(self)@, response@)),
                Err(e) => dex_draw_call(old(self)@, caller@, deposit, attached@, args@) == Err::<
                    (DexState, ResponseView),
                    DexError,
                >(e) && final(self)@ == old(self)@,
            },
    {
        if deposit != 1 {
            return Err(DexError::OneYoctoRequired);
        }
        match list_of_assets(args) {
            Some(assets) => self.draw_fees(caller, deposit, attached, &assets),
            None => Err(DexError::InvalidArgs),
        }
    }

    /// Pays the caller the fees that it is owed in the assets.
    pub fn draw_fees(
        &mut self,
        caller: &AccountId,
        deposit: u128,
        attached: &AttachedAssets,
        assets: &Vec<AssetId>,
    ) -> (r: Result<DexCallResponse, DexError>)
        ensures
            match r {
                Ok(response) => dex_withdraw_fees(old(self)@, caller@, deposit, attached@, views(assets@))
                    == Ok::<(DexState, ResponseView), DexError>((final(self)@, response@)),
                Err(e) => dex_withdraw_fees(old(self)@, caller@, deposit, attached@, views(assets@)) == Err::<
                    (DexState, ResponseView),
                    DexError,
                >(e) && final(self)@ == old(self)@,
            },
    {
        proof {
            self.lemma_view();
        }
        if deposit != 1 {
            return Err(DexError::OneYoctoRequired);
        }
        if !attached.is_empty() {
            return Err(DexError::UnexpectedAssets);
        }
        let mut collected: CollectedFees = self.fees_collected_by_users.duplicate();
        let mut requests: Vec<AssetWithdrawRequest> = Vec::new();
        let ghost start = collected@;
        let ghost ids = views(assets@);
        let mut i: usize = 0;
        assert(withdraw_views(requests@) =~= Seq::empty());
        while i < assets.len()
            invariant
                i <= assets@.len(),
                ids == views(assets@),
                drawn(start, caller@, ids, i as int) == (collected@, withdraw_views(requests@)),
            decreases assets@.len() - i,
        {
            let asset: &AssetId = &assets[i];
            assert(ids[i as int] == asset@);
            let key: IdentPair<AccountId, AssetId> = IdentPair {
                first: caller.duplicate(),
                second: asset.duplicate(),
            };
            let amount: u128 = match collected.get(&key) {
                Some(amount) => amount,
                None => 0,
            };
            let ghost paid = requests@;
            if amount != 0 {
                collected.insert(key, 0);
                requests.push(AssetWithdrawRequest::to_balance(asset, amount, caller));
                proof {
                    assert(withdraw_views(requests@) =~= withdraw_views(paid).push(
                        WithdrawView { asset: asset@, amount, to: caller@ },
                    ));
                }
            }
            i = i + 1;
        }
        self.fees_collected_by_users = collected;
        proof {
            self.lemma_view();
        }
        Ok(DexCallResponse { asset_withdraw_requests: requests, add_storage_deposit: 0, response: Vec::new() })
    }

    /// What an account is owed in those of the assets that it has an entry in.
    pub fn get_pending_fees(&self, account_id: &AccountId, asset_ids: &Vec<AssetId>) -> (r: Vec<(AssetId, u128)>)
        ensures
            pending_view(r@) == pending(
                self@.collected,
                account_id@,
                views(asset_ids@),
                asset_ids@.len() as int,
            ),
    {
        proof {
            self.lemma_view();
        }
        let mut out: Vec<(AssetId, u128)> = Vec::new();
        let ghost collected = self.fees_collected_by_users@;
        let ghost ids = views(asset_ids@);
        let mut i: usize = 0;
        assert(pending_view(out@) =~= Seq::empty());
        while i < asset_ids.len()
            invariant
                i <= asset_ids@.len(),
                ids == views(asset_ids@),
                collected == self.fees_collected_by_users@,
                pending_view(out@) == pending(collected, account_id@, ids, i as int),
            decreases asset_ids@.len() - i,
        {
            let asset: &AssetId = &asset_ids[i];
            assert(ids[i as int] == asset@);
            let key: IdentPair<AccountId, AssetId> = IdentPair {
                first: account_id.duplicate(),
                second: asset.duplicate(),
            };
            let ghost before = out@;
            match self.fees_collected_by_users.get(&key) {
                Some(amount) => {
                    out.push((asset.duplicate(), amount));
                    proof {
                        assert(pending_view(out@) =~= pending_view(before).push((asset@, amount)));
                    }
                },
                None => {},
            }
            i = i + 1;
        }
        out
    }
}

} // verus!
