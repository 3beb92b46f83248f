//! Creating pools, editing their fees, and looking at them.

use vstd::prelude::*;

use super::args::{described_pool, new_fees, read_new_fees, read_pool};
use super::call::{
    answer_storage, attached_of, only_near, storage_cost, storage_response, take_near,
    AttachedAssets, AttachedView, DexCallResponse, ResponseView, StorageUsage,
};
use super::state::{
    fees_error, pool_states, AssetWithBalance, CollectedFees, CollectedView, DexError, DexState,
    FeeConfiguration, FeesView, Pool, PoolId, PoolState, ProvidersView, UserShares, XykDex, INITIAL_SHARES,
};
use crate::account::AccountId;
use crate::asset::{AssetId, AssetIdView};
use crate::encoding::{borsh_u32, le_bytes};
use crate::ident::{Ident, IdentPair};
use crate::keyed::KeyedMap;

verus! {

/// What is owed, with an entry for an account in an asset: what it was, or
/// nothing.
pub open spec fn with_entry(collected: CollectedView, account: Seq<char>, asset: AssetIdView) -> CollectedView {
    if collected.contains_key((account, asset)) {
        collected
    } else {
        collected.insert((account, asset), 0)
    }
}

/// What is owed, with entries for the first `k` receivers in both assets.
pub open spec fn with_entries(
    collected: CollectedView,
    fees: FeesView,
    assets: (AssetIdView, AssetIdView),
    k: int,
) -> CollectedView
    decreases k,
{
    if k <= 0 {
        collected
    } else {
        let account = fees[k - 1].0;
        with_entry(
            with_entry(with_entries(collected, fees, assets, k - 1), account, assets.0),
            account,
            assets.1,
        )
    }
}

/// Makes an entry for an account in an asset.
fn open_entry(collected: &mut CollectedFees, account: &AccountId, asset: &AssetId)
    ensures
        final(collected)@ == with_entry(old(collected)@, account@, asset@),
{
    let key: IdentPair<AccountId, AssetId> = IdentPair {
        first: account.duplicate(),
        second: asset.duplicate(),
    };
    if !collected.contains_key(&key) {
        collected.insert(key, 0);
    }
}

/// Makes entries for the receivers of fees in both assets.
fn open_entries(collected: &CollectedFees, fees: &FeeConfiguration, first: &AssetId, second: &AssetId) -> (r:
    CollectedFees)
    ensures
        r@ == with_entries(collected@, fees@, (first@, second@), fees@.len() as int),
{
    let mut out: CollectedFees = collected.duplicate();
    let n: usize = fees.receivers.len();
    let mut i: usize = 0;
    while i < n
        invariant
            i <= n,
            n == fees.receivers@.len(),
            out@ == with_entries(collected@, fees@, (first@, second@), i as int),
        decreases n - i,
    {
        let account: &AccountId = fees.receivers[i].0.account();
        assert(fees@[i as int].0 == account@);
        open_entry(&mut out, account, first);
        open_entry(&mut out, account, second);
        i = i + 1;
    }
    out
}

/// A pool that holds nothing yet. All shares of a public one are its
/// creator's.
pub open spec fn new_pool(
    assets: (AssetIdView, AssetIdView),
    fees: FeesView,
    is_public: bool,
    caller: Seq<char>,
) -> PoolState {
    PoolState {
        assets,
        balances: (0, 0),
        fees,
        providers: if is_public {
            ProvidersView::Anyone {
                shares: Map::empty().insert(caller, Some(INITIAL_SHARES)),
                total: Some(INITIAL_SHARES),
            }
        } else {
            ProvidersView::Owner(caller)
        },
    }
}

/// A pool to create.
#[derive(Clone, Debug, PartialEq)]
pub struct CreatePoolArgs {
    pub first: AssetId,
    pub second: AssetId,
    pub fees: FeeConfiguration,
    pub is_public: bool,
}

/// The exchange after a pool was created, and the answer.
pub open spec fn dex_create_pool(
    state: DexState,
    caller: Seq<char>,
    deposit: u128,
    attached: AttachedView,
    assets: (AssetIdView, AssetIdView),
    fees: FeesView,
    is_public: bool,
    storage: StorageUsage,
) -> Result<(DexState, ResponseView), DexError> {
    if deposit != 1 {
        Err(DexError::OneYoctoRequired)
    } else if assets.0 == assets.1 {
        Err(DexError::SameAssets)
    } else if fees_error(fees) is Some {
        Err(fees_error(fees)->0)
    } else if state.pools.len() >= u32::MAX {
        Err(DexError::TooManyPools)
    } else if storage.after < storage.before {
        Err(DexError::Arithmetic)
    } else if !attached.contains_key(AssetIdView::Near) {
        Err(DexError::NearNotAttached)
    } else if attached[AssetIdView::Near] < storage_cost(storage) {
        Err(DexError::NotEnoughNear)
    } else if !only_near(attached) {
        Err(DexError::UnexpectedAssets)
    } else {
        Ok(
            (
                DexState {
                    pools: state.pools.push(new_pool(assets, fees, is_public, caller)),
                    collected: with_entries(state.collected, fees, assets, fees.len() as int),
                },
                storage_response(
                    attached[AssetIdView::Near],
                    storage_cost(storage),
                    caller,
                    le_bytes(state.pools.len() as u32),
                ),
            ),
        )
    }
}

/// The exchange after the fees of a pool were replaced, and the answer.
pub open spec fn dex_edit_fees(
    state: DexState,
    caller: Seq<char>,
    deposit: u128,
    attached: AttachedView,
    pool_id: PoolId,
    fees: FeesView,
    storage: StorageUsage,
) -> Result<(DexState, ResponseView), DexError> {
    if deposit != 1 {
        Err(DexError::OneYoctoRequired)
    } else if pool_id >= state.pools.len() {
        Err(DexError::PoolNotFound)
    } else {
        let pool = state.pools[pool_id as int];
        match pool.providers {
            ProvidersView::Anyone { .. } => Err(DexError::FeesNotEditable),
            ProvidersView::Owner(owner) => if owner != caller {
                Err(DexError::NotTheOwner)
            } else if fees_error(fees) is Some {
                Err(fees_error(fees)->0)
            } else if attached_of(attached, AssetIdView::Near) < storage_cost(storage) {
                Err(DexError::NotEnoughNear)
            } else if !only_near(attached) {
                Err(DexError::UnexpectedAssets)
            } else {
                Ok(
                    (
                        DexState {
                            pools: state.pools.update(pool_id as int, PoolState { fees, ..pool }),
                            collected: with_entries(state.collected, fees, pool.assets, fees.len() as int),
                        },
                        storage_response(
                            attached_of(attached, AssetIdView::Near),
                            storage_cost(storage),
                            caller,
                            Seq::empty(),
                        ),
                    ),
                )
            },
        }
    }
}

/// The exchange after the call that creates a pool.
pub open spec fn dex_create_call(
    state: DexState,
    caller: Seq<char>,
    deposit: u128,
    attached: AttachedView,
    args: Seq<u8>,
    storage: StorageUsage,
) -> Result<(DexState, ResponseView), DexError> {
    if deposit != 1 {
        Err(DexError::OneYoctoRequired)
    } else {
        match read_pool(args) {
            None => Err(DexError::InvalidArgs),
            Some((assets, fees, is_public)) => dex_create_pool(
                state,
                caller,
                deposit,
                attached,
                assets,
                fees,
                is_public,
                storage,
            ),
        }
    }
}

/// The exchange after the call that replaces the fees of a pool.
pub open spec fn dex_edit_call(
    state: DexState,
    caller: Seq<char>,
    deposit: u128,
    attached: AttachedView,
    args: Seq<u8>,
    storage: StorageUsage,
) -> Result<(DexState, ResponseView), DexError> {
    if deposit != 1 {
        Err(DexError::OneYoctoRequired)
    } else {
        match read_new_fees(args) {
            None => Err(DexError::InvalidArgs),
            Some((pool_id, fees)) => dex_edit_fees(state, caller, deposit, attached, pool_id, fees, storage),
        }
    }
}

/// What the exchange shows of a pool.
#[derive(Debug, PartialEq)]
pub enum PoolView {
    Private { assets: (AssetWithBalance, AssetWithBalance), fees: FeeConfiguration, owner_id: AccountId },
    Public { assets: (AssetWithBalance, AssetWithBalance), fees: FeeConfiguration, total_shares: Option<u128> },
}

/// Whether the view shows the pool: all but who holds which shares.
pub open spec fn shows(view: PoolView, pool: PoolState) -> bool {
    match view {
        PoolView::Private { assets, fees, owner_id } => {
            &&& (assets.0.asset_id@, assets.1.asset_id@) == pool.assets
            &&& (assets.0.balance, assets.1.balance) == pool.balances
            &&& fees@ == pool.fees
            &&& pool.providers == ProvidersView::Owner(owner_id@)
        },
        PoolView::Public { assets, fees, total_shares } => {
            &&& (assets.0.asset_id@, assets.1.asset_id@) == pool.assets
            &&& (assets.0.balance, assets.1.balance) == pool.balances
            &&& fees@ == pool.fees
            &&& pool.providers matches ProvidersView::Anyone { total, .. } && total == total_shares
        },
    }
}

impl Pool {
    /// What the exchange shows of the pool.
    pub fn to_view(&self) -> (r: PoolView)
        ensures
            shows(r, self@),
    {
        match self {
            Pool::Private { assets, owner_id, fees } => PoolView::Private {
                assets: (
                    AssetWithBalance::new(&assets.0.asset_id, assets.0.balance),
                    AssetWithBalance::new(&assets.1.asset_id, assets.1.balance),
                ),
                fees: fees.duplicate(),
                owner_id: owner_id.duplicate(),
            },
            Pool::Public { assets, fees, total_shares, .. } => PoolView::Public {
                assets: (
                    AssetWithBalance::new(&assets.0.asset_id, assets.0.balance),
                    AssetWithBalance::new(&assets.1.asset_id, assets.1.balance),
                ),
                fees: fees.duplicate(),
                total_shares: *total_shares,
            },
        }
    }
}

/// Whether the fees of a private pool can be edited by the caller; none where
/// they can.
fn edit_error(pool: &Pool, caller: &AccountId) -> (r: Option<DexError>)
    ensures
        r == match pool@.providers {
            ProvidersView::Anyone { .. } => Some(DexError::FeesNotEditable),
            ProvidersView::Owner(owner) => if owner != caller@ {
                Some(DexError::NotTheOwner)
            } else {
                None
            },
        },
{
    match pool {
        Pool::Public { .. } => Some(DexError::FeesNotEditable),
        Pool::Private { owner_id, .. } => {
            if owner_id.same(caller) {
                None
            } else {
                Some(DexError::NotTheOwner)
            }
        },
    }
}

/// A private pool with other fees.
fn with_fees(pool: &Pool, fees: &FeeConfiguration) -> (r: Pool)
    requires
        pool@.providers is Owner,
    ensures
        r@ == (PoolState { fees: fees@, ..pool@ }),
{
    match pool {
        Pool::Private { assets, owner_id, .. } => Pool::Private {
            assets: (
                AssetWithBalance::new(&assets.0.asset_id, assets.0.balance),
                AssetWithBalance::new(&assets.1.asset_id, assets.1.balance),
            ),
            owner_id: owner_id.duplicate(),
            fees: fees.duplicate(),
        },
        Pool::Public { assets, user_shares, total_shares, .. } => Pool::Public {
            assets: (
                AssetWithBalance::new(&assets.0.asset_id, assets.0.balance),
                AssetWithBalance::new(&assets.1.asset_id, assets.1.balance),
            ),
            fees: fees.duplicate(),
            user_shares: user_shares.duplicate(),
            total_shares: *total_shares,
        },
    }
}

impl XykDex {
    /// An exchange without pools.
    pub fn new(deposit: u128) -> (r: Result<Self, DexError>)
        ensures
            match r {
                Ok(dex) => deposit == 1 && dex@ == (DexState { pools: Seq::empty(), collected: Map::empty() }),
                Err(e) => deposit != 1 && e == DexError::OneYoctoRequired,
            },
    {
        if deposit != 1 {
            return Err(DexError::OneYoctoRequired);
        }
        let dex = XykDex { pools: Vec::new(), fees_collected_by_users: KeyedMap::new() };
        proof {
            dex.lemma_view();
            assert(dex@.pools =~= Seq::empty());
        }
        Ok(dex)
    }

    /// Creates the pool that the arguments describe.
    pub fn create_pool(
        &mut self,
        caller: &AccountId,
        deposit: u128,
        attached: &AttachedAssets,
        args: &Vec<u8>,
        storage: StorageUsage,
    ) -> (r: Result<DexCallResponse, DexError>)
        ensures
            match r {
                Ok(response) => dex_create_call(old(self)@, caller@, deposit, attached@, args@, storage) == Ok::<
                    (DexState, ResponseView),
                    DexError,
                >((final(self)@, response@)),
                Err(e) => dex_create_call(old(self)@, caller@, deposit, attached@, args@, storage) == Err::<
                    (DexState, ResponseView),
                    DexError,
                >(e) && final(self)@ == old(self)@,
            },
    {
        if deposit != 1 {
            return Err(DexError::OneYoctoRequired);
        }
        match described_pool(args) {
            Some(pool) => self.open_pool(caller, deposit, attached, &pool, storage),
            None => Err(DexError::InvalidArgs),
        }
    }

    /// Creates a pool. The caller pays for the storage with the attached near,
    /// and gets all shares of a public pool.
    pub fn open_pool(
        &mut self,
        caller: &AccountId,
        deposit: u128,
        attached: &AttachedAssets,
        args: &CreatePoolArgs,
        storage: StorageUsage,
    ) -> (r: Result<DexCallResponse, DexError>)
        ensures
            match r {
                Ok(response) => dex_create_pool(
                    old(self)@,
                    caller@,
                    deposit,
                    attached@,
                    (args.first@, args.second@),
                    args.fees@,
                    args.is_public,
                    storage,
                ) == Ok::<(DexState, ResponseView), DexError>((final(self)@, response@)),
                Err(e) => dex_create_pool(
                    old(self)@,
                    caller@,
                    deposit,
                    attached@,
                    (args.first@, args.second@),
                    args.fees@,
                    args.is_public,
                    storage,
                ) == Err::<(DexState, ResponseView), DexError>(e) && final(self)@ == old(self)@,
            },
    {
        proof {
            self.lemma_view();
        }
        if deposit != 1 {
            return Err(DexError::OneYoctoRequired);
        }
        if args.first.same(&args.second) {
            return Err(DexError::SameAssets);
        }
        match args.fees.validate() {
            Ok(_) => {},
            Err(e) => {
                return Err(e);
            },
        }
        let count: usize = self.pools.len();
        if count >= u32::MAX as usize {
            return Err(DexError::TooManyPools);
        }
        if storage.after < storage.before {
            return Err(DexError::Arithmetic);
        }
        let cost: u128 = storage.cost();
        let (near, nothing_else): (Option<u128>, bool) = take_near(attached);
        let near: u128 = match near {
            Some(near) => near,
            None => {
                return Err(DexError::NearNotAttached);
            },
        };
        if near < cost {
            return Err(DexError::NotEnoughNear);
        }
        if !nothing_else {
            return Err(DexError::UnexpectedAssets);
        }
        let assets: (AssetWithBalance, AssetWithBalance) = (
            AssetWithBalance::new(&args.first, 0),
            AssetWithBalance::new(&args.second, 0),
        );
        let fees: FeeConfiguration = args.fees.duplicate();
        let pool: Pool = if args.is_public {
            let mut user_shares: UserShares = KeyedMap::new();
            user_shares.insert(caller.duplicate(), Some(INITIAL_SHARES));
            Pool::Public { assets, fees, user_shares, total_shares: Some(INITIAL_SHARES) }
        } else {
            Pool::Private { assets, owner_id: caller.duplicate(), fees }
        };
        let collected: CollectedFees = open_entries(
            &self.fees_collected_by_users,
            &args.fees,
            &args.first,
            &args.second,
        );
        let ghost before = self.pools@;
        self.fees_collected_by_users = collected;
        self.pools.push(pool);
        proof {
            self.lemma_view();
            assert(pool_states(self.pools@) =~= pool_states(before).push(pool@));
        }
        Ok(answer_storage(near, cost, caller, borsh_u32(count as u32)))
    }

    /// Replaces the fees of the private pool that the arguments name.
    pub fn edit_fees(
        &mut self,
        caller: &AccountId,
        deposit: u128,
        attached: &AttachedAssets,
        args: &Vec<u8>,
        storage: StorageUsage,
    ) -> (r: Result<DexCallResponse, DexError>)
        ensures
            match r {
                Ok(response) => dex_edit_call(old(self)@, caller@, deposit, attached@, args@, storage) == Ok::<
                    (DexState, ResponseView),
                    DexError,
                >((final(self)@, response@)),
                Err(e) => dex_edit_call(old(self)@, caller@, deposit, attached@, args@, storage) == Err::<
                    (DexState, ResponseView),
                    DexError,
                >(e) && final(self)@ == old(self)@,
            },
    {
        if deposit != 1 {
            return Err(DexError::OneYoctoRequired);
        }
        match new_fees(args) {
            Some((pool_id, fees)) => self.replace_fees(caller, deposit, attached, pool_id, &fees, storage),
            None => Err(DexError::InvalidArgs),
        }
    }

    /// Replaces the fees of a private pool. The caller pays for the storage
    /// with the attached near.
    pub fn replace_fees(
        &mut self,
        caller: &AccountId,
        deposit: u128,
        attached: &AttachedAssets,
        pool_id: PoolId,
        fees: &FeeConfiguration,
        storage: StorageUsage,
    ) -> (r: Result<DexCallResponse, DexError>)
        ensures
            match r {
                Ok(response) => dex_edit_fees(
                    old(self)@,
                    caller@,
                    deposit,
                    attached@,
                    pool_id,
                    fees@,
                    storage,
                ) == Ok::<(DexState, ResponseView), DexError>((final(self)@, response@)),
                Err(e) => dex_edit_fees(
                    old(self)@,
                    caller@,
                    deposit,
                    attached@,
                    pool_id,
                    fees@,
                    storage,
                ) == Err::<(DexState, ResponseView), DexError>(e) && final(self)@ == old(self)@,
            },
    {
        proof {
            self.lemma_view();
        }
        if deposit != 1 {
            return Err(DexError::OneYoctoRequired);
        }
        if pool_id as usize >= self.pools.len() {
            return Err(DexError::PoolNotFound);
        }
        let pool: &Pool = &self.pools[pool_id as usize];
        match edit_error(pool, caller) {
            Some(e) => {
                return Err(e);
            },
            None => {},
        }
        match fees.validate() {
            Ok(_) => {},
            Err(e) => {
                return Err(e);
            },
        }
        let cost: u128 = storage.cost();
        let (near, nothing_else): (Option<u128>, bool) = take_near(attached);
        let near: u128 = match near {
            Some(near) => near,
            None => 0,
        };
        if near < cost {
            return Err(DexError::NotEnoughNear);
        }
        if !nothing_else {
            return Err(DexError::UnexpectedAssets);
        }
        let (first, second): (&AssetId, &AssetId) = pool.assets();
        let collected: CollectedFees = open_entries(&self.fees_collected_by_users, fees, first, second);
        let changed: Pool = with_fees(pool, fees);
        self.set_pool(pool_id as usize, changed);
        proof {
            self.lemma_view();
        }
        self.fees_collected_by_users = collected;
        proof {
            self.lemma_view();
        }
        Ok(answer_storage(near, cost, caller, Vec::new()))
    }

    /// What the exchange shows of a pool.
    pub fn get_pool(&self, pool_id: PoolId) -> (r: Option<PoolView>)
        ensures
            match r {
                Some(view) => pool_id < self@.pools.len() && shows(view, self@.pools[pool_id as int]),
                None => pool_id >= self@.pools.len(),
            },
    {
        proof {
            self.lemma_view();
        }
        if (pool_id as usize) < self.pools.len() {
            Some(self.pools[pool_id as usize].to_view())
        } else {
            None
        }
    }

    /// What the exchange shows of at most `limit` pools, from `start_index` on.
    pub fn get_pools(&self, start_index: PoolId, limit: PoolId) -> (r: Vec<PoolView>)
        ensures
            r@.len() == if start_index >= self@.pools.len() {
                0
            } else if self@.pools.len() - start_index < limit {
                self@.pools.len() - start_index
            } else {
                limit as int
            },
            forall|i: int| 0 <= i < r@.len() ==> shows(#[trigger] r@[i], self@.pools[start_index + i]),
    {
        proof {
            self.lemma_view();
        }
        let mut out: Vec<PoolView> = Vec::new();
        let start: usize = start_index as usize;
        let end: usize = if start >= self.pools.len() {
            start
        } else if self.pools.len() - start < limit as usize {
            self.pools.len()
        } else {
            start + limit as usize
        };
        let mut i: usize = start;
        while i < end
            invariant
                start <= i <= end,
                end <= self.pools@.len() || end == start,
                self@.pools == pool_states(self.pools@),
                out@.len() == i - start,
                forall|j: int| 0 <= j < out@.len() ==> shows(#[trigger] out@[j], self@.pools[start + j]),
            decreases end - i,
        {
            out.push(self.pools[i].to_view());
            i = i + 1;
        }
        out
    }

    /// The shares of an account in a public pool: nothing where it is
    /// registered without any, none where it is not registered.
    pub fn get_pool_shares(&self, pool_id: PoolId, account_id: &AccountId) -> (r: Option<u128>)
        ensures
            r == if pool_id >= self@.pools.len() {
                None
            } else {
                match self@.pools[pool_id as int].providers {
                    ProvidersView::Anyone { shares, .. } => if !shares.contains_key(account_id@) {
                        None
                    } else {
                        match shares[account_id@] {
                            Some(own) => Some(own),
                            None => Some(0),
                        }
                    },
                    ProvidersView::Owner(_) => None,
                }
            },
    {
        proof {
            self.lemma_view();
        }
        if pool_id as usize >= self.pools.len() {
            return None;
        }
        match &self.pools[pool_id as usize] {
            Pool::Public { user_shares, .. } => match user_shares.get(account_id) {
                Some(Some(own)) => Some(own),
                Some(None) => Some(0),
                None => None,
            },
            Pool::Private { .. } => None,
        }
    }

    /// How many pools there are.
    pub fn get_pool_count(&self) -> (r: PoolId)
        requires
            self@.pools.len() <= u32::MAX,
        ensures
            r == self@.pools.len(),
    {
        proof {
            self.lemma_view();
        }
        self.pools.len() as u32
    }
}

} // verus!
