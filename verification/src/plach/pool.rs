//! The pools of Intear Plach and what a swap does to them.

use vstd::prelude::*;

use super::fees::{view_fractions, CurrentFees, FeeConfiguration, FeeConfigurationView, FeeReceiverView};
use crate::account::AccountId;
use crate::asset::{AssetId, AssetIdView};
use crate::ident::{views, Ident};
use crate::pathfinder::market::SwapPool;
use crate::product::{buy, purchase_amounts, sale_amounts, sell, FeeFraction};

verus! {

/// An asset and how much of it a pool holds.
#[derive(Clone, Debug, PartialEq)]
pub struct AssetWithBalance {
    pub asset_id: AssetId,
    pub balance: u128,
}

/// The asset and its balance.
pub struct BalanceView {
    pub asset: AssetIdView,
    pub balance: u128,
}

impl View for AssetWithBalance {
    type V = BalanceView;

    open spec fn view(&self) -> BalanceView {
        BalanceView { asset: self.asset_id@, balance: self.balance }
    }
}

impl AssetWithBalance {
    /// Another value for the same balance.
    pub fn duplicate(&self) -> (r: Self)
        ensures
            r@ == self@,
    {
        AssetWithBalance { asset_id: self.asset_id.duplicate(), balance: self.balance }
    }
}

/// The data of a pool.
#[derive(Debug, PartialEq)]
pub enum PoolData {
    /// A pool that one account provides for.
    Private {
        assets: (AssetWithBalance, AssetWithBalance),
        fees: CurrentFees,
        fee_configuration: FeeConfiguration,
        owner_id: AccountId,
        locked: bool,
    },
    /// A pool that anyone can provide for.
    Public {
        assets: (AssetWithBalance, AssetWithBalance),
        fees: CurrentFees,
        fee_configuration: FeeConfiguration,
        total_shares: Option<u128>,
    },
    /// A pool that launches an asset against the native coin.
    Launch {
        near_amount: u128,
        launched_asset: AssetWithBalance,
        fees: CurrentFees,
        fee_configuration: FeeConfiguration,
        phantom_liquidity_near: u128,
    },
}

/// What the data of a pool is, apart from its assets.
pub enum PoolTermsView {
    Private { owner_id: Seq<char>, locked: bool },
    Public { total_shares: Option<u128> },
    Launch { phantom_liquidity_near: u128 },
}

/// What a pool is.
pub struct PoolView {
    pub id: u32,
    pub first: BalanceView,
    pub second: BalanceView,
    pub fees: Seq<(FeeReceiverView, FeeFraction)>,
    pub fee_configuration: FeeConfigurationView,
    pub terms: PoolTermsView,
}

/// A pool with its number.
#[derive(Debug, PartialEq)]
pub struct Pool {
    pub id: u32,
    pub data: PoolData,
}

impl View for Pool {
    type V = PoolView;

    open spec fn view(&self) -> PoolView {
        match self.data {
            PoolData::Private { assets, fees, fee_configuration, owner_id, locked } => PoolView {
                id: self.id,
                first: assets.0@,
                second: assets.1@,
                fees: fees@,
                fee_configuration: fee_configuration@,
                terms: PoolTermsView::Private { owner_id: owner_id@, locked },
            },
            PoolData::Public { assets, fees, fee_configuration, total_shares } => PoolView {
                id: self.id,
                first: assets.0@,
                second: assets.1@,
                fees: fees@,
                fee_configuration: fee_configuration@,
                terms: PoolTermsView::Public { total_shares },
            },
            PoolData::Launch {
                near_amount,
                launched_asset,
                fees,
                fee_configuration,
                phantom_liquidity_near,
            } => PoolView {
                id: self.id,
                first: BalanceView { asset: AssetIdView::Near, balance: near_amount },
                second: launched_asset@,
                fees: fees@,
                fee_configuration: fee_configuration@,
                terms: PoolTermsView::Launch { phantom_liquidity_near },
            },
        }
    }
}

/// Whether the first asset is the one sold; none where the pool does not
/// trade the two assets for each other.
pub open spec fn sells_first(
    first: AssetIdView,
    second: AssetIdView,
    token_in: AssetIdView,
    token_out: AssetIdView,
) -> Option<bool> {
    let forward = first == token_in && second == token_out;
    let backward = second == token_in && first == token_out;
    if forward && !backward {
        Some(true)
    } else if backward && !forward {
        Some(false)
    } else {
        None
    }
}

/// The pool with new balances.
pub open spec fn with_balances(pool: PoolView, first: nat, second: nat) -> PoolView {
    PoolView {
        first: BalanceView { balance: first as u128, ..pool.first },
        second: BalanceView { balance: second as u128, ..pool.second },
        ..pool
    }
}

/// The pool after `amount` of `token_in` was sold, and what that brought.
pub open spec fn pool_sale(
    pool: PoolView,
    token_in: AssetIdView,
    token_out: AssetIdView,
    amount: u128,
) -> Option<(PoolView, u128)> {
    let first = pool.first.balance as nat;
    let second = pool.second.balance as nat;
    let fractions = view_fractions(pool.fees);
    match sells_first(pool.first.asset, pool.second.asset, token_in, token_out) {
        Some(true) => match sale_amounts(first, second, fractions, amount as nat) {
            Some((kept, out)) => Some(
                (with_balances(pool, first + kept, (second - out) as nat), out as u128),
            ),
            None => None,
        },
        Some(false) => match sale_amounts(second, first, fractions, amount as nat) {
            Some((kept, out)) => Some(
                (with_balances(pool, (first - out) as nat, second + kept), out as u128),
            ),
            None => None,
        },
        None => None,
    }
}

/// The pool after `amount` of `token_out` was bought, and what that took.
pub open spec fn pool_purchase(
    pool: PoolView,
    token_in: AssetIdView,
    token_out: AssetIdView,
    amount: u128,
) -> Option<(PoolView, u128)> {
    let first = pool.first.balance as nat;
    let second = pool.second.balance as nat;
    let fractions = view_fractions(pool.fees);
    match sells_first(pool.first.asset, pool.second.asset, token_in, token_out) {
        Some(true) => match purchase_amounts(first, second, fractions, amount as nat) {
            Some((taken, kept)) => Some(
                (with_balances(pool, first + kept, (second - amount) as nat), taken as u128),
            ),
            None => None,
        },
        Some(false) => match purchase_amounts(second, first, fractions, amount as nat) {
            Some((taken, kept)) => Some(
                (with_balances(pool, (first - amount) as nat, second + kept), taken as u128),
            ),
            None => None,
        },
        None => None,
    }
}

impl Pool {
    /// The two assets and their balances.
    fn sides(&self) -> (r: (AssetWithBalance, AssetWithBalance))
        ensures
            self@.first == r.0@,
            self@.second == r.1@,
    {
        match &self.data {
            PoolData::Private { assets, .. } => (assets.0.duplicate(), assets.1.duplicate()),
            PoolData::Public { assets, .. } => (assets.0.duplicate(), assets.1.duplicate()),
            PoolData::Launch { near_amount, launched_asset, .. } => (
                AssetWithBalance { asset_id: AssetId::Near, balance: *near_amount },
                launched_asset.duplicate(),
            ),
        }
    }

    /// The fractions of the fees.
    fn fee_fractions(&self) -> (r: Vec<FeeFraction>)
        ensures
            r@ == view_fractions(self@.fees),
    {
        match &self.data {
            PoolData::Private { fees, .. } => fees.fractions(),
            PoolData::Public { fees, .. } => fees.fractions(),
            PoolData::Launch { fees, .. } => fees.fractions(),
        }
    }

    /// The same pool with other balances.
    fn rebalanced(&self, first: u128, second: u128) -> (r: Pool)
        ensures
            r@ == with_balances(self@, first as nat, second as nat),
    {
        let data: PoolData = match &self.data {
            PoolData::Private { assets, fees, fee_configuration, owner_id, locked } => PoolData::Private {
                assets: (
                    AssetWithBalance { asset_id: assets.0.asset_id.duplicate(), balance: first },
                    AssetWithBalance { asset_id: assets.1.asset_id.duplicate(), balance: second },
                ),
                fees: fees.duplicate(),
                fee_configuration: fee_configuration.duplicate(),
                owner_id: owner_id.duplicate(),
                locked: *locked,
            },
            PoolData::Public { assets, fees, fee_configuration, total_shares } => PoolData::Public {
                assets: (
                    AssetWithBalance { asset_id: assets.0.asset_id.duplicate(), balance: first },
                    AssetWithBalance { asset_id: assets.1.asset_id.duplicate(), balance: second },
                ),
                fees: fees.duplicate(),
                fee_configuration: fee_configuration.duplicate(),
                total_shares: *total_shares,
            },
            PoolData::Launch {
                near_amount: _,
                launched_asset,
                fees,
                fee_configuration,
                phantom_liquidity_near,
            } => PoolData::Launch {
                near_amount: first,
                launched_asset: AssetWithBalance {
                    asset_id: launched_asset.asset_id.duplicate(),
                    balance: second,
                },
                fees: fees.duplicate(),
                fee_configuration: fee_configuration.duplicate(),
                phantom_liquidity_near: *phantom_liquidity_near,
            },
        };
        Pool { id: self.id, data }
    }
}

/// Whether the first asset is the one sold.
fn sells_first_of(
    first: &AssetId,
    second: &AssetId,
    token_in: &AssetId,
    token_out: &AssetId,
) -> (r: Option<bool>)
    ensures
        r == sells_first(first@, second@, token_in@, token_out@),
{
    let forward: bool = first.same(token_in) && second.same(token_out);
    let backward: bool = second.same(token_in) && first.same(token_out);
    if forward && !backward {
        Some(true)
    } else if backward && !forward {
        Some(false)
    } else {
        None
    }
}

impl Pool {
    /// Sells `amount_in` of `token_in`. A sale that fails leaves the pool as
    /// it was.
    pub fn emulate_swap(&mut self, token_in: &AssetId, token_out: &AssetId, amount_in: u128) -> (r: Option<u128>)
        ensures
            match r {
                Some(out) => pool_sale(old(self)@, token_in@, token_out@, amount_in) == Some(
                    (final(self)@, out),
                ),
                None => pool_sale(old(self)@, token_in@, token_out@, amount_in) is None && final(self)@
                    == old(self)@,
            },
    {
        match self.sold(token_in, token_out, amount_in) {
            Some((pool, out)) => {
                *self = pool;
                Some(out)
            },
            None => None,
        }
    }

    /// Buys `amount_out` of `token_out`. A purchase that fails leaves the
    /// pool as it was.
    pub fn emulate_swap_exact_out(&mut self, token_in: &AssetId, token_out: &AssetId, amount_out: u128) -> (r:
        Option<u128>)
        ensures
            match r {
                Some(taken) => pool_purchase(old(self)@, token_in@, token_out@, amount_out) == Some(
                    (final(self)@, taken),
                ),
                None => pool_purchase(old(self)@, token_in@, token_out@, amount_out) is None && final(self)@
                    == old(self)@,
            },
    {
        match self.bought(token_in, token_out, amount_out) {
            Some((pool, taken)) => {
                *self = pool;
                Some(taken)
            },
            None => None,
        }
    }
}

impl SwapPool for Pool {
    type Token = AssetId;

    open spec fn number(pool: PoolView) -> u64 {
        pool.id as u64
    }

    open spec fn tokens_of(pool: PoolView) -> Seq<AssetIdView> {
        seq![pool.first.asset, pool.second.asset]
    }

    open spec fn sale(
        pool: PoolView,
        token_in: AssetIdView,
        token_out: AssetIdView,
        amount: u128,
    ) -> Option<(PoolView, u128)> {
        pool_sale(pool, token_in, token_out, amount)
    }

    open spec fn quoted(
        pool: PoolView,
        token_in: AssetIdView,
        token_out: AssetIdView,
        amount: u128,
    ) -> Option<u128> {
        match pool_sale(pool, token_in, token_out, amount) {
            Some((_, given)) => Some(given),
            None => None,
        }
    }

    open spec fn purchase(
        pool: PoolView,
        token_in: AssetIdView,
        token_out: AssetIdView,
        amount: u128,
    ) -> Option<(PoolView, u128)> {
        pool_purchase(pool, token_in, token_out, amount)
    }

    fn id(&self) -> (r: u64) {
        self.id as u64
    }

    fn tokens(&self) -> (r: Vec<AssetId>) {
        let (first, second): (AssetWithBalance, AssetWithBalance) = self.sides();
        let mut tokens: Vec<AssetId> = Vec::new();
        tokens.push(first.asset_id);
        tokens.push(second.asset_id);
        assert(views(tokens@) =~= Self::tokens_of(self@));
        tokens
    }

    fn sold(&self, token_in: &AssetId, token_out: &AssetId, amount: u128) -> (r: Option<(Pool, u128)>) {
        let (first, second): (AssetWithBalance, AssetWithBalance) = self.sides();
        let fractions: Vec<FeeFraction> = self.fee_fractions();
        match sells_first_of(&first.asset_id, &second.asset_id, token_in, token_out) {
            Some(true) => match sell(first.balance, second.balance, &fractions, amount) {
                Some((kept, out)) => Some(
                    (self.rebalanced(first.balance + kept, second.balance - out), out),
                ),
                None => None,
            },
            Some(false) => match sell(second.balance, first.balance, &fractions, amount) {
                Some((kept, out)) => Some(
                    (self.rebalanced(first.balance - out, second.balance + kept), out),
                ),
                None => None,
            },
            None => None,
        }
    }

    fn quote(&self, token_in: &AssetId, token_out: &AssetId, amount: u128) -> (r: Option<u128>) {
        match self.sold(token_in, token_out, amount) {
            Some((_, given)) => Some(given),
            None => None,
        }
    }

    fn bought(&self, token_in: &AssetId, token_out: &AssetId, amount: u128) -> (r: Option<(Pool, u128)>) {
        let (first, second): (AssetWithBalance, AssetWithBalance) = self.sides();
        let fractions: Vec<FeeFraction> = self.fee_fractions();
        match sells_first_of(&first.asset_id, &second.asset_id, token_in, token_out) {
            Some(true) => match buy(first.balance, second.balance, &fractions, amount) {
                Some((taken, kept)) => Some(
                    (self.rebalanced(first.balance + kept, second.balance - amount), taken),
                ),
                None => None,
            },
            Some(false) => match buy(second.balance, first.balance, &fractions, amount) {
                Some((taken, kept)) => Some(
                    (self.rebalanced(first.balance - amount, second.balance + kept), taken),
                ),
                None => None,
            },
            None => None,
        }
    }
}

} // verus!
