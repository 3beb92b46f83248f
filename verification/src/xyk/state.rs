//! Pools, fees and shares of the exchange.

use vstd::prelude::*;

use crate::account::AccountId;
use crate::asset::{AssetId, AssetIdView};
use crate::ident::{Ident, IdentPair};
use crate::keyed::KeyedMap;
use crate::product::{FeeFraction, MAX_FEE_FRACTION};
use crate::wide::{mul_div, ratio};

verus! {

/// The number of a pool.
pub type PoolId = u32;

/// How many receivers a pool's fees may have.
pub const MAX_FEE_RECEIVERS: usize = 42;

/// The shares that the first provider of a public pool gets: they stand for
/// the whole of it.
pub const INITIAL_SHARES: u128 = 1_000_000_000_000_000_000;

/// Why a call is refused.
#[derive(Clone, Copy, Debug, PartialEq, Eq, Structural)]
pub enum DexError {
    /// The call does not carry exactly one yocto.
    OneYoctoRequired,
    /// The message of a swap does not name a pool.
    InvalidMessage,
    /// The arguments of a call cannot be read.
    InvalidArgs,
    PoolNotFound,
    InvalidAssetIn,
    InvalidAssetOut,
    PoolIsEmpty,
    /// The pool does not trade the two assets for each other.
    InvalidAssets,
    AmountIsZero,
    /// The pool does not hold more than the amount that is asked for.
    AmountTooLarge,
    /// A number does not fit, or fees exceed the amount.
    Arithmetic,
    SameAssets,
    TooManyFeeReceivers,
    /// The fee of one receiver is the whole or more.
    FeeTooHigh,
    /// The fees together are the whole or more.
    FeesTooHigh,
    /// No more pools can be numbered.
    TooManyPools,
    NearNotAttached,
    NotEnoughNear,
    /// Other assets are attached than the call is for.
    UnexpectedAssets,
    NotAPublicPool,
    NotTheOwner,
    /// Minimum shares are named where none are given.
    MinSharesNotAllowed,
    /// Shares or minimum assets are named for a private pool.
    SharesNotAllowed,
    AssetNotAttached,
    NotRegistered,
    /// There are shares in a pool that has none.
    SharesWithoutTotal,
    NoSharesToMint,
    Slippage,
    NoShares,
    NotEnoughShares,
    FeesNotEditable,
}

/// Who receives a fee.
#[derive(Clone, Debug, PartialEq)]
pub enum FeeReceiver {
    Account(AccountId),
}

impl View for FeeReceiver {
    type V = Seq<char>;

    open spec fn view(&self) -> Seq<char> {
        match self {
            FeeReceiver::Account(account) => account@,
        }
    }
}

impl FeeReceiver {
    /// The account that receives the fee.
    pub fn account(&self) -> (r: &AccountId)
        ensures
            r@ == self@,
    {
        match self {
            FeeReceiver::Account(account) => account,
        }
    }
}

/// The fees of a pool; together they are less than the whole.
#[derive(Clone, Debug, PartialEq)]
pub struct FeeConfiguration {
    pub receivers: Vec<(FeeReceiver, FeeFraction)>,
}

/// The fees of a pool: the account and the fraction of each.
pub type FeesView = Seq<(Seq<char>, FeeFraction)>;

impl View for FeeConfiguration {
    type V = FeesView;

    open spec fn view(&self) -> FeesView {
        Seq::new(self.receivers@.len(), |i: int| (self.receivers@[i].0@, self.receivers@[i].1))
    }
}

/// The fractions of the fees.
pub open spec fn fractions_of(fees: FeesView) -> Seq<FeeFraction> {
    Seq::new(fees.len(), |i: int| fees[i].1)
}

/// Why fees are refused, if they are.
pub open spec fn fees_error(fees: FeesView) -> Option<DexError> {
    if fees.len() > MAX_FEE_RECEIVERS {
        Some(DexError::TooManyFeeReceivers)
    } else if exists|i: int| 0 <= i < fees.len() && (#[trigger] fees[i]).1 >= MAX_FEE_FRACTION {
        Some(DexError::FeeTooHigh)
    } else if crate::product::fraction_sum(fractions_of(fees), fees.len() as int) >= MAX_FEE_FRACTION {
        Some(DexError::FeesTooHigh)
    } else {
        None
    }
}

impl FeeConfiguration {
    /// Another value for the same fees.
    pub fn duplicate(&self) -> (r: Self)
        ensures
            r@ == self@,
    {
        let mut receivers: Vec<(FeeReceiver, FeeFraction)> = Vec::new();
        let mut i: usize = 0;
        while i < self.receivers.len()
            invariant
                i <= self.receivers@.len(),
                receivers@.len() == i,
                forall|j: int|
                    #![trigger receivers@[j]]
                    0 <= j < i ==> receivers@[j].0@ == self.receivers@[j].0@ && receivers@[j].1
                        == self.receivers@[j].1,
            decreases self.receivers@.len() - i,
        {
            let account: AccountId = self.receivers[i].0.account().duplicate();
            receivers.push((FeeReceiver::Account(account), self.receivers[i].1));
            i = i + 1;
        }
        let r = FeeConfiguration { receivers };
        assert(r@ =~= self@);
        r
    }

    /// The fractions of the fees.
    pub fn fractions(&self) -> (r: Vec<FeeFraction>)
        ensures
            r@ == fractions_of(self@),
    {
        let mut out: Vec<FeeFraction> = Vec::new();
        let mut i: usize = 0;
        while i < self.receivers.len()
            invariant
                i <= self.receivers@.len(),
                out@.len() == i,
                forall|j: int| 0 <= j < i ==> out@[j] == fractions_of(self@)[j],
            decreases self.receivers@.len() - i,
        {
            out.push(self.receivers[i].1);
            i = i + 1;
        }
        assert(out@ =~= fractions_of(self@));
        out
    }

    /// Checks the fees of a pool.
    pub fn validate(&self) -> (r: Result<(), DexError>)
        ensures
            match r {
                Ok(_) => fees_error(self@) is None,
                Err(e) => fees_error(self@) == Some(e),
            },
    {
        if self.receivers.len() > MAX_FEE_RECEIVERS {
            return Err(DexError::TooManyFeeReceivers);
        }
        let mut i: usize = 0;
        while i < self.receivers.len()
            invariant
                i <= self.receivers@.len(),
                self@.len() <= MAX_FEE_RECEIVERS,
                forall|j: int| 0 <= j < i ==> (#[trigger] self@[j]).1 < MAX_FEE_FRACTION,
            decreases self.receivers@.len() - i,
        {
            if self.receivers[i].1 >= MAX_FEE_FRACTION {
                assert(self@[i as int].1 >= MAX_FEE_FRACTION);
                return Err(DexError::FeeTooHigh);
            }
            i = i + 1;
        }
        let fractions: Vec<FeeFraction> = self.fractions();
        match crate::product::total_fee_fraction(&fractions) {
            Some(_) => Ok(()),
            None => Err(DexError::FeesTooHigh),
        }
    }
}

/// An asset and how much of it a pool holds.
#[derive(Clone, Debug, PartialEq)]
pub struct AssetWithBalance {
    pub asset_id: AssetId,
    pub balance: u128,
}

impl AssetWithBalance {
    /// The asset with a balance.
    pub fn new(asset_id: &AssetId, balance: u128) -> (r: Self)
        ensures
            r.asset_id@ == asset_id@,
            r.balance == balance,
    {
        AssetWithBalance { asset_id: asset_id.duplicate(), balance }
    }
}

/// The shares of the providers of a public pool, by account; an account that
/// is registered without shares has none.
pub type UserShares = KeyedMap<AccountId, Option<u128>>;

/// A pool of two assets.
pub enum Pool {
    /// A pool that one account provides for.
    Private { assets: (AssetWithBalance, AssetWithBalance), owner_id: AccountId, fees: FeeConfiguration },
    /// A pool that anyone can provide for.
    Public {
        assets: (AssetWithBalance, AssetWithBalance),
        fees: FeeConfiguration,
        user_shares: UserShares,
        total_shares: Option<u128>,
    },
}

/// Who provides for a pool.
pub enum ProvidersView {
    Owner(Seq<char>),
    Anyone { shares: Map<Seq<char>, Option<u128>>, total: Option<u128> },
}

/// What a pool is.
pub struct PoolState {
    pub assets: (AssetIdView, AssetIdView),
    pub balances: (u128, u128),
    pub fees: FeesView,
    pub providers: ProvidersView,
}

impl View for Pool {
    type V = PoolState;

    open spec fn view(&self) -> PoolState {
        match self {
            Pool::Private { assets, owner_id, fees } => PoolState {
                assets: (assets.0.asset_id@, assets.1.asset_id@),
                balances: (assets.0.balance, assets.1.balance),
                fees: fees@,
                providers: ProvidersView::Owner(owner_id@),
            },
            Pool::Public { assets, fees, user_shares, total_shares } => PoolState {
                assets: (assets.0.asset_id@, assets.1.asset_id@),
                balances: (assets.0.balance, assets.1.balance),
                fees: fees@,
                providers: ProvidersView::Anyone { shares: user_shares@, total: *total_shares },
            },
        }
    }
}

impl Pool {
    /// The balances of the two assets.
    pub fn balances(&self) -> (r: (u128, u128))
        ensures
            r == self@.balances,
    {
        match self {
            Pool::Private { assets, .. } => (assets.0.balance, assets.1.balance),
            Pool::Public { assets, .. } => (assets.0.balance, assets.1.balance),
        }
    }

    /// The two assets.
    pub fn assets(&self) -> (r: (&AssetId, &AssetId))
        ensures
            (r.0@, r.1@) == self@.assets,
    {
        match self {
            Pool::Private { assets, .. } => (&assets.0.asset_id, &assets.1.asset_id),
            Pool::Public { assets, .. } => (&assets.0.asset_id, &assets.1.asset_id),
        }
    }

    /// The fees of the pool.
    pub fn fees(&self) -> (r: &FeeConfiguration)
        ensures
            r@ == self@.fees,
    {
        match self {
            Pool::Private { fees, .. } => fees,
            Pool::Public { fees, .. } => fees,
        }
    }

    /// The same pool with other balances.
    pub fn with_balances(&self, first: u128, second: u128) -> (r: Pool)
        ensures
            r@ == (PoolState { balances: (first, second), ..self@ }),
    {
        match self {
            Pool::Private { assets, owner_id, fees } => Pool::Private {
                assets: (
                    AssetWithBalance::new(&assets.0.asset_id, first),
                    AssetWithBalance::new(&assets.1.asset_id, second),
                ),
                owner_id: owner_id.duplicate(),
                fees: fees.duplicate(),
            },
            Pool::Public { assets, fees, user_shares, total_shares } => Pool::Public {
                assets: (
                    AssetWithBalance::new(&assets.0.asset_id, first),
                    AssetWithBalance::new(&assets.1.asset_id, second),
                ),
                fees: fees.duplicate(),
                user_shares: user_shares.duplicate(),
                total_shares: *total_shares,
            },
        }
    }
}

/// The fees that are owed to accounts, by account and asset.
pub type CollectedFees = KeyedMap<IdentPair<AccountId, AssetId>, u128>;

/// The fees that are owed to accounts.
pub type CollectedView = Map<(Seq<char>, AssetIdView), u128>;

/// The exchange.
pub struct XykDex {
    pub(crate) pools: Vec<Pool>,
    pub(crate) fees_collected_by_users: CollectedFees,
}

/// What the exchange holds.
pub struct DexState {
    pub pools: Seq<PoolState>,
    pub collected: CollectedView,
}

/// The pools of the exchange.
pub open spec fn pool_states(pools: Seq<Pool>) -> Seq<PoolState> {
    Seq::new(pools.len(), |i: int| pools[i]@)
}

impl View for XykDex {
    type V = DexState;

    closed spec fn view(&self) -> DexState {
        DexState { pools: pool_states(self.pools@), collected: self.fees_collected_by_users@ }
    }
}

impl XykDex {
    /// What the exchange holds, field by field.
    pub(crate) proof fn lemma_view(&self)
        ensures
            self@ == (DexState { pools: pool_states(self.pools@), collected: self.fees_collected_by_users@ }),
    {
    }
}

/// What shares of a pool are worth in a token: rounded down.
pub fn shares_to_tokens(shares: u128, total_shares: u128, total_tokens: u128) -> (r: Option<u128>)
    ensures
        r == ratio(total_tokens as nat, shares as nat, total_shares as nat),
{
    mul_div(total_tokens, shares, total_shares)
}

/// What tokens are worth in shares of a pool: rounded down.
pub fn tokens_to_shares(tokens: u128, total_shares: u128, total_tokens: u128) -> (r: Option<u128>)
    ensures
        r == ratio(tokens as nat, total_shares as nat, total_tokens as nat),
{
    mul_div(tokens, total_shares, total_tokens)
}

/// Turning tokens into shares and back never gives more tokens.
pub proof fn shares_never_gain(tokens: nat, total_shares: nat, total_tokens: nat)
    requires
        total_shares > 0,
        total_tokens > 0,
    ensures
        ratio(tokens, total_shares, total_tokens) matches Some(shares) ==> {
            let back = total_tokens * (shares as nat) / total_shares;
            back <= tokens
        },
{
    match ratio(tokens, total_shares, total_tokens) {
        Some(shares) => {
            let s = shares as nat;
            let num = tokens * total_shares;
            vstd::arithmetic::div_mod::lemma_fundamental_div_mod(num as int, total_tokens as int);
            assert(total_tokens * s <= num);
            vstd::arithmetic::div_mod::lemma_div_is_ordered(
                (total_tokens * s) as int,
                num as int,
                total_shares as int,
            );
            vstd::arithmetic::div_mod::lemma_div_multiples_vanish(tokens as int, total_shares as int);
            assert(tokens * total_shares == total_shares * tokens) by (nonlinear_arith);
        },
        None => {},
    }
}

} // verus!
