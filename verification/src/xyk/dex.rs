//! Swaps on the exchange, and the fees that they bring.

use vstd::prelude::*;

use super::state::{
    fractions_of, pool_states, CollectedFees, CollectedView, DexError, DexState, FeeConfiguration, FeeReceiver,
    FeesView, Pool, PoolId, PoolState, XykDex,
};
use crate::account::AccountId;
use crate::asset::{AssetId, AssetIdView};
use crate::encoding::{borsh_read_u32, read_u32};
use crate::ident::{Ident, IdentPair};
use crate::product::{buy, fee_on, purchase_amounts, sale_amounts, sell, FeeFraction, MAX_FEE_FRACTION};
use crate::wide::mul_div;

verus! {

/// The amount that a swap fixes.
#[derive(Clone, Copy, Debug, PartialEq, Eq, Structural)]
pub enum SwapRequestAmount {
    ExactIn(u128),
    ExactOut(u128),
}

/// A swap that is asked for. The message holds the number of the pool.
#[derive(Clone, Debug, PartialEq)]
pub struct DexSwapRequest {
    pub message: Vec<u8>,
    pub asset_in: AssetId,
    pub asset_out: AssetId,
    pub amount: SwapRequestAmount,
}

/// What a swap came to: the amounts, and the fee of each receiver.
#[derive(Debug, PartialEq)]
pub struct SwapOutcome {
    pub amount_in: u128,
    pub amount_out: u128,
    pub fees_breakdown: Vec<(FeeReceiver, u128)>,
}

/// What the outcome of a swap is.
pub struct SwapOutcomeView {
    pub amount_in: u128,
    pub amount_out: u128,
    pub fees_breakdown: Seq<(Seq<char>, u128)>,
}

impl View for SwapOutcome {
    type V = SwapOutcomeView;

    open spec fn view(&self) -> SwapOutcomeView {
        SwapOutcomeView {
            amount_in: self.amount_in,
            amount_out: self.amount_out,
            fees_breakdown: breakdown_view(self.fees_breakdown@),
        }
    }
}

/// The accounts and their fees.
pub open spec fn breakdown_view(breakdown: Seq<(FeeReceiver, u128)>) -> Seq<(Seq<char>, u128)> {
    Seq::new(breakdown.len(), |i: int| (breakdown[i].0@, breakdown[i].1))
}

/// The fee of each receiver on an amount.
pub open spec fn breakdown_of(fees: FeesView, amount: u128) -> Seq<(Seq<char>, u128)> {
    Seq::new(fees.len(), |i: int| (fees[i].0, fee_on(amount as nat, fees[i].1 as nat) as u128))
}

/// What is owed to an account in an asset.
pub open spec fn owed(collected: CollectedView, account: Seq<char>, asset: AssetIdView) -> u128 {
    if collected.contains_key((account, asset)) {
        collected[(account, asset)]
    } else {
        0
    }
}

/// What is owed after the first `k` receivers got their fee on an amount;
/// none where that does not fit.
pub open spec fn credited(
    collected: CollectedView,
    fees: FeesView,
    asset: AssetIdView,
    amount: u128,
    k: int,
) -> Option<CollectedView>
    decreases k,
{
    if k <= 0 {
        Some(collected)
    } else {
        match credited(collected, fees, asset, amount, k - 1) {
            Some(before) => {
                let sum = owed(before, fees[k - 1].0, asset) + fee_on(amount as nat, fees[k - 1].1 as nat);
                if sum > u128::MAX {
                    None
                } else {
                    Some(before.insert((fees[k - 1].0, asset), sum as u128))
                }
            },
            None => None,
        }
    }
}

/// A receiver who cannot be credited fails the whole.
proof fn lemma_credited_none(
    collected: CollectedView,
    fees: FeesView,
    asset: AssetIdView,
    amount: u128,
    i: int,
    j: int,
)
    requires
        0 <= i <= j,
    ensures
        credited(collected, fees, asset, amount, i) is None ==> credited(
            collected,
            fees,
            asset,
            amount,
            j,
        ) is None,
    decreases j,
{
    if i < j {
        lemma_credited_none(collected, fees, asset, amount, i, j - 1);
    }
}

/// Credits every receiver with the fee on an amount.
fn credit_fees(collected: &CollectedFees, fees: &FeeConfiguration, asset: &AssetId, amount: u128) -> (r: Option<
    (CollectedFees, Vec<(FeeReceiver, u128)>),
>)
    ensures
        match r {
            Some(r) => credited(collected@, fees@, asset@, amount, fees@.len() as int) == Some(r.0@)
                && breakdown_view(r.1@) == breakdown_of(fees@, amount),
            None => credited(collected@, fees@, asset@, amount, fees@.len() as int) is None,
        },
{
    let mut out: CollectedFees = collected.duplicate();
    let mut breakdown: Vec<(FeeReceiver, u128)> = Vec::new();
    let n: usize = fees.receivers.len();
    let mut i: usize = 0;
    while i < n
        invariant
            i <= n,
            n == fees.receivers@.len(),
            credited(collected@, fees@, asset@, amount, i as int) == Some(out@),
            breakdown@.len() == i,
            forall|j: int|
                #![trigger breakdown@[j]]
                0 <= j < i ==> (breakdown@[j].0@, breakdown@[j].1) == breakdown_of(fees@, amount)[j],
        decreases n - i,
    {
        let account: &AccountId = fees.receivers[i].0.account();
        let fraction: FeeFraction = fees.receivers[i].1;
        assert(fees@[i as int] == (account@, fraction));
        proof {
            lemma_credited_none(collected@, fees@, asset@, amount, i + 1, n as int);
        }
        let fee: u128 = match mul_div(amount, fraction as u128, MAX_FEE_FRACTION as u128) {
            Some(fee) => fee,
            None => {
                return None;
            },
        };
        let key: IdentPair<AccountId, AssetId> = IdentPair {
            first: account.duplicate(),
            second: asset.duplicate(),
        };
        let before: u128 = match out.get(&key) {
            Some(before) => before,
            None => 0,
        };
        match before.checked_add(fee) {
            Some(sum) => {
                out.insert(key, sum);
            },
            None => {
                return None;
            },
        }
        breakdown.push((FeeReceiver::Account(account.duplicate()), fee));
        i = i + 1;
    }
    assert(breakdown_view(breakdown@) =~= breakdown_of(fees@, amount));
    Some((out, breakdown))
}

/// Why a swap of the assets is refused before the amount is looked at, or
/// whether it sells the first of them.
pub open spec fn swap_side(pool: PoolState, asset_in: AssetIdView, asset_out: AssetIdView) -> Result<bool, DexError> {
    let (a, b) = pool.assets;
    if a != asset_in && b != asset_in {
        Err(DexError::InvalidAssetIn)
    } else if a != asset_out && b != asset_out {
        Err(DexError::InvalidAssetOut)
    } else if pool.balances.0 == 0 || pool.balances.1 == 0 {
        Err(DexError::PoolIsEmpty)
    } else {
        match crate::plach::pool::sells_first(a, b, asset_in, asset_out) {
            Some(first) => Ok(first),
            None => Err(DexError::InvalidAssets),
        }
    }
}

/// What the swap takes, leaves after fees, and gives.
pub open spec fn swap_amounts(
    balance_in: u128,
    balance_out: u128,
    fees: FeesView,
    amount: SwapRequestAmount,
) -> Result<(u128, u128, u128), DexError> {
    match amount {
        SwapRequestAmount::ExactIn(amount) => if amount == 0 {
            Err(DexError::AmountIsZero)
        } else {
            match sale_amounts(
                balance_in as nat,
                balance_out as nat,
                fractions_of(fees),
                amount as nat,
            ) {
                Some((kept, out)) => Ok((amount, kept as u128, out as u128)),
                None => Err(DexError::Arithmetic),
            }
        },
        SwapRequestAmount::ExactOut(amount) => if amount == 0 {
            Err(DexError::AmountIsZero)
        } else if amount >= balance_out {
            Err(DexError::AmountTooLarge)
        } else {
            match purchase_amounts(
                balance_in as nat,
                balance_out as nat,
                fractions_of(fees),
                amount as nat,
            ) {
                Some((taken, kept)) => Ok((taken as u128, kept as u128, amount)),
                None => Err(DexError::Arithmetic),
            }
        },
    }
}

/// The exchange with another state of a pool.
pub open spec fn with_pool(state: DexState, pool_id: PoolId, pool: PoolState) -> DexState {
    DexState { pools: state.pools.update(pool_id as int, pool), ..state }
}

/// The exchange after a swap, and what it came to.
pub open spec fn dex_swap(
    state: DexState,
    pool_id: PoolId,
    asset_in: AssetIdView,
    asset_out: AssetIdView,
    amount: SwapRequestAmount,
) -> Result<(DexState, SwapOutcomeView), DexError> {
    if pool_id >= state.pools.len() {
        Err(DexError::PoolNotFound)
    } else {
        let pool = state.pools[pool_id as int];
        match swap_side(pool, asset_in, asset_out) {
            Err(e) => Err(e),
            Ok(first) => {
                let (balance_in, balance_out) = if first {
                    pool.balances
                } else {
                    (pool.balances.1, pool.balances.0)
                };
                match swap_amounts(balance_in, balance_out, pool.fees, amount) {
                    Err(e) => Err(e),
                    Ok((taken, kept, out)) => match credited(
                        state.collected,
                        pool.fees,
                        asset_in,
                        taken,
                        pool.fees.len() as int,
                    ) {
                        None => Err(DexError::Arithmetic),
                        Some(collected) => {
                            let new_in = (balance_in + kept) as u128;
                            let new_out = (balance_out - out) as u128;
                            let balances = if first {
                                (new_in, new_out)
                            } else {
                                (new_out, new_in)
                            };
                            Ok(
                                (
                                    DexState {
                                        collected,
                                        ..with_pool(state, pool_id, PoolState { balances, ..pool })
                                    },
                                    SwapOutcomeView {
                                        amount_in: taken,
                                        amount_out: out,
                                        fees_breakdown: breakdown_of(pool.fees, taken),
                                    },
                                ),
                            )
                        },
                    },
                }
            },
        }
    }
}

/// The exchange after the swap that a message asks for.
pub open spec fn dex_swap_call(
    state: DexState,
    message: Seq<u8>,
    asset_in: AssetIdView,
    asset_out: AssetIdView,
    amount: SwapRequestAmount,
) -> Result<(DexState, SwapOutcomeView), DexError> {
    match read_u32(message) {
        None => Err(DexError::InvalidMessage),
        Some(pool_id) => dex_swap(state, pool_id, asset_in, asset_out, amount),
    }
}

/// Whether the swap sells the first of the assets.
fn swap_side_of(pool: &Pool, asset_in: &AssetId, asset_out: &AssetId) -> (r: Result<bool, DexError>)
    ensures
        r == swap_side(pool@, asset_in@, asset_out@),
{
    let (a, b): (&AssetId, &AssetId) = pool.assets();
    let balances: (u128, u128) = pool.balances();
    if !a.same(asset_in) && !b.same(asset_in) {
        return Err(DexError::InvalidAssetIn);
    }
    if !a.same(asset_out) && !b.same(asset_out) {
        return Err(DexError::InvalidAssetOut);
    }
    if balances.0 == 0 || balances.1 == 0 {
        return Err(DexError::PoolIsEmpty);
    }
    let forward: bool = a.same(asset_in) && b.same(asset_out);
    let backward: bool = b.same(asset_in) && a.same(asset_out);
    if forward && !backward {
        Ok(true)
    } else if backward && !forward {
        Ok(false)
    } else {
        Err(DexError::InvalidAssets)
    }
}

/// What the swap takes, leaves after fees, and gives.
fn swap_amounts_of(balance_in: u128, balance_out: u128, fees: &FeeConfiguration, amount: SwapRequestAmount) -> (r:
    Result<(u128, u128, u128), DexError>)
    ensures
        r == swap_amounts(balance_in, balance_out, fees@, amount),
        r matches Ok(amounts) ==> balance_in + amounts.1 <= u128::MAX && amounts.2 <= balance_out,
{
    let fractions: Vec<FeeFraction> = fees.fractions();
    match amount {
        SwapRequestAmount::ExactIn(amount) => {
            if amount == 0 {
                return Err(DexError::AmountIsZero);
            }
            match sell(balance_in, balance_out, &fractions, amount) {
                Some((kept, out)) => Ok((amount, kept, out)),
                None => Err(DexError::Arithmetic),
            }
        },
        SwapRequestAmount::ExactOut(amount) => {
            if amount == 0 {
                return Err(DexError::AmountIsZero);
            }
            if amount >= balance_out {
                return Err(DexError::AmountTooLarge);
            }
            match buy(balance_in, balance_out, &fractions, amount) {
                Some((taken, kept)) => Ok((taken, kept, amount)),
                None => Err(DexError::Arithmetic),
            }
        },
    }
}

impl XykDex {
    /// Replaces a pool.
    pub(crate) fn set_pool(&mut self, index: usize, pool: Pool)
        requires
            index < old(self)@.pools.len(),
        ensures
            final(self)@ == (DexState {
                pools: old(self)@.pools.update(index as int, pool@),
                collected: old(self)@.collected,
            }),
    {
        proof {
            self.lemma_view();
        }
        let ghost before = self.pools@;
        self.pools.set(index, pool);
        proof {
            self.lemma_view();
            assert(pool_states(self.pools@) =~= pool_states(before).update(index as int, pool@));
        }
    }

    /// Swaps one asset for another in the pool that the message names. A swap
    /// that is refused leaves the exchange as it was.
    pub fn swap(&mut self, request: &DexSwapRequest) -> (r: Result<SwapOutcome, DexError>)
        ensures
            match r {
                Ok(outcome) => dex_swap_call(
                    old(self)@,
                    request.message@,
                    request.asset_in@,
                    request.asset_out@,
                    request.amount,
                ) == Ok::<(DexState, SwapOutcomeView), DexError>((final(self)@, outcome@)),
                Err(e) => dex_swap_call(
                    old(self)@,
                    request.message@,
                    request.asset_in@,
                    request.asset_out@,
                    request.amount,
                ) == Err::<(DexState, SwapOutcomeView), DexError>(e) && final(self)@ == old(self)@,
            },
    {
        match borsh_read_u32(&request.message) {
            Some(pool_id) => self.swap_in_pool(pool_id, request),
            None => Err(DexError::InvalidMessage),
        }
    }

    /// Swaps one asset for another in a pool, whatever the message says. A
    /// swap that is refused leaves the exchange as it was.
    pub fn swap_in_pool(&mut self, pool_id: PoolId, request: &DexSwapRequest) -> (r: Result<SwapOutcome, DexError>)
        ensures
            match r {
                Ok(outcome) => dex_swap(
                    old(self)@,
                    pool_id,
                    request.asset_in@,
                    request.asset_out@,
                    request.amount,
                ) == Ok::<(DexState, SwapOutcomeView), DexError>((final(self)@, outcome@)),
                Err(e) => dex_swap(
                    old(self)@,
                    pool_id,
                    request.asset_in@,
                    request.asset_out@,
                    request.amount,
                ) == Err::<(DexState, SwapOutcomeView), DexError>(e) && final(self)@ == old(self)@,
            },
    {
        proof {
            self.lemma_view();
        }
        if pool_id as usize >= self.pools.len() {
            return Err(DexError::PoolNotFound);
        }
        let pool: &Pool = &self.pools[pool_id as usize];
        let first: bool = match swap_side_of(pool, &request.asset_in, &request.asset_out) {
            Ok(first) => first,
            Err(e) => {
                return Err(e);
            },
        };
        let balances: (u128, u128) = pool.balances();
        let (balance_in, balance_out): (u128, u128) = if first {
            balances
        } else {
            (balances.1, balances.0)
        };
        let (taken, kept, out): (u128, u128, u128) = match swap_amounts_of(
            balance_in,
            balance_out,
            pool.fees(),
            request.amount,
        ) {
            Ok(amounts) => amounts,
            Err(e) => {
                return Err(e);
            },
        };
        let (collected, fees_breakdown): (CollectedFees, Vec<(FeeReceiver, u128)>) = match credit_fees(
            &self.fees_collected_by_users,
            pool.fees(),
            &request.asset_in,
            taken,
        ) {
            Some(credit) => credit,
            None => {
                return Err(DexError::Arithmetic);
            },
        };
        let changed: Pool = if first {
            pool.with_balances(balance_in + kept, balance_out - out)
        } else {
            pool.with_balances(balance_out - out, balance_in + kept)
        };
        self.set_pool(pool_id as usize, changed);
        proof {
            self.lemma_view();
        }
        self.fees_collected_by_users = collected;
        proof {
            self.lemma_view();
        }
        Ok(SwapOutcome { amount_in: taken, amount_out: out, fees_breakdown })
    }
}

} // verus!
