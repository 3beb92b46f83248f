//! What every call on the exchange keeps.

use vstd::prelude::*;

use super::args::{read_assets, read_new_fees, read_pool};
use super::call::{AttachedView, StorageUsage, WithdrawView};
use super::dex::{
    breakdown_of, credited, dex_swap, dex_swap_call, owed, swap_amounts, swap_side, SwapRequestAmount,
};
use super::liquidity::{
    added, dex_add_call, dex_add_liquidity, dex_draw_call, dex_register_call, dex_register_liquidity, dex_remove_call,
    dex_remove_liquidity, dex_withdraw_fees, drawn, mint, pool_add, pool_remove, share_count, shares_for, units_for,
    worth, worth_of, SharesView,
};
use super::pools::{dex_create_call, dex_create_pool, dex_edit_call, dex_edit_fees, new_pool};
use super::state::{
    fees_error, fractions_of, shares_never_gain, CollectedView, DexError, DexState, FeesView, PoolId, PoolState,
    ProvidersView, INITIAL_SHARES,
};
use crate::asset::AssetIdView;
use crate::encoding::{le_bytes, number_reads_back, read_pool_and_bound, read_pool_bound_and_pair, read_u32};
use crate::product::{fee_sum, lemma_output_bound, purchase_raises_the_product, sale_keeps_the_product};

verus! {

/// All shares of a pool, added up.
pub open spec fn share_sum(shares: SharesView) -> nat
    decreases shares.dom().len(),
    when shares.dom().finite()
{
    if shares.dom().len() == 0 {
        0
    } else {
        let account = shares.dom().choose();
        if shares.dom().contains(account) {
            share_count(shares[account]) as nat + share_sum(shares.remove(account))
        } else {
            0
        }
    }
}

/// A pool trades two different assets at fees below the whole; the shares of
/// its providers add up to its total, and without shares it holds nothing.
pub open spec fn pool_valid(pool: PoolState) -> bool {
    &&& pool.assets.0 != pool.assets.1
    &&& fees_error(pool.fees) is None
    &&& pool.providers matches ProvidersView::Anyone { shares, total } ==> {
        &&& shares.dom().finite()
        &&& forall|account: Seq<char>|
            #![trigger shares[account]]
            shares.contains_key(account) ==> shares[account] != Some(0u128)
        &&& total != Some(0u128)
        &&& share_sum(shares) == share_count(total)
        &&& total is None ==> pool.balances == (0u128, 0u128)
    }
}

/// Every pool has a number and is valid.
pub open spec fn valid(state: DexState) -> bool {
    &&& state.pools.len() <= u32::MAX
    &&& forall|i: int| 0 <= i < state.pools.len() ==> pool_valid(#[trigger] state.pools[i])
}

/// Any account can be taken out of the sum first.
pub(crate) proof fn lemma_share_sum_without(shares: SharesView, account: Seq<char>)
    requires
        shares.dom().finite(),
        shares.contains_key(account),
    ensures
        share_sum(shares) == share_count(shares[account]) + share_sum(shares.remove(account)),
    decreases shares.dom().len(),
{
    let first = shares.dom().choose();
    assert(shares.dom().contains(first));
    if first != account {
        lemma_share_sum_without(shares.remove(first), account);
        lemma_share_sum_without(shares.remove(account), first);
        assert(shares.remove(first).remove(account) =~= shares.remove(account).remove(first));
    }
}

/// The sum after the shares of one account are replaced.
proof fn lemma_share_sum_with(shares: SharesView, account: Seq<char>, own: Option<u128>)
    requires
        shares.dom().finite(),
    ensures
        shares.insert(account, own).dom().finite(),
        share_sum(shares.insert(account, own)) == share_sum(shares) + share_count(own) - (if shares.contains_key(
            account,
        ) {
            share_count(shares[account])
        } else {
            0
        }),
{
    let with = shares.insert(account, own);
    lemma_share_sum_without(with, account);
    if shares.contains_key(account) {
        lemma_share_sum_without(shares, account);
        assert(with.remove(account) =~= shares.remove(account));
    } else {
        assert(with.remove(account) =~= shares);
    }
}

/// A new exchange is valid.
pub proof fn new_exchange_is_valid()
    ensures
        valid(DexState { pools: Seq::empty(), collected: Map::empty() }),
{
}

/// A swap keeps the exchange valid.
pub proof fn swap_keeps_validity(
    state: DexState,
    pool_id: PoolId,
    asset_in: AssetIdView,
    asset_out: AssetIdView,
    amount: SwapRequestAmount,
)
    requires
        valid(state),
    ensures
        dex_swap(state, pool_id, asset_in, asset_out, amount) matches Ok(r) ==> valid(r.0),
{
    match dex_swap(state, pool_id, asset_in, asset_out, amount) {
        Ok(r) => {
            assert(pool_valid(state.pools[pool_id as int]));
            assert(pool_valid(r.0.pools[pool_id as int]));
            assert forall|i: int| 0 <= i < r.0.pools.len() implies pool_valid(#[trigger] r.0.pools[i]) by {
                assert(pool_valid(state.pools[i]));
            }
        },
        Err(_) => {},
    }
}

/// A swap does not lower the product of the balances of its pool, and leaves
/// every other pool, and everything else in its own, as it was.
pub proof fn swap_keeps_the_product(
    state: DexState,
    pool_id: PoolId,
    asset_in: AssetIdView,
    asset_out: AssetIdView,
    amount: SwapRequestAmount,
)
    ensures
        dex_swap(state, pool_id, asset_in, asset_out, amount) matches Ok(r) ==> {
            let before = state.pools[pool_id as int];
            let after = r.0.pools[pool_id as int];
            &&& r.0.pools.len() == state.pools.len()
            &&& after.balances.0 * after.balances.1 >= before.balances.0 * before.balances.1
            &&& after == (PoolState { balances: after.balances, ..before })
            &&& forall|i: int|
                0 <= i < state.pools.len() && i != pool_id ==> #[trigger] r.0.pools[i] == state.pools[i]
        },
{
    match dex_swap(state, pool_id, asset_in, asset_out, amount) {
        Ok(r) => {
            let before = state.pools[pool_id as int];
            let after = r.0.pools[pool_id as int];
            let first = swap_side(before, asset_in, asset_out)->Ok_0;
            let (x, y) = if first {
                before.balances
            } else {
                (before.balances.1, before.balances.0)
            };
            let fractions = fractions_of(before.fees);
            let (taken, kept, out) = swap_amounts(x, y, before.fees, amount)->Ok_0;
            match amount {
                SwapRequestAmount::ExactIn(amount) => {
                    lemma_output_bound(x as nat, y as nat, kept as nat);
                    sale_keeps_the_product(x as nat, y as nat, kept as nat);
                },
                SwapRequestAmount::ExactOut(amount) => {
                    purchase_raises_the_product(x as nat, y as nat, fractions, amount as nat);
                },
            }
            let (p, q) = if first {
                after.balances
            } else {
                (after.balances.1, after.balances.0)
            };
            assert(p * q >= x * y);
            assert(p * q == q * p) by (nonlinear_arith);
            assert(x * y == y * x) by (nonlinear_arith);
        },
        Err(_) => {},
    }
}

/// The first `k` fees of a breakdown, added up.
pub open spec fn fees_paid(breakdown: Seq<(Seq<char>, u128)>, k: int) -> nat
    decreases k,
{
    if k <= 0 {
        0
    } else {
        fees_paid(breakdown, k - 1) + breakdown[k - 1].1 as nat
    }
}

/// Of the first `k` fees of a breakdown, those for an account, added up.
pub open spec fn fees_paid_to(breakdown: Seq<(Seq<char>, u128)>, account: Seq<char>, k: int) -> nat
    decreases k,
{
    if k <= 0 {
        0
    } else {
        fees_paid_to(breakdown, account, k - 1) + (if breakdown[k - 1].0 == account {
            breakdown[k - 1].1 as nat
        } else {
            0
        })
    }
}

/// Fees that are no more than the amount are those of the breakdown.
proof fn lemma_fees_paid(fees: FeesView, amount: u128, k: int)
    requires
        0 <= k <= fees.len(),
        fee_sum(amount as nat, fractions_of(fees), k) <= amount,
    ensures
        fees_paid(breakdown_of(fees, amount), k) == fee_sum(amount as nat, fractions_of(fees), k),
    decreases k,
{
    if k > 0 {
        lemma_fees_paid(fees, amount, k - 1);
    }
}

/// A swap loses nothing: what the trader pays is what the pool gains and the
/// receivers of fees are owed, and what the trader gets is what the pool
/// gives.
pub proof fn swap_loses_nothing(
    state: DexState,
    pool_id: PoolId,
    asset_in: AssetIdView,
    asset_out: AssetIdView,
    amount: SwapRequestAmount,
)
    ensures
        dex_swap(state, pool_id, asset_in, asset_out, amount) matches Ok(r) ==> {
            let before = state.pools[pool_id as int];
            let after = r.0.pools[pool_id as int];
            let fees = fees_paid(r.1.fees_breakdown, r.1.fees_breakdown.len() as int);
            &&& match amount {
                SwapRequestAmount::ExactIn(amount) => r.1.amount_in == amount,
                SwapRequestAmount::ExactOut(amount) => r.1.amount_out == amount,
            }
            &&& if before.assets == (asset_in, asset_out) {
                &&& after.balances.0 + fees == before.balances.0 + r.1.amount_in
                &&& after.balances.1 + r.1.amount_out == before.balances.1
            } else {
                &&& before.assets == (asset_out, asset_in)
                &&& after.balances.1 + fees == before.balances.1 + r.1.amount_in
                &&& after.balances.0 + r.1.amount_out == before.balances.0
            }
        },
{
    match dex_swap(state, pool_id, asset_in, asset_out, amount) {
        Ok(r) => {
            let before = state.pools[pool_id as int];
            let first = swap_side(before, asset_in, asset_out)->Ok_0;
            let (x, y) = if first {
                before.balances
            } else {
                (before.balances.1, before.balances.0)
            };
            let (taken, kept, out) = swap_amounts(x, y, before.fees, amount)->Ok_0;
            lemma_fees_paid(before.fees, taken, before.fees.len() as int);
            lemma_output_bound(x as nat, y as nat, kept as nat);
        },
        Err(_) => {},
    }
}

/// What an account is owed after the first `k` receivers were credited.
proof fn lemma_credited(
    collected: CollectedView,
    fees: FeesView,
    asset: AssetIdView,
    amount: u128,
    k: int,
    account: Seq<char>,
    other: AssetIdView,
)
    requires
        0 <= k <= fees.len(),
        credited(collected, fees, asset, amount, k) is Some,
    ensures
        owed(credited(collected, fees, asset, amount, k)->0, account, other) == owed(collected, account, other) + (
        if other == asset {
            fees_paid_to(breakdown_of(fees, amount), account, k)
        } else {
            0
        }),
    decreases k,
{
    if k > 0 {
        lemma_credited(collected, fees, asset, amount, k - 1, account, other);
    }
}

/// A swap credits every receiver with its fees of the breakdown, in the asset
/// that comes in, and changes nothing else that anyone is owed.
pub proof fn swap_credits_the_fees(
    state: DexState,
    pool_id: PoolId,
    asset_in: AssetIdView,
    asset_out: AssetIdView,
    amount: SwapRequestAmount,
    account: Seq<char>,
    asset: AssetIdView,
)
    ensures
        dex_swap(state, pool_id, asset_in, asset_out, amount) matches Ok(r) ==> owed(
            r.0.collected,
            account,
            asset,
        ) == owed(state.collected, account, asset) + (if asset == asset_in {
            fees_paid_to(r.1.fees_breakdown, account, r.1.fees_breakdown.len() as int)
        } else {
            0
        }),
{
    match dex_swap(state, pool_id, asset_in, asset_out, amount) {
        Ok(r) => {
            let fees = state.pools[pool_id as int].fees;
            lemma_credited(state.collected, fees, asset_in, r.1.amount_in, fees.len() as int, account, asset);
        },
        Err(_) => {},
    }
}

/// Creating a pool keeps the exchange valid and every pool as it was.
pub proof fn create_pool_keeps_validity(
    state: DexState,
    caller: Seq<char>,
    deposit: u128,
    attached: AttachedView,
    assets: (AssetIdView, AssetIdView),
    fees: FeesView,
    is_public: bool,
    storage: StorageUsage,
)
    requires
        valid(state),
    ensures
        dex_create_pool(state, caller, deposit, attached, assets, fees, is_public, storage) matches Ok(r) ==> {
            &&& valid(r.0)
            &&& r.0.pools.drop_last() == state.pools
        },
{
    match dex_create_pool(state, caller, deposit, attached, assets, fees, is_public, storage) {
        Ok(r) => {
            let none = Map::<Seq<char>, Option<u128>>::empty();
            assert(none.dom() =~= Set::empty());
            lemma_share_sum_with(none, caller, Some(INITIAL_SHARES));
            assert(pool_valid(new_pool(assets, fees, is_public, caller)));
            assert(r.0.pools.drop_last() =~= state.pools);
            assert forall|i: int| 0 <= i < r.0.pools.len() implies pool_valid(#[trigger] r.0.pools[i]) by {
                if i < state.pools.len() {
                    assert(pool_valid(state.pools[i]));
                }
            }
        },
        Err(_) => {},
    }
}

/// The creator of a public pool holds the initial shares of it, and they are
/// all that there are; a private pool is its creator's. Either holds nothing.
pub proof fn creator_holds_the_pool(
    state: DexState,
    caller: Seq<char>,
    deposit: u128,
    attached: AttachedView,
    assets: (AssetIdView, AssetIdView),
    fees: FeesView,
    is_public: bool,
    storage: StorageUsage,
)
    ensures
        dex_create_pool(state, caller, deposit, attached, assets, fees, is_public, storage) matches Ok(r) ==> {
            let pool = r.0.pools.last();
            &&& r.0.pools.len() == state.pools.len() + 1
            &&& pool.balances == (0u128, 0u128)
            &&& if is_public {
                &&& pool.providers matches ProvidersView::Anyone { shares, total }
                &&& shares.dom() == Set::empty().insert(caller)
                &&& shares[caller] == Some(INITIAL_SHARES)
                &&& total == Some(INITIAL_SHARES)
                &&& share_sum(shares) == INITIAL_SHARES
            } else {
                pool.providers == ProvidersView::Owner(caller)
            }
        },
{
    let none = Map::<Seq<char>, Option<u128>>::empty();
    assert(none.dom() =~= Set::empty());
    lemma_share_sum_with(none, caller, Some(INITIAL_SHARES));
    assert(none.insert(caller, Some(INITIAL_SHARES)).dom() =~= Set::empty().insert(caller));
}

/// The first deposit into a pool whose shares are given out comes from who
/// holds all of them, and changes nobody's shares.
pub proof fn first_deposit_fills_the_pool(
    pool: PoolState,
    caller: Seq<char>,
    attached: AttachedView,
    least: Option<u128>,
)
    requires
        pool.balances == (0u128, 0u128),
        pool.providers matches ProvidersView::Anyone { total, .. } && total is Some,
    ensures
        pool_add(pool, caller, attached, least) matches Ok(r) ==> {
            &&& pool.providers->shares[caller] == pool.providers->total
            &&& r.0.providers == pool.providers
            &&& r.0.balances.0 == attached[pool.assets.0]
            &&& r.0.balances.1 == attached[pool.assets.1]
            &&& r.1.len() == 0
        },
{
}

/// Editing fees keeps the exchange valid.
pub proof fn edit_fees_keeps_validity(
    state: DexState,
    caller: Seq<char>,
    deposit: u128,
    attached: AttachedView,
    pool_id: PoolId,
    fees: FeesView,
    storage: StorageUsage,
)
    requires
        valid(state),
    ensures
        dex_edit_fees(state, caller, deposit, attached, pool_id, fees, storage) matches Ok(r) ==> valid(r.0),
{
    match dex_edit_fees(state, caller, deposit, attached, pool_id, fees, storage) {
        Ok(r) => {
            assert(pool_valid(state.pools[pool_id as int]));
            assert forall|i: int| 0 <= i < r.0.pools.len() implies pool_valid(#[trigger] r.0.pools[i]) by {
                assert(pool_valid(state.pools[i]));
            }
        },
        Err(_) => {},
    }
}

/// Registering keeps the exchange valid.
pub proof fn register_keeps_validity(
    state: DexState,
    caller: Seq<char>,
    deposit: u128,
    attached: AttachedView,
    pool_id: PoolId,
    storage: StorageUsage,
)
    requires
        valid(state),
    ensures
        dex_register_liquidity(state, caller, deposit, attached, pool_id, storage) matches Ok(r) ==> valid(r.0),
{
    match dex_register_liquidity(state, caller, deposit, attached, pool_id, storage) {
        Ok(r) => {
            let before = state.pools[pool_id as int];
            let after = r.0.pools[pool_id as int];
            assert(pool_valid(before));
            let shares = before.providers->shares;
            lemma_share_sum_with(shares, caller, None);
            assert(pool_valid(after));
            assert forall|i: int| 0 <= i < r.0.pools.len() implies pool_valid(#[trigger] r.0.pools[i]) by {
                assert(pool_valid(state.pools[i]));
            }
        },
        Err(_) => {},
    }
}

/// A deposit keeps a pool valid, and never meets shares without a total.
proof fn lemma_pool_add(pool: PoolState, caller: Seq<char>, attached: AttachedView, least: Option<u128>)
    requires
        pool_valid(pool),
    ensures
        pool_add(pool, caller, attached, least) matches Ok(r) ==> pool_valid(r.0),
        pool_add(pool, caller, attached, least) != Err::<(PoolState, Seq<WithdrawView>), DexError>(
            DexError::SharesWithoutTotal,
        ),
{
    match pool.providers {
        ProvidersView::Owner(_) => {},
        ProvidersView::Anyone { shares, total } => {
            if shares.contains_key(caller) {
                lemma_share_sum_without(shares, caller);
                match pool_add(pool, caller, attached, least) {
                    Ok(r) => {
                        let own = r.0.providers->shares[caller];
                        lemma_share_sum_with(shares, caller, own);
                        assert(pool_valid(r.0));
                    },
                    Err(_) => {},
                }
            }
        },
    }
}

/// A deposit keeps the exchange valid. In a valid exchange it is never
/// refused because of shares without a total.
pub proof fn add_liquidity_keeps_validity(
    state: DexState,
    caller: Seq<char>,
    deposit: u128,
    attached: AttachedView,
    pool_id: PoolId,
    least: Option<u128>,
)
    requires
        valid(state),
    ensures
        match dex_add_liquidity(state, caller, deposit, attached, pool_id, least) {
            Ok(r) => valid(r.0),
            Err(e) => e != DexError::SharesWithoutTotal,
        },
{
    if pool_id < state.pools.len() {
        lemma_pool_add(state.pools[pool_id as int], caller, attached, least);
    }
    match dex_add_liquidity(state, caller, deposit, attached, pool_id, least) {
        Ok(r) => {
            assert forall|i: int| 0 <= i < r.0.pools.len() implies pool_valid(#[trigger] r.0.pools[i]) by {
                assert(pool_valid(state.pools[i]));
            }
        },
        Err(_) => {},
    }
}

/// A withdrawal keeps a pool valid.
proof fn lemma_pool_remove(pool: PoolState, caller: Seq<char>, wanted: Option<u128>, least: Option<(u128, u128)>)
    requires
        pool_valid(pool),
    ensures
        pool_remove(pool, caller, wanted, least) matches Ok(r) ==> pool_valid(r.0),
        pool_remove(pool, caller, wanted, least) != Err::<(PoolState, (u128, u128)), DexError>(
            DexError::SharesWithoutTotal,
        ),
{
    match pool.providers {
        ProvidersView::Owner(_) => {},
        ProvidersView::Anyone { shares, total } => {
            if shares.contains_key(caller) {
                lemma_share_sum_without(shares, caller);
                match pool_remove(pool, caller, wanted, least) {
                    Ok(r) => {
                        let own = r.0.providers->shares[caller];
                        lemma_share_sum_with(shares, caller, own);
                        assert(pool_valid(r.0));
                    },
                    Err(_) => {},
                }
            }
        },
    }
}

/// A withdrawal keeps the exchange valid. In a valid exchange it is never
/// refused because of shares without a total.
pub proof fn remove_liquidity_keeps_validity(
    state: DexState,
    caller: Seq<char>,
    deposit: u128,
    attached: AttachedView,
    pool_id: PoolId,
    wanted: Option<u128>,
    least: Option<(u128, u128)>,
)
    requires
        valid(state),
    ensures
        match dex_remove_liquidity(state, caller, deposit, attached, pool_id, wanted, least) {
            Ok(r) => valid(r.0),
            Err(e) => e != DexError::SharesWithoutTotal,
        },
{
    if pool_id < state.pools.len() {
        lemma_pool_remove(state.pools[pool_id as int], caller, wanted, least);
    }
    match dex_remove_liquidity(state, caller, deposit, attached, pool_id, wanted, least) {
        Ok(r) => {
            assert forall|i: int| 0 <= i < r.0.pools.len() implies pool_valid(#[trigger] r.0.pools[i]) by {
                assert(pool_valid(state.pools[i]));
            }
        },
        Err(_) => {},
    }
}

/// The units that minted shares take are attached.
proof fn lemma_units_covered(amount: u128, total: u128, balance: u128, shares: u128)
    requires
        amount > 0,
        total > 0,
        balance > 0,
        shares_for(amount, total, balance) matches Ok(most) && shares <= most,
    ensures
        units_for(shares, total, balance) matches Some(used) && used <= amount,
{
    let most = shares_for(amount, total, balance)->Ok_0;
    shares_never_gain((amount - 1) as nat, total as nat, balance as nat);
    let low = balance * shares;
    let high = balance * most;
    assert(low <= high) by (nonlinear_arith)
        requires
            low == balance * shares,
            high == balance * most,
            shares <= most,
            balance > 0,
    ;
    vstd::arithmetic::div_mod::lemma_div_is_ordered(low, high, total as int);
}

/// A deposit into a pool with shares never takes more than was attached, so
/// the rest of both assets always goes back.
pub proof fn deposit_is_covered(amounts: (u128, u128), total: u128, balances: (u128, u128), least: Option<u128>)
    requires
        amounts.0 > 0,
        amounts.1 > 0,
        total > 0,
    ensures
        mint(amounts, total, balances, least) matches Ok(minted) ==> minted.used_0 <= amounts.0 && minted.used_1
            <= amounts.1,
{
    match mint(amounts, total, balances, least) {
        Ok(minted) => {
            lemma_units_covered(amounts.0, total, balances.0, minted.shares);
            lemma_units_covered(amounts.1, total, balances.1, minted.shares);
        },
        Err(_) => {},
    }
}

/// A deposit does not lower what a share is worth in either asset.
pub proof fn deposit_keeps_share_value(
    amounts: (u128, u128),
    total: u128,
    balances: (u128, u128),
    least: Option<u128>,
)
    requires
        total > 0,
    ensures
        mint(amounts, total, balances, least) matches Ok(minted) ==> {
            &&& (balances.0 + minted.used_0) * total > balances.0 * (total + minted.shares)
            &&& (balances.1 + minted.used_1) * total > balances.1 * (total + minted.shares)
        },
{
    match mint(amounts, total, balances, least) {
        Ok(minted) => {
            lemma_units_enough(minted.shares, total, balances.0);
            lemma_units_enough(minted.shares, total, balances.1);
            lemma_value_kept(balances.0 as int, minted.used_0 as int, total as int, minted.shares as int);
            lemma_value_kept(balances.1 as int, minted.used_1 as int, total as int, minted.shares as int);
        },
        Err(_) => {},
    }
}

/// The units that shares take are more than they are worth.
proof fn lemma_units_enough(shares: u128, total: u128, balance: u128)
    requires
        total > 0,
        units_for(shares, total, balance) is Some,
    ensures
        units_for(shares, total, balance)->0 * total > balance * shares,
{
    let used = units_for(shares, total, balance)->0;
    let num = balance * shares;
    vstd::arithmetic::div_mod::lemma_fundamental_div_mod(num, total as int);
    vstd::arithmetic::div_mod::lemma_mod_bound(num, total as int);
    let q = num / (total as int);
    assert(q + 1 == used);
    assert(total * q + num % (total as int) == num);
    assert(used * total > num) by (nonlinear_arith)
        requires
            used == q + 1,
            total * q + num % (total as int) == num,
            num % (total as int) < total,
    ;
}

proof fn lemma_value_kept(balance: int, used: int, total: int, shares: int)
    requires
        used * total > balance * shares,
    ensures
        (balance + used) * total > balance * (total + shares),
{
    assert((balance + used) * total > balance * (total + shares)) by (nonlinear_arith)
        requires
            used * total > balance * shares,
    ;
}

/// A withdrawal does not lower what a share is worth in either asset: what is
/// left, per share that is left, is at least what there was.
pub proof fn withdrawal_keeps_share_value(shares: u128, total: u128, balances: (u128, u128))
    requires
        shares <= total,
        total > 0,
    ensures
        worth(shares, total, balances) matches Some(paid) ==> {
            &&& paid.0 <= balances.0
            &&& paid.1 <= balances.1
            &&& (balances.0 - paid.0) * total >= balances.0 * (total - shares)
            &&& (balances.1 - paid.1) * total >= balances.1 * (total - shares)
        },
{
    match worth(shares, total, balances) {
        Some(paid) => {
            lemma_paid(shares, total, balances.0, paid.0);
            lemma_paid(shares, total, balances.1, paid.1);
        },
        None => {},
    }
}

proof fn lemma_paid(shares: u128, total: u128, balance: u128, paid: u128)
    requires
        total > 0,
        (shares == total && paid == balance) || worth_of(shares, total, balance) == Some(paid),
    ensures
        paid * total <= balance * shares,
        (balance - paid) * total >= balance * (total - shares),
{
    if shares != total || paid != balance {
        if balance != 0 {
            let num = balance * shares;
            vstd::arithmetic::div_mod::lemma_fundamental_div_mod(num, total as int);
            vstd::arithmetic::div_mod::lemma_mod_bound(num, total as int);
            assert(paid * total == total * paid) by (nonlinear_arith);
        } else {
            assert(paid * total <= balance * shares) by (nonlinear_arith)
                requires
                    paid == 0,
                    balance == 0,
            ;
        }
    }
    assert((balance - paid) * total >= balance * (total - shares)) by (nonlinear_arith)
        requires
            paid * total <= balance * shares,
    ;
}

/// Whoever withdraws the shares of a deposit right after it gets less of
/// either asset than the deposit took, as long as others hold shares.
pub proof fn deposit_and_withdrawal_never_gain(
    amounts: (u128, u128),
    total: u128,
    balances: (u128, u128),
    least: Option<u128>,
)
    requires
        total > 0,
    ensures
        mint(amounts, total, balances, least) matches Ok(minted) ==> (added(
            balances,
            minted.used_0,
            minted.used_1,
        ) matches Some(after) ==> total + minted.shares <= u128::MAX ==> (worth(
            minted.shares,
            (total + minted.shares) as u128,
            after,
        ) matches Some(paid) ==> paid.0 < minted.used_0 && paid.1 < minted.used_1)),
{
    match mint(amounts, total, balances, least) {
        Ok(minted) => match added(balances, minted.used_0, minted.used_1) {
            Some(after) => if total + minted.shares <= u128::MAX {
                let all = (total + minted.shares) as u128;
                match worth(minted.shares, all, after) {
                    Some(paid) => {
                        lemma_units_enough(minted.shares, total, balances.0);
                        lemma_units_enough(minted.shares, total, balances.1);
                        lemma_paid(minted.shares, all, after.0, paid.0);
                        lemma_paid(minted.shares, all, after.1, paid.1);
                        lemma_round_trip(
                            balances.0 as int,
                            minted.used_0 as int,
                            total as int,
                            minted.shares as int,
                            paid.0 as int,
                        );
                        lemma_round_trip(
                            balances.1 as int,
                            minted.used_1 as int,
                            total as int,
                            minted.shares as int,
                            paid.1 as int,
                        );
                    },
                    None => {},
                }
            },
            None => {},
        },
        Err(_) => {},
    }
}

proof fn lemma_round_trip(balance: int, used: int, total: int, shares: int, paid: int)
    requires
        total > 0,
        shares >= 0,
        used * total > balance * shares,
        paid * (total + shares) <= (balance + used) * shares,
    ensures
        paid < used,
{
    assert(paid * (total + shares) < used * (total + shares)) by (nonlinear_arith)
        requires
            used * total > balance * shares,
            paid * (total + shares) <= (balance + used) * shares,
    ;
    assert(paid < used) by (nonlinear_arith)
        requires
            total + shares > 0,
            paid * (total + shares) < used * (total + shares),
    ;
}

/// Drawing fees clears what the account is owed in the assets and leaves
/// everything else.
proof fn lemma_drawn(
    collected: CollectedView,
    account: Seq<char>,
    assets: Seq<AssetIdView>,
    k: int,
    other: Seq<char>,
    asset: AssetIdView,
)
    requires
        0 <= k <= assets.len(),
    ensures
        owed(drawn(collected, account, assets, k).0, other, asset) == if other == account && assets.subrange(
            0,
            k,
        ).contains(asset) {
            0
        } else {
            owed(collected, other, asset)
        },
    decreases k,
{
    if k > 0 {
        lemma_drawn(collected, account, assets, k - 1, other, asset);
        let now = assets.subrange(0, k);
        let before = assets.subrange(0, k - 1);
        assert(now =~= before.push(assets[k - 1]));
        if before.contains(asset) {
            let i = choose|i: int| 0 <= i < before.len() && before[i] == asset;
            assert(now[i] == asset);
        }
        if assets[k - 1] == asset {
            assert(now[k - 1] == asset);
        }
        if now.contains(asset) && !before.contains(asset) {
            let i = choose|i: int| 0 <= i < now.len() && now[i] == asset;
            if i < k - 1 {
                assert(before[i] == asset);
            }
        }
    }
}

/// After drawing fees an account is owed nothing in the assets it asked for;
/// what it is owed in others, and what others are owed, is as before, and the
/// pools are untouched.
pub proof fn fees_are_drawn_once(
    state: DexState,
    caller: Seq<char>,
    deposit: u128,
    attached: AttachedView,
    assets: Seq<AssetIdView>,
    other: Seq<char>,
    asset: AssetIdView,
)
    ensures
        dex_withdraw_fees(state, caller, deposit, attached, assets) matches Ok(r) ==> {
            &&& r.0.pools == state.pools
            &&& valid(state) ==> valid(r.0)
            &&& owed(r.0.collected, other, asset) == if other == caller && assets.contains(asset) {
                0
            } else {
                owed(state.collected, other, asset)
            }
        },
{
    lemma_drawn(state.collected, caller, assets, assets.len() as int, other, asset);
    assert(assets.subrange(0, assets.len() as int) =~= assets);
}

/// The message that is written for a pool swaps in that pool.
pub proof fn written_message_names_the_pool(
    state: DexState,
    pool_id: PoolId,
    asset_in: AssetIdView,
    asset_out: AssetIdView,
    amount: SwapRequestAmount,
)
    ensures
        dex_swap_call(state, le_bytes(pool_id), asset_in, asset_out, amount) == dex_swap(
            state,
            pool_id,
            asset_in,
            asset_out,
            amount,
        ),
{
    number_reads_back(pool_id);
}

/// The calls keep the exchange valid, whatever bytes they are made with. In a
/// valid exchange none is refused because of shares without a total.
pub proof fn calls_keep_validity(
    state: DexState,
    caller: Seq<char>,
    deposit: u128,
    attached: AttachedView,
    args: Seq<u8>,
    storage: StorageUsage,
    asset_in: AssetIdView,
    asset_out: AssetIdView,
    amount: SwapRequestAmount,
)
    requires
        valid(state),
    ensures
        dex_swap_call(state, args, asset_in, asset_out, amount) matches Ok(r) ==> valid(r.0),
        dex_register_call(state, caller, deposit, attached, args, storage) matches Ok(r) ==> valid(r.0),
        dex_create_call(state, caller, deposit, attached, args, storage) matches Ok(r) ==> valid(r.0),
        dex_edit_call(state, caller, deposit, attached, args, storage) matches Ok(r) ==> valid(r.0),
        dex_draw_call(state, caller, deposit, attached, args) matches Ok(r) ==> valid(r.0),
        match dex_add_call(state, caller, deposit, attached, args) {
            Ok(r) => valid(r.0),
            Err(e) => e != DexError::SharesWithoutTotal,
        },
        match dex_remove_call(state, caller, deposit, attached, args) {
            Ok(r) => valid(r.0),
            Err(e) => e != DexError::SharesWithoutTotal,
        },
{
    match read_u32(args) {
        Some(pool_id) => {
            swap_keeps_validity(state, pool_id, asset_in, asset_out, amount);
            register_keeps_validity(state, caller, deposit, attached, pool_id, storage);
        },
        None => {},
    }
    match read_pool_and_bound(args) {
        Some((pool_id, least)) => {
            add_liquidity_keeps_validity(state, caller, deposit, attached, pool_id, least);
        },
        None => {},
    }
    match read_pool_bound_and_pair(args) {
        Some((pool_id, wanted, least)) => {
            remove_liquidity_keeps_validity(state, caller, deposit, attached, pool_id, wanted, least);
        },
        None => {},
    }
    match read_pool(args) {
        Some((assets, fees, is_public)) => {
            create_pool_keeps_validity(state, caller, deposit, attached, assets, fees, is_public, storage);
        },
        None => {},
    }
    match read_new_fees(args) {
        Some((pool_id, fees)) => {
            edit_fees_keeps_validity(state, caller, deposit, attached, pool_id, fees, storage);
        },
        None => {},
    }
    match read_assets(args) {
        Some(assets) => {
            fees_are_drawn_once(state, caller, deposit, attached, assets, caller, asset_in);
        },
        None => {},
    }
}

} // verus!
