//! What every call on the exchange comes to.

use vstd::prelude::*;

use super::call::{storage_cost, AttachedView, ResponseView, StorageUsage, WithdrawView};
use super::dex::{breakdown_of, credited, dex_swap, owed, swap_amounts, swap_side, SwapRequestAmount};
use super::laws::{deposit_is_covered, pool_valid, valid};
use super::liquidity::{
    dex_add_liquidity, dex_register_liquidity, dex_remove_liquidity, dex_withdraw_fees, drawn, mint, pending,
    shares_for, worth_of,
};
use super::pools::{dex_create_pool, dex_edit_fees, with_entries};
use super::state::{fees_error, fractions_of, CollectedView, DexState, FeesView, PoolId, PoolState, ProvidersView};
use crate::asset::AssetIdView;
use crate::product::{
    fee_on, fee_sum, fraction_sum, input_before_fees, input_with_fees, lemma_output_bound,
    FeeFraction,
};

verus! {

/// How much leaves the exchange of an asset.
pub open spec fn sent(withdraws: Seq<WithdrawView>, asset: AssetIdView) -> int
    decreases withdraws.len(),
{
    if withdraws.len() == 0 {
        0
    } else {
        sent(withdraws.drop_last(), asset) + if withdraws.last().asset == asset {
            withdraws.last().amount as int
        } else {
            0
        }
    }
}

/// Whether everything that leaves goes to one account.
pub open spec fn all_to(withdraws: Seq<WithdrawView>, account: Seq<char>) -> bool {
    forall|i: int| 0 <= i < withdraws.len() ==> (#[trigger] withdraws[i]).to == account
}

/// Whether nothing but one pool differs, and that neither in its assets nor in
/// its fees.
pub open spec fn only_in(before: DexState, after: DexState, pool_id: PoolId) -> bool {
    &&& pool_id < before.pools.len()
    &&& after.pools.len() == before.pools.len()
    &&& forall|i: int| 0 <= i < before.pools.len() && i != pool_id ==> #[trigger] after.pools[i] == before.pools[i]
    &&& after.pools[pool_id as int].assets == before.pools[pool_id as int].assets
    &&& after.pools[pool_id as int].fees == before.pools[pool_id as int].fees
    &&& after.collected == before.collected
}

/// The shares of an account in a pool.
pub open spec fn held(providers: ProvidersView, account: Seq<char>) -> int {
    match providers {
        ProvidersView::Owner(_) => 0,
        ProvidersView::Anyone { shares, .. } => if shares.contains_key(account) && shares[account] is Some {
            shares[account]->0 as int
        } else {
            0
        },
    }
}

/// All shares of a pool.
pub open spec fn all_held(providers: ProvidersView) -> int {
    match providers {
        ProvidersView::Owner(_) => 0,
        ProvidersView::Anyone { total, .. } => if total is Some {
            total->0 as int
        } else {
            0
        },
    }
}

/// Whether shares are given to an account and to no other: its count and the
/// total go up by the same number, and every other count stays.
pub open spec fn given_to(before: ProvidersView, after: ProvidersView, account: Seq<char>, number: int) -> bool {
    &&& before is Owner <==> after is Owner
    &&& held(after, account) == held(before, account) + number
    &&& all_held(after) == all_held(before) + number
    &&& forall|other: Seq<char>|
        #![trigger held(after, other)]
        other != account ==> held(after, other) == held(before, other)
}

/// What two withdrawals come to.
proof fn lemma_sent_two(withdraws: Seq<WithdrawView>, asset: AssetIdView)
    requires
        withdraws.len() <= 2,
    ensures
        withdraws.len() == 0 ==> sent(withdraws, asset) == 0,
        withdraws.len() == 1 ==> sent(withdraws, asset) == if withdraws[0].asset == asset {
            withdraws[0].amount as int
        } else {
            0
        },
        withdraws.len() == 2 ==> sent(withdraws, asset) == (if withdraws[0].asset == asset {
            withdraws[0].amount as int
        } else {
            0
        }) + (if withdraws[1].asset == asset {
            withdraws[1].amount as int
        } else {
            0
        }),
{
    reveal_with_fuel(sent, 3);
}

/// A quotient in terms of its product.
proof fn lemma_quotient(a: int, b: int, d: int)
    requires
        0 <= a,
        0 <= b,
        0 < d,
    ensures
        (a * b / d) * d <= a * b < (a * b / d + 1) * d,
        0 <= a * b / d,
{
    let num = a * b;
    assert(num >= 0) by (nonlinear_arith)
        requires
            num == a * b,
            a >= 0,
            b >= 0,
    ;
    vstd::arithmetic::div_mod::lemma_fundamental_div_mod(num, d);
    vstd::arithmetic::div_mod::lemma_mod_bound(num, d);
    vstd::arithmetic::div_mod::lemma_div_pos_is_pos(num, d);
    let q = num / d;
    assert(q * d <= num < (q + 1) * d) by (nonlinear_arith)
        requires
            d * q + num % d == num,
            0 <= num % d < d,
    ;
}

/// Whether shares are as many as a deposit brings: one more would take more
/// than one unit less than was attached of one of the assets.
pub open spec fn as_many_as(shares: int, all: int, balances: (u128, u128), amounts: (u128, u128)) -> bool {
    &&& shares * balances.0 <= (amounts.0 - 1) * all
    &&& shares * balances.1 <= (amounts.1 - 1) * all
    &&& (shares + 1) * balances.0 > (amounts.0 - 1) * all || (shares + 1) * balances.1 > (amounts.1 - 1) * all
}

/// Whether units are the least that are worth more than shares.
pub open spec fn just_over(units: int, shares: int, all: int, balance: int) -> bool {
    &&& units * all > balance * shares
    &&& (units - 1) * all <= balance * shares
}

/// The shares and the units of a deposit.
proof fn lemma_minted(amounts: (u128, u128), total: u128, balances: (u128, u128), least: Option<u128>)
    requires
        amounts.0 > 0,
        amounts.1 > 0,
        total > 0,
        mint(amounts, total, balances, least) is Ok,
    ensures
        ({
            let minted = mint(amounts, total, balances, least)->Ok_0;
            &&& minted.shares > 0
            &&& as_many_as(minted.shares as int, total as int, balances, amounts)
            &&& just_over(minted.used_0 as int, minted.shares as int, total as int, balances.0 as int)
            &&& just_over(minted.used_1 as int, minted.shares as int, total as int, balances.1 as int)
            &&& minted.used_0 <= amounts.0
            &&& minted.used_1 <= amounts.1
        }),
{
    deposit_is_covered(amounts, total, balances, least);
    let minted = mint(amounts, total, balances, least)->Ok_0;
    let s = minted.shares as int;
    let t = total as int;
    lemma_quotient(amounts.0 - 1, t, balances.0 as int);
    lemma_quotient(amounts.1 - 1, t, balances.1 as int);
    let from_0 = shares_for(amounts.0, total, balances.0)->Ok_0 as int;
    let from_1 = shares_for(amounts.1, total, balances.1)->Ok_0 as int;
    assert(from_0 == (amounts.0 - 1) * t / (balances.0 as int));
    assert(from_1 == (amounts.1 - 1) * t / (balances.1 as int));
    assert(s * balances.0 <= from_0 * balances.0) by (nonlinear_arith)
        requires
            s <= from_0,
            balances.0 >= 0,
    ;
    assert(s * balances.1 <= from_1 * balances.1) by (nonlinear_arith)
        requires
            s <= from_1,
            balances.1 >= 0,
    ;
    lemma_quotient(balances.0 as int, s, t);
    lemma_quotient(balances.1 as int, s, t);
    assert(minted.used_0 - 1 == balances.0 * s / t);
    assert(minted.used_1 - 1 == balances.1 * s / t);
}

/// A deposit takes the two assets of the pool and nothing else, keeps of them
/// what the balances gain and sends the rest back. Into a private pool only
/// its owner deposits, and all of it. In a public one the depositor gets as
/// many shares as the deposit brings, no fewer than asked for, and pays the
/// least that is worth more than they are; the first deposit gets the initial
/// shares, or none where they are held already.
#[verifier::rlimit(50)]
pub proof fn deposit_takes_and_gives(
    state: DexState,
    caller: Seq<char>,
    deposit: u128,
    attached: AttachedView,
    pool_id: PoolId,
    least: Option<u128>,
)
    requires
        valid(state),
    ensures
        dex_add_liquidity(state, caller, deposit, attached, pool_id, least) matches Ok((after, response)) ==> {
            let before = state.pools[pool_id as int];
            let pool = after.pools[pool_id as int];
            let (a, b) = before.assets;
            let amounts = (attached[a], attached[b]);
            let number = held(pool.providers, caller) - held(before.providers, caller);
            let all = all_held(before.providers);
            &&& deposit == 1
            &&& only_in(state, after, pool_id)
            &&& attached.dom() == set![a, b]
            &&& pool.balances.0 + sent(response.withdraws, a) == before.balances.0 + amounts.0
            &&& pool.balances.1 + sent(response.withdraws, b) == before.balances.1 + amounts.1
            &&& all_to(response.withdraws, caller)
            &&& forall|asset: AssetIdView|
                asset != a && asset != b ==> #[trigger] sent(response.withdraws, asset) == 0
            &&& response.storage_deposit == 0
            &&& response.response.len() == 0
            &&& given_to(before.providers, pool.providers, caller, number)
            &&& least is Some ==> number >= least->0
            &&& before.providers is Owner ==> {
                &&& before.providers == ProvidersView::Owner(caller)
                &&& pool.providers == before.providers
                &&& response.withdraws.len() == 0
                &&& least is None
            }
            &&& before.providers is Anyone ==> {
                &&& amounts.0 > 0 && amounts.1 > 0
                &&& before.providers->shares.contains_key(caller)
                &&& if all == 0 {
                    number == 1_000_000_000_000_000_000 && response.withdraws.len() == 0
                } else if before.balances == (0u128, 0u128) {
                    number == 0 && held(before.providers, caller) == all && response.withdraws.len() == 0
                } else {
                    &&& number > 0
                    &&& as_many_as(number, all, before.balances, amounts)
                    &&& just_over(
                        amounts.0 - sent(response.withdraws, a),
                        number,
                        all,
                        before.balances.0 as int,
                    )
                    &&& just_over(
                        amounts.1 - sent(response.withdraws, b),
                        number,
                        all,
                        before.balances.1 as int,
                    )
                }
            }
        },
{
    match dex_add_liquidity(state, caller, deposit, attached, pool_id, least) {
        Ok((after, response)) => {
            let before = state.pools[pool_id as int];
            let pool = after.pools[pool_id as int];
            let (a, b) = before.assets;
            assert(pool_valid(before));
            assert(attached.dom() =~= set![a, b]) by {
                assert forall|asset: AssetIdView| attached.contains_key(asset) implies asset == a || asset == b by {
                    if asset != a && asset != b {
                        assert(attached.remove(a).remove(b).contains_key(asset));
                    }
                }
            }
            lemma_sent_two(response.withdraws, a);
            lemma_sent_two(response.withdraws, b);
            assert forall|asset: AssetIdView| asset != a && asset != b implies #[trigger] sent(
                response.withdraws,
                asset,
            ) == 0 by {
                lemma_sent_two(response.withdraws, asset);
            }
            match before.providers {
                ProvidersView::Owner(_) => {},
                ProvidersView::Anyone { shares, total } => {
                    let amounts = (attached[a], attached[b]);
                    match total {
                        Some(total) => {
                            if before.balances != (0u128, 0u128) {
                                lemma_minted(amounts, total, before.balances, least);
                            }
                        },
                        None => {},
                    }
                },
            }
        },
        Err(_) => {},
    }
}

/// A withdrawal sends the caller exactly what the balances lose. From a
/// private pool only its owner withdraws, and everything. From a public one
/// the caller gives up the shares that were asked for, or all, and gets no
/// less than asked for: the part of each balance that the shares are of all,
/// rounded down.
#[verifier::rlimit(50)]
pub proof fn withdrawal_gives_and_takes(
    state: DexState,
    caller: Seq<char>,
    deposit: u128,
    attached: AttachedView,
    pool_id: PoolId,
    wanted: Option<u128>,
    least: Option<(u128, u128)>,
)
    requires
        valid(state),
    ensures
        dex_remove_liquidity(state, caller, deposit, attached, pool_id, wanted, least) matches Ok((after, response))
            ==> {
            let before = state.pools[pool_id as int];
            let pool = after.pools[pool_id as int];
            let (a, b) = before.assets;
            let paid = (sent(response.withdraws, a), sent(response.withdraws, b));
            let number = held(before.providers, caller) - held(pool.providers, caller);
            let all = all_held(before.providers);
            &&& deposit == 1
            &&& attached.dom() == Set::<AssetIdView>::empty()
            &&& only_in(state, after, pool_id)
            &&& pool.balances.0 + paid.0 == before.balances.0
            &&& pool.balances.1 + paid.1 == before.balances.1
            &&& all_to(response.withdraws, caller)
            &&& forall|asset: AssetIdView|
                asset != a && asset != b ==> #[trigger] sent(response.withdraws, asset) == 0
            &&& response.storage_deposit == 0
            &&& response.response.len() == 0
            &&& given_to(before.providers, pool.providers, caller, -number)
            &&& least matches Some(bounds) ==> paid.0 >= bounds.0 && paid.1 >= bounds.1
            &&& before.providers is Owner ==> {
                &&& before.providers == ProvidersView::Owner(caller)
                &&& pool.providers == before.providers
                &&& pool.balances == (0u128, 0u128)
            }
            &&& before.providers is Anyone ==> {
                &&& held(before.providers, caller) > 0
                &&& number == if wanted is Some {
                    wanted->0 as int
                } else {
                    held(before.providers, caller)
                }
                &&& paid.0 * all <= before.balances.0 * number < (paid.0 + 1) * all
                &&& paid.1 * all <= before.balances.1 * number < (paid.1 + 1) * all
            }
        },
{
    match dex_remove_liquidity(state, caller, deposit, attached, pool_id, wanted, least) {
        Ok((after, response)) => {
            let before = state.pools[pool_id as int];
            let pool = after.pools[pool_id as int];
            let (a, b) = before.assets;
            assert(pool_valid(before));
            lemma_sent_two(response.withdraws, a);
            lemma_sent_two(response.withdraws, b);
            assert forall|asset: AssetIdView| asset != a && asset != b implies #[trigger] sent(
                response.withdraws,
                asset,
            ) == 0 by {
                lemma_sent_two(response.withdraws, asset);
            }
            match before.providers {
                ProvidersView::Owner(_) => {},
                ProvidersView::Anyone { shares, total } => {
                    let number = held(before.providers, caller) - held(pool.providers, caller);
                    lemma_part(number as u128, total->0, before.balances.0, response.withdraws[0].amount);
                    lemma_part(number as u128, total->0, before.balances.1, response.withdraws[1].amount);
                },
            }
        },
        Err(_) => {},
    }
}

/// What shares are worth, in terms of products.
proof fn lemma_part(shares: u128, total: u128, balance: u128, paid: u128)
    requires
        total > 0,
        shares <= total,
        (shares == total && paid == balance) || worth_of(shares, total, balance) == Some(paid),
    ensures
        paid * total <= balance * shares < (paid + 1) * total,
{
    if shares == total && paid == balance {
        assert(paid * total <= balance * shares < (paid + 1) * total) by (nonlinear_arith)
            requires
                shares == total,
                paid == balance,
                total > 0,
        ;
    } else if balance == 0 {
        assert(paid * total <= balance * shares < (paid + 1) * total) by (nonlinear_arith)
            requires
                paid == 0,
                balance == 0,
                total > 0,
        ;
    } else {
        lemma_quotient(balance as int, shares as int, total as int);
    }
}

/// Whoever holds shares can withdraw any number of them, as long as no least
/// amounts are asked for; an owner can always empty a private pool.
pub proof fn shares_can_be_withdrawn(
    state: DexState,
    caller: Seq<char>,
    attached: AttachedView,
    pool_id: PoolId,
    wanted: Option<u128>,
)
    requires
        valid(state),
        attached.dom() == Set::<AssetIdView>::empty(),
        pool_id < state.pools.len(),
        match state.pools[pool_id as int].providers {
            ProvidersView::Owner(owner) => owner == caller && wanted is None,
            ProvidersView::Anyone { .. } => {
                &&& held(state.pools[pool_id as int].providers, caller) > 0
                &&& wanted is Some ==> wanted->0 <= held(state.pools[pool_id as int].providers, caller)
            },
        },
    ensures
        dex_remove_liquidity(state, caller, 1, attached, pool_id, wanted, None) is Ok,
{
    let pool = state.pools[pool_id as int];
    assert(pool_valid(pool));
    assert(attached =~= Map::<AssetIdView, u128>::empty());
    match pool.providers {
        ProvidersView::Owner(_) => {},
        ProvidersView::Anyone { shares, total } => {
            super::laws::lemma_share_sum_without(shares, caller);
            let number = if wanted is Some {
                wanted->0
            } else {
                shares[caller]->0
            };
            assert(number <= total->0);
            lemma_fits(number, total->0, pool.balances.0);
            lemma_fits(number, total->0, pool.balances.1);
        },
    }
}

/// What some of all shares are worth is no more than the balance.
proof fn lemma_fits(shares: u128, total: u128, balance: u128)
    requires
        shares <= total,
        total > 0,
    ensures
        worth_of(shares, total, balance) is Some,
{
    let num = balance * shares;
    lemma_quotient(balance as int, shares as int, total as int);
    let q = num / (total as int);
    assert(q <= balance) by (nonlinear_arith)
        requires
            q * total <= balance * shares,
            shares <= total,
            total > 0,
            balance >= 0,
    ;
}

/// What was sent before is sent as well.
proof fn lemma_sent_push(withdraws: Seq<WithdrawView>, withdraw: WithdrawView, asset: AssetIdView)
    ensures
        sent(withdraws.push(withdraw), asset) == sent(withdraws, asset) + if withdraw.asset == asset {
            withdraw.amount as int
        } else {
            0
        },
{
    assert(withdraws.push(withdraw).drop_last() =~= withdraws);
}

/// What drawing fees in the first assets sends.
proof fn lemma_drawn_sent(
    collected: CollectedView,
    account: Seq<char>,
    assets: Seq<AssetIdView>,
    k: int,
    asset: AssetIdView,
)
    requires
        0 <= k <= assets.len(),
    ensures
        sent(drawn(collected, account, assets, k).1, asset) + owed(
            drawn(collected, account, assets, k).0,
            account,
            asset,
        ) == owed(collected, account, asset),
        all_to(drawn(collected, account, assets, k).1, account),
        assets.take(k).contains(asset) ==> owed(drawn(collected, account, assets, k).0, account, asset) == 0,
    decreases k,
{
    if k > 0 {
        lemma_drawn_sent(collected, account, assets, k - 1, asset);
        let (before, paid) = drawn(collected, account, assets, k - 1);
        let last = assets[k - 1];
        let amount = owed(before, account, last);
        lemma_sent_push(paid, WithdrawView { asset: last, amount, to: account }, asset);
        if assets.take(k).contains(asset) && asset != last {
            let i = choose|i: int| 0 <= i < k && assets.take(k)[i] == asset;
            assert(assets.take(k - 1)[i] == asset);
        }
    }
}

/// Drawing fees sends the caller, of every asset, exactly what the caller is
/// owed less afterwards; of the assets asked for that is all that was owed.
pub proof fn drawn_fees_are_sent(
    state: DexState,
    caller: Seq<char>,
    deposit: u128,
    attached: AttachedView,
    assets: Seq<AssetIdView>,
    asset: AssetIdView,
)
    ensures
        dex_withdraw_fees(state, caller, deposit, attached, assets) matches Ok((after, response)) ==> {
            &&& all_to(response.withdraws, caller)
            &&& sent(response.withdraws, asset) == owed(state.collected, caller, asset) - owed(
                after.collected,
                caller,
                asset,
            )
            &&& assets.contains(asset) ==> sent(response.withdraws, asset) == owed(state.collected, caller, asset)
            &&& response.storage_deposit == 0
        },
        dex_withdraw_fees(state, caller, deposit, attached, assets) is Ok <==> deposit == 1 && attached.dom() == Set::<
            AssetIdView,
        >::empty(),
{
    lemma_drawn_sent(state.collected, caller, assets, assets.len() as int, asset);
    assert(assets.take(assets.len() as int) =~= assets);
    if attached.dom() == Set::<AssetIdView>::empty() {
        assert(attached =~= Map::<AssetIdView, u128>::empty());
    }
}

/// The fees of a pool, added up, in millionths.
pub open spec fn whole_fee(fees: FeesView) -> int
    decreases fees.len(),
{
    if fees.len() == 0 {
        0
    } else {
        whole_fee(fees.drop_last()) + fees.last().1
    }
}

/// The sum of the fractions is that of the fees.
proof fn lemma_whole_fee(fees: FeesView, k: int)
    requires
        0 <= k <= fees.len(),
    ensures
        whole_fee(fees.take(k)) == fraction_sum(fractions_of(fees), k),
        whole_fee(fees.take(k)) >= 0,
        forall|i: int| 0 <= i < k ==> (#[trigger] fees[i]).1 <= whole_fee(fees.take(k)),
    decreases k,
{
    if k > 0 {
        lemma_whole_fee(fees, k - 1);
        assert(fees.take(k).drop_last() =~= fees.take(k - 1));
        assert(fees.take(k).last() == fees[k - 1]);
    }
}

/// Fees are accepted exactly where there are no more than forty-two of them
/// and together they are below the whole.
pub proof fn fees_are_below_the_whole(fees: FeesView)
    ensures
        fees_error(fees) is None <==> fees.len() <= 42 && whole_fee(fees) < 1_000_000,
{
    let n = fees.len() as int;
    lemma_whole_fee(fees, n);
    assert(fees.take(n) =~= fees);
}

/// What storage costs.
pub open spec fn price_of(storage: StorageUsage) -> int {
    let bytes = storage.after - storage.before;
    let cost = bytes * storage.byte_cost;
    if bytes <= 0 {
        0
    } else if cost > u128::MAX {
        u128::MAX as int
    } else {
        cost
    }
}

/// How much near is attached.
pub open spec fn near_of(attached: AttachedView) -> int {
    if attached.contains_key(AssetIdView::Near) {
        attached[AssetIdView::Near] as int
    } else {
        0
    }
}

/// Whether a call was paid with near for the storage it took, and the caller
/// got back the rest.
pub open spec fn pays_for_storage(
    response: ResponseView,
    caller: Seq<char>,
    attached: AttachedView,
    storage: StorageUsage,
) -> bool {
    &&& forall|asset: AssetIdView| #[trigger] attached.contains_key(asset) ==> asset == AssetIdView::Near
    &&& response.storage_deposit == price_of(storage)
    &&& sent(response.withdraws, AssetIdView::Near) == near_of(attached) - price_of(storage)
    &&& all_to(response.withdraws, caller)
    &&& forall|asset: AssetIdView| asset != AssetIdView::Near ==> #[trigger] sent(response.withdraws, asset) == 0
}

/// The cost of storage is its price.
proof fn lemma_price(storage: StorageUsage)
    ensures
        storage_cost(storage) == price_of(storage),
{
    let bytes = storage.after - storage.before;
    assert(bytes * storage.byte_cost == storage.byte_cost * bytes) by (nonlinear_arith);
    assert(storage.byte_cost * 0 == 0) by (nonlinear_arith);
}

/// The answer to a call that pays for storage.
proof fn lemma_pays(response: ResponseView, caller: Seq<char>, attached: AttachedView, storage: StorageUsage)
    requires
        response.withdraws.len() == 1,
        response.withdraws[0].asset == AssetIdView::Near,
        response.withdraws[0].to == caller,
        response.withdraws[0].amount == near_of(attached) - storage_cost(storage),
        response.storage_deposit == storage_cost(storage),
        attached.remove(AssetIdView::Near) == Map::<AssetIdView, u128>::empty(),
    ensures
        pays_for_storage(response, caller, attached, storage),
{
    lemma_price(storage);
    lemma_sent_two(response.withdraws, AssetIdView::Near);
    assert forall|asset: AssetIdView| #[trigger] attached.contains_key(asset) implies asset == AssetIdView::Near by {
        if asset != AssetIdView::Near {
            assert(attached.remove(AssetIdView::Near).contains_key(asset));
        }
    }
    assert forall|asset: AssetIdView| asset != AssetIdView::Near implies #[trigger] sent(response.withdraws, asset)
        == 0 by {
        lemma_sent_two(response.withdraws, asset);
    }
}

/// Whether nobody is owed more or less, the receivers of fees have an entry in
/// both assets, and no other entry is new or gone.
pub open spec fn only_opens(
    before: CollectedView,
    after: CollectedView,
    fees: FeesView,
    assets: (AssetIdView, AssetIdView),
) -> bool {
    forall|account: Seq<char>, asset: AssetIdView|
        #![trigger after.contains_key((account, asset))]
        {
            &&& after.contains_key((account, asset)) <==> before.contains_key((account, asset)) || ((asset == assets.0
                || asset == assets.1) && receives(fees, account))
            &&& after.contains_key((account, asset)) ==> after[(account, asset)] == if before.contains_key(
                (account, asset),
            ) {
                before[(account, asset)]
            } else {
                0
            }
        }
}

/// Whether an account receives fees.
pub open spec fn receives(fees: FeesView, account: Seq<char>) -> bool {
    exists|i: int| 0 <= i < fees.len() && (#[trigger] fees[i]).0 == account
}

/// The entries for the first receivers.
#[verifier::rlimit(50)]
proof fn lemma_only_opens(collected: CollectedView, fees: FeesView, assets: (AssetIdView, AssetIdView), k: int)
    requires
        0 <= k <= fees.len(),
    ensures
        only_opens(collected, with_entries(collected, fees, assets, k), fees.take(k), assets),
    decreases k,
{
    if k > 0 {
        lemma_only_opens(collected, fees, assets, k - 1);
        let before = with_entries(collected, fees, assets, k - 1);
        let after = with_entries(collected, fees, assets, k);
        assert forall|account: Seq<char>| true implies (#[trigger] receives(fees.take(k), account) <==> receives(
            fees.take(k - 1),
            account,
        ) || fees[k - 1].0 == account) by {
            if receives(fees.take(k - 1), account) {
                let i = choose|i: int| 0 <= i < k - 1 && (#[trigger] fees.take(k - 1)[i]).0 == account;
                assert(fees.take(k)[i].0 == account);
            }
            if fees[k - 1].0 == account {
                assert(fees.take(k)[k - 1].0 == account);
            }
            if receives(fees.take(k), account) {
                let i = choose|i: int| 0 <= i < k && (#[trigger] fees.take(k)[i]).0 == account;
                if i < k - 1 {
                    assert(fees.take(k - 1)[i].0 == account);
                }
            }
        }
        assert forall|account: Seq<char>, asset: AssetIdView| #[trigger] after.contains_key((account, asset)) || true
            implies {
            &&& after.contains_key((account, asset)) <==> collected.contains_key((account, asset)) || ((asset
                == assets.0 || asset == assets.1) && receives(fees.take(k), account))
            &&& after.contains_key((account, asset)) ==> after[(account, asset)] == if collected.contains_key(
                (account, asset),
            ) {
                collected[(account, asset)]
            } else {
                0
            }
        } by {
            assert(before.contains_key((account, asset)) || !before.contains_key((account, asset)));
            assert(receives(fees.take(k), account) || !receives(fees.take(k), account));
        }
    }
}

/// A created pool is the next one, trades the two assets at the fees, and its
/// number is the answer. It is created exactly where the assets differ, the
/// fees are below the whole, there is a number left and nothing but enough
/// near is attached.
#[verifier::rlimit(50)]
pub proof fn created_pool_is_the_next(
    state: DexState,
    caller: Seq<char>,
    deposit: u128,
    attached: AttachedView,
    assets: (AssetIdView, AssetIdView),
    fees: FeesView,
    is_public: bool,
    storage: StorageUsage,
)
    ensures
        dex_create_pool(state, caller, deposit, attached, assets, fees, is_public, storage) matches Ok(
            (after, response),
        ) ==> {
            let pool = after.pools.last();
            &&& after.pools == state.pools.push(pool)
            &&& pool.assets == assets
            &&& pool.fees == fees
            &&& only_opens(state.collected, after.collected, fees, assets)
            &&& pays_for_storage(response, caller, attached, storage)
            &&& response.response.len() == 4
            &&& response.response[0] + 256 * response.response[1] + 65_536 * response.response[2] + 16_777_216
                * response.response[3] == state.pools.len()
        },
        dex_create_pool(state, caller, deposit, attached, assets, fees, is_public, storage) is Ok <==> {
            &&& deposit == 1
            &&& assets.0 != assets.1
            &&& fees.len() <= 42 && whole_fee(fees) < 1_000_000
            &&& state.pools.len() < u32::MAX
            &&& storage.before <= storage.after
            &&& attached.dom() == set![AssetIdView::Near]
            &&& attached[AssetIdView::Near] >= price_of(storage)
        },
{
    fees_are_below_the_whole(fees);
    lemma_price(storage);
    lemma_only_opens(state.collected, fees, assets, fees.len() as int);
    assert(fees.take(fees.len() as int) =~= fees);
    match dex_create_pool(state, caller, deposit, attached, assets, fees, is_public, storage) {
        Ok((after, response)) => {
            lemma_pays(response, caller, attached, storage);
            assert(attached.dom() =~= set![AssetIdView::Near]);
        },
        Err(_) => {},
    }
    if attached.dom() == set![AssetIdView::Near] {
        assert(attached.contains_key(AssetIdView::Near));
        assert(attached.remove(AssetIdView::Near) =~= Map::<AssetIdView, u128>::empty());
    }
}

/// Replacing fees is for the owner of a private pool, and changes nothing else
/// of any pool.
#[verifier::rlimit(50)]
pub proof fn edited_fees_are_those_given(
    state: DexState,
    caller: Seq<char>,
    deposit: u128,
    attached: AttachedView,
    pool_id: PoolId,
    fees: FeesView,
    storage: StorageUsage,
)
    ensures
        dex_edit_fees(state, caller, deposit, attached, pool_id, fees, storage) matches Ok((after, response)) ==> {
            let before = state.pools[pool_id as int];
            &&& pool_id < state.pools.len()
            &&& before.providers == ProvidersView::Owner(caller)
            &&& after.pools.len() == state.pools.len()
            &&& after.pools[pool_id as int].fees == fees
            &&& after.pools[pool_id as int].assets == before.assets
            &&& after.pools[pool_id as int].balances == before.balances
            &&& after.pools[pool_id as int].providers == before.providers
            &&& forall|i: int|
                0 <= i < state.pools.len() && i != pool_id ==> #[trigger] after.pools[i] == state.pools[i]
            &&& only_opens(state.collected, after.collected, fees, before.assets)
            &&& pays_for_storage(response, caller, attached, storage)
            &&& response.response.len() == 0
        },
        dex_edit_fees(state, caller, deposit, attached, pool_id, fees, storage) is Ok <==> {
            &&& deposit == 1
            &&& pool_id < state.pools.len()
            &&& state.pools[pool_id as int].providers == ProvidersView::Owner(caller)
            &&& fees.len() <= 42 && whole_fee(fees) < 1_000_000
            &&& forall|asset: AssetIdView| #[trigger] attached.contains_key(asset) ==> asset == AssetIdView::Near
            &&& near_of(attached) >= price_of(storage)
        },
{
    fees_are_below_the_whole(fees);
    lemma_price(storage);
    if pool_id < state.pools.len() {
        lemma_only_opens(state.collected, fees, state.pools[pool_id as int].assets, fees.len() as int);
        assert(fees.take(fees.len() as int) =~= fees);
    }
    match dex_edit_fees(state, caller, deposit, attached, pool_id, fees, storage) {
        Ok((after, response)) => {
            lemma_pays(response, caller, attached, storage);
        },
        Err(_) => {},
    }
    if forall|asset: AssetIdView| #[trigger] attached.contains_key(asset) ==> asset == AssetIdView::Near {
        assert(attached.remove(AssetIdView::Near) =~= Map::<AssetIdView, u128>::empty());
    }
}

/// Registering with a public pool makes the caller one of those who can hold
/// shares, and changes nobody's shares and nothing else.
pub proof fn registered_accounts_can_hold_shares(
    state: DexState,
    caller: Seq<char>,
    deposit: u128,
    attached: AttachedView,
    pool_id: PoolId,
    storage: StorageUsage,
)
    ensures
        dex_register_liquidity(state, caller, deposit, attached, pool_id, storage) matches Ok((after, response)) ==> {
            let before = state.pools[pool_id as int];
            let pool = after.pools[pool_id as int];
            &&& only_in(state, after, pool_id)
            &&& before.providers is Anyone
            &&& pool.balances == before.balances
            &&& pool.providers is Anyone
            &&& pool.providers->shares.dom() == before.providers->shares.dom().insert(caller)
            &&& given_to(before.providers, pool.providers, caller, 0)
            &&& pool.providers->total == before.providers->total
            &&& pays_for_storage(response, caller, attached, storage)
            &&& response.response.len() == 0
        },
        dex_register_liquidity(state, caller, deposit, attached, pool_id, storage) is Ok <==> {
            &&& deposit == 1
            &&& pool_id < state.pools.len()
            &&& state.pools[pool_id as int].providers is Anyone
            &&& forall|asset: AssetIdView| #[trigger] attached.contains_key(asset) ==> asset == AssetIdView::Near
            &&& near_of(attached) >= price_of(storage)
        },
{
    lemma_price(storage);
    match dex_register_liquidity(state, caller, deposit, attached, pool_id, storage) {
        Ok((after, response)) => {
            lemma_pays(response, caller, attached, storage);
            let before = state.pools[pool_id as int];
            let pool = after.pools[pool_id as int];
            assert(pool.providers->shares.dom() =~= before.providers->shares.dom().insert(caller));
        },
        Err(_) => {},
    }
    if forall|asset: AssetIdView| #[trigger] attached.contains_key(asset) ==> asset == AssetIdView::Near {
        assert(attached.remove(AssetIdView::Near) =~= Map::<AssetIdView, u128>::empty());
    }
}

/// What a pool holds of one of its two assets.
pub open spec fn balance_of(pool: PoolState, asset: AssetIdView) -> int {
    if pool.assets.0 == asset {
        pool.balances.0 as int
    } else {
        pool.balances.1 as int
    }
}

/// Whether two different assets are those of a pool.
pub open spec fn trades(pool: PoolState, a: AssetIdView, b: AssetIdView) -> bool {
    a != b && (pool.assets == (a, b) || pool.assets == (b, a))
}

/// Whether each receiver gets its fraction of an amount, rounded down.
pub open spec fn fair_breakdown(fees: FeesView, amount: int, breakdown: Seq<(Seq<char>, u128)>) -> bool {
    &&& breakdown.len() == fees.len()
    &&& forall|i: int|
        #![trigger breakdown[i]]
        0 <= i < fees.len() ==> {
            &&& breakdown[i].0 == fees[i].0
            &&& breakdown[i].1 * 1_000_000 <= amount * fees[i].1 < (breakdown[i].1 + 1) * 1_000_000
        }
}

/// The fees on an amount are each a fraction of it, and together no more than
/// it where the fractions are no more than the whole.
proof fn lemma_fees(fees: FeesView, amount: u128, k: int)
    requires
        0 <= k <= fees.len(),
        whole_fee(fees) <= 1_000_000,
    ensures
        fee_sum(amount as nat, fractions_of(fees), k) * 1_000_000 <= amount * fraction_sum(fractions_of(fees), k),
        fee_sum(amount as nat, fractions_of(fees), k) <= amount,
    decreases k,
{
    lemma_whole_fee(fees, fees.len() as int);
    assert(fees.take(fees.len() as int) =~= fees);
    lemma_fractions_rise(fractions_of(fees), k, fees.len() as int);
    let sum = fee_sum(amount as nat, fractions_of(fees), k);
    let whole = fraction_sum(fractions_of(fees), k);
    if k > 0 {
        lemma_fees(fees, amount, k - 1);
        let f = fees[k - 1].1 as int;
        let before = fraction_sum(fractions_of(fees), k - 1);
        lemma_quotient(amount as int, f, 1_000_000);
        assert(amount * (before + f) == amount * before + amount * f) by (nonlinear_arith);
    } else {
        assert(amount * 0 == 0) by (nonlinear_arith);
    }
    assert(sum <= amount) by (nonlinear_arith)
        requires
            sum * 1_000_000 <= amount * whole,
            whole <= 1_000_000,
            amount >= 0,
    ;
}

proof fn lemma_fractions_rise(fractions: Seq<FeeFraction>, j: int, k: int)
    requires
        0 <= j <= k <= fractions.len(),
    ensures
        fraction_sum(fractions, j) <= fraction_sum(fractions, k),
    decreases k,
{
    if j < k {
        lemma_fractions_rise(fractions, j, k - 1);
    }
}

/// The breakdown of an amount.
proof fn lemma_breakdown(fees: FeesView, amount: u128)
    requires
        whole_fee(fees) <= 1_000_000,
    ensures
        fair_breakdown(fees, amount as int, breakdown_of(fees, amount)),
{
    let breakdown = breakdown_of(fees, amount);
    lemma_whole_fee(fees, fees.len() as int);
    assert(fees.take(fees.len() as int) =~= fees);
    assert forall|i: int| #![trigger breakdown[i]] 0 <= i < fees.len() implies breakdown[i].0 == fees[i].0
        && breakdown[i].1 * 1_000_000 <= amount * fees[i].1 < (breakdown[i].1 + 1) * 1_000_000 by {
        let f = fees[i].1 as int;
        lemma_quotient(amount as int, f, 1_000_000);
        let fee = amount * f / 1_000_000;
        assert(fee <= amount) by (nonlinear_arith)
            requires
                fee * 1_000_000 <= amount * f,
                f <= 1_000_000,
                amount >= 0,
        ;
        assert(fee_on(amount as nat, f as nat) == fee);
    }
}

/// A swap is priced by the product of the balances. A sale gives as much as
/// the product allows: one unit more would lower it. A purchase raises it, and
/// takes the least that a price of one unit over the exact one allows. Each
/// receiver of fees is credited with its fraction of what comes in.
#[verifier::rlimit(50)]
pub proof fn swap_prices_by_the_product(
    state: DexState,
    pool_id: PoolId,
    asset_in: AssetIdView,
    asset_out: AssetIdView,
    amount: SwapRequestAmount,
)
    requires
        valid(state),
    ensures
        dex_swap(state, pool_id, asset_in, asset_out, amount) matches Ok((after, outcome)) ==> {
            let before = state.pools[pool_id as int];
            let pool = after.pools[pool_id as int];
            let x = balance_of(before, asset_in);
            let y = balance_of(before, asset_out);
            let new_x = balance_of(pool, asset_in);
            let new_y = balance_of(pool, asset_out);
            let left = 1_000_000 - whole_fee(before.fees);
            &&& trades(before, asset_in, asset_out)
            &&& x > 0 && y > 0
            &&& fair_breakdown(before.fees, outcome.amount_in as int, outcome.fees_breakdown)
            &&& match amount {
                SwapRequestAmount::ExactIn(given) => {
                    &&& given > 0
                    &&& new_x * new_y >= x * y
                    &&& new_x * (new_y - 1) < x * y
                },
                SwapRequestAmount::ExactOut(wanted) => {
                    &&& 0 < wanted < y
                    &&& new_x * new_y > x * y
                    &&& (outcome.amount_in - 1) * left * (y - wanted) < (x * wanted + (y - wanted)) * 1_000_000
                },
            }
        },
{
    match dex_swap(state, pool_id, asset_in, asset_out, amount) {
        Ok((after, outcome)) => {
            let before = state.pools[pool_id as int];
            assert(pool_valid(before));
            fees_are_below_the_whole(before.fees);
            super::laws::swap_keeps_the_product(state, pool_id, asset_in, asset_out, amount);
            lemma_breakdown(before.fees, outcome.amount_in);
            let x = balance_of(before, asset_in) as nat;
            let y = balance_of(before, asset_out) as nat;
            let fractions = fractions_of(before.fees);
            let first = swap_side(before, asset_in, asset_out)->Ok_0;
            let (taken, kept, out) = swap_amounts(x as u128, y as u128, before.fees, amount)->Ok_0;
            let pool = after.pools[pool_id as int];
            let new_x = balance_of(pool, asset_in);
            let new_y = balance_of(pool, asset_out);
            lemma_output_bound(x, y, kept as nat);
            assert(new_x == x + kept && new_y == y - out);
            assert(pool.balances.0 * pool.balances.1 == pool.balances.1 * pool.balances.0) by (nonlinear_arith);
            assert(before.balances.0 * before.balances.1 == before.balances.1 * before.balances.0)
                by (nonlinear_arith);
            match amount {
                SwapRequestAmount::ExactIn(_) => {
                    let den = (x + kept) as int;
                    lemma_quotient(kept as int, y as int, den);
                    assert(out == kept * y / den);
                    assert(den * (y - out - 1) < x * y) by (nonlinear_arith)
                        requires
                            kept * y < (out + 1) * den,
                            den == x + kept,
                    ;
                },
                SwapRequestAmount::ExactOut(wanted) => {
                    lemma_least_input(x, y, before.fees, wanted as nat);
                    crate::product::purchase_raises_the_product(x, y, fractions, wanted as nat);
                },
            }
        },
        Err(_) => {},
    }
}

/// What a purchase takes, in terms of products.
proof fn lemma_least_input(x: nat, y: nat, fees: FeesView, amount: nat)
    requires
        amount < y,
        whole_fee(fees) < 1_000_000,
    ensures
        ({
            let taken = input_with_fees(input_before_fees(x, y, amount), fractions_of(fees));
            let left = 1_000_000 - whole_fee(fees);
            (taken - 1) * left * (y - amount) < (x * amount + (y - amount)) * 1_000_000
        }),
{
    lemma_whole_fee(fees, fees.len() as int);
    assert(fees.take(fees.len() as int) =~= fees);
    let needed = input_before_fees(x, y, amount);
    let taken = input_with_fees(needed, fractions_of(fees));
    let left = 1_000_000 - whole_fee(fees);
    let num = needed * 1_000_000 + (left - 1);
    vstd::arithmetic::div_mod::lemma_fundamental_div_mod(num, left);
    vstd::arithmetic::div_mod::lemma_mod_bound(num, left);
    assert(taken == num / left);
    assert((taken - 1) * left < needed * 1_000_000) by (nonlinear_arith)
        requires
            left * taken <= num,
            num == needed * 1_000_000 + (left - 1),
    ;
    let den = y - amount;
    lemma_quotient(x as int, amount as int, den);
    let q = (x * amount) as int / den;
    assert(needed == q + 1);
    assert(needed * den <= x * amount + den) by (nonlinear_arith)
        requires
            needed == q + 1,
            q * den <= x * amount,
    ;
    assert((taken - 1) * left * den < (x * amount + den) * 1_000_000) by (nonlinear_arith)
        requires
            (taken - 1) * left < needed * 1_000_000,
            needed * den <= x * amount + den,
            den > 0,
    ;
}

/// Every receiver can be credited where that leaves room for the whole amount.
proof fn lemma_can_be_credited(collected: CollectedView, fees: FeesView, asset: AssetIdView, amount: u128, k: int)
    requires
        0 <= k <= fees.len(),
        whole_fee(fees) <= 1_000_000,
        forall|account: Seq<char>| #[trigger] owed(collected, account, asset) + amount <= u128::MAX,
    ensures
        credited(collected, fees, asset, amount, k) is Some,
        forall|account: Seq<char>| #[trigger]
            owed(credited(collected, fees, asset, amount, k)->0, account, asset) <= owed(collected, account, asset)
                + fee_sum(amount as nat, fractions_of(fees), k),
    decreases k,
{
    if k > 0 {
        lemma_can_be_credited(collected, fees, asset, amount, k - 1);
        lemma_fees(fees, amount, k);
        let before = credited(collected, fees, asset, amount, k - 1)->0;
        assert(owed(before, fees[k - 1].0, asset) <= owed(collected, fees[k - 1].0, asset) + fee_sum(
            amount as nat,
            fractions_of(fees),
            k - 1,
        ));
        let after = credited(collected, fees, asset, amount, k)->0;
        assert forall|account: Seq<char>| #[trigger] owed(after, account, asset) <= owed(collected, account, asset)
            + fee_sum(amount as nat, fractions_of(fees), k) by {
            assert(owed(before, account, asset) <= owed(collected, account, asset) + fee_sum(
                amount as nat,
                fractions_of(fees),
                k - 1,
            ));
        }
    }
}

/// A sale comes about wherever the pool trades the assets and holds both,
/// something is sold, and the numbers are small enough.
pub proof fn assets_can_be_sold(
    state: DexState,
    pool_id: PoolId,
    asset_in: AssetIdView,
    asset_out: AssetIdView,
    amount: u128,
)
    requires
        valid(state),
        pool_id < state.pools.len(),
        trades(state.pools[pool_id as int], asset_in, asset_out),
        balance_of(state.pools[pool_id as int], asset_in) > 0,
        balance_of(state.pools[pool_id as int], asset_out) > 0,
        amount > 0,
        balance_of(state.pools[pool_id as int], asset_in) + amount <= u128::MAX,
        forall|account: Seq<char>| #[trigger] owed(state.collected, account, asset_in) + amount <= u128::MAX,
    ensures
        dex_swap(state, pool_id, asset_in, asset_out, SwapRequestAmount::ExactIn(amount)) is Ok,
{
    let pool = state.pools[pool_id as int];
    assert(pool_valid(pool));
    fees_are_below_the_whole(pool.fees);
    lemma_fees(pool.fees, amount, pool.fees.len() as int);
    lemma_can_be_credited(state.collected, pool.fees, asset_in, amount, pool.fees.len() as int);
}

/// A purchase comes about wherever the pool trades the assets and holds more
/// than is bought, something is bought, and the numbers are small enough.
#[verifier::rlimit(50)]
pub proof fn assets_can_be_bought(
    state: DexState,
    pool_id: PoolId,
    asset_in: AssetIdView,
    asset_out: AssetIdView,
    amount: u128,
)
    requires
        valid(state),
        pool_id < state.pools.len(),
        trades(state.pools[pool_id as int], asset_in, asset_out),
        balance_of(state.pools[pool_id as int], asset_in) > 0,
        0 < amount < balance_of(state.pools[pool_id as int], asset_out),
        balance_of(state.pools[pool_id as int], asset_in) + (balance_of(state.pools[pool_id as int], asset_in)
            * amount + 1) * 1_000_000 <= u128::MAX,
        forall|account: Seq<char>| #[trigger]
            owed(state.collected, account, asset_in) + (balance_of(state.pools[pool_id as int], asset_in) * amount + 1)
                * 1_000_000 <= u128::MAX,
    ensures
        dex_swap(state, pool_id, asset_in, asset_out, SwapRequestAmount::ExactOut(amount)) is Ok,
{
    let pool = state.pools[pool_id as int];
    assert(pool_valid(pool));
    fees_are_below_the_whole(pool.fees);
    let fees = pool.fees;
    let fractions = fractions_of(fees);
    lemma_whole_fee(fees, fees.len() as int);
    assert(fees.take(fees.len() as int) =~= fees);
    let x = balance_of(pool, asset_in) as nat;
    let y = balance_of(pool, asset_out) as nat;
    let den = y - amount;
    lemma_quotient(x as int, amount as int, den);
    let q = x * amount / den;
    assert(q <= x * amount) by (nonlinear_arith)
        requires
            q * den <= x * amount,
            den >= 1,
            q >= 0,
    ;
    let needed = input_before_fees(x, y, amount as nat);
    assert(needed == q + 1);
    let left = 1_000_000 - whole_fee(fees);
    let all = needed * 1_000_000 + (left - 1);
    vstd::arithmetic::div_mod::lemma_fundamental_div_mod(all, left);
    vstd::arithmetic::div_mod::lemma_mod_bound(all, left);
    let taken = input_with_fees(needed, fractions);
    assert(taken == all / left);
    assert(taken <= needed * 1_000_000) by (nonlinear_arith)
        requires
            left * taken <= all,
            all == needed * 1_000_000 + (left - 1),
            left >= 1,
            needed >= 1,
    ;
    assert(taken <= u128::MAX);
    lemma_fees(fees, taken as u128, fees.len() as int);
    assert forall|account: Seq<char>| #[trigger] owed(state.collected, account, asset_in) + taken <= u128::MAX by {}
    lemma_can_be_credited(state.collected, fees, asset_in, taken as u128, fees.len() as int);
}

/// The fees that are pending for an account are listed for those of the assets
/// that it has an entry in, in the order in which they were asked for.
pub proof fn pending_fees_are_those_owed(collected: CollectedView, account: Seq<char>, assets: Seq<AssetIdView>)
    ensures
        pending(collected, account, assets, assets.len() as int) == assets.filter(
            |asset: AssetIdView| collected.contains_key((account, asset)),
        ).map_values(|asset: AssetIdView| (asset, owed(collected, account, asset))),
{
    lemma_pending(collected, account, assets, assets.len() as int);
    assert(assets.take(assets.len() as int) =~= assets);
}

/// The fees that are pending in the first assets.
proof fn lemma_pending(collected: CollectedView, account: Seq<char>, assets: Seq<AssetIdView>, k: int)
    requires
        0 <= k <= assets.len(),
    ensures
        pending(collected, account, assets, k) == assets.take(k).filter(
            |asset: AssetIdView| collected.contains_key((account, asset)),
        ).map_values(|asset: AssetIdView| (asset, owed(collected, account, asset))),
    decreases k,
{
    let has = |asset: AssetIdView| collected.contains_key((account, asset));
    let shown = |asset: AssetIdView| (asset, owed(collected, account, asset));
    reveal(Seq::filter);
    if k > 0 {
        lemma_pending(collected, account, assets, k - 1);
        assert(assets.take(k).drop_last() =~= assets.take(k - 1));
        assert(assets.take(k).last() == assets[k - 1]);
        let before = assets.take(k - 1).filter(has);
        if has(assets[k - 1]) {
            assert(assets.take(k).filter(has) =~= before.push(assets[k - 1]));
            assert(before.push(assets[k - 1]).map_values(shown) =~= before.map_values(shown).push(
                shown(assets[k - 1]),
            ));
        }
    } else {
        assert(assets.take(0).filter(has).map_values(shown) =~= Seq::empty());
    }
}

} // verus!
