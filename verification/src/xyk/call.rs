//! What a call on the exchange carries, and what it answers.

use vstd::prelude::*;

use super::state::DexError;
use crate::account::AccountId;
use crate::asset::{AssetId, AssetIdView};
use crate::encoding::{borsh_read_u32, read_u32};
use crate::ident::Ident;
use crate::keyed::KeyedMap;

verus! {

/// The assets that a call carries.
pub type AttachedAssets = KeyedMap<AssetId, u128>;

/// The assets that a call carries, and how much of each.
pub type AttachedView = Map<AssetIdView, u128>;

/// Where a withdrawn asset goes.
#[derive(Debug, PartialEq)]
pub enum AssetWithdrawalType {
    ToInternalUserBalance(AccountId),
}

/// An asset that leaves the exchange.
#[derive(Debug, PartialEq)]
pub struct AssetWithdrawRequest {
    pub asset_id: AssetId,
    pub amount: u128,
    pub withdrawal_type: AssetWithdrawalType,
}

/// What leaves the exchange, and to whom.
pub struct WithdrawView {
    pub asset: AssetIdView,
    pub amount: u128,
    pub to: Seq<char>,
}

impl View for AssetWithdrawRequest {
    type V = WithdrawView;

    open spec fn view(&self) -> WithdrawView {
        match self.withdrawal_type {
            AssetWithdrawalType::ToInternalUserBalance(to) => WithdrawView {
                asset: self.asset_id@,
                amount: self.amount,
                to: to@,
            },
        }
    }
}

impl AssetWithdrawRequest {
    /// A request to pay into an account's balance.
    pub fn to_balance(asset_id: &AssetId, amount: u128, to: &AccountId) -> (r: Self)
        ensures
            r@ == (WithdrawView { asset: asset_id@, amount, to: to@ }),
    {
        AssetWithdrawRequest {
            asset_id: asset_id.duplicate(),
            amount,
            withdrawal_type: AssetWithdrawalType::ToInternalUserBalance(to.duplicate()),
        }
    }
}

/// What a call answers.
#[derive(Debug, PartialEq)]
pub struct DexCallResponse {
    pub asset_withdraw_requests: Vec<AssetWithdrawRequest>,
    pub add_storage_deposit: u128,
    pub response: Vec<u8>,
}

/// What the answer of a call says.
pub struct ResponseView {
    pub withdraws: Seq<WithdrawView>,
    pub storage_deposit: u128,
    pub response: Seq<u8>,
}

impl View for DexCallResponse {
    type V = ResponseView;

    open spec fn view(&self) -> ResponseView {
        ResponseView {
            withdraws: withdraw_views(self.asset_withdraw_requests@),
            storage_deposit: self.add_storage_deposit,
            response: self.response@,
        }
    }
}

/// What leaves the exchange.
pub open spec fn withdraw_views(requests: Seq<AssetWithdrawRequest>) -> Seq<WithdrawView> {
    Seq::new(requests.len(), |i: int| requests[i]@)
}

/// The storage that the exchange uses around a call, and what a byte costs.
#[derive(Clone, Copy, Debug, PartialEq, Eq, Structural)]
pub struct StorageUsage {
    pub before: u64,
    pub after: u64,
    pub byte_cost: u128,
}

/// The bytes that a call added.
pub open spec fn bytes_added(storage: StorageUsage) -> nat {
    if storage.after >= storage.before {
        (storage.after - storage.before) as nat
    } else {
        0
    }
}

/// What the bytes that a call added cost; no more than fits.
pub open spec fn storage_cost(storage: StorageUsage) -> u128 {
    let cost = storage.byte_cost * bytes_added(storage);
    if cost > u128::MAX {
        u128::MAX
    } else {
        cost as u128
    }
}

impl StorageUsage {
    /// What the bytes that a call added cost.
    pub fn cost(&self) -> (r: u128)
        ensures
            r == storage_cost(*self),
    {
        let added: u128 = if self.after >= self.before {
            (self.after - self.before) as u128
        } else {
            0
        };
        match self.byte_cost.checked_mul(added) {
            Some(cost) => cost,
            None => u128::MAX,
        }
    }
}

/// What is attached of an asset.
pub open spec fn attached_of(attached: AttachedView, asset: AssetIdView) -> u128 {
    if attached.contains_key(asset) {
        attached[asset]
    } else {
        0
    }
}

/// The answer to a call that pays for storage: what is left of the near goes
/// back to the caller.
pub open spec fn storage_response(near: u128, cost: u128, caller: Seq<char>, response: Seq<u8>) -> ResponseView {
    ResponseView {
        withdraws: seq![
            WithdrawView { asset: AssetIdView::Near, amount: (near - cost) as u128, to: caller },
        ],
        storage_deposit: cost,
        response,
    }
}

/// Answers a call that pays for storage.
pub(crate) fn answer_storage(near: u128, cost: u128, caller: &AccountId, response: Vec<u8>) -> (r: DexCallResponse)
    requires
        cost <= near,
    ensures
        r@ == storage_response(near, cost, caller@, response@),
{
    let request: AssetWithdrawRequest = AssetWithdrawRequest::to_balance(&AssetId::Near, near - cost, caller);
    let mut asset_withdraw_requests: Vec<AssetWithdrawRequest> = Vec::new();
    asset_withdraw_requests.push(request);
    let r = DexCallResponse { asset_withdraw_requests, add_storage_deposit: cost, response };
    assert(r@.withdraws =~= storage_response(near, cost, caller@, response@).withdraws);
    r
}

/// The amounts of two assets where they and no others are attached.
pub open spec fn both_attached(attached: AttachedView, first: AssetIdView, second: AssetIdView) -> Result<
    (u128, u128),
    DexError,
> {
    if !attached.contains_key(first) || !attached.remove(first).contains_key(second) {
        Err(DexError::AssetNotAttached)
    } else if attached.remove(first).remove(second) != Map::<AssetIdView, u128>::empty() {
        Err(DexError::UnexpectedAssets)
    } else {
        Ok((attached[first], attached[second]))
    }
}

/// Takes two assets out of what is attached.
pub(crate) fn take_both(attached: &AttachedAssets, first: &AssetId, second: &AssetId) -> (r: Result<
    (u128, u128),
    DexError,
>)
    ensures
        r == both_attached(attached@, first@, second@),
{
    let mut rest: AttachedAssets = attached.duplicate();
    let amount_0: u128 = match rest.remove(first) {
        Some(amount) => amount,
        None => {
            return Err(DexError::AssetNotAttached);
        },
    };
    let amount_1: u128 = match rest.remove(second) {
        Some(amount) => amount,
        None => {
            return Err(DexError::AssetNotAttached);
        },
    };
    if !rest.is_empty() {
        return Err(DexError::UnexpectedAssets);
    }
    Ok((amount_0, amount_1))
}

/// Whether anything but near is attached.
pub open spec fn only_near(attached: AttachedView) -> bool {
    attached.remove(AssetIdView::Near) == Map::<AssetIdView, u128>::empty()
}

/// Takes the near out of what is attached; the second says whether nothing
/// else was.
pub(crate) fn take_near(attached: &AttachedAssets) -> (r: (Option<u128>, bool))
    ensures
        r.0 == if attached@.contains_key(AssetIdView::Near) {
            Some(attached@[AssetIdView::Near])
        } else {
            None
        },
        r.1 == only_near(attached@),
{
    let mut rest: AttachedAssets = attached.duplicate();
    let near: Option<u128> = rest.remove(&AssetId::Near);
    (near, rest.is_empty())
}

/// The pool that the message of a swap, or the arguments of a call on one pool,
/// start with.
pub fn named_pool(args: &Vec<u8>) -> (r: Option<u32>)
    ensures
        r == if args@.len() < 4 {
            None
        } else {
            read_u32(args@.take(4))
        },
{
    if args.len() < 4 {
        return None;
    }
    let mut start: Vec<u8> = Vec::new();
    let mut i: usize = 0;
    while i < 4
        invariant
            i <= 4,
            args@.len() >= 4,
            start@ == args@.take(i as int),
        decreases 4 - i,
    {
        start.push(args[i]);
        assert(args@.take(i + 1) =~= args@.take(i as int).push(args@[i as int]));
        i = i + 1;
    }
    borsh_read_u32(&start)
}

} // verus!
