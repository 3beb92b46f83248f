//! What the exchange is called with: assets and fees in bytes.

use vstd::prelude::*;

use super::pools::CreatePoolArgs;
use super::state::{FeeConfiguration, FeeReceiver, FeesView};
use crate::account::{valid_account_id, AccountId};
use crate::asset::{AssetId, AssetIdView};
use crate::encoding::{
    borsh_byte, borsh_flag, borsh_number, borsh_text, next_byte, next_flag, next_number, next_text,
};
use crate::ident::views;
use crate::product::FeeFraction;

verus! {

/// An account name at the front, and what is behind it.
pub open spec fn next_account(bytes: Seq<u8>) -> Option<(Seq<char>, Seq<u8>)> {
    match next_text(bytes) {
        Some((name, rest)) => if valid_account_id(name) {
            Some((name, rest))
        } else {
            None
        },
        None => None,
    }
}

/// Takes an account name off the front.
fn take_account(bytes: &[u8]) -> (r: Option<(AccountId, &[u8])>)
    ensures
        match r {
            Some((account, rest)) => next_account(bytes@) == Some((account@, rest@)),
            None => next_account(bytes@) is None,
        },
{
    match borsh_text(bytes) {
        Some((name, rest)) => match AccountId::parse(name.as_str()) {
            Some(account) => Some((account, rest)),
            None => None,
        },
        None => None,
    }
}

/// The account of a contract and a token of it at the front, and what is
/// behind them.
pub open spec fn next_token(bytes: Seq<u8>) -> Option<(Seq<char>, Seq<char>, Seq<u8>)> {
    match next_account(bytes) {
        Some((contract, rest)) => match next_text(rest) {
            Some((token, rest)) => Some((contract, token, rest)),
            None => None,
        },
        None => None,
    }
}

/// Takes the account of a contract and a token of it off the front.
fn take_token(bytes: &[u8]) -> (r: Option<(AccountId, String, &[u8])>)
    ensures
        match r {
            Some((contract, token, rest)) => next_token(bytes@) == Some((contract@, token@, rest@)),
            None => next_token(bytes@) is None,
        },
{
    match take_account(bytes) {
        Some((contract, rest)) => match borsh_text(rest) {
            Some((token, rest)) => Some((contract, token, rest)),
            None => None,
        },
        None => None,
    }
}

/// An asset at the front, the number of its kind before it, and what is behind
/// it.
pub open spec fn next_asset(bytes: Seq<u8>) -> Option<(AssetIdView, Seq<u8>)> {
    match next_byte(bytes) {
        Some((0, rest)) => Some((AssetIdView::Near, rest)),
        Some((1, rest)) => match next_account(rest) {
            Some((contract, rest)) => Some((AssetIdView::Nep141(contract), rest)),
            None => None,
        },
        Some((2, rest)) => match next_token(rest) {
            Some((contract, token, rest)) => Some((AssetIdView::Nep245(contract, token), rest)),
            None => None,
        },
        Some((3, rest)) => match next_token(rest) {
            Some((contract, token, rest)) => Some((AssetIdView::Nep171(contract, token), rest)),
            None => None,
        },
        _ => None,
    }
}

/// Takes an asset off the front.
fn take_asset(bytes: &[u8]) -> (r: Option<(AssetId, &[u8])>)
    ensures
        match r {
            Some((asset, rest)) => next_asset(bytes@) == Some((asset@, rest@)),
            None => next_asset(bytes@) is None,
        },
{
    let (kind, rest): (u8, &[u8]) = match borsh_byte(bytes) {
        Some(taken) => taken,
        None => {
            return None;
        },
    };
    if kind == 0 {
        Some((AssetId::Near, rest))
    } else if kind == 1 {
        match take_account(rest) {
            Some((contract, rest)) => Some((AssetId::Nep141(contract), rest)),
            None => None,
        }
    } else if kind == 2 {
        match take_token(rest) {
            Some((contract, token, rest)) => Some((AssetId::Nep245(contract, token), rest)),
            None => None,
        }
    } else if kind == 3 {
        match take_token(rest) {
            Some((contract, token, rest)) => Some((AssetId::Nep171(contract, token), rest)),
            None => None,
        }
    } else {
        None
    }
}

/// As many assets at the front, one behind the other, and what is behind them.
pub open spec fn assets_in(bytes: Seq<u8>, count: nat) -> Option<(Seq<AssetIdView>, Seq<u8>)>
    decreases count,
{
    if count == 0 {
        Some((Seq::empty(), bytes))
    } else {
        match assets_in(bytes, (count - 1) as nat) {
            Some((assets, rest)) => match next_asset(rest) {
                Some((asset, rest)) => Some((assets.push(asset), rest)),
                None => None,
            },
            None => None,
        }
    }
}

/// Where fewer assets cannot be read, more cannot.
proof fn lemma_no_more_assets(bytes: Seq<u8>, fewer: nat, more: nat)
    requires
        fewer <= more,
        assets_in(bytes, fewer) is None,
    ensures
        assets_in(bytes, more) is None,
    decreases more,
{
    if fewer < more {
        lemma_no_more_assets(bytes, fewer, (more - 1) as nat);
    }
}

/// The assets that the bytes list: their number, and one behind the other.
pub open spec fn read_assets(bytes: Seq<u8>) -> Option<Seq<AssetIdView>> {
    match next_number(bytes) {
        Some((count, rest)) => match assets_in(rest, count as nat) {
            Some((assets, rest)) => if rest.len() == 0 {
                Some(assets)
            } else {
                None
            },
            None => None,
        },
        None => None,
    }
}

/// Reads the assets that the bytes list.
pub(crate) fn list_of_assets(bytes: &Vec<u8>) -> (r: Option<Vec<AssetId>>)
    ensures
        match r {
            Some(assets) => read_assets(bytes@) == Some(views(assets@)),
            None => read_assets(bytes@) is None,
        },
{
    let (count, start): (u32, &[u8]) = match borsh_number(bytes.as_slice()) {
        Some(taken) => taken,
        None => {
            return None;
        },
    };
    let mut assets: Vec<AssetId> = Vec::new();
    let mut rest: &[u8] = start;
    let mut i: u32 = 0;
    assert(views(assets@) =~= Seq::empty());
    while i < count
        invariant
            i <= count,
            next_number(bytes@) == Some((count, start@)),
            assets_in(start@, i as nat) == Some((views(assets@), rest@)),
        decreases count - i,
    {
        let ghost before = assets@;
        match take_asset(rest) {
            Some((asset, left)) => {
                assets.push(asset);
                rest = left;
                assert(views(assets@) =~= views(before).push(asset@));
            },
            None => {
                proof {
                    lemma_no_more_assets(start@, (i + 1) as nat, count as nat);
                }
                return None;
            },
        }
        i = i + 1;
    }
    if rest.len() == 0 {
        Some(assets)
    } else {
        None
    }
}

/// Who receives a fee and which, at the front, and what is behind them. There
/// is one kind of receiver, an account.
pub open spec fn next_fee(bytes: Seq<u8>) -> Option<(Seq<char>, FeeFraction, Seq<u8>)> {
    match next_byte(bytes) {
        Some((0, rest)) => match next_account(rest) {
            Some((account, rest)) => match next_number(rest) {
                Some((fraction, rest)) => Some((account, fraction, rest)),
                None => None,
            },
            None => None,
        },
        _ => None,
    }
}

/// Takes a receiver and its fee off the front.
fn take_fee(bytes: &[u8]) -> (r: Option<(AccountId, FeeFraction, &[u8])>)
    ensures
        match r {
            Some((account, fraction, rest)) => next_fee(bytes@) == Some((account@, fraction, rest@)),
            None => next_fee(bytes@) is None,
        },
{
    let (kind, rest): (u8, &[u8]) = match borsh_byte(bytes) {
        Some(taken) => taken,
        None => {
            return None;
        },
    };
    if kind != 0 {
        return None;
    }
    match take_account(rest) {
        Some((account, rest)) => match borsh_number(rest) {
            Some((fraction, rest)) => Some((account, fraction, rest)),
            None => None,
        },
        None => None,
    }
}

/// As many fees at the front, one behind the other, and what is behind them.
pub open spec fn fees_in(bytes: Seq<u8>, count: nat) -> Option<(FeesView, Seq<u8>)>
    decreases count,
{
    if count == 0 {
        Some((Seq::empty(), bytes))
    } else {
        match fees_in(bytes, (count - 1) as nat) {
            Some((fees, rest)) => match next_fee(rest) {
                Some((account, fraction, rest)) => Some((fees.push((account, fraction)), rest)),
                None => None,
            },
            None => None,
        }
    }
}

/// Where fewer fees cannot be read, more cannot.
proof fn lemma_no_more_fees(bytes: Seq<u8>, fewer: nat, more: nat)
    requires
        fewer <= more,
        fees_in(bytes, fewer) is None,
    ensures
        fees_in(bytes, more) is None,
    decreases more,
{
    if fewer < more {
        lemma_no_more_fees(bytes, fewer, (more - 1) as nat);
    }
}

/// The fees of a pool at the front, their number before them, and what is
/// behind them.
pub open spec fn next_fees(bytes: Seq<u8>) -> Option<(FeesView, Seq<u8>)> {
    match next_number(bytes) {
        Some((count, rest)) => fees_in(rest, count as nat),
        None => None,
    }
}

/// Takes the fees of a pool off the front.
fn take_fees(bytes: &[u8]) -> (r: Option<(FeeConfiguration, &[u8])>)
    ensures
        match r {
            Some((fees, rest)) => next_fees(bytes@) == Some((fees@, rest@)),
            None => next_fees(bytes@) is None,
        },
{
    let (count, start): (u32, &[u8]) = match borsh_number(bytes) {
        Some(taken) => taken,
        None => {
            return None;
        },
    };
    let mut fees: FeeConfiguration = FeeConfiguration { receivers: Vec::new() };
    let mut rest: &[u8] = start;
    let mut i: u32 = 0;
    assert(fees@ =~= Seq::empty());
    while i < count
        invariant
            i <= count,
            next_number(bytes@) == Some((count, start@)),
            fees_in(start@, i as nat) == Some((fees@, rest@)),
        decreases count - i,
    {
        let ghost before = fees@;
        match take_fee(rest) {
            Some((account, fraction, left)) => {
                let ghost name = account@;
                fees.receivers.push((FeeReceiver::Account(account), fraction));
                rest = left;
                assert(fees@ =~= before.push((name, fraction)));
            },
            None => {
                proof {
                    lemma_no_more_fees(start@, (i + 1) as nat, count as nat);
                }
                return None;
            },
        }
        i = i + 1;
    }
    Some((fees, rest))
}

/// The pool that the bytes name, and its new fees.
pub open spec fn read_new_fees(bytes: Seq<u8>) -> Option<(u32, FeesView)> {
    match next_number(bytes) {
        Some((pool_id, rest)) => match next_fees(rest) {
            Some((fees, rest)) => if rest.len() == 0 {
                Some((pool_id, fees))
            } else {
                None
            },
            None => None,
        },
        None => None,
    }
}

/// Reads the pool that the bytes name, and its new fees.
pub(crate) fn new_fees(bytes: &Vec<u8>) -> (r: Option<(u32, FeeConfiguration)>)
    ensures
        match r {
            Some((pool_id, fees)) => read_new_fees(bytes@) == Some((pool_id, fees@)),
            None => read_new_fees(bytes@) is None,
        },
{
    match borsh_number(bytes.as_slice()) {
        Some((pool_id, rest)) => match take_fees(rest) {
            Some((fees, rest)) => {
                if rest.len() == 0 {
                    Some((pool_id, fees))
                } else {
                    None
                }
            },
            None => None,
        },
        None => None,
    }
}

/// The pool that the bytes describe: its assets, its fees and whether it is
/// public.
pub open spec fn read_pool(bytes: Seq<u8>) -> Option<((AssetIdView, AssetIdView), FeesView, bool)> {
    match next_asset(bytes) {
        Some((first, rest)) => match next_asset(rest) {
            Some((second, rest)) => match next_fees(rest) {
                Some((fees, rest)) => match next_flag(rest) {
                    Some((is_public, rest)) => if rest.len() == 0 {
                        Some(((first, second), fees, is_public))
                    } else {
                        None
                    },
                    None => None,
                },
                None => None,
            },
            None => None,
        },
        None => None,
    }
}

/// Reads the pool that the bytes describe.
pub(crate) fn described_pool(bytes: &Vec<u8>) -> (r: Option<CreatePoolArgs>)
    ensures
        match r {
            Some(pool) => read_pool(bytes@) == Some(((pool.first@, pool.second@), pool.fees@, pool.is_public)),
            None => read_pool(bytes@) is None,
        },
{
    let (first, rest): (AssetId, &[u8]) = match take_asset(bytes.as_slice()) {
        Some(taken) => taken,
        None => {
            return None;
        },
    };
    let (second, rest): (AssetId, &[u8]) = match take_asset(rest) {
        Some(taken) => taken,
        None => {
            return None;
        },
    };
    match take_fees(rest) {
        Some((fees, rest)) => match borsh_flag(rest) {
            Some((is_public, rest)) => {
                if rest.len() == 0 {
                    Some(CreatePoolArgs { first, second, fees, is_public })
                } else {
                    None
                }
            },
            None => None,
        },
        None => None,
    }
}

} // verus!
