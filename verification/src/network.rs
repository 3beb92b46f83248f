//! What is known of the accounts on the chain.

use vstd::prelude::*;

use crate::account::AccountId;
use crate::asset::{AssetId, AssetIdView};
use crate::ident::{Ident, IdentPair};
use crate::keyed::KeyedMap;
use crate::types::{TokenId, TokenIdView};

verus! {

/// The inner balance for storage on Rhea that is enough: more than a
/// hundredth of the native coin.
pub const RHEA_STORAGE: u128 = 10_000_000_000_000_000_000_000;

/// The inner balance for storage on the Intear DEX that is enough: more than
/// a thousandth of the native coin.
pub const INTEAR_STORAGE: u128 = 1_000_000_000_000_000_000_000;

/// What contracts answered about accounts. What was not answered is missing.
pub struct Network {
    /// The whole storage balance, by account and contract.
    pub storage_totals: KeyedMap<IdentPair<AccountId, AccountId>, u128>,
    /// The storage balance on Rhea that is not used yet, by account.
    pub rhea_available: KeyedMap<AccountId, u128>,
    /// Whether a token is registered on Rhea, by account and token.
    pub rhea_registered: KeyedMap<IdentPair<AccountId, AccountId>, bool>,
    /// The storage balance on the Intear DEX that is not used yet, by account.
    pub intear_available: KeyedMap<AccountId, u128>,
    /// Whether an asset is registered on the Intear DEX, by account and asset.
    pub intear_registered: KeyedMap<IdentPair<AccountId, AssetId>, bool>,
    /// The native balance, by account.
    pub native_balances: KeyedMap<AccountId, u128>,
}

/// What contracts answered about accounts.
pub struct NetworkState {
    pub storage_totals: Map<(Seq<char>, Seq<char>), u128>,
    pub rhea_available: Map<Seq<char>, u128>,
    pub rhea_registered: Map<(Seq<char>, Seq<char>), bool>,
    pub intear_available: Map<Seq<char>, u128>,
    pub intear_registered: Map<(Seq<char>, AssetIdView), bool>,
    pub native_balances: Map<Seq<char>, u128>,
}

impl View for Network {
    type V = NetworkState;

    open spec fn view(&self) -> NetworkState {
        NetworkState {
            storage_totals: self.storage_totals@,
            rhea_available: self.rhea_available@,
            rhea_registered: self.rhea_registered@,
            intear_available: self.intear_available@,
            intear_registered: self.intear_registered@,
            native_balances: self.native_balances@,
        }
    }
}

impl NetworkState {
    /// Whether an account has yet to pay for storage on a contract.
    pub open spec fn needs_on_contract(self, account: Seq<char>, contract: Seq<char>) -> bool {
        !self.storage_totals.contains_key((account, contract)) || self.storage_totals[(account, contract)] == 0
    }

    /// Whether a token is registered on Rhea for an account.
    pub open spec fn on_rhea(self, account: Seq<char>, token: Seq<char>) -> bool {
        self.rhea_registered.contains_key((account, token)) && self.rhea_registered[(account, token)]
    }

    /// Whether an asset is registered on the Intear DEX for an account.
    pub open spec fn on_intear(self, account: Seq<char>, asset: AssetIdView) -> bool {
        self.intear_registered.contains_key((account, asset)) && self.intear_registered[(account, asset)]
    }

    /// Whether an account has yet to pay for storage, or to register, before
    /// it can hold a token.
    pub open spec fn needs(self, account: Seq<char>, token: TokenIdView) -> bool {
        match token {
            TokenIdView::Near => false,
            TokenIdView::Nep141(contract) => self.needs_on_contract(account, contract),
            TokenIdView::Nep141OnRhea(contract) => {
                let paid = self.rhea_available.contains_key(account) && self.rhea_available[account] > RHEA_STORAGE;
                !paid || !self.on_rhea(account, contract)
            },
            TokenIdView::TokenOnIntearDex(asset) => {
                let paid = self.intear_available.contains_key(account) && self.intear_available[account]
                    > INTEAR_STORAGE;
                !paid || !self.on_intear(account, asset)
            },
        }
    }
}

impl Network {
    /// A network of which nothing is known.
    pub fn new() -> (r: Network)
        ensures
            r@ == (NetworkState {
                storage_totals: Map::empty(),
                rhea_available: Map::empty(),
                rhea_registered: Map::empty(),
                intear_available: Map::empty(),
                intear_registered: Map::empty(),
                native_balances: Map::empty(),
            }),
    {
        Network {
            storage_totals: KeyedMap::new(),
            rhea_available: KeyedMap::new(),
            rhea_registered: KeyedMap::new(),
            intear_available: KeyedMap::new(),
            intear_registered: KeyedMap::new(),
            native_balances: KeyedMap::new(),
        }
    }

    /// Whether an asset is registered on the Intear DEX for an account.
    pub fn is_intear_asset_registered(&self, account: &AccountId, asset: &AssetId) -> (r: bool)
        ensures
            r == self@.on_intear(account@, asset@),
    {
        let key: IdentPair<AccountId, AssetId> = IdentPair {
            first: account.duplicate(),
            second: asset.duplicate(),
        };
        match self.intear_registered.get(&key) {
            Some(registered) => registered,
            None => false,
        }
    }

    /// Whether a token is registered on Rhea for an account.
    pub fn is_rhea_token_registered(&self, account: &AccountId, token: &AccountId) -> (r: bool)
        ensures
            r == self@.on_rhea(account@, token@),
    {
        let key: IdentPair<AccountId, AccountId> = IdentPair {
            first: account.duplicate(),
            second: token.duplicate(),
        };
        match self.rhea_registered.get(&key) {
            Some(registered) => registered,
            None => false,
        }
    }

    /// The native balance of an account, where it is known.
    pub fn native_balance(&self, account: &AccountId) -> (r: Option<u128>)
        ensures
            r == if self@.native_balances.contains_key(account@) {
                Some(self@.native_balances[account@])
            } else {
                None
            },
    {
        self.native_balances.get(account)
    }
}

/// Whether an account has yet to pay for storage on a contract.
pub fn needs_storage_deposit_for_contract(network: &Network, account_id: &AccountId, contract_id: &AccountId) -> (r: bool)
    ensures
        r == network@.needs_on_contract(account_id@, contract_id@),
{
    let key: IdentPair<AccountId, AccountId> = IdentPair {
        first: account_id.duplicate(),
        second: contract_id.duplicate(),
    };
    match network.storage_totals.get(&key) {
        Some(total) => total == 0,
        None => true,
    }
}

/// Whether an account has yet to pay for storage, or to register, before it
/// can hold a token.
pub fn needs_storage_deposit(network: &Network, account_id: &AccountId, token_id: &TokenId) -> (r: bool)
    ensures
        r == network@.needs(account_id@, token_id@),
{
    match token_id {
        TokenId::Near => false,
        TokenId::Nep141(contract) => needs_storage_deposit_for_contract(network, account_id, contract),
        TokenId::Nep141OnRhea(contract) => {
            let paid: bool = match network.rhea_available.get(account_id) {
                Some(available) => available > RHEA_STORAGE,
                None => false,
            };
            !paid || !network.is_rhea_token_registered(account_id, contract)
        },
        TokenId::TokenOnIntearDex(asset) => {
            let paid: bool = match network.intear_available.get(account_id) {
                Some(available) => available > INTEAR_STORAGE,
                None => false,
            };
            !paid || !network.is_intear_asset_registered(account_id, asset)
        },
    }
}

} // verus!
