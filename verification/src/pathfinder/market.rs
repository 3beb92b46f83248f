//! Pools as the search sees them.

use std::collections::HashMap;

use vstd::prelude::*;

use crate::ident::{views, Ident};

verus! {

/// The view of the tokens of a kind of pool.
pub type TokenView<P> = <<P as SwapPool>::Token as View>::V;

/// A pool whose swaps can be emulated.
pub trait SwapPool: View + Sized {
    /// What the pool's tokens are told apart by.
    type Token: Ident;

    /// The number of a pool.
    spec fn number(pool: Self::V) -> u64;

    /// The tokens that a pool holds, in its order.
    spec fn tokens_of(pool: Self::V) -> Seq<<Self::Token as View>::V>;

    /// The pool after `amount` of `token_in` was sold for `token_out`, and
    /// how much that gave.
    spec fn sale(
        pool: Self::V,
        token_in: <Self::Token as View>::V,
        token_out: <Self::Token as View>::V,
        amount: u128,
    ) -> Option<(Self::V, u128)>;

    /// What a pool is ranked by for a sale: how much it is said to give for
    /// `amount` of `token_in`.
    spec fn quoted(
        pool: Self::V,
        token_in: <Self::Token as View>::V,
        token_out: <Self::Token as View>::V,
        amount: u128,
    ) -> Option<u128>;

    /// The pool after `amount` of `token_out` was bought with `token_in`, and
    /// how much that took.
    spec fn purchase(
        pool: Self::V,
        token_in: <Self::Token as View>::V,
        token_out: <Self::Token as View>::V,
        amount: u128,
    ) -> Option<(Self::V, u128)>;

    /// The number of the pool.
    fn id(&self) -> (r: u64)
        ensures
            r == Self::number(self@),
    ;

    /// The tokens of the pool.
    fn tokens(&self) -> (r: Vec<Self::Token>)
        ensures
            views(r@) == Self::tokens_of(self@),
    ;

    /// Sells `amount` of `token_in` on a copy of the pool.
    fn sold(&self, token_in: &Self::Token, token_out: &Self::Token, amount: u128) -> (r: Option<(Self, u128)>)
        ensures
            swap_view(r) == Self::sale(self@, token_in@, token_out@, amount),
    ;

    /// How much the pool is said to give for `amount` of `token_in`.
    fn quote(&self, token_in: &Self::Token, token_out: &Self::Token, amount: u128) -> (r: Option<u128>)
        ensures
            r == Self::quoted(self@, token_in@, token_out@, amount),
    ;

    /// Buys `amount` of `token_out` on a copy of the pool.
    fn bought(&self, token_in: &Self::Token, token_out: &Self::Token, amount: u128) -> (r: Option<
        (Self, u128),
    >)
        ensures
            swap_view(r) == Self::purchase(self@, token_in@, token_out@, amount),
    ;
}

/// The view of a longer list ends with the view of the added item.
pub proof fn lemma_views_push<T: View>(items: Seq<T>, item: T)
    ensures
        views(items.push(item)) == views(items).push(item@),
{
    assert(views(items.push(item)) =~= views(items).push(item@));
}

/// The views of two lists, one behind the other.
pub proof fn lemma_views_concat<T: View>(first: Seq<T>, second: Seq<T>)
    ensures
        views(first + second) == views(first) + views(second),
{
    assert(views(first + second) =~= views(first) + views(second));
}

/// The view of the outcome of a swap.
pub open spec fn swap_view<P: View>(r: Option<(P, u128)>) -> Option<(P::V, u128)> {
    match r {
        Some(r) => Some((r.0@, r.1)),
        None => None,
    }
}

/// The pools that swaps have changed so far, by their number.
pub struct PoolsDelta<P: SwapPool> {
    changed_pools: HashMap<u64, P>,
}

impl<P: SwapPool> View for PoolsDelta<P> {
    type V = Map<u64, P::V>;

    closed spec fn view(&self) -> Map<u64, P::V> {
        self.changed_pools@.map_values(|p: P| p@)
    }
}

/// The pool as it is now: as the swaps have left it, or as it was.
pub open spec fn current_pool<P: SwapPool>(delta: Map<u64, P::V>, pool: P::V) -> P::V {
    if delta.contains_key(P::number(pool)) {
        delta[P::number(pool)]
    } else {
        pool
    }
}

impl<P: SwapPool> PoolsDelta<P> {
    /// No pool has changed.
    pub fn new() -> (r: Self)
        ensures
            r@ == Map::<u64, P::V>::empty(),
    {
        let r = PoolsDelta { changed_pools: HashMap::new() };
        assert(r@ =~= Map::<u64, P::V>::empty());
        r
    }

    /// Records a changed pool.
    pub fn insert(&mut self, pool: P)
        ensures
            final(self)@ == old(self)@.insert(P::number(pool@), pool@),
    {
        broadcast use vstd::std_specs::hash::group_hash_axioms;

        let id: u64 = pool.id();
        self.changed_pools.insert(id, pool);
        assert(self@ =~= old(self)@.insert(P::number(pool@), pool@));
    }

    /// The pool as it is now.
    pub fn current<'a>(&'a self, pool: &'a P) -> (r: &'a P)
        ensures
            r@ == current_pool::<P>(self@, pool@),
    {
        broadcast use vstd::std_specs::hash::group_hash_axioms;

        match self.changed_pools.get(&pool.id()) {
            Some(changed) => changed,
            None => pool,
        }
    }
}

} // verus!
