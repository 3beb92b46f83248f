//! The pools that a search goes through, and which tokens they connect.

use vstd::prelude::*;

use super::market::{lemma_views_push, SwapPool, TokenView};
use crate::ident::{views, Ident};

verus! {

/// The pools of an exchange, in the order of their numbers.
pub struct Pools<P: SwapPool> {
    pub pools: Vec<P>,
}

impl<P: SwapPool> View for Pools<P> {
    type V = Seq<P::V>;

    open spec fn view(&self) -> Seq<P::V> {
        views(self.pools@)
    }
}

/// Whether the two are `a` and `b`, in either order.
pub open spec fn is_pair<T>(first: T, second: T, a: T, b: T) -> bool {
    (first == a && second == b) || (first == b && second == a)
}

/// How many tokens from position `j` on pair with the one at position `i` as
/// `a` and `b`.
pub open spec fn row_count<T>(tokens: Seq<T>, i: int, j: int, a: T, b: T) -> nat
    decreases tokens.len() - j,
{
    if j >= tokens.len() {
        0
    } else {
        (if is_pair(tokens[i], tokens[j], a, b) {
            1nat
        } else {
            0nat
        }) + row_count(tokens, i, j + 1, a, b)
    }
}

/// How many pairs of the tokens, from position `i` on, are `a` and `b`.
pub open spec fn pair_count<T>(tokens: Seq<T>, i: int, a: T, b: T) -> nat
    decreases tokens.len() - i,
{
    if i >= tokens.len() {
        0
    } else {
        row_count(tokens, i, i + 1, a, b) + pair_count(tokens, i + 1, a, b)
    }
}

/// The same item `n` times.
pub open spec fn repeated<T>(item: T, n: nat) -> Seq<T> {
    Seq::new(n, |i: int| item)
}

/// The pools that swap `a` for `b`, each as often as the pair is among its
/// tokens.
pub open spec fn direct_pools<P: SwapPool>(
    pools: Seq<P::V>,
    a: TokenView<P>,
    b: TokenView<P>,
) -> Seq<P::V>
    decreases pools.len(),
{
    if pools.len() == 0 {
        Seq::empty()
    } else {
        direct_pools::<P>(pools.drop_last(), a, b) + repeated(
            pools.last(),
            pair_count(P::tokens_of(pools.last()), 0, a, b),
        )
    }
}

/// Whether some pool swaps `a` for `b`.
pub open spec fn has_direct_pool<P: SwapPool>(
    pools: Seq<P::V>,
    a: TokenView<P>,
    b: TokenView<P>,
) -> bool {
    direct_pools::<P>(pools, a, b).len() > 0
}

/// The list with a token that it did not hold yet.
pub open spec fn with_token<T>(seen: Seq<T>, token: T) -> Seq<T> {
    if seen.contains(token) {
        seen
    } else {
        seen.push(token)
    }
}

/// The list with those of the first `k` tokens that it did not hold yet.
pub open spec fn with_tokens<T>(seen: Seq<T>, tokens: Seq<T>, k: int) -> Seq<T>
    decreases k,
{
    if k <= 0 {
        seen
    } else {
        with_token(with_tokens(seen, tokens, k - 1), tokens[k - 1])
    }
}

/// How many of the tokens, from position `i` on, are `token`.
pub open spec fn token_count<T>(tokens: Seq<T>, i: int, token: T) -> nat
    decreases tokens.len() - i,
{
    if i >= tokens.len() {
        0
    } else {
        (if tokens[i] == token {
            1nat
        } else {
            0nat
        }) + token_count(tokens, i + 1, token)
    }
}

/// The pools that hold `token`, each as often as the token is among its
/// tokens.
pub open spec fn pools_with_token<P: SwapPool>(pools: Seq<P::V>, token: TokenView<P>) -> Seq<P::V>
    decreases pools.len(),
{
    if pools.len() == 0 {
        Seq::empty()
    } else {
        pools_with_token::<P>(pools.drop_last(), token) + repeated(
            pools.last(),
            token_count(P::tokens_of(pools.last()), 0, token),
        )
    }
}

/// The tokens of the pools, each once, in the order in which they first
/// occur.
pub open spec fn tokens_in<P: SwapPool>(pools: Seq<P::V>) -> Seq<TokenView<P>>
    decreases pools.len(),
{
    if pools.len() == 0 {
        Seq::empty()
    } else {
        let tokens = P::tokens_of(pools.last());
        with_tokens(tokens_in::<P>(pools.drop_last()), tokens, tokens.len() as int)
    }
}

/// The tokens of the pools that hold `token`, each once, in the order in
/// which they first occur.
pub open spec fn neighbours<P: SwapPool>(pools: Seq<P::V>, token: TokenView<P>) -> Seq<TokenView<P>> {
    tokens_in::<P>(pools_with_token::<P>(pools, token))
}

/// Whether the list holds the token.
pub fn contains_token<T: Ident>(list: &Vec<T>, token: &T) -> (r: bool)
    ensures
        r == views(list@).contains(token@),
{
    let mut i: usize = 0;
    while i < list.len()
        invariant
            i <= list@.len(),
            forall|j: int| 0 <= j < i ==> views(list@)[j] != token@,
        decreases list@.len() - i,
    {
        if list[i].same(token) {
            assert(views(list@)[i as int] == token@);
            return true;
        }
        i = i + 1;
    }
    false
}

impl<P: SwapPool> Pools<P> {
    /// The pools that swap `token_a` for `token_b`.
    pub fn direct_pools<'a>(&'a self, token_a: &P::Token, token_b: &P::Token) -> (r: Vec<&'a P>)
        ensures
            views(r@) == direct_pools::<P>(self@, token_a@, token_b@),
    {
        let mut out: Vec<&'a P> = Vec::new();
        let mut k: usize = 0;
        assert(views(out@) =~= direct_pools::<P>(self@.take(0), token_a@, token_b@));
        while k < self.pools.len()
            invariant
                k <= self.pools@.len(),
                views(out@) == direct_pools::<P>(self@.take(k as int), token_a@, token_b@),
            decreases self.pools@.len() - k,
        {
            let pool: &'a P = &self.pools[k];
            let tokens: Vec<P::Token> = pool.tokens();
            let ghost names = P::tokens_of(pool@);
            let ghost before = views(out@);
            let ghost total = pair_count(names, 0, token_a@, token_b@);
            let mut i: usize = 0;
            assert(before + repeated(pool@, 0) =~= before);
            while i < tokens.len()
                invariant
                    i <= tokens@.len(),
                    names == views(tokens@),
                    total >= pair_count(names, i as int, token_a@, token_b@),
                    views(out@) == before + repeated(
                        pool@,
                        (total - pair_count(names, i as int, token_a@, token_b@)) as nat,
                    ),
                decreases tokens@.len() - i,
            {
                let mut j: usize = i + 1;
                let ghost later = pair_count(names, i + 1, token_a@, token_b@);
                while j < tokens.len()
                    invariant
                        i < j <= tokens@.len(),
                        names == views(tokens@),
                        total >= row_count(names, i as int, j as int, token_a@, token_b@) + later,
                        views(out@) == before + repeated(
                            pool@,
                            (total - row_count(names, i as int, j as int, token_a@, token_b@) - later) as nat,
                        ),
                    decreases tokens@.len() - j,
                {
                    let first: &P::Token = &tokens[i];
                    let second: &P::Token = &tokens[j];
                    assert(names[i as int] == first@ && names[j as int] == second@);
                    if (first.same(token_a) && second.same(token_b)) || (first.same(token_b) && second.same(
                        token_a,
                    )) {
                        let ghost held = views(out@);
                        proof {
                            lemma_views_push(out@, pool);
                        }
                        out.push(pool);
                        assert(views(out@) =~= before + repeated(
                            pool@,
                            (total - row_count(names, i as int, j + 1, token_a@, token_b@) - later) as nat,
                        ));
                    }
                    j = j + 1;
                }
                i = i + 1;
            }
            proof {
                let longer = self@.take(k + 1);
                assert(longer.drop_last() =~= self@.take(k as int));
                assert(longer.last() == pool@);
            }
            k = k + 1;
        }
        assert(self@.take(self@.len() as int) =~= self@);
        out
    }

    /// Whether some pool swaps `token_a` for `token_b`.
    pub fn has_direct_pool(&self, token_a: &P::Token, token_b: &P::Token) -> (r: bool)
        ensures
            r == has_direct_pool::<P>(self@, token_a@, token_b@),
    {
        let found: Vec<&P> = self.direct_pools(token_a, token_b);
        assert(views(found@).len() == found@.len());
        found.len() > 0
    }

    /// The pools that hold `token`.
    pub fn pools_with_token<'a>(&'a self, token: &P::Token) -> (r: Vec<&'a P>)
        ensures
            views(r@) == pools_with_token::<P>(self@, token@),
    {
        let mut out: Vec<&'a P> = Vec::new();
        let mut k: usize = 0;
        assert(views(out@) =~= pools_with_token::<P>(self@.take(0), token@));
        while k < self.pools.len()
            invariant
                k <= self.pools@.len(),
                views(out@) == pools_with_token::<P>(self@.take(k as int), token@),
            decreases self.pools@.len() - k,
        {
            let pool: &'a P = &self.pools[k];
            let tokens: Vec<P::Token> = pool.tokens();
            let ghost names = P::tokens_of(pool@);
            let ghost before = views(out@);
            let ghost total = token_count(names, 0, token@);
            let mut i: usize = 0;
            assert(before + repeated(pool@, 0) =~= before);
            while i < tokens.len()
                invariant
                    i <= tokens@.len(),
                    names == views(tokens@),
                    total >= token_count(names, i as int, token@),
                    views(out@) == before + repeated(pool@, (total - token_count(names, i as int, token@)) as nat),
                decreases tokens@.len() - i,
            {
                let held: &P::Token = &tokens[i];
                assert(names[i as int] == held@);
                if held.same(token) {
                    proof {
                        lemma_views_push(out@, pool);
                    }
                    out.push(pool);
                    assert(views(out@) =~= before + repeated(
                        pool@,
                        (total - token_count(names, i + 1, token@)) as nat,
                    ));
                }
                i = i + 1;
            }
            proof {
                let longer = self@.take(k + 1);
                assert(longer.drop_last() =~= self@.take(k as int));
                assert(longer.last() == pool@);
            }
            k = k + 1;
        }
        assert(self@.take(self@.len() as int) =~= self@);
        out
    }

    /// The tokens of the pools that hold `token`.
    pub fn neighbours(&self, token: &P::Token) -> (r: Vec<P::Token>)
        ensures
            views(r@) == neighbours::<P>(self@, token@),
    {
        let found: Vec<&P> = self.pools_with_token(token);
        let ghost all = views(found@);
        let mut seen: Vec<P::Token> = Vec::new();
        let mut k: usize = 0;
        assert(views(seen@) =~= tokens_in::<P>(all.take(0)));
        while k < found.len()
            invariant
                k <= found@.len(),
                all == views(found@),
                views(seen@) == tokens_in::<P>(all.take(k as int)),
            decreases found@.len() - k,
        {
            let pool: &P = found[k];
            let tokens: Vec<P::Token> = pool.tokens();
            let ghost names = P::tokens_of(pool@);
            let ghost before = views(seen@);
            let mut i: usize = 0;
            while i < tokens.len()
                invariant
                    i <= tokens@.len(),
                    names == views(tokens@),
                    views(seen@) == with_tokens(before, names, i as int),
                decreases tokens@.len() - i,
            {
                let t: &P::Token = &tokens[i];
                assert(names[i as int] == t@);
                if !contains_token(&seen, t) {
                    let item: P::Token = t.duplicate();
                    proof {
                        lemma_views_push(seen@, item);
                    }
                    seen.push(item);
                }
                i = i + 1;
            }
            proof {
                let longer = all.take(k + 1);
                assert(longer.drop_last() =~= all.take(k as int));
                assert(longer.last() == pool@);
            }
            k = k + 1;
        }
        assert(all.take(all.len() as int) =~= all);
        seen
    }
}

/// Whether an item occurs from position `i` on.
spec fn occurs<T>(items: Seq<T>, i: int, item: T) -> bool {
    exists|k: int| i <= k < items.len() && #[trigger] items[k] == item
}

/// What occurs from a position on is there or after it.
proof fn lemma_occurs_step<T>(items: Seq<T>, i: int, item: T)
    requires
        0 <= i < items.len(),
    ensures
        occurs(items, i, item) <==> items[i] == item || occurs(items, i + 1, item),
{
    if occurs(items, i, item) && items[i] != item {
        let k = choose|k: int| i <= k < items.len() && #[trigger] items[k] == item;
        assert(i + 1 <= k);
    }
    if occurs(items, i + 1, item) {
        let k = choose|k: int| i + 1 <= k < items.len() && #[trigger] items[k] == item;
        assert(i <= k);
    }
}

/// Among different tokens one is counted once.
proof fn lemma_token_count<T>(tokens: Seq<T>, i: int, token: T)
    requires
        tokens.no_duplicates(),
        0 <= i <= tokens.len(),
    ensures
        token_count(tokens, i, token) == if occurs(tokens, i, token) {
            1nat
        } else {
            0nat
        },
    decreases tokens.len() - i,
{
    if i < tokens.len() {
        lemma_token_count(tokens, i + 1, token);
        lemma_occurs_step(tokens, i, token);
    }
}

/// Among different tokens one pairs with another at most once.
proof fn lemma_row_count<T>(tokens: Seq<T>, i: int, j: int, a: T, b: T)
    requires
        tokens.no_duplicates(),
        0 <= i < j <= tokens.len(),
        a != b,
    ensures
        row_count(tokens, i, j, a, b) == if (tokens[i] == a && occurs(tokens, j, b)) || (tokens[i] == b && occurs(
            tokens,
            j,
            a,
        )) {
            1nat
        } else {
            0nat
        },
    decreases tokens.len() - j,
{
    if j < tokens.len() {
        lemma_row_count(tokens, i, j + 1, a, b);
        lemma_occurs_step(tokens, j, a);
        lemma_occurs_step(tokens, j, b);
    }
}

/// Among different tokens a pair is there at most once.
proof fn lemma_pair_count<T>(tokens: Seq<T>, i: int, a: T, b: T)
    requires
        tokens.no_duplicates(),
        0 <= i <= tokens.len(),
        a != b,
    ensures
        pair_count(tokens, i, a, b) == if occurs(tokens, i, a) && occurs(tokens, i, b) {
            1nat
        } else {
            0nat
        },
    decreases tokens.len() - i,
{
    if i < tokens.len() {
        lemma_row_count(tokens, i, i + 1, a, b);
        lemma_pair_count(tokens, i + 1, a, b);
        lemma_occurs_step(tokens, i, a);
        lemma_occurs_step(tokens, i, b);
    }
}

/// A pair is the same in either order.
proof fn lemma_pair_count_mutual<T>(tokens: Seq<T>, i: int, j: int, a: T, b: T)
    ensures
        row_count(tokens, i, j, a, b) == row_count(tokens, i, j, b, a),
    decreases tokens.len() - j,
{
    if j < tokens.len() {
        lemma_pair_count_mutual(tokens, i, j + 1, a, b);
    }
}

/// Pairs are the same in either order.
proof fn lemma_pairs_mutual<T>(tokens: Seq<T>, i: int, a: T, b: T)
    ensures
        pair_count(tokens, i, a, b) == pair_count(tokens, i, b, a),
    decreases tokens.len() - i,
{
    if i < tokens.len() {
        lemma_pair_count_mutual(tokens, i, i + 1, a, b);
        lemma_pairs_mutual(tokens, i + 1, a, b);
    }
}

/// The pools between two tokens are the same either way.
pub proof fn direct_pools_are_mutual<P: SwapPool>(pools: Seq<P::V>, a: TokenView<P>, b: TokenView<P>)
    ensures
        direct_pools::<P>(pools, a, b) == direct_pools::<P>(pools, b, a),
        has_direct_pool::<P>(pools, a, b) == has_direct_pool::<P>(pools, b, a),
    decreases pools.len(),
{
    if pools.len() > 0 {
        direct_pools_are_mutual::<P>(pools.drop_last(), a, b);
        lemma_pairs_mutual(P::tokens_of(pools.last()), 0, a, b);
    }
}

/// Whether no pool holds a token twice.
pub open spec fn distinct_tokens<P: SwapPool>(pools: Seq<P::V>) -> bool {
    forall|i: int| 0 <= i < pools.len() ==> P::tokens_of(#[trigger] pools[i]).no_duplicates()
}

/// Whether a pool holds both tokens.
pub open spec fn holds_both<P: SwapPool>(a: TokenView<P>, b: TokenView<P>) -> spec_fn(P::V) -> bool {
    |pool: P::V| P::tokens_of(pool).contains(a) && P::tokens_of(pool).contains(b)
}

/// Whether a pool holds the token.
pub open spec fn holds<P: SwapPool>(token: TokenView<P>) -> spec_fn(P::V) -> bool {
    |pool: P::V| P::tokens_of(pool).contains(token)
}

/// An item that occurs is contained.
proof fn lemma_occurs<T>(items: Seq<T>, item: T)
    ensures
        occurs(items, 0, item) == items.contains(item),
{
}

/// The pools between two tokens are exactly those that hold both, each once,
/// in the order of the pools; there is one where some pool holds both.
pub proof fn direct_pools_hold_both<P: SwapPool>(pools: Seq<P::V>, a: TokenView<P>, b: TokenView<P>)
    requires
        distinct_tokens::<P>(pools),
        a != b,
    ensures
        direct_pools::<P>(pools, a, b) == pools.filter(holds_both::<P>(a, b)),
        has_direct_pool::<P>(pools, a, b) <==> exists|i: int|
            0 <= i < pools.len() && holds_both::<P>(a, b)(#[trigger] pools[i]),
    decreases pools.len(),
{
    reveal(Seq::filter);
    if pools.len() > 0 {
        let before = pools.drop_last();
        assert forall|i: int| 0 <= i < before.len() implies P::tokens_of(
            #[trigger] before[i],
        ).no_duplicates() by {
            assert(before[i] == pools[i]);
        }
        direct_pools_hold_both::<P>(before, a, b);
        let tokens = P::tokens_of(pools.last());
        assert(pools.last() == pools[pools.len() - 1]);
        lemma_pair_count(tokens, 0, a, b);
        lemma_occurs(tokens, a);
        lemma_occurs(tokens, b);
        assert(direct_pools::<P>(pools, a, b) =~= pools.filter(holds_both::<P>(a, b)));
        if exists|i: int| 0 <= i < before.len() && holds_both::<P>(a, b)(#[trigger] before[i]) {
            let i = choose|i: int| 0 <= i < before.len() && holds_both::<P>(a, b)(#[trigger] before[i]);
            assert(holds_both::<P>(a, b)(pools[i]));
        }
        if exists|i: int| 0 <= i < pools.len() && holds_both::<P>(a, b)(#[trigger] pools[i]) {
            let i = choose|i: int| 0 <= i < pools.len() && holds_both::<P>(a, b)(#[trigger] pools[i]);
            if i < before.len() {
                assert(holds_both::<P>(a, b)(before[i]));
            }
        }
    } else {
        assert(direct_pools::<P>(pools, a, b) =~= pools.filter(holds_both::<P>(a, b)));
    }
}

/// The pools with a token are exactly those that hold it, each once, in the
/// order of the pools.
pub proof fn pools_with_token_hold_it<P: SwapPool>(pools: Seq<P::V>, token: TokenView<P>)
    requires
        distinct_tokens::<P>(pools),
    ensures
        pools_with_token::<P>(pools, token) == pools.filter(holds::<P>(token)),
    decreases pools.len(),
{
    reveal(Seq::filter);
    if pools.len() > 0 {
        let before = pools.drop_last();
        assert forall|i: int| 0 <= i < before.len() implies P::tokens_of(
            #[trigger] before[i],
        ).no_duplicates() by {
            assert(before[i] == pools[i]);
        }
        pools_with_token_hold_it::<P>(before, token);
        let tokens = P::tokens_of(pools.last());
        assert(pools.last() == pools[pools.len() - 1]);
        lemma_token_count(tokens, 0, token);
        lemma_occurs(tokens, token);
    }
    assert(pools_with_token::<P>(pools, token) =~= pools.filter(holds::<P>(token)));
}

/// Whether the numbers of the pools rise.
pub open spec fn rising<P: SwapPool>(pools: Seq<P::V>) -> bool {
    forall|i: int, j: int| 0 <= i < j < pools.len() ==> P::number(#[trigger] pools[i]) < P::number(#[trigger] pools[j])
}

/// Picking pools keeps their numbers rising.
pub proof fn picked_pools_rise<P: SwapPool>(pools: Seq<P::V>, wanted: spec_fn(P::V) -> bool)
    requires
        rising::<P>(pools),
    ensures
        rising::<P>(pools.filter(wanted)),
    decreases pools.len(),
{
    reveal(Seq::filter);
    if pools.len() > 0 {
        let before = pools.drop_last();
        assert forall|i: int, j: int| 0 <= i < j < before.len() implies P::number(#[trigger] before[i]) < P::number(
            #[trigger] before[j],
        ) by {
            assert(before[i] == pools[i] && before[j] == pools[j]);
        }
        picked_pools_rise::<P>(before, wanted);
        let picked = before.filter(wanted);
        if wanted(pools.last()) {
            assert forall|i: int, j: int|
                0 <= i < j < picked.push(pools.last()).len() implies P::number(
                #[trigger] picked.push(pools.last())[i],
            ) < P::number(#[trigger] picked.push(pools.last())[j]) by {
                if j == picked.len() {
                    before.lemma_filter_contains_rev(wanted, picked[i]);
                    let k = choose|k: int| 0 <= k < before.len() && before[k] == picked[i];
                    assert(before[k] == pools[k]);
                    assert(pools[pools.len() - 1] == pools.last());
                }
            }
        }
    }
}

/// A token is counted where it occurs.
proof fn lemma_counted<T>(tokens: Seq<T>, i: int, token: T)
    requires
        0 <= i <= tokens.len(),
    ensures
        token_count(tokens, i, token) > 0 <==> occurs(tokens, i, token),
    decreases tokens.len() - i,
{
    if i < tokens.len() {
        lemma_counted(tokens, i + 1, token);
        lemma_occurs_step(tokens, i, token);
    }
}

/// A token is paired with those that occur behind it.
proof fn lemma_row_counted<T>(tokens: Seq<T>, i: int, j: int, a: T, b: T)
    requires
        0 <= i < j <= tokens.len(),
    ensures
        row_count(tokens, i, j, a, b) > 0 <==> (tokens[i] == a && occurs(tokens, j, b)) || (tokens[i] == b && occurs(
            tokens,
            j,
            a,
        )),
    decreases tokens.len() - j,
{
    if j < tokens.len() {
        lemma_row_counted(tokens, i, j + 1, a, b);
        lemma_occurs_step(tokens, j, a);
        lemma_occurs_step(tokens, j, b);
    }
}

/// Two different tokens are paired where both occur.
proof fn lemma_pair_counted<T>(tokens: Seq<T>, i: int, a: T, b: T)
    requires
        0 <= i <= tokens.len(),
        a != b,
    ensures
        pair_count(tokens, i, a, b) > 0 <==> occurs(tokens, i, a) && occurs(tokens, i, b),
    decreases tokens.len() - i,
{
    if i < tokens.len() {
        lemma_row_counted(tokens, i, i + 1, a, b);
        lemma_pair_counted(tokens, i + 1, a, b);
        lemma_occurs_step(tokens, i, a);
        lemma_occurs_step(tokens, i, b);
    }
}

/// A list that an item is added to some times holds it where that is at all.
proof fn lemma_repeated<T>(items: Seq<T>, item: T, n: nat, other: T)
    ensures
        (items + repeated(item, n)).contains(other) <==> items.contains(other) || (n > 0 && other == item),
{
    let all = items + repeated(item, n);
    if items.contains(other) {
        let i = choose|i: int| 0 <= i < items.len() && items[i] == other;
        assert(all[i] == other);
    }
    if n > 0 && other == item {
        assert(all[items.len() as int] == other);
    }
    if all.contains(other) {
        let i = choose|i: int| 0 <= i < all.len() && all[i] == other;
        if i < items.len() {
            assert(items[i] == other);
        }
    }
}

/// The pools between two different tokens are those that hold both.
pub proof fn direct_pools_are_those_with_both<P: SwapPool>(
    pools: Seq<P::V>,
    a: TokenView<P>,
    b: TokenView<P>,
    pool: P::V,
)
    requires
        a != b,
    ensures
        direct_pools::<P>(pools, a, b).contains(pool) <==> pools.contains(pool) && P::tokens_of(pool).contains(a)
            && P::tokens_of(pool).contains(b),
    decreases pools.len(),
{
    if pools.len() > 0 {
        let before = pools.drop_last();
        let last = pools.last();
        direct_pools_are_those_with_both::<P>(before, a, b, pool);
        lemma_pair_counted(P::tokens_of(last), 0, a, b);
        lemma_repeated(
            direct_pools::<P>(before, a, b),
            last,
            pair_count(P::tokens_of(last), 0, a, b),
            pool,
        );
        assert(pools =~= before + repeated(last, 1));
        lemma_repeated(before, last, 1, pool);
        lemma_occurs(P::tokens_of(last), a);
        lemma_occurs(P::tokens_of(last), b);
    }
}

/// The pools with a token are those that hold it.
proof fn lemma_pools_with_token<P: SwapPool>(pools: Seq<P::V>, token: TokenView<P>, pool: P::V)
    ensures
        pools_with_token::<P>(pools, token).contains(pool) <==> pools.contains(pool) && P::tokens_of(pool).contains(
            token,
        ),
    decreases pools.len(),
{
    if pools.len() > 0 {
        let before = pools.drop_last();
        let last = pools.last();
        lemma_pools_with_token::<P>(before, token, pool);
        lemma_counted(P::tokens_of(last), 0, token);
        lemma_repeated(
            pools_with_token::<P>(before, token),
            last,
            token_count(P::tokens_of(last), 0, token),
            pool,
        );
        assert(pools =~= before + repeated(last, 1));
        lemma_repeated(before, last, 1, pool);
        lemma_occurs(P::tokens_of(last), token);
    }
}

/// A list with tokens that it did not hold yet holds what it held, and them.
proof fn lemma_with_tokens<T>(seen: Seq<T>, tokens: Seq<T>, k: int, token: T)
    requires
        0 <= k <= tokens.len(),
    ensures
        with_tokens(seen, tokens, k).contains(token) <==> seen.contains(token) || exists|i: int|
            0 <= i < k && #[trigger] tokens[i] == token,
    decreases k,
{
    if k > 0 {
        lemma_with_tokens(seen, tokens, k - 1, token);
        let before = with_tokens(seen, tokens, k - 1);
        let next = tokens[k - 1];
        if !before.contains(next) {
            let after = before.push(next);
            assert(after[before.len() as int] == next);
            if before.contains(token) {
                let i = choose|i: int| 0 <= i < before.len() && before[i] == token;
                assert(after[i] == token);
            }
            if after.contains(token) && !before.contains(token) {
                let i = choose|i: int| 0 <= i < after.len() && after[i] == token;
                if i < before.len() {
                    assert(before[i] == token);
                }
            }
        }
    }
}

/// The tokens of pools are those that one of them holds.
proof fn lemma_tokens_in<P: SwapPool>(pools: Seq<P::V>, token: TokenView<P>)
    ensures
        tokens_in::<P>(pools).contains(token) <==> exists|i: int|
            0 <= i < pools.len() && P::tokens_of(#[trigger] pools[i]).contains(token),
    decreases pools.len(),
{
    if pools.len() > 0 {
        let before = pools.drop_last();
        let tokens = P::tokens_of(pools.last());
        lemma_tokens_in::<P>(before, token);
        lemma_with_tokens(tokens_in::<P>(before), tokens, tokens.len() as int, token);
        if tokens_in::<P>(before).contains(token) {
            let i = choose|i: int| 0 <= i < before.len() && P::tokens_of(#[trigger] before[i]).contains(token);
            assert(P::tokens_of(pools[i]).contains(token));
        }
        if tokens.contains(token) {
            assert(P::tokens_of(pools[pools.len() - 1]).contains(token));
            let i = choose|i: int| 0 <= i < tokens.len() && tokens[i] == token;
            assert(tokens[i] == token);
        }
        if exists|i: int| 0 <= i < pools.len() && P::tokens_of(#[trigger] pools[i]).contains(token) {
            let i = choose|i: int| 0 <= i < pools.len() && P::tokens_of(#[trigger] pools[i]).contains(token);
            if i < before.len() {
                assert(P::tokens_of(before[i]).contains(token));
            }
        }
    }
}

/// The tokens around a token are those that a pool holds together with it.
pub proof fn neighbours_share_a_pool<P: SwapPool>(pools: Seq<P::V>, token: TokenView<P>, other: TokenView<P>)
    ensures
        neighbours::<P>(pools, token).contains(other) <==> exists|i: int|
            0 <= i < pools.len() && P::tokens_of(#[trigger] pools[i]).contains(token) && P::tokens_of(
                pools[i],
            ).contains(other),
{
    let with = pools_with_token::<P>(pools, token);
    lemma_tokens_in::<P>(with, other);
    if neighbours::<P>(pools, token).contains(other) {
        let k = choose|k: int| 0 <= k < with.len() && P::tokens_of(#[trigger] with[k]).contains(other);
        lemma_pools_with_token::<P>(pools, token, with[k]);
        assert(with.contains(with[k]));
        let i = choose|i: int| 0 <= i < pools.len() && pools[i] == with[k];
        assert(P::tokens_of(pools[i]).contains(token));
    }
    if exists|i: int|
        0 <= i < pools.len() && P::tokens_of(#[trigger] pools[i]).contains(token) && P::tokens_of(
            pools[i],
        ).contains(other) {
        let i = choose|i: int|
            0 <= i < pools.len() && P::tokens_of(#[trigger] pools[i]).contains(token) && P::tokens_of(
                pools[i],
            ).contains(other);
        lemma_pools_with_token::<P>(pools, token, pools[i]);
        assert(pools.contains(pools[i]));
        let k = choose|k: int| 0 <= k < with.len() && with[k] == pools[i];
        assert(P::tokens_of(with[k]).contains(other));
    }
}

} // verus!
