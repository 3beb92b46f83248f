//! Identifiers that are compared and copied by what they stand for.

use vstd::prelude::*;

verus! {

/// A type whose values are told apart by their view alone.
pub trait Ident: View + Sized {
    /// Whether both stand for the same identifier.
    fn same(&self, other: &Self) -> (r: bool)
        ensures
            r == (self@ == other@),
    ;

    /// Another value for the same identifier.
    fn duplicate(&self) -> (r: Self)
        ensures
            r@ == self@,
    ;
}

/// A pair of identifiers is an identifier.
pub struct IdentPair<A: Ident, B: Ident> {
    pub first: A,
    pub second: B,
}

impl<A: Ident, B: Ident> View for IdentPair<A, B> {
    type V = (A::V, B::V);

    open spec fn view(&self) -> (A::V, B::V) {
        (self.first@, self.second@)
    }
}

impl<A: Ident, B: Ident> Ident for IdentPair<A, B> {
    fn same(&self, other: &Self) -> (r: bool) {
        self.first.same(&other.first) && self.second.same(&other.second)
    }

    fn duplicate(&self) -> (r: Self) {
        IdentPair { first: self.first.duplicate(), second: self.second.duplicate() }
    }
}

/// The views of the items.
pub open spec fn views<T: View>(items: Seq<T>) -> Seq<T::V> {
    Seq::new(items.len(), |i: int| items[i]@)
}

/// Another list of the same items.
pub(crate) fn copy_all<T: Copy>(items: &Vec<T>) -> (r: Vec<T>)
    ensures
        r@ == items@,
{
    let mut out: Vec<T> = Vec::new();
    let mut i: usize = 0;
    while i < items.len()
        invariant
            i <= items@.len(),
            out@ == items@.take(i as int),
        decreases items@.len() - i,
    {
        out.push(items[i]);
        assert(items@.take(i + 1) =~= items@.take(i as int).push(items@[i as int]));
        i = i + 1;
    }
    assert(items@.take(items@.len() as int) =~= items@);
    out
}

/// Where the item first occurs among the first `k`.
pub open spec fn first_position<T>(items: Seq<T>, item: T, k: int) -> Option<int>
    decreases k,
{
    if k <= 0 {
        None
    } else {
        match first_position(items, item, k - 1) {
            Some(i) => Some(i),
            None => if items[k - 1] == item {
                Some(k - 1)
            } else {
                None
            },
        }
    }
}

/// Where the item first occurs.
pub open spec fn position<T>(items: Seq<T>, item: T) -> Option<int> {
    first_position(items, item, items.len() as int)
}

/// A position that was found stays the first.
proof fn lemma_first_position<T>(items: Seq<T>, item: T, i: int, k: int)
    requires
        i <= k,
        first_position(items, item, i) is Some,
    ensures
        first_position(items, item, k) == first_position(items, item, i),
    decreases k,
{
    if i < k {
        lemma_first_position(items, item, i, k - 1);
    }
}

/// A position that is found holds the key, and is the first.
pub(crate) proof fn lemma_found<T>(items: Seq<T>, item: T, k: int)
    requires
        0 <= k <= items.len(),
    ensures
        match first_position(items, item, k) {
            Some(i) => 0 <= i < k && items[i] == item && forall|j: int| 0 <= j < i ==> items[j] != item,
            None => forall|j: int| 0 <= j < k ==> items[j] != item,
        },
    decreases k,
{
    if k > 0 {
        lemma_found(items, item, k - 1);
    }
}

/// Where the item first occurs.
pub fn position_of<T: Ident>(items: &Vec<T>, item: &T) -> (r: Option<usize>)
    ensures
        match r {
            Some(i) => position(views(items@), item@) == Some(i as int) && i < items@.len(),
            None => position(views(items@), item@) is None,
        },
{
    let n: usize = items.len();
    let mut i: usize = 0;
    while i < n
        invariant
            i <= n,
            n == items@.len(),
            first_position(views(items@), item@, i as int) is None,
        decreases n - i,
    {
        assert(views(items@)[i as int] == items@[i as int]@);
        if items[i].same(item) {
            proof {
                lemma_first_position(views(items@), item@, i + 1, n as int);
            }
            return Some(i);
        }
        i = i + 1;
    }
    None
}

/// Other values for the same identifiers.
pub fn duplicate_all<T: Ident>(items: &Vec<T>) -> (r: Vec<T>)
    ensures
        views(r@) == views(items@),
{
    let mut out: Vec<T> = Vec::new();
    let mut i: usize = 0;
    while i < items.len()
        invariant
            i <= items@.len(),
            out@.len() == i,
            forall|j: int| 0 <= j < i ==> views(out@)[j] == #[trigger] views(items@)[j],
        decreases items@.len() - i,
    {
        let ghost before = out@;
        out.push(items[i].duplicate());
        assert forall|j: int| 0 <= j < i + 1 implies views(out@)[j] == #[trigger] views(items@)[j] by {
            if j < i {
                assert(views(before)[j] == views(items@)[j]);
            }
        }
        i = i + 1;
    }
    assert(views(out@) =~= views(items@));
    out
}

} // verus!
