//! The best of a list, in order.

use vstd::prelude::*;

use crate::ident::views;

verus! {

/// Where an item with the key belongs in a list ordered from the largest key
/// down: behind every item whose key is not smaller.
pub open spec fn rank_of<T>(ranked: Seq<(T, i128)>, key: i128) -> int
    decreases ranked.len(),
{
    if ranked.len() == 0 || ranked[0].1 < key {
        0
    } else {
        1 + rank_of(ranked.subrange(1, ranked.len() as int), key)
    }
}

/// The list with one more item, at its rank.
pub open spec fn ranked_insert<T>(ranked: Seq<(T, i128)>, item: (T, i128)) -> Seq<(T, i128)> {
    ranked.insert(rank_of(ranked, item.1), item)
}

/// The items with their keys from the largest key down; among equal keys the
/// earlier item comes first.
pub open spec fn ranked<T>(items: Seq<T>, keys: Seq<i128>) -> Seq<(T, i128)>
    decreases items.len(),
{
    if items.len() == 0 {
        Seq::empty()
    } else {
        ranked_insert(ranked(items.drop_last(), keys), (items.last(), keys[items.len() - 1]))
    }
}

/// The items without their keys.
pub open spec fn items_of<T>(pairs: Seq<(T, i128)>) -> Seq<T> {
    Seq::new(pairs.len(), |i: int| pairs[i].0)
}

/// The sequence cut to at most `k` items.
pub open spec fn at_most<T>(s: Seq<T>, k: nat) -> Seq<T> {
    if s.len() <= k {
        s
    } else {
        s.take(k as int)
    }
}

/// The `k` items with the largest keys, from the largest down.
pub open spec fn top_k<T>(items: Seq<T>, keys: Seq<i128>, k: nat) -> Seq<T> {
    items_of(at_most(ranked(items, keys), k))
}

/// The rank is within the list, and separates it by the key.
pub proof fn lemma_rank_of<T>(list: Seq<(T, i128)>, key: i128)
    ensures
        0 <= rank_of(list, key) <= list.len(),
        forall|i: int| 0 <= i < rank_of(list, key) ==> list[i].1 >= key,
        rank_of(list, key) < list.len() ==> list[rank_of(list, key)].1 < key,
    decreases list.len(),
{
    if list.len() > 0 && list[0].1 >= key {
        let rest = list.subrange(1, list.len() as int);
        lemma_rank_of(rest, key);
        assert forall|i: int| 0 <= i < rank_of(list, key) implies list[i].1 >= key by {
            if i > 0 {
                assert(rest[i - 1] == list[i]);
            }
        }
    }
}

/// The rank is the first position whose key is smaller.
proof fn lemma_rank_is<T>(list: Seq<(T, i128)>, key: i128, p: int)
    requires
        0 <= p <= list.len(),
        forall|i: int| 0 <= i < p ==> list[i].1 >= key,
        p < list.len() ==> list[p].1 < key,
    ensures
        rank_of(list, key) == p,
{
    lemma_rank_of(list, key);
    let q = rank_of(list, key);
    if q < p {
        assert(list[q].1 >= key);
    }
}

/// Cutting before an insertion does not change what is left of it.
proof fn lemma_cut_insert<T>(list: Seq<(T, i128)>, item: (T, i128), k: nat)
    ensures
        at_most(ranked_insert(at_most(list, k), item), k) == at_most(ranked_insert(list, item), k),
{
    lemma_rank_of(list, item.1);
    let p = rank_of(list, item.1);
    if list.len() > k {
        let cut = list.take(k as int);
        if p < k {
            lemma_rank_is(cut, item.1, p);
        } else {
            lemma_rank_is(cut, item.1, k as int);
        }
        assert(at_most(ranked_insert(cut, item), k) =~= at_most(ranked_insert(list, item), k));
    }
}

/// The length of the ranked list.
pub proof fn lemma_ranked_len<T>(items: Seq<T>, keys: Seq<i128>)
    ensures
        ranked(items, keys).len() == items.len(),
    decreases items.len(),
{
    if items.len() > 0 {
        lemma_ranked_len(items.drop_last(), keys);
        lemma_rank_of(ranked(items.drop_last(), keys), keys[items.len() - 1]);
    }
}

/// The `k` items with the largest keys, from the largest down; among equal
/// keys the earlier item comes first.
pub fn select_top_k<T>(items: Vec<T>, keys: &Vec<i128>, k: usize) -> (r: Vec<T>)
    requires
        items@.len() == keys@.len(),
        k > 0,
    ensures
        r@ == top_k(items@, keys@, k as nat),
{
    let ghost all = items@;
    let mut rest: Vec<T> = items;
    let mut reversed: Vec<T> = Vec::new();
    while rest.len() > 0
        invariant
            rest@.len() + reversed@.len() == all.len(),
            rest@ == all.take(rest@.len() as int),
            forall|j: int| 0 <= j < reversed@.len() ==> reversed@[j] == all[all.len() - 1 - j],
        decreases rest@.len(),
    {
        match rest.pop() {
            Some(item) => {
                reversed.push(item);
                assert(rest@ =~= all.take(rest@.len() as int));
            },
            None => {},
        }
    }
    let mut best: Vec<(T, i128)> = Vec::new();
    let mut i: usize = 0;
    assert(all.take(0) =~= Seq::<T>::empty());
    while i < keys.len()
        invariant
            k > 0,
            i <= keys@.len(),
            all == items@,
            all.len() == keys@.len(),
            reversed@.len() == all.len() - i,
            forall|j: int| 0 <= j < reversed@.len() ==> reversed@[j] == all[all.len() - 1 - j],
            best@ == at_most(ranked(all.take(i as int), keys@), k as nat),
        decreases keys@.len() - i,
    {
        let key: i128 = keys[i];
        let ghost so_far = all.take(i as int);
        let ghost next = all.take(i + 1);
        match reversed.pop() {
            Some(item) => {
                let ghost list = best@;
                let mut p: usize = 0;
                while p < best.len() && best[p].1 >= key
                    invariant
                        p <= best@.len(),
                        best@ == list,
                        forall|j: int| 0 <= j < p ==> best@[j].1 >= key,
                    decreases best@.len() - p,
                {
                    p = p + 1;
                }
                proof {
                    lemma_rank_is(list, key, p as int);
                    assert(next.drop_last() =~= so_far);
                    assert(next.last() == item);
                    lemma_cut_insert(ranked(so_far, keys@), (item, key), k as nat);
                }
                best.insert(p, (item, key));
                if best.len() > k {
                    best.truncate(k);
                    assert(best@ =~= at_most(ranked_insert(list, (item, key)), k as nat));
                }
            },
            None => {},
        }
        i = i + 1;
    }
    assert(all.take(keys@.len() as int) =~= all);
    let ghost sorted = best@;
    let mut out_reversed: Vec<T> = Vec::new();
    while best.len() > 0
        invariant
            best@.len() + out_reversed@.len() == sorted.len(),
            best@ == sorted.take(best@.len() as int),
            forall|j: int| 0 <= j < out_reversed@.len() ==> out_reversed@[j] == sorted[sorted.len() - 1 - j].0,
        decreases best@.len(),
    {
        match best.pop() {
            Some((item, _)) => {
                out_reversed.push(item);
                assert(best@ =~= sorted.take(best@.len() as int));
            },
            None => {},
        }
    }
    let mut out: Vec<T> = Vec::new();
    while out_reversed.len() > 0
        invariant
            out@.len() + out_reversed@.len() == sorted.len(),
            forall|j: int| 0 <= j < out_reversed@.len() ==> out_reversed@[j] == sorted[sorted.len() - 1 - j].0,
            forall|j: int| 0 <= j < out@.len() ==> out@[j] == sorted[j].0,
        decreases out_reversed@.len(),
    {
        match out_reversed.pop() {
            Some(item) => {
                out.push(item);
            },
            None => {},
        }
    }
    assert(out@ =~= items_of(sorted));
    out
}

/// The views of the best items are the best of the views.
pub proof fn lemma_top_k_views<T: View>(items: Seq<T>, keys: Seq<i128>, k: nat)
    ensures
        views(top_k(items, keys, k)) == top_k(views(items), keys, k),
{
    lemma_ranked_views(items, keys);
    assert(views(top_k(items, keys, k)) =~= top_k(views(items), keys, k));
}

/// Ranking by key does not depend on what the items are.
proof fn lemma_ranked_views<T: View>(items: Seq<T>, keys: Seq<i128>)
    ensures
        ranked(views(items), keys) == Seq::new(
            ranked(items, keys).len(),
            |i: int| (ranked(items, keys)[i].0@, ranked(items, keys)[i].1),
        ),
    decreases items.len(),
{
    let list = ranked(items, keys);
    let viewed = Seq::new(list.len(), |i: int| (list[i].0@, list[i].1));
    if items.len() > 0 {
        let shorter = items.drop_last();
        lemma_ranked_views(shorter, keys);
        assert(views(items).drop_last() =~= views(shorter));
        let before = ranked(shorter, keys);
        let before_viewed = Seq::new(before.len(), |i: int| (before[i].0@, before[i].1));
        let key = keys[items.len() - 1];
        lemma_rank_of(before, key);
        lemma_rank_is(before_viewed, key, rank_of(before, key));
        assert(ranked(views(items), keys) =~= viewed);
    } else {
        assert(ranked(views(items), keys) =~= viewed);
    }
}

/// Whether the keys of the list fall from the front to the back.
pub open spec fn keys_fall<T>(list: Seq<(T, i128)>) -> bool {
    forall|i: int, j: int| 0 <= i <= j < list.len() ==> list[i].1 >= list[j].1
}

/// The ranked list falls from the largest key to the smallest.
pub proof fn ranked_falls<T>(items: Seq<T>, keys: Seq<i128>)
    ensures
        keys_fall(ranked(items, keys)),
    decreases items.len(),
{
    if items.len() > 0 {
        let before = ranked(items.drop_last(), keys);
        let key = keys[items.len() - 1];
        ranked_falls(items.drop_last(), keys);
        lemma_rank_of(before, key);
        let p = rank_of(before, key);
        let after = ranked(items, keys);
        assert forall|i: int, j: int| 0 <= i <= j < after.len() implies after[i].1 >= after[j].1 by {
            if i < p && j > p {
                assert(before[i].1 >= before[j - 1].1);
            } else if i == p && j > p {
                assert(before[p].1 >= before[j - 1].1);
            } else if i > p {
                assert(before[i - 1].1 >= before[j - 1].1);
            }
        }
    }
}

/// The ranked list holds the items with their keys, each as often as it was
/// given, and nothing else.
pub proof fn ranked_keeps_items<T>(items: Seq<T>, keys: Seq<i128>)
    requires
        items.len() <= keys.len(),
    ensures
        ranked(items, keys).to_multiset() =~= Seq::new(
            items.len(),
            |i: int| (items[i], keys[i]),
        ).to_multiset(),
    decreases items.len(),
{
    broadcast use vstd::seq_lib::group_to_multiset_ensures;

    let pairs = Seq::new(items.len(), |i: int| (items[i], keys[i]));
    if items.len() > 0 {
        let shorter = items.drop_last();
        ranked_keeps_items(shorter, keys);
        let before = ranked(shorter, keys);
        let item = (items.last(), keys[items.len() - 1]);
        lemma_rank_of(before, item.1);
        let shorter_pairs = Seq::new(shorter.len(), |i: int| (shorter[i], keys[i]));
        assert(pairs =~= shorter_pairs.push(item));
        vstd::seq_lib::to_multiset_insert(before, rank_of(before, item.1), item);
    } else {
        assert(pairs =~= Seq::<(T, i128)>::empty());
    }
}

} // verus!
