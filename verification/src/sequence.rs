//! Operations on sequences of items, and what they compute.

use vstd::prelude::*;
use crate::item::Item;
use crate::item;

verus! {

/// The items of `s` whose mark in `mask` is set, in their order in `s`.
pub open spec fn select<T>(s: Seq<T>, mask: Seq<bool>) -> Seq<T>
    recommends
        mask.len() == s.len(),
    decreases s.len(),
{
    if s.len() == 0 {
        Seq::empty()
    } else {
        let before = select(s.drop_last(), mask.drop_last());
        if mask.last() {
            before.push(s.last())
        } else {
            before
        }
    }
}

/// `mask` holds, for each item of `s`, an answer that `pred` can give for it.
pub open spec fn answers<T, F: Fn(&T) -> bool>(pred: F, s: Seq<T>, mask: Seq<bool>) -> bool {
    &&& mask.len() == s.len()
    &&& forall|i: int| 0 <= i < s.len() ==> call_ensures(pred, (&#[trigger] s[i],), mask[i])
}

/// Keeps the items that `pred` accepts, in order.
pub fn retain<T, F: Fn(&T) -> bool>(items: Vec<T>, pred: F) -> (kept: Vec<T>)
    requires
        forall|i: int| 0 <= i < items.len() ==> call_requires(pred, (&#[trigger] items@[i],)),
    ensures
        exists|mask: Seq<bool>| answers(pred, items@, mask) && kept@ == select(items@, mask),
{
    let mut kept: Vec<T> = Vec::new();
    let ghost mut mask: Seq<bool> = Seq::empty();
    let ghost all = items@;
    for x in it: items
        invariant
            it.seq() == all,
            forall|i: int| 0 <= i < all.len() ==> call_requires(pred, (&#[trigger] all[i],)),
            answers(pred, all.take(it.index()), mask),
            kept@ == select(all.take(it.index()), mask),
    {
        let ghost k = it.index();
        let keep = pred(&x);
        proof {
            assert(all.take(k + 1).drop_last() =~= all.take(k));
            assert(mask.push(keep).drop_last() =~= mask);
            mask = mask.push(keep);
        }
        if keep {
            kept.push(x);
        }
    }
    proof {
        assert(all.take(all.len() as int) =~= all);
    }
    kept
}

/// The index of the first item of `s` whose view is `v`; the length of `s`
/// where there is none.
pub open spec fn position_of<T: View>(s: Seq<T>, v: T::V) -> int
    decreases s.len(),
{
    if s.len() == 0 {
        0
    } else if s.first()@ == v {
        0
    } else {
        1 + position_of(s.drop_first(), v)
    }
}

/// Whether some item of `s` has the view `v`.
pub open spec fn holds<T: View>(s: Seq<T>, v: T::V) -> bool {
    item::views_of(s).contains(v)
}

/// `s` without the first item whose view is `v`; `s` itself where there is
/// none.
pub open spec fn remove_first<T: View>(s: Seq<T>, v: T::V) -> Seq<T> {
    if position_of(s, v) < s.len() {
        s.remove(position_of(s, v))
    } else {
        s
    }
}

/// `s` with each run of neighbours of equal view reduced to its first item.
pub open spec fn dedup_adjacent<T: View>(s: Seq<T>) -> Seq<T>
    decreases s.len(),
{
    if s.len() == 0 {
        Seq::empty()
    } else {
        let before = dedup_adjacent(s.drop_last());
        if before.len() > 0 && before.last()@ == s.last()@ {
            before
        } else {
            before.push(s.last())
        }
    }
}

/// `position_of` is the least index at which the view occurs.
pub proof fn lemma_position_of<T: View>(s: Seq<T>, v: T::V, k: int)
    requires
        0 <= k <= s.len(),
        forall|i: int| 0 <= i < k ==> (#[trigger] s[i])@ != v,
        k < s.len() ==> s[k]@ == v,
    ensures
        position_of(s, v) == k,
    decreases k,
{
    if k > 0 {
        lemma_position_of(s.drop_first(), v, k - 1);
    }
}

/// The index of the first item with the view of `x`, or the length where no
/// item has it.
pub fn find_same<T: Item>(items: &Vec<T>, x: &T) -> (k: usize)
    ensures
        k == position_of(items@, x@),
        k <= items.len(),
        k < items.len() <==> holds(items@, x@),
{
    let mut k: usize = 0;
    while k < items.len()
        invariant
            k <= items.len(),
            forall|i: int| 0 <= i < k ==> (#[trigger] items@[i])@ != x@,
        decreases items.len() - k,
    {
        if items[k].is_same(x) {
            proof {
                lemma_position_of(items@, x@, k as int);
                assert(item::views_of(items@)[k as int] == x@);
            }
            return k;
        }
        k = k + 1;
    }
    proof {
        lemma_position_of(items@, x@, k as int);
    }
    k
}

/// Copies of all items, in order.
pub fn duplicate_all<T: Item>(items: &Vec<T>) -> (copies: Vec<T>)
    ensures
        item::views_of(copies@) == item::views_of(items@),
{
    let mut copies: Vec<T> = Vec::new();
    let mut k: usize = 0;
    while k < items.len()
        invariant
            k <= items.len(),
            copies.len() == k,
            forall|i: int| 0 <= i < k ==> (#[trigger] copies@[i])@ == items@[i]@,
        decreases items.len() - k,
    {
        copies.push(items[k].duplicate());
        k = k + 1;
    }
    copies
}

/// Reduces each run of neighbours of equal view to its first item.
pub fn dedup<T: Item>(items: Vec<T>) -> (kept: Vec<T>)
    ensures
        kept@ == dedup_adjacent(items@),
{
    let mut kept: Vec<T> = Vec::new();
    let ghost all = items@;
    for x in it: items
        invariant
            it.seq() == all,
            kept@ == dedup_adjacent(all.take(it.index())),
    {
        let ghost k = it.index();
        proof {
            assert(all.take(k + 1).drop_last() =~= all.take(k));
        }
        let n = kept.len();
        if n == 0 || !kept[n - 1].is_same(&x) {
            kept.push(x);
        }
    }
    proof {
        assert(all.take(all.len() as int) =~= all);
    }
    kept
}

/// Where every mark is set, everything is selected.
pub proof fn lemma_select_all<T>(s: Seq<T>, mask: Seq<bool>)
    requires
        mask.len() == s.len(),
        forall|i: int| 0 <= i < mask.len() ==> #[trigger] mask[i],
    ensures
        select(s, mask) == s,
    decreases s.len(),
{
    if s.len() > 0 {
        lemma_select_all(s.drop_last(), mask.drop_last());
    }
}

/// No two neighbours have the same view.
pub open spec fn has_no_repeats<T: View>(s: Seq<T>) -> bool {
    forall|i: int| 0 < i < s.len() ==> s[i - 1]@ != (#[trigger] s[i])@
}

/// What `dedup_adjacent` keeps are items of `s`, the last item's view stays
/// the last, and no two neighbours are left with the same view.
pub proof fn lemma_dedup_adjacent<T: View>(s: Seq<T>)
    ensures
        forall|i: int|
            0 <= i < dedup_adjacent(s).len() ==> s.contains(#[trigger] dedup_adjacent(s)[i]),
        s.len() > 0 ==> dedup_adjacent(s).len() > 0 && dedup_adjacent(s).last()@ == s.last()@,
        has_no_repeats(dedup_adjacent(s)),
    decreases s.len(),
{
    if s.len() > 0 {
        let shorter = s.drop_last();
        let before = dedup_adjacent(shorter);
        let kept = dedup_adjacent(s);
        lemma_dedup_adjacent(shorter);
        assert forall|i: int| 0 <= i < kept.len() implies s.contains(#[trigger] kept[i]) by {
            if i < before.len() {
                assert(shorter.contains(before[i]));
            }
        }
    }
}

/// Where no two neighbours have the same view, nothing is dropped.
pub proof fn lemma_dedup_fixes<T: View>(s: Seq<T>)
    requires
        has_no_repeats(s),
    ensures
        dedup_adjacent(s) == s,
    decreases s.len(),
{
    if s.len() > 0 {
        lemma_dedup_fixes(s.drop_last());
    }
}

} // verus!
