//! Orderings of items, and sorting by them.

use vstd::prelude::*;

verus! {

/// A total ordering of items that a list can be sorted by. Items that the
/// ordering does not tell apart keep their relative order.
pub trait ItemOrder<T> {
    /// `a` may stand before `b`.
    spec fn precedes(&self, a: T, b: T) -> bool;

    /// Of two items, one may stand before the other.
    proof fn precedes_total(&self, a: T, b: T)
        ensures
            self.precedes(a, b) || self.precedes(b, a),
    ;

    /// What may stand before an item may stand before all that follow it.
    proof fn precedes_transitive(&self, a: T, b: T, c: T)
        requires
            self.precedes(a, b),
            self.precedes(b, c),
        ensures
            self.precedes(a, c),
    ;

    /// Decides `precedes`.
    fn in_order(&self, a: &T, b: &T) -> (r: bool)
        ensures
            r == self.precedes(*a, *b),
    ;
}

/// Two sorted sequences as one: the items of both, those of `a` before those
/// of `b` wherever the ordering does not tell them apart.
pub open spec fn merge<T, O: ItemOrder<T>>(ord: O, a: Seq<T>, b: Seq<T>) -> Seq<T>
    decreases a.len() + b.len(),
{
    if a.len() == 0 {
        b
    } else if b.len() == 0 {
        a
    } else if ord.precedes(a.last(), b.last()) {
        merge(ord, a, b.drop_last()).push(b.last())
    } else {
        merge(ord, a.drop_last(), b).push(a.last())
    }
}

/// `s` sorted by `ord`, stably: each half sorted, then merged.
pub open spec fn sort_by<T, O: ItemOrder<T>>(ord: O, s: Seq<T>) -> Seq<T>
    decreases s.len(),
{
    if s.len() <= 1 {
        s
    } else {
        let mid = s.len() / 2;
        merge(ord, sort_by(ord, s.take(mid as int)), sort_by(ord, s.skip(mid as int)))
    }
}

/// Every item may stand before every later one.
pub open spec fn is_sorted<T, O: ItemOrder<T>>(ord: O, s: Seq<T>) -> bool {
    forall|i: int, j: int| 0 <= i < j < s.len() ==> ord.precedes(#[trigger] s[i], #[trigger] s[j])
}

/// Merges two vectors from their ends.
fn merge_vec<T, O: ItemOrder<T>>(ord: &O, a: Vec<T>, b: Vec<T>) -> (out: Vec<T>)
    ensures
        out@ == merge(*ord, a@, b@),
{
    let ghost goal = merge(*ord, a@, b@);
    let mut a = a;
    let mut b = b;
    let mut tail: Vec<T> = Vec::new();
    while a.len() > 0 && b.len() > 0
        invariant
            goal == merge(*ord, a@, b@) + tail@.reverse(),
        decreases a.len() + b.len(),
    {
        let ghost tail_before = tail@;
        let x = if ord.in_order(&a[a.len() - 1], &b[b.len() - 1]) {
            b.pop().unwrap()
        } else {
            a.pop().unwrap()
        };
        tail.push(x);
        proof {
            assert(merge(*ord, a@, b@).push(x) + tail_before.reverse() =~= merge(*ord, a@, b@)
                + tail@.reverse());
        }
    }
    let mut out = if a.len() == 0 {
        b
    } else {
        a
    };
    while tail.len() > 0
        invariant
            goal == out@ + tail@.reverse(),
        decreases tail.len(),
    {
        let x = tail.pop().unwrap();
        out.push(x);
    }
    out
}

/// Sorts the items by `ord`, keeping the relative order of items that the
/// ordering does not tell apart.
pub fn sort<T, O: ItemOrder<T>>(ord: &O, items: Vec<T>) -> (sorted: Vec<T>)
    ensures
        sorted@ == sort_by(*ord, items@),
        is_sorted(*ord, sorted@),
        sorted@.to_multiset() == items@.to_multiset(),
    decreases items.len(),
{
    proof {
        lemma_sort_by_sorted(*ord, items@);
        lemma_sort_by_permutes(*ord, items@);
    }
    let n = items.len();
    if n <= 1 {
        return items;
    }
    let mut left = items;
    let right = left.split_off(n / 2);
    let left = sort(ord, left);
    let right = sort(ord, right);
    merge_vec(ord, left, right)
}

/// Every item of a merge comes from one of the two sequences.
pub proof fn lemma_merge_members<T, O: ItemOrder<T>>(ord: O, a: Seq<T>, b: Seq<T>)
    ensures
        merge(ord, a, b).len() == a.len() + b.len(),
        forall|i: int|
            0 <= i < merge(ord, a, b).len() ==> a.contains(#[trigger] merge(ord, a, b)[i])
                || b.contains(merge(ord, a, b)[i]),
    decreases a.len() + b.len(),
{
    if a.len() == 0 || b.len() == 0 {
        // the merge is the other sequence
    } else if ord.precedes(a.last(), b.last()) {
        lemma_merge_members(ord, a, b.drop_last());
    } else {
        lemma_merge_members(ord, a.drop_last(), b);
    }
}

/// In a sorted sequence every item may stand before the last one.
proof fn lemma_sorted_before_last<T, O: ItemOrder<T>>(ord: O, s: Seq<T>, x: T)
    requires
        is_sorted(ord, s),
        s.contains(x),
    ensures
        ord.precedes(x, s.last()),
{
    let j = choose|j: int| 0 <= j < s.len() && s[j] == x;
    if j == s.len() - 1 {
        ord.precedes_total(x, x);
    }
}

/// The merge of two sorted sequences is sorted.
pub proof fn lemma_merge_sorted<T, O: ItemOrder<T>>(ord: O, a: Seq<T>, b: Seq<T>)
    requires
        is_sorted(ord, a),
        is_sorted(ord, b),
    ensures
        is_sorted(ord, merge(ord, a, b)),
    decreases a.len() + b.len(),
{
    let m = merge(ord, a, b);
    if a.len() == 0 || b.len() == 0 {
        // the merge is the other sequence
    } else if ord.precedes(a.last(), b.last()) {
        let shorter = b.drop_last();
        let rest = merge(ord, a, shorter);
        lemma_merge_sorted(ord, a, shorter);
        lemma_merge_members(ord, a, shorter);
        assert forall|i: int, j: int| 0 <= i < j < m.len() implies ord.precedes(
            #[trigger] m[i],
            #[trigger] m[j],
        ) by {
            if j == rest.len() && a.contains(rest[i]) {
                lemma_sorted_before_last(ord, a, rest[i]);
                ord.precedes_transitive(rest[i], a.last(), b.last());
            }
        }
    } else {
        let shorter = a.drop_last();
        let rest = merge(ord, shorter, b);
        lemma_merge_sorted(ord, shorter, b);
        lemma_merge_members(ord, shorter, b);
        ord.precedes_total(a.last(), b.last());
        assert forall|i: int, j: int| 0 <= i < j < m.len() implies ord.precedes(
            #[trigger] m[i],
            #[trigger] m[j],
        ) by {
            if j == rest.len() && b.contains(rest[i]) {
                lemma_sorted_before_last(ord, b, rest[i]);
                ord.precedes_transitive(rest[i], b.last(), a.last());
            }
        }
    }
}

/// What `sort_by` returns is sorted.
pub proof fn lemma_sort_by_sorted<T, O: ItemOrder<T>>(ord: O, s: Seq<T>)
    ensures
        is_sorted(ord, sort_by(ord, s)),
        sort_by(ord, s).len() == s.len(),
    decreases s.len(),
{
    if s.len() > 1 {
        let mid = (s.len() / 2) as int;
        lemma_sort_by_sorted(ord, s.take(mid));
        lemma_sort_by_sorted(ord, s.skip(mid));
        lemma_merge_sorted(ord, sort_by(ord, s.take(mid)), sort_by(ord, s.skip(mid)));
        lemma_merge_members(ord, sort_by(ord, s.take(mid)), sort_by(ord, s.skip(mid)));
    }
}

/// What `sort_by` returns holds the same items as often as `s` does.
pub proof fn lemma_sort_by_permutes<T, O: ItemOrder<T>>(ord: O, s: Seq<T>)
    ensures
        sort_by(ord, s).to_multiset() == s.to_multiset(),
    decreases s.len(),
{
    if s.len() > 1 {
        let mid = (s.len() / 2) as int;
        lemma_sort_by_permutes(ord, s.take(mid));
        lemma_sort_by_permutes(ord, s.skip(mid));
        lemma_merge_permutes(ord, sort_by(ord, s.take(mid)), sort_by(ord, s.skip(mid)));
        vstd::seq_lib::lemma_multiset_commutative(s.take(mid), s.skip(mid));
        assert(s.take(mid) + s.skip(mid) =~= s);
    }
}

/// A merge holds the items of both sequences, each as often as they do.
pub proof fn lemma_merge_permutes<T, O: ItemOrder<T>>(ord: O, a: Seq<T>, b: Seq<T>)
    ensures
        merge(ord, a, b).to_multiset() == a.to_multiset().add(b.to_multiset()),
    decreases a.len() + b.len(),
{
    broadcast use vstd::seq_lib::group_to_multiset_ensures;

    if a.len() == 0 || b.len() == 0 {
        // the merge is the other sequence
    } else if ord.precedes(a.last(), b.last()) {
        lemma_merge_permutes(ord, a, b.drop_last());
        assert(b.drop_last().push(b.last()) =~= b);
    } else {
        lemma_merge_permutes(ord, a.drop_last(), b);
        assert(a.drop_last().push(a.last()) =~= a);
    }
}

/// Where every item of `a` may stand before every item of `b`, merging them
/// puts `b` behind `a`.
pub proof fn lemma_merge_in_order<T, O: ItemOrder<T>>(ord: O, a: Seq<T>, b: Seq<T>)
    requires
        forall|i: int, j: int|
            0 <= i < a.len() && 0 <= j < b.len() ==> ord.precedes(#[trigger] a[i], #[trigger] b[j]),
    ensures
        merge(ord, a, b) == a + b,
    decreases b.len(),
{
    if a.len() > 0 && b.len() > 0 {
        lemma_merge_in_order(ord, a, b.drop_last());
    }
}

/// Sorting leaves a sorted sequence as it is.
pub proof fn lemma_sort_by_fixes_sorted<T, O: ItemOrder<T>>(ord: O, s: Seq<T>)
    requires
        is_sorted(ord, s),
    ensures
        sort_by(ord, s) == s,
    decreases s.len(),
{
    if s.len() > 1 {
        let mid = (s.len() / 2) as int;
        let left = s.take(mid);
        let right = s.skip(mid);
        lemma_sort_by_fixes_sorted(ord, left);
        lemma_sort_by_fixes_sorted(ord, right);
        lemma_merge_in_order(ord, left, right);
    }
}

/// The ordering does not tell `a` and `b` apart.
pub open spec fn ties<T, O: ItemOrder<T>>(ord: O, a: T, b: T) -> bool {
    ord.precedes(a, b) && ord.precedes(b, a)
}

/// The items of `s` that the ordering does not tell apart from `x`, in
/// their order in `s`.
pub open spec fn tied_with<T, O: ItemOrder<T>>(ord: O, s: Seq<T>, x: T) -> Seq<T> {
    s.filter(|y: T| ties(ord, x, y))
}

/// Merging sorted sequences leaves the items tied with `x` in order: those
/// of `a` first, then those of `b`.
pub proof fn lemma_merge_stable<T, O: ItemOrder<T>>(ord: O, a: Seq<T>, b: Seq<T>, x: T)
    requires
        is_sorted(ord, a),
        is_sorted(ord, b),
    ensures
        tied_with(ord, merge(ord, a, b), x) == tied_with(ord, a, x) + tied_with(ord, b, x),
    decreases a.len() + b.len(),
{
    let tied = |y: T| ties(ord, x, y);
    if a.len() == 0 || b.len() == 0 {
        reveal(Seq::filter);
    } else if ord.precedes(a.last(), b.last()) {
        let shorter = b.drop_last();
        let rest = merge(ord, a, shorter);
        lemma_merge_stable(ord, a, shorter, x);
        rest.lemma_filter_push(b.last(), tied);
        shorter.lemma_filter_push(b.last(), tied);
        assert(shorter.push(b.last()) =~= b);
    } else {
        let shorter = a.drop_last();
        let rest = merge(ord, shorter, b);
        lemma_merge_stable(ord, shorter, b, x);
        rest.lemma_filter_push(a.last(), tied);
        shorter.lemma_filter_push(a.last(), tied);
        assert(shorter.push(a.last()) =~= a);
        if tied(a.last()) {
            assert forall|j: int| 0 <= j < b.len() implies !tied(#[trigger] b[j]) by {
                if tied(b[j]) {
                    ord.precedes_transitive(a.last(), x, b[j]);
                    if j < b.len() - 1 {
                        ord.precedes_transitive(a.last(), b[j], b.last());
                    }
                }
            }
            b.lemma_all_neg_filter_empty(tied);
        }
    }
}

/// Sorting is stable: the items that the ordering does not tell apart from
/// `x` stand in the sorted sequence in the order in which they stood before.
pub proof fn law_sort_by_stable<T, O: ItemOrder<T>>(ord: O, s: Seq<T>, x: T)
    ensures
        tied_with(ord, sort_by(ord, s), x) == tied_with(ord, s, x),
    decreases s.len(),
{
    if s.len() > 1 {
        let mid = (s.len() / 2) as int;
        let left = s.take(mid);
        let right = s.skip(mid);
        law_sort_by_stable(ord, left, x);
        law_sort_by_stable(ord, right, x);
        lemma_sort_by_sorted(ord, left);
        lemma_sort_by_sorted(ord, right);
        lemma_merge_stable(ord, sort_by(ord, left), sort_by(ord, right), x);
        Seq::filter_distributes_over_add(left, right, |y: T| ties(ord, x, y));
        assert(left + right =~= s);
    }
}

} // verus!
