//! Laws that relate the operations of a state list to each other.

use vstd::prelude::*;
use crate::codec;
use crate::domain;
use crate::domain::ReverseSegments;
use crate::item::TextItem;
use crate::order;
use crate::order::ItemOrder;
use crate::sequence;
use crate::text;

verus! {

/// The texts of the items, in order.
pub open spec fn texts_of<T: TextItem>(items: Seq<T::V>) -> Seq<Seq<char>> {
    items.map_values(|v: T::V| T::text_of(v))
}

/// The text holds no line feed.
pub open spec fn is_one_line(line: Seq<char>) -> bool {
    forall|k: int| 0 <= k < line.len() ==> line[k] != '\n'
}

/// No text of an item holds a line feed.
pub open spec fn fits_lines<T: TextItem>(items: Seq<T::V>) -> bool {
    forall|i: int| 0 <= i < items.len() ==> is_one_line(T::text_of(#[trigger] items[i]))
}

/// Every item is what the line with its text stands for.
pub open spec fn reads_back<T: TextItem>(items: Seq<T::V>) -> bool {
    forall|i: int|
        0 <= i < items.len() ==> codec::line_item::<T>(T::text_of(#[trigger] items[i])) == Some(
            items[i],
        )
}

/// The lines of a saved file are the texts of the items, followed by one
/// empty piece behind the last line feed.
pub proof fn lemma_split_of_render<T: TextItem>(items: Seq<T::V>)
    requires
        fits_lines::<T>(items),
    ensures
        text::split_lines(codec::render_lines::<T>(items)) == texts_of::<T>(items).push(
            Seq::<char>::empty(),
        ),
    decreases items.len(),
{
    if items.len() > 0 {
        let shorter = items.drop_last();
        let line = T::text_of(items.last());
        let saved = codec::render_lines::<T>(shorter);
        assert forall|i: int| 0 <= i < shorter.len() implies is_one_line(
            T::text_of(#[trigger] shorter[i]),
        ) by {}
        lemma_split_of_render::<T>(shorter);
        text::lemma_split_extend(saved, line, '\n');
        assert(texts_of::<T>(shorter).push(Seq::<char>::empty()).drop_last() =~= texts_of::<T>(
            shorter,
        ));
        assert((saved + line).push('\n').drop_last() =~= saved + line);
    }
}

/// Where every item reads back from its own text, decoding the texts gives
/// the items.
pub proof fn lemma_decode_of_texts<T: TextItem>(items: Seq<T::V>)
    requires
        reads_back::<T>(items),
    ensures
        codec::decode_lines::<T>(texts_of::<T>(items)) == items,
    decreases items.len(),
{
    if items.len() > 0 {
        let shorter = items.drop_last();
        assert forall|i: int| 0 <= i < shorter.len() implies codec::line_item::<T>(
            T::text_of(#[trigger] shorter[i]),
        ) == Some(shorter[i]) by {}
        lemma_decode_of_texts::<T>(shorter);
        assert(texts_of::<T>(items).drop_last() =~= texts_of::<T>(shorter));
    }
}

/// Round trip, in general: loading what was saved gives what the texts of the
/// items decode to, line by line. An item whose text is blank or does not
/// decode is lost; the others come back in their order.
pub proof fn law_load_of_save<T: TextItem>(items: Seq<T::V>)
    requires
        fits_lines::<T>(items),
    ensures
        codec::parse_text::<T>(codec::render_lines::<T>(items)) == codec::decode_lines::<T>(
            texts_of::<T>(items),
        ),
{
    lemma_split_of_render::<T>(items);
    let lines = texts_of::<T>(items).push(Seq::<char>::empty());
    assert(lines.drop_last() =~= texts_of::<T>(items));
}

/// Round trip: where no text of an item holds a line feed and every item
/// reads back from its own text, loading what was saved gives the same items
/// in the same order.
pub proof fn law_round_trip<T: TextItem>(items: Seq<T::V>)
    requires
        fits_lines::<T>(items),
        reads_back::<T>(items),
    ensures
        codec::parse_text::<T>(codec::render_lines::<T>(items)) == items,
{
    law_load_of_save::<T>(items);
    lemma_decode_of_texts::<T>(items);
}

/// Sorting and deduplicating a second time changes nothing.
pub proof fn law_sort_dedup_idempotent<T: View, O: ItemOrder<T>>(ord: O, s: Seq<T>)
    ensures
        sequence::dedup_adjacent(
            order::sort_by(ord, sequence::dedup_adjacent(order::sort_by(ord, s))),
        ) == sequence::dedup_adjacent(order::sort_by(ord, s)),
{
    let sorted = order::sort_by(ord, s);
    let once = sequence::dedup_adjacent(sorted);
    order::lemma_sort_by_sorted(ord, s);
    lemma_dedup_keeps_sorted(ord, sorted);
    order::lemma_sort_by_fixes_sorted(ord, once);
    sequence::lemma_dedup_adjacent(sorted);
    sequence::lemma_dedup_fixes(once);
}

/// Deduplicating a sorted sequence leaves it sorted.
pub proof fn lemma_dedup_keeps_sorted<T: View, O: ItemOrder<T>>(ord: O, s: Seq<T>)
    requires
        order::is_sorted(ord, s),
    ensures
        order::is_sorted(ord, sequence::dedup_adjacent(s)),
    decreases s.len(),
{
    if s.len() > 0 {
        let shorter = s.drop_last();
        let before = sequence::dedup_adjacent(shorter);
        let kept = sequence::dedup_adjacent(s);
        lemma_dedup_keeps_sorted(ord, shorter);
        sequence::lemma_dedup_adjacent(shorter);
        assert forall|i: int, j: int| 0 <= i < j < kept.len() implies ord.precedes(
            #[trigger] kept[i],
            #[trigger] kept[j],
        ) by {
            if j == before.len() {
                assert(shorter.contains(before[i]));
            }
        }
    }
}

/// After an item is appended the list holds it, and is longer by one.
pub proof fn law_add_then_contains<T: View>(s: Seq<T>, x: T)
    ensures
        sequence::holds(s.push(x), x@),
        s.push(x).len() == s.len() + 1,
{
    let views = crate::item::views_of(s.push(x));
    assert(views[s.len() as int] == x@);
}

/// `at` names, for each item of `kept`, a marked place of `s` that holds it,
/// and the places rise.
pub open spec fn is_taken_from<T>(kept: Seq<T>, s: Seq<T>, mask: Seq<bool>, at: Seq<int>) -> bool {
    &&& at.len() == kept.len()
    &&& forall|i: int|
        0 <= i < at.len() ==> 0 <= #[trigger] at[i] < s.len() && mask[at[i]] && s[at[i]] == kept[i]
    &&& forall|i: int, j: int| 0 <= i < j < at.len() ==> #[trigger] at[i] < #[trigger] at[j]
}

/// What a selection keeps are marked items of the sequence, in their order
/// there.
pub proof fn law_select_keeps_order<T>(s: Seq<T>, mask: Seq<bool>)
    requires
        mask.len() == s.len(),
    ensures
        exists|at: Seq<int>| is_taken_from(sequence::select(s, mask), s, mask, at),
    decreases s.len(),
{
    let kept = sequence::select(s, mask);
    if s.len() == 0 {
        assert(is_taken_from(kept, s, mask, Seq::<int>::empty()));
    } else {
        let shorter = s.drop_last();
        law_select_keeps_order(shorter, mask.drop_last());
        let before = choose|at: Seq<int>|
            is_taken_from(sequence::select(shorter, mask.drop_last()), shorter, mask.drop_last(), at);
        let at = if mask.last() {
            before.push(s.len() - 1)
        } else {
            before
        };
        assert(is_taken_from(kept, s, mask, at));
    }
}

/// In a list sorted by reversed segments, a name and the names below it
/// stand together: whatever stands between two names under `parent` is under
/// `parent` too.
pub proof fn law_names_under_one_parent_stand_together(
    s: Seq<String>,
    parent: Seq<char>,
    i: int,
    j: int,
    k: int,
)
    requires
        order::is_sorted(ReverseSegments, s),
        0 <= i <= j <= k < s.len(),
        domain::is_under(s[i]@, parent),
        domain::is_under(s[k]@, parent),
    ensures
        domain::is_under(s[j]@, parent),
{
    if i < j && j < k {
        assert(ReverseSegments.precedes(s[i], s[j]));
        assert(ReverseSegments.precedes(s[j], s[k]));
        domain::lemma_key_of_name_under(s[i]@, parent);
        domain::lemma_key_of_name_under(s[k]@, parent);
        domain::lemma_lex_le_between(
            domain::reversed_key(s[i]@),
            domain::reversed_key(s[j]@),
            domain::reversed_key(s[k]@),
            domain::reversed_key(parent),
        );
        domain::lemma_name_of_key_under(s[j]@, parent);
    }
}

/// The order of dotted names is the order of their segment lists in
/// reverse: the last segments are compared first, a name stands before the
/// names below it, and a segment is compared as a whole.
pub proof fn law_order_is_that_of_reversed_segments(a: String, b: String)
    ensures
        ReverseSegments.precedes(a, b) == domain::segments_le(
            text::split(a@, '.').reverse(),
            text::split(b@, '.').reverse(),
        ),
{
    let p = text::split(a@, '.');
    let q = text::split(b@, '.');
    text::lemma_split_nonempty(a@, '.');
    text::lemma_split_nonempty(b@, '.');
    text::lemma_split_plain(a@, '.');
    text::lemma_split_plain(b@, '.');
    assert forall|i: int| 0 <= i < p.reverse().len() implies text::is_plain(
        #[trigger] p.reverse()[i],
        '.',
    ) by {
        assert(p.reverse()[i] == p[p.len() - 1 - i]);
    }
    assert forall|i: int| 0 <= i < q.reverse().len() implies text::is_plain(
        #[trigger] q.reverse()[i],
        '.',
    ) by {
        assert(q.reverse()[i] == q[q.len() - 1 - i]);
    }
    domain::lemma_lex_le_of_joined(p.reverse(), q.reverse());
}

} // verus!
