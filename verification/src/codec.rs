//! The file format: one item per line, each line ended by a line feed.

use vstd::prelude::*;
use crate::item::TextItem;
use crate::item;
use crate::laws;
use crate::text;

verus! {

/// The item that one line of a file stands for: none for a blank line, and
/// none for a line whose trimmed text does not decode.
pub open spec fn line_item<T: TextItem>(line: Seq<char>) -> Option<T::V> {
    if text::is_blank(line) {
        None
    } else {
        T::item_of(text::trim(line))
    }
}

/// A line is rejected when it is not blank and does not decode.
pub open spec fn is_rejected<T: TextItem>(line: Seq<char>) -> bool {
    !text::is_blank(line) && T::item_of(text::trim(line)) is None
}

/// The items that the lines stand for, in the order of the lines.
pub open spec fn decode_lines<T: TextItem>(lines: Seq<Seq<char>>) -> Seq<T::V>
    decreases lines.len(),
{
    if lines.len() == 0 {
        Seq::empty()
    } else {
        let before = decode_lines::<T>(lines.drop_last());
        match line_item::<T>(lines.last()) {
            Some(v) => before.push(v),
            None => before,
        }
    }
}

/// The rejected ones among the lines, untrimmed, in the order of the lines.
pub open spec fn rejected_lines<T: TextItem>(lines: Seq<Seq<char>>) -> Seq<Seq<char>>
    decreases lines.len(),
{
    if lines.len() == 0 {
        Seq::empty()
    } else {
        let before = rejected_lines::<T>(lines.drop_last());
        if is_rejected::<T>(lines.last()) {
            before.push(lines.last())
        } else {
            before
        }
    }
}

/// The items that a whole file stands for.
pub open spec fn parse_text<T: TextItem>(content: Seq<char>) -> Seq<T::V> {
    decode_lines::<T>(text::split_lines(content))
}

/// The lines of a whole file that are rejected.
pub open spec fn rejected_text<T: TextItem>(content: Seq<char>) -> Seq<Seq<char>> {
    rejected_lines::<T>(text::split_lines(content))
}

/// The file that stands for the items: the text of each, followed by a line
/// feed.
pub open spec fn render_lines<T: TextItem>(items: Seq<T::V>) -> Seq<char>
    decreases items.len(),
{
    if items.len() == 0 {
        Seq::empty()
    } else {
        render_lines::<T>(items.drop_last()) + T::text_of(items.last()).push('\n')
    }
}

/// Views commute with appending an item.
pub proof fn lemma_views_of_push<T: View>(items: Seq<T>, x: T)
    ensures
        item::views_of(items.push(x)) == item::views_of(items).push(x@),
{
}

/// Handles one line `chars[from..to]`: a decoded item goes to `items`, a
/// rejected line to `rejected`, a blank line nowhere.
fn take_line<T: TextItem>(
    chars: &Vec<char>,
    from: usize,
    to: usize,
    items: &mut Vec<T>,
    rejected: &mut Vec<String>,
)
    requires
        from <= to <= chars.len(),
    ensures
        item::views_of(final(items)@) == (match line_item::<T>(
            chars@.subrange(from as int, to as int),
        ) {
            Some(v) => item::views_of(old(items)@).push(v),
            None => item::views_of(old(items)@),
        }),
        item::views_of(final(rejected)@) == (if is_rejected::<T>(
            chars@.subrange(from as int, to as int),
        ) {
            item::views_of(old(rejected)@).push(chars@.subrange(from as int, to as int))
        } else {
            item::views_of(old(rejected)@)
        }),
{
    let (a, b) = text::trim_bounds(chars, from, to);
    if a < b {
        let trimmed = text::string_of(chars, a, b);
        match T::from_text(trimmed.as_str()) {
            Some(x) => {
                proof {
                    lemma_views_of_push(items@, x);
                }
                items.push(x);
            },
            None => {
                let line = text::string_of(chars, from, to);
                proof {
                    lemma_views_of_push(rejected@, line);
                }
                rejected.push(line);
            },
        }
    }
}

/// Reads a whole file: the items of its lines, and the lines that were
/// rejected.
pub fn decode_text<T: TextItem>(content: &str) -> (parsed: (Vec<T>, Vec<String>))
    ensures
        item::views_of(parsed.0@) == parse_text::<T>(content@),
        item::views_of(parsed.1@) == rejected_text::<T>(content@),
{
    let chars = text::chars_of(content);
    let n = chars.len();
    let mut items: Vec<T> = Vec::new();
    let mut rejected: Vec<String> = Vec::new();
    let mut start: usize = 0;
    let mut i: usize = 0;
    let ghost mut done: Seq<Seq<char>> = Seq::empty();
    proof {
        assert(chars@.take(0) =~= Seq::<char>::empty());
    }
    while i < n
        invariant
            start <= i <= n == chars.len(),
            text::split_lines(chars@.take(i as int)) == done.push(
                chars@.subrange(start as int, i as int),
            ),
            item::views_of(items@) == decode_lines::<T>(done),
            item::views_of(rejected@) == rejected_lines::<T>(done),
        decreases n - i,
    {
        let ghost line = chars@.subrange(start as int, i as int);
        let ghost before = text::split_lines(chars@.take(i as int));
        proof {
            assert(chars@.take(i + 1).drop_last() =~= chars@.take(i as int));
            assert(before.drop_last() =~= done);
        }
        if chars[i] == '\n' {
            take_line::<T>(&chars, start, i, &mut items, &mut rejected);
            proof {
                done = done.push(line);
                assert(chars@.subrange(i + 1, i + 1) =~= Seq::<char>::empty());
            }
            start = i + 1;
        } else {
            proof {
                assert(line.push(chars@[i as int]) =~= chars@.subrange(start as int, i + 1));
            }
        }
        i = i + 1;
    }
    proof {
        assert(chars@.take(n as int) =~= chars@);
    }
    let ghost last = chars@.subrange(start as int, n as int);
    take_line::<T>(&chars, start, n, &mut items, &mut rejected);
    proof {
        let all = done.push(last);
        assert(all.drop_last() =~= done);
    }
    (items, rejected)
}

/// Whether the text of `item` holds no line feed and the line with that
/// text stands for `item` again.
pub fn reads_back_one<T: TextItem>(item: &T) -> (ok: bool)
    ensures
        ok == (laws::is_one_line(T::text_of(item@)) && line_item::<T>(T::text_of(item@)) == Some(
            item@,
        )),
{
    let line = item.to_text();
    let chars = text::chars_of(line.as_str());
    let n = chars.len();
    let mut i: usize = 0;
    while i < n
        invariant
            i <= n == chars.len(),
            chars@ == T::text_of(item@),
            forall|k: int| 0 <= k < i ==> chars@[k] != '\n',
        decreases n - i,
    {
        if chars[i] == '\n' {
            assert(!laws::is_one_line(chars@)) by {
                assert(chars@[i as int] == '\n');
            }
            return false;
        }
        i = i + 1;
    }
    let (a, b) = text::trim_bounds(&chars, 0, n);
    assert(chars@.subrange(0, n as int) =~= chars@);
    if a == b {
        return false;
    }
    let trimmed = text::string_of(&chars, a, b);
    match T::from_text(trimmed.as_str()) {
        Some(x) => x.is_same(item),
        None => false,
    }
}

/// Whether every item can be saved on a line of its own and reads back from
/// it. Where that is so, loading what was saved gives the same items in the
/// same order.
pub fn reads_back_all<T: TextItem>(items: &Vec<T>) -> (ok: bool)
    ensures
        ok == (laws::fits_lines::<T>(item::views_of(items@)) && laws::reads_back::<T>(
            item::views_of(items@),
        )),
        ok ==> parse_text::<T>(render_lines::<T>(item::views_of(items@))) == item::views_of(
            items@,
        ),
{
    let ghost views = item::views_of(items@);
    let mut k: usize = 0;
    while k < items.len()
        invariant
            k <= items.len(),
            views == item::views_of(items@),
            forall|i: int|
                0 <= i < k ==> laws::is_one_line(T::text_of(#[trigger] views[i])) && line_item::<T>(
                    T::text_of(views[i]),
                ) == Some(views[i]),
        decreases items.len() - k,
    {
        assert(views[k as int] == items@[k as int]@);
        if !reads_back_one(&items[k]) {
            return false;
        }
        k = k + 1;
    }
    proof {
        laws::law_round_trip::<T>(views);
    }
    true
}

} // verus!
