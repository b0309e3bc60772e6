//! Lines of text: splitting at line feeds and trimming white space.

use vstd::prelude::*;

verus! {

/// Whether `c` counts as white space when a line is trimmed: the 25
/// characters that Unicode gives the property White_Space.
pub open spec fn is_white_space(c: char) -> bool {
    let u = c as u32;
    u == 0x20 || (0x09 <= u && u <= 0x0d) || u == 0x85 || u == 0xa0 || u == 0x1680 || (0x2000 <= u
        && u <= 0x200a) || u == 0x2028 || u == 0x2029 || u == 0x202f || u == 0x205f || u == 0x3000
}

/// Decides `is_white_space`.
pub fn char_is_white_space(c: char) -> (b: bool)
    ensures
        b == is_white_space(c),
{
    let u = c as u32;
    u == 0x20 || (0x09 <= u && u <= 0x0d) || u == 0x85 || u == 0xa0 || u == 0x1680 || (0x2000 <= u
        && u <= 0x200a) || u == 0x2028 || u == 0x2029 || u == 0x202f || u == 0x205f || u == 0x3000
}

/// Calls `String::push`. Trusted: the character is appended at the end and
/// nothing else changes.
#[verifier::external_body]
fn string_push(s: &mut String, c: char)
    ensures
        final(s)@ == old(s)@.push(c),
{
    s.push(c)
}

/// The pieces of `text` between the occurrences of `sep`, in order. A text
/// without `sep` is one piece; a `sep` at the very end is followed by an
/// empty piece.
pub open spec fn split(text: Seq<char>, sep: char) -> Seq<Seq<char>>
    decreases text.len(),
{
    if text.len() == 0 {
        seq![Seq::<char>::empty()]
    } else {
        let before = split(text.drop_last(), sep);
        if text.last() == sep {
            before.push(Seq::<char>::empty())
        } else {
            before.drop_last().push(before.last().push(text.last()))
        }
    }
}

/// The pieces of `text` between its line feeds.
pub open spec fn split_lines(text: Seq<char>) -> Seq<Seq<char>> {
    split(text, '\n')
}

/// The pieces put together again, with `sep` between neighbours.
pub open spec fn join(pieces: Seq<Seq<char>>, sep: char) -> Seq<char>
    decreases pieces.len(),
{
    if pieces.len() == 0 {
        Seq::empty()
    } else if pieces.len() == 1 {
        pieces[0]
    } else {
        pieces[0].push(sep) + join(pieces.drop_first(), sep)
    }
}

/// `s` without the white space at its start.
pub open spec fn trim_start(s: Seq<char>) -> Seq<char>
    decreases s.len(),
{
    if s.len() > 0 && is_white_space(s.first()) {
        trim_start(s.drop_first())
    } else {
        s
    }
}

/// `s` without the white space at its end.
pub open spec fn trim_end(s: Seq<char>) -> Seq<char>
    decreases s.len(),
{
    if s.len() > 0 && is_white_space(s.last()) {
        trim_end(s.drop_last())
    } else {
        s
    }
}

/// `s` without the white space at either end.
pub open spec fn trim(s: Seq<char>) -> Seq<char> {
    trim_end(trim_start(s))
}

/// A line is blank when nothing is left of it after trimming.
pub open spec fn is_blank(line: Seq<char>) -> bool {
    trim(line).len() == 0
}

/// Splitting always yields at least one piece.
pub proof fn lemma_split_nonempty(text: Seq<char>, sep: char)
    ensures
        split(text, sep).len() >= 1,
    decreases text.len(),
{
    if text.len() > 0 {
        lemma_split_nonempty(text.drop_last(), sep);
    }
}

/// Text without `sep`, appended to `a`, extends the last piece of `a`.
pub proof fn lemma_split_extend(a: Seq<char>, b: Seq<char>, sep: char)
    requires
        forall|i: int| 0 <= i < b.len() ==> b[i] != sep,
    ensures
        split(a + b, sep) == split(a, sep).drop_last().push(split(a, sep).last() + b),
    decreases b.len(),
{
    lemma_split_nonempty(a, sep);
    if b.len() > 0 {
        let shorter = b.drop_last();
        let last = split(a, sep).last();
        lemma_split_extend(a, shorter, sep);
        assert((a + b).drop_last() =~= a + shorter);
        assert((last + shorter).push(b.last()) =~= last + b);
    }
}

/// A `sep` and then text without `sep`, appended to `a`, add one piece.
pub proof fn lemma_split_piece(a: Seq<char>, b: Seq<char>, sep: char)
    requires
        forall|i: int| 0 <= i < b.len() ==> b[i] != sep,
    ensures
        split(a.push(sep) + b, sep) == split(a, sep).push(b),
{
    let head = a.push(sep);
    assert(head.drop_last() =~= a);
    lemma_split_extend(head, b, sep);
}

/// The text holds no `sep`.
pub open spec fn is_plain(piece: Seq<char>, sep: char) -> bool {
    forall|k: int| 0 <= k < piece.len() ==> piece[k] != sep
}

/// No piece holds `sep`.
pub open spec fn all_plain(pieces: Seq<Seq<char>>, sep: char) -> bool {
    forall|i: int| 0 <= i < pieces.len() ==> is_plain(#[trigger] pieces[i], sep)
}

/// The pieces of a text hold no `sep`.
pub proof fn lemma_split_plain(text: Seq<char>, sep: char)
    ensures
        all_plain(split(text, sep), sep),
    decreases text.len(),
{
    if text.len() > 0 {
        lemma_split_plain(text.drop_last(), sep);
        lemma_split_nonempty(text.drop_last(), sep);
    }
}

/// Joining two lists of pieces as one puts a `sep` between what each of them
/// joins to.
pub proof fn lemma_join_concat(p: Seq<Seq<char>>, q: Seq<Seq<char>>, sep: char)
    requires
        p.len() > 0,
        q.len() > 0,
    ensures
        join(p + q, sep) == join(p, sep).push(sep) + join(q, sep),
    decreases p.len(),
{
    if p.len() == 1 {
        assert((p + q).drop_first() =~= q);
    } else {
        lemma_join_concat(p.drop_first(), q, sep);
        assert((p + q).drop_first() =~= p.drop_first() + q);
        assert(p[0].push(sep) + (join(p.drop_first(), sep).push(sep) + join(q, sep)) =~= (p[0].push(
            sep,
        ) + join(p.drop_first(), sep)).push(sep) + join(q, sep));
    }
}

/// Joining the pieces of a text gives the text.
pub proof fn lemma_join_of_split(text: Seq<char>, sep: char)
    ensures
        join(split(text, sep), sep) == text,
    decreases text.len(),
{
    if text.len() > 0 {
        let shorter = text.drop_last();
        let before = split(shorter, sep);
        let nothing = Seq::<char>::empty();
        lemma_join_of_split(shorter, sep);
        lemma_split_nonempty(shorter, sep);
        if text.last() == sep {
            lemma_join_concat(before, seq![nothing], sep);
            assert(before + seq![nothing] =~= before.push(nothing));
            assert(shorter.push(sep) + nothing =~= text);
        } else if before.len() > 1 {
            let head = before.drop_last();
            let last = before.last();
            lemma_join_concat(head, seq![last], sep);
            lemma_join_concat(head, seq![last.push(text.last())], sep);
            assert(head + seq![last] =~= before);
            assert(head + seq![last.push(text.last())] =~= head.push(last.push(text.last())));
            assert(join(head, sep).push(sep) + last.push(text.last()) =~= (join(head, sep).push(
                sep,
            ) + last).push(text.last()));
            assert(shorter.push(text.last()) =~= text);
        } else {
            assert(shorter.push(text.last()) =~= text);
        }
    } else {
        assert(text =~= Seq::<char>::empty());
    }
}

/// Splitting what pieces without `sep` join to gives the pieces.
pub proof fn lemma_split_of_join(pieces: Seq<Seq<char>>, sep: char)
    requires
        pieces.len() > 0,
        all_plain(pieces, sep),
    ensures
        split(join(pieces, sep), sep) == pieces,
    decreases pieces.len(),
{
    let last = pieces.last();
    assert(is_plain(pieces[pieces.len() - 1], sep));
    if pieces.len() == 1 {
        let nothing = Seq::<char>::empty();
        lemma_split_extend(nothing, last, sep);
        assert(nothing + last =~= last);
        assert(split(last, sep) =~= pieces);
    } else {
        let head = pieces.drop_last();
        assert forall|i: int| 0 <= i < head.len() implies is_plain(#[trigger] head[i], sep) by {
            assert(head[i] == pieces[i]);
        }
        lemma_split_of_join(head, sep);
        lemma_join_concat(head, seq![last], sep);
        assert(head + seq![last] =~= pieces);
        lemma_split_piece(join(head, sep), last, sep);
        assert(head.push(last) =~= pieces);
    }
}

/// The pieces of two texts with a `sep` between them are the pieces of the
/// first, then those of the second.
pub proof fn lemma_split_concat(a: Seq<char>, b: Seq<char>, sep: char)
    ensures
        split(a.push(sep) + b, sep) == split(a, sep) + split(b, sep),
{
    let p = split(a, sep);
    let q = split(b, sep);
    lemma_split_nonempty(a, sep);
    lemma_split_nonempty(b, sep);
    lemma_split_plain(a, sep);
    lemma_split_plain(b, sep);
    lemma_join_of_split(a, sep);
    lemma_join_of_split(b, sep);
    lemma_join_concat(p, q, sep);
    assert forall|i: int| 0 <= i < (p + q).len() implies is_plain(#[trigger] (p + q)[i], sep) by {
        if i < p.len() {
            assert((p + q)[i] == p[i]);
        } else {
            assert((p + q)[i] == q[i - p.len()]);
        }
    }
    lemma_split_of_join(p + q, sep);
}

/// Where the first `k` characters are white space and the next one is not,
/// trimming the start drops exactly those `k`.
pub proof fn lemma_trim_start_skips(s: Seq<char>, k: int)
    requires
        0 <= k <= s.len(),
        forall|i: int| 0 <= i < k ==> is_white_space(#[trigger] s[i]),
        k < s.len() ==> !is_white_space(s[k]),
    ensures
        trim_start(s) == s.skip(k),
    decreases k,
{
    if k > 0 {
        lemma_trim_start_skips(s.drop_first(), k - 1);
    }
}

/// Where everything from index `k` on is white space and the character before
/// it is not, trimming the end keeps exactly the first `k`.
pub proof fn lemma_trim_end_takes(s: Seq<char>, k: int)
    requires
        0 <= k <= s.len(),
        forall|i: int| k <= i < s.len() ==> is_white_space(#[trigger] s[i]),
        k > 0 ==> !is_white_space(s[k - 1]),
    ensures
        trim_end(s) == s.take(k),
    decreases s.len() - k,
{
    if k < s.len() {
        lemma_trim_end_takes(s.drop_last(), k);
    }
}

/// The characters of `s`, in order.
pub fn chars_of(s: &str) -> (chars: Vec<char>)
    ensures
        chars@ == s@,
{
    let mut chars: Vec<char> = Vec::new();
    for c in it: s.chars()
        invariant
            chars@ == it.seq().take(it.index()),
            it.seq() == s@,
    {
        chars.push(c);
    }
    chars
}

/// The string made of `chars[from..to]`.
pub fn string_of(chars: &Vec<char>, from: usize, to: usize) -> (s: String)
    requires
        from <= to <= chars.len(),
    ensures
        s@ == chars@.subrange(from as int, to as int),
{
    let mut s = String::new();
    let mut i: usize = from;
    while i < to
        invariant
            from <= i <= to <= chars.len(),
            s@ == chars@.subrange(from as int, i as int),
        decreases to - i,
    {
        string_push(&mut s, chars[i]);
        i = i + 1;
    }
    s
}

/// The bounds of what trimming leaves of `chars[from..to]`.
pub fn trim_bounds(chars: &Vec<char>, from: usize, to: usize) -> (bounds: (usize, usize))
    requires
        from <= to <= chars.len(),
    ensures
        from <= bounds.0 <= bounds.1 <= to,
        chars@.subrange(bounds.0 as int, bounds.1 as int) == trim(
            chars@.subrange(from as int, to as int),
        ),
{
    let ghost line = chars@.subrange(from as int, to as int);
    let mut a: usize = from;
    while a < to && char_is_white_space(chars[a])
        invariant
            from <= a <= to <= chars.len(),
            forall|i: int| from <= i < a ==> is_white_space(#[trigger] chars@[i]),
        decreases to - a,
    {
        a = a + 1;
    }
    let mut b: usize = to;
    while b > a && char_is_white_space(chars[b - 1])
        invariant
            a <= b <= to <= chars.len(),
            forall|i: int| b <= i < to ==> is_white_space(#[trigger] chars@[i]),
        decreases b - a,
    {
        b = b - 1;
    }
    proof {
        lemma_trim_start_skips(line, a - from);
        lemma_trim_end_takes(line.skip(a - from), b - a);
    }
    (a, b)
}

/// Appends `line` and a line feed to `buffer`.
pub fn push_line(buffer: &mut String, line: &str)
    ensures
        final(buffer)@ == old(buffer)@ + line@.push('\n'),
{
    buffer.append(line);
    string_push(buffer, '\n');
}

} // verus!
