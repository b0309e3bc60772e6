//! The ordering of dotted names by their segments in reverse: the last
//! segment decides first, then the one before it, and a name stands before
//! the names below it. Sorted by it, a name and all names below it stand
//! together.

use vstd::prelude::*;
use crate::order::ItemOrder;
use crate::text;

verus! {

/// The key by which a dotted name is ordered: its segments in reverse order,
/// joined by dots again.
pub open spec fn reversed_key(name: Seq<char>) -> Seq<char> {
    text::join(text::split(name, '.').reverse(), '.')
}

/// The place of a character in the order of keys: the dot comes first, so
/// that the end of a segment ranks below every way of going on with it; the
/// other characters follow by their scalar value.
pub open spec fn rank(c: char) -> int {
    if c == '.' {
        0
    } else {
        (c as u32) as int + 1
    }
}

/// Lexicographic order on keys, character by character: a key stands before
/// each of its extensions, and otherwise the rank of the first difference
/// decides. On keys this is the order of the segment lists, segment by
/// segment.
pub open spec fn lex_le(a: Seq<char>, b: Seq<char>) -> bool
    decreases a.len(),
{
    if a.len() == 0 {
        true
    } else if b.len() == 0 {
        false
    } else if a.first() != b.first() {
        rank(a.first()) < rank(b.first())
    } else {
        lex_le(a.drop_first(), b.drop_first())
    }
}

/// Different characters have different ranks.
pub proof fn lemma_rank_tells_apart(a: char, b: char)
    requires
        a != b,
    ensures
        rank(a) != rank(b),
{
    vstd::utf8::char_u32_cast(a, a as u32);
    vstd::utf8::char_u32_cast(b, b as u32);
}

/// Computes the rank of a character.
pub fn rank_of(c: char) -> (r: u32)
    ensures
        r == rank(c),
{
    if c == '.' {
        0
    } else {
        (c as u32) + 1
    }
}

/// Of two texts, one stands before the other.
pub proof fn lemma_lex_le_total(a: Seq<char>, b: Seq<char>)
    ensures
        lex_le(a, b) || lex_le(b, a),
    decreases a.len(),
{
    if a.len() > 0 && b.len() > 0 {
        if a.first() == b.first() {
            lemma_lex_le_total(a.drop_first(), b.drop_first());
        } else {
            lemma_rank_tells_apart(a.first(), b.first());
        }
    }
}

/// The order on texts is transitive.
pub proof fn lemma_lex_le_transitive(a: Seq<char>, b: Seq<char>, c: Seq<char>)
    requires
        lex_le(a, b),
        lex_le(b, c),
    ensures
        lex_le(a, c),
    decreases a.len(),
{
    if a.len() > 0 && a.first() == b.first() && b.first() == c.first() {
        lemma_lex_le_transitive(a.drop_first(), b.drop_first(), c.drop_first());
    }
}

/// Texts that agree on their first `k` characters compare as their rests do.
pub proof fn lemma_lex_le_skip(a: Seq<char>, b: Seq<char>, k: int)
    requires
        0 <= k <= a.len(),
        k <= b.len(),
        forall|i: int| 0 <= i < k ==> a[i] == b[i],
    ensures
        lex_le(a, b) == lex_le(a.skip(k), b.skip(k)),
    decreases k,
{
    if k == 0 {
        assert(a.skip(0) =~= a);
        assert(b.skip(0) =~= b);
    } else {
        lemma_lex_le_skip(a.drop_first(), b.drop_first(), k - 1);
        assert(a.drop_first().skip(k - 1) =~= a.skip(k));
        assert(b.drop_first().skip(k - 1) =~= b.skip(k));
    }
}

/// A name without a dot is its own key.
pub proof fn lemma_key_of_segment(name: Seq<char>)
    requires
        forall|i: int| 0 <= i < name.len() ==> name[i] != '.',
    ensures
        reversed_key(name) == name,
{
    text::lemma_split_extend(Seq::<char>::empty(), name, '.');
}

/// The key of a name that ends in a dot and one more segment starts with
/// that segment and a dot, and goes on with the key of what stood before.
pub proof fn lemma_key_of_suffix(head: Seq<char>, segment: Seq<char>)
    requires
        forall|i: int| 0 <= i < segment.len() ==> segment[i] != '.',
    ensures
        reversed_key(head.push('.') + segment) == segment.push('.') + reversed_key(head),
{
    text::lemma_split_piece(head, segment, '.');
    text::lemma_split_nonempty(head, '.');
    let pieces = text::split(head, '.');
    let turned = pieces.push(segment).reverse();
    assert(turned.drop_first() =~= pieces.reverse());
}

/// The key of two names with a dot between them is the key of the second,
/// a dot, and the key of the first.
pub proof fn lemma_key_of_joined(head: Seq<char>, tail: Seq<char>)
    ensures
        reversed_key(head.push('.') + tail) == reversed_key(tail).push('.') + reversed_key(head),
{
    let p = text::split(head, '.');
    let q = text::split(tail, '.');
    text::lemma_split_concat(head, tail, '.');
    text::lemma_split_nonempty(head, '.');
    text::lemma_split_nonempty(tail, '.');
    assert((p + q).reverse() =~= q.reverse() + p.reverse());
    text::lemma_join_concat(q.reverse(), p.reverse(), '.');
}

/// The key of the key of a name is the name.
pub proof fn lemma_key_twice(name: Seq<char>)
    ensures
        reversed_key(reversed_key(name)) == name,
{
    let p = text::split(name, '.');
    let turned = p.reverse();
    text::lemma_split_nonempty(name, '.');
    text::lemma_split_plain(name, '.');
    assert forall|i: int| 0 <= i < turned.len() implies text::is_plain(
        #[trigger] turned[i],
        '.',
    ) by {
        assert(turned[i] == p[p.len() - 1 - i]);
    }
    text::lemma_split_of_join(turned, '.');
    assert(turned.reverse() =~= p);
    text::lemma_join_of_split(name, '.');
}

/// `name` is `parent` itself or a name below it: it ends in a dot and
/// `parent`.
pub open spec fn is_under(name: Seq<char>, parent: Seq<char>) -> bool {
    name == parent || exists|head: Seq<char>| name == #[trigger] head.push('.') + parent
}

/// `key` is `top` itself or goes on behind it with a dot.
pub open spec fn goes_on(key: Seq<char>, top: Seq<char>) -> bool {
    key == top || top.push('.').is_prefix_of(key)
}

/// The key of a name under `parent` goes on behind the key of `parent`.
pub proof fn lemma_key_of_name_under(name: Seq<char>, parent: Seq<char>)
    requires
        is_under(name, parent),
    ensures
        goes_on(reversed_key(name), reversed_key(parent)),
{
    if name != parent {
        let head = choose|head: Seq<char>| name == #[trigger] head.push('.') + parent;
        lemma_key_of_joined(head, parent);
        let top = reversed_key(parent).push('.');
        assert((top + reversed_key(head)).subrange(0, top.len() as int) =~= top);
    }
}

/// A name whose key goes on behind the key of `parent` is under `parent`.
pub proof fn lemma_name_of_key_under(name: Seq<char>, parent: Seq<char>)
    requires
        goes_on(reversed_key(name), reversed_key(parent)),
    ensures
        is_under(name, parent),
{
    let key = reversed_key(name);
    let top = reversed_key(parent);
    lemma_key_twice(name);
    lemma_key_twice(parent);
    if key != top {
        let rest = key.skip(top.len() as int + 1);
        assert(key =~= top.push('.') + rest);
        lemma_key_of_joined(top, rest);
        assert(name == reversed_key(rest).push('.') + parent);
    }
}

/// A key that stands between two keys with a common start has that start
/// too.
pub proof fn lemma_lex_le_keeps_start(x: Seq<char>, y: Seq<char>, z: Seq<char>, start: Seq<char>)
    requires
        lex_le(x, y),
        lex_le(y, z),
        start.is_prefix_of(x),
        start.is_prefix_of(z),
    ensures
        start.is_prefix_of(y),
    decreases start.len(),
{
    if start.len() > 0 {
        assert(x[0] == start[0] && z[0] == start[0]);
        if x.first() != y.first() {
            lemma_rank_tells_apart(x.first(), y.first());
            if y.first() != z.first() {
                lemma_rank_tells_apart(y.first(), z.first());
            }
        }
        if y.first() != z.first() {
            lemma_rank_tells_apart(y.first(), z.first());
        }
        let shorter = start.drop_first();
        assert(shorter =~= x.drop_first().subrange(0, shorter.len() as int));
        assert(shorter =~= z.drop_first().subrange(0, shorter.len() as int));
        lemma_lex_le_keeps_start(x.drop_first(), y.drop_first(), z.drop_first(), shorter);
        assert(start =~= y.subrange(0, start.len() as int)) by {
            assert forall|i: int| 0 <= i < start.len() implies start[i] == y[i] by {
                if i > 0 {
                    assert(shorter[i - 1] == y.drop_first().subrange(0, shorter.len() as int)[i
                        - 1]);
                }
            }
        }
    }
}

/// A key that stands between two keys that go on behind `top` goes on behind
/// `top` too.
pub proof fn lemma_lex_le_between(x: Seq<char>, y: Seq<char>, z: Seq<char>, top: Seq<char>)
    requires
        lex_le(x, y),
        lex_le(y, z),
        goes_on(x, top),
        goes_on(z, top),
    ensures
        goes_on(y, top),
{
    let n = top.len() as int;
    assert(top.is_prefix_of(x)) by {
        if x != top {
            assert(top =~= top.push('.').subrange(0, n));
        }
    }
    assert(top.is_prefix_of(z)) by {
        if z != top {
            assert(top =~= top.push('.').subrange(0, n));
        }
    }
    lemma_lex_le_keeps_start(x, y, z, top);
    assert forall|i: int| 0 <= i < n implies y[i] == z[i] by {
        assert(top[i] == y.subrange(0, n)[i]);
        assert(top[i] == z.subrange(0, n)[i]);
    }
    lemma_lex_le_skip(y, z, n);
    let rest = y.skip(n);
    if rest.len() == 0 {
        assert(y =~= top);
    } else {
        assert(z != top) by {
            if z == top {
                assert(z.skip(n).len() == 0);
            }
        }
        assert(z.skip(n).first() == '.') by {
            assert(top.push('.')[n] == z.subrange(0, n + 1)[n]);
        }
        assert(rest.first() == '.');
        assert(top.push('.') =~= y.subrange(0, n + 1));
    }
}

/// Lexicographic order on segments, character by character and by scalar
/// value: a segment stands before each of its extensions.
pub open spec fn segment_le(a: Seq<char>, b: Seq<char>) -> bool
    decreases a.len(),
{
    if a.len() == 0 {
        true
    } else if b.len() == 0 {
        false
    } else if a.first() != b.first() {
        (a.first() as u32) < (b.first() as u32)
    } else {
        segment_le(a.drop_first(), b.drop_first())
    }
}

/// Lexicographic order on lists of segments, segment by segment: a list
/// stands before each of its extensions, and otherwise the first segment in
/// which they differ decides.
pub open spec fn segments_le(p: Seq<Seq<char>>, q: Seq<Seq<char>>) -> bool
    decreases p.len(),
{
    if p.len() == 0 {
        true
    } else if q.len() == 0 {
        false
    } else if p.first() != q.first() {
        segment_le(p.first(), q.first())
    } else {
        segments_le(p.drop_first(), q.drop_first())
    }
}

/// `rest` is what a key goes on with behind one of its segments: nothing, or
/// a dot and more.
pub open spec fn is_rest_of_key(rest: Seq<char>) -> bool {
    rest.len() == 0 || rest.first() == '.'
}

/// Two keys that start with different segments compare as those segments do.
pub proof fn lemma_lex_le_by_first_segment(
    a: Seq<char>,
    a_rest: Seq<char>,
    b: Seq<char>,
    b_rest: Seq<char>,
)
    requires
        text::is_plain(a, '.'),
        text::is_plain(b, '.'),
        a != b,
        is_rest_of_key(a_rest),
        is_rest_of_key(b_rest),
    ensures
        lex_le(a + a_rest, b + b_rest) == segment_le(a, b),
    decreases a.len(),
{
    if a.len() == 0 {
        assert(b.len() > 0) by {
            if b.len() == 0 {
                assert(a =~= b);
            }
        }
        assert(a + a_rest =~= a_rest);
        assert((b + b_rest).first() == b[0]);
    } else if b.len() == 0 {
        assert(b + b_rest =~= b_rest);
        assert((a + a_rest).first() == a[0]);
    } else {
        assert((a + a_rest).first() == a[0]);
        assert((b + b_rest).first() == b[0]);
        if a.first() == b.first() {
            assert(a.drop_first() != b.drop_first()) by {
                if a.drop_first() == b.drop_first() {
                    assert(a =~= seq![a[0]] + a.drop_first());
                    assert(b =~= seq![b[0]] + b.drop_first());
                }
            }
            assert forall|k: int| 0 <= k < a.drop_first().len() implies a.drop_first()[k]
                != '.' by {
                assert(a.drop_first()[k] == a[k + 1]);
            }
            assert forall|k: int| 0 <= k < b.drop_first().len() implies b.drop_first()[k]
                != '.' by {
                assert(b.drop_first()[k] == b[k + 1]);
            }
            lemma_lex_le_by_first_segment(a.drop_first(), a_rest, b.drop_first(), b_rest);
            assert((a + a_rest).drop_first() =~= a.drop_first() + a_rest);
            assert((b + b_rest).drop_first() =~= b.drop_first() + b_rest);
        }
    }
}

/// Keys compare as the lists of segments that they are joined from.
pub proof fn lemma_lex_le_of_joined(p: Seq<Seq<char>>, q: Seq<Seq<char>>)
    requires
        p.len() > 0,
        q.len() > 0,
        text::all_plain(p, '.'),
        text::all_plain(q, '.'),
    ensures
        lex_le(text::join(p, '.'), text::join(q, '.')) == segments_le(p, q),
    decreases p.len(),
{
    let a = p.first();
    let b = q.first();
    let dot = seq!['.'];
    let a_rest = if p.len() == 1 {
        Seq::<char>::empty()
    } else {
        dot + text::join(p.drop_first(), '.')
    };
    let b_rest = if q.len() == 1 {
        Seq::<char>::empty()
    } else {
        dot + text::join(q.drop_first(), '.')
    };
    assert(text::join(p, '.') =~= a + a_rest);
    assert(text::join(q, '.') =~= b + b_rest);
    assert(text::is_plain(p[0], '.'));
    assert(text::is_plain(q[0], '.'));
    if a != b {
        lemma_lex_le_by_first_segment(a, a_rest, b, b_rest);
    } else {
        let n = a.len() as int;
        lemma_lex_le_skip(a + a_rest, b + b_rest, n);
        assert((a + a_rest).skip(n) =~= a_rest);
        assert((b + b_rest).skip(n) =~= b_rest);
        if p.len() > 1 && q.len() > 1 {
            let p_rest = p.drop_first();
            let q_rest = q.drop_first();
            assert forall|i: int| 0 <= i < p_rest.len() implies text::is_plain(
                #[trigger] p_rest[i],
                '.',
            ) by {
                assert(p_rest[i] == p[i + 1]);
            }
            assert forall|i: int| 0 <= i < q_rest.len() implies text::is_plain(
                #[trigger] q_rest[i],
                '.',
            ) by {
                assert(q_rest[i] == q[i + 1]);
            }
            lemma_lex_le_of_joined(p_rest, q_rest);
            assert(a_rest.drop_first() =~= text::join(p_rest, '.'));
            assert(b_rest.drop_first() =~= text::join(q_rest, '.'));
            assert(a_rest.first() == b_rest.first());
            assert(lex_le(a_rest, b_rest) == lex_le(a_rest.drop_first(), b_rest.drop_first()));
        } else if p.len() == 1 {
            assert(lex_le(a_rest, b_rest));
            assert(segments_le(p.drop_first(), q.drop_first()));
        } else {
            assert(!lex_le(a_rest, b_rest));
            assert(!segments_le(p.drop_first(), q.drop_first()));
        }
        assert(segments_le(p, q) == segments_le(p.drop_first(), q.drop_first()));
    }
}

/// The key of `name`, as characters.
pub fn key_of(name: &str) -> (key: Vec<char>)
    ensures
        key@ == reversed_key(name@),
{
    let chars = text::chars_of(name);
    let mut key: Vec<char> = Vec::new();
    let mut end: usize = chars.len();
    let mut done = false;
    proof {
        assert(chars@.take(end as int) =~= chars@);
    }
    while !done
        invariant
            end <= chars.len(),
            chars@ == name@,
            !done ==> reversed_key(chars@) == key@ + reversed_key(chars@.take(end as int)),
            done ==> key@ == reversed_key(chars@),
        decreases end + (if done { 0int } else { 1int }),
    {
        let ghost key_before = key@;
        let ghost rest = chars@.take(end as int);
        let mut start: usize = end;
        while start > 0 && chars[start - 1] != '.'
            invariant
                start <= end <= chars.len(),
                forall|i: int| start <= i < end ==> chars@[i] != '.',
            decreases start,
        {
            start = start - 1;
        }
        let ghost segment = chars@.subrange(start as int, end as int);
        let mut i: usize = start;
        while i < end
            invariant
                start <= i <= end <= chars.len(),
                key@ == key_before + chars@.subrange(start as int, i as int),
            decreases end - i,
        {
            key.push(chars[i]);
            i = i + 1;
        }
        if start == 0 {
            proof {
                lemma_key_of_segment(rest);
            }
            done = true;
        } else {
            key.push('.');
            proof {
                let head = chars@.take(start - 1);
                assert(rest =~= head.push('.') + segment);
                lemma_key_of_suffix(head, segment);
                assert(key@ + reversed_key(head) =~= key_before + (segment.push('.')
                    + reversed_key(head)));
            }
            end = start - 1;
        }
    }
    key
}

/// Decides the order on texts.
pub fn lex_in_order(a: &Vec<char>, b: &Vec<char>) -> (r: bool)
    ensures
        r == lex_le(a@, b@),
{
    let mut k: usize = 0;
    while k < a.len() && k < b.len() && a[k] == b[k]
        invariant
            k <= a.len(),
            k <= b.len(),
            forall|i: int| 0 <= i < k ==> a@[i] == b@[i],
        decreases a.len() - k,
    {
        k = k + 1;
    }
    proof {
        lemma_lex_le_skip(a@, b@, k as int);
    }
    if k == a.len() {
        true
    } else if k == b.len() {
        false
    } else {
        rank_of(a[k]) < rank_of(b[k])
    }
}

/// Orders dotted names by their segments in reverse: `mail.example.com` is
/// placed by `com`, then `example`, then `mail`. Segments are compared as
/// wholes, so `example.com` and `mail.example.com` stand before
/// `example-cdn.com`.
pub struct ReverseSegments;

impl ItemOrder<String> for ReverseSegments {
    open spec fn precedes(&self, a: String, b: String) -> bool {
        lex_le(reversed_key(a@), reversed_key(b@))
    }

    proof fn precedes_total(&self, a: String, b: String) {
        lemma_lex_le_total(reversed_key(a@), reversed_key(b@));
    }

    proof fn precedes_transitive(&self, a: String, b: String, c: String) {
        lemma_lex_le_transitive(reversed_key(a@), reversed_key(b@), reversed_key(c@));
    }

    fn in_order(&self, a: &String, b: &String) -> (r: bool) {
        let left = key_of(a.as_str());
        let right = key_of(b.as_str());
        lex_in_order(&left, &right)
    }
}

} // verus!
