//! Whole numbers as decimal text.

use vstd::prelude::*;
use crate::text;

verus! {

/// The character of a decimal digit.
pub open spec fn digit_char(d: nat) -> char {
    if d == 0 {
        '0'
    } else if d == 1 {
        '1'
    } else if d == 2 {
        '2'
    } else if d == 3 {
        '3'
    } else if d == 4 {
        '4'
    } else if d == 5 {
        '5'
    } else if d == 6 {
        '6'
    } else if d == 7 {
        '7'
    } else if d == 8 {
        '8'
    } else {
        '9'
    }
}

/// The decimal digits of `n`, the highest first, without leading zeros.
pub open spec fn digits_of(n: nat) -> Seq<char>
    decreases n,
{
    if n < 10 {
        seq![digit_char(n)]
    } else {
        digits_of(n / 10).push(digit_char(n % 10))
    }
}

/// The decimal text of `v`: a minus sign for a negative number, then the
/// digits.
pub open spec fn integer_text(v: int) -> Seq<char> {
    if v < 0 {
        seq!['-'] + digits_of((-v) as nat)
    } else {
        digits_of(v as nat)
    }
}

/// The value of a decimal digit; none for any other character.
pub open spec fn digit_value(c: char) -> Option<nat> {
    let u = c as u32;
    if 48 <= u && u <= 57 {
        Some((u - 48) as nat)
    } else {
        None
    }
}

/// The number that a text of decimal digits stands for; none where the text
/// is empty or holds anything but digits.
pub open spec fn number_of(text: Seq<char>) -> Option<nat>
    decreases text.len(),
{
    if text.len() == 0 {
        None
    } else if text.len() == 1 {
        digit_value(text[0])
    } else {
        match (number_of(text.drop_last()), digit_value(text.last())) {
            (Some(v), Some(d)) => Some(v * 10 + d),
            _ => None,
        }
    }
}

/// The number that a text stands for where no minus sign is admitted: digits,
/// with or without a plus sign before them.
pub open spec fn unsigned_of(text: Seq<char>) -> Option<nat> {
    if text.len() > 0 && text[0] == '+' {
        number_of(text.drop_first())
    } else {
        number_of(text)
    }
}

/// The number that a text stands for: digits, with or without a plus or a
/// minus sign before them.
pub open spec fn signed_of(text: Seq<char>) -> Option<int> {
    if text.len() > 0 && text[0] == '-' {
        match number_of(text.drop_first()) {
            Some(v) => Some(-(v as int)),
            None => None,
        }
    } else {
        match unsigned_of(text) {
            Some(v) => Some(v as int),
            None => None,
        }
    }
}

/// A text with a character that is no digit stands for no number.
pub proof fn lemma_number_needs_digits(text: Seq<char>, k: int)
    requires
        0 <= k < text.len(),
        digit_value(text[k]) is None,
    ensures
        number_of(text) is None,
    decreases text.len(),
{
    if text.len() > 1 && k < text.len() - 1 {
        lemma_number_needs_digits(text.drop_last(), k);
    }
}

/// The number of a text is at least the number of each of its starts.
pub proof fn lemma_number_grows(text: Seq<char>, k: int)
    requires
        1 <= k <= text.len(),
        number_of(text) is Some,
    ensures
        number_of(text.take(k)) is Some,
        number_of(text.take(k))->0 <= number_of(text)->0,
    decreases text.len() - k,
{
    if k == text.len() {
        assert(text.take(k) =~= text);
    } else {
        lemma_number_grows(text.drop_last(), k);
        assert(text.drop_last().take(k) =~= text.take(k));
    }
}

/// The decimal digits of a number hold digits only and stand for it.
pub proof fn lemma_number_of_digits(n: nat)
    ensures
        digits_of(n).len() >= 1,
        forall|k: int| 0 <= k < digits_of(n).len() ==> digit_value(#[trigger] digits_of(n)[k]) is Some,
        number_of(digits_of(n)) == Some(n),
    decreases n,
{
    if n >= 10 {
        lemma_number_of_digits(n / 10);
        assert(digits_of(n).drop_last() =~= digits_of(n / 10));
    }
}

/// A text that neither starts nor ends with white space is left as it is by
/// trimming.
pub proof fn lemma_trim_keeps(line: Seq<char>)
    requires
        line.len() > 0,
        !text::is_white_space(line.first()),
        !text::is_white_space(line.last()),
    ensures
        text::trim(line) == line,
{
    text::lemma_trim_start_skips(line, 0);
    assert(line.skip(0) =~= line);
    text::lemma_trim_end_takes(line, line.len() as int);
    assert(line.take(line.len() as int) =~= line);
}

/// The decimal text of a number is one line, is left as it is by trimming,
/// and stands for the number where no minus sign is admitted.
pub proof fn lemma_unsigned_reads_back(n: nat)
    ensures
        forall|k: int| 0 <= k < digits_of(n).len() ==> digits_of(n)[k] != '\n',
        text::trim(digits_of(n)) == digits_of(n),
        digits_of(n).len() > 0,
        unsigned_of(digits_of(n)) == Some(n),
{
    let line = digits_of(n);
    lemma_number_of_digits(n);
    assert(digit_value(line[0]) is Some);
    assert(digit_value(line[line.len() - 1]) is Some);
    lemma_trim_keeps(line);
    assert forall|k: int| 0 <= k < line.len() implies line[k] != '\n' by {
        assert(digit_value(line[k]) is Some);
    }
}

/// The decimal text of an integer is one line, is left as it is by trimming,
/// and stands for the integer.
pub proof fn lemma_signed_reads_back(v: int)
    ensures
        forall|k: int| 0 <= k < integer_text(v).len() ==> integer_text(v)[k] != '\n',
        text::trim(integer_text(v)) == integer_text(v),
        integer_text(v).len() > 0,
        signed_of(integer_text(v)) == Some(v),
{
    let line = integer_text(v);
    if v < 0 {
        let size = (-v) as nat;
        let tail = digits_of(size);
        lemma_number_of_digits(size);
        assert(line.drop_first() =~= tail);
        assert(line.last() == tail[tail.len() - 1]);
        assert(digit_value(tail[tail.len() - 1]) is Some);
        lemma_trim_keeps(line);
        assert forall|k: int| 0 <= k < line.len() implies line[k] != '\n' by {
            if k > 0 {
                assert(line[k] == tail[k - 1]);
                assert(digit_value(tail[k - 1]) is Some);
            }
        }
    } else {
        lemma_unsigned_reads_back(v as nat);
        lemma_number_of_digits(v as nat);
        assert(digit_value(line[0]) is Some);
    }
}

/// The character of the digit `d`.
pub fn digit_of(d: u8) -> (c: char)
    requires
        d < 10,
    ensures
        c == digit_char(d as nat),
        digit_value(c) == Some(d as nat),
{
    if d == 0 {
        '0'
    } else if d == 1 {
        '1'
    } else if d == 2 {
        '2'
    } else if d == 3 {
        '3'
    } else if d == 4 {
        '4'
    } else if d == 5 {
        '5'
    } else if d == 6 {
        '6'
    } else if d == 7 {
        '7'
    } else if d == 8 {
        '8'
    } else {
        '9'
    }
}

/// The decimal digits of `n`.
pub fn digits(n: u128) -> (out: Vec<char>)
    ensures
        out@ == digits_of(n as nat),
{
    let mut low: Vec<char> = Vec::new();
    let mut m: u128 = n;
    while m >= 10
        invariant
            digits_of(n as nat) == digits_of(m as nat) + low@.reverse(),
        decreases m,
    {
        let ghost low_before = low@;
        let ghost m_before = m;
        low.push(digit_of((m % 10) as u8));
        m = m / 10;
        proof {
            assert(low@.reverse() =~= seq![digit_char((m_before % 10) as nat)]
                + low_before.reverse());
            assert(digits_of(m_before as nat) + low_before.reverse() =~= digits_of(m as nat)
                + low@.reverse());
        }
    }
    let mut out: Vec<char> = Vec::new();
    out.push(digit_of(m as u8));
    while low.len() > 0
        invariant
            digits_of(n as nat) == out@ + low@.reverse(),
        decreases low.len(),
    {
        let ghost out_before = out@;
        let ghost low_before = low@;
        let c = low.pop().unwrap();
        out.push(c);
        proof {
            assert(low_before.reverse() =~= seq![c] + low@.reverse());
            assert(out_before + low_before.reverse() =~= out@ + low@.reverse());
        }
    }
    proof {
        assert(out@ + low@.reverse() =~= out@);
    }
    out
}

/// The decimal text of `n`.
pub fn format_unsigned(n: u128) -> (s: String)
    ensures
        s@ == digits_of(n as nat),
{
    let out = digits(n);
    let s = text::string_of(&out, 0, out.len());
    proof {
        assert(out@.subrange(0, out.len() as int) =~= out@);
    }
    s
}

/// The decimal text of `v`.
pub fn format_signed(v: i128) -> (s: String)
    ensures
        s@ == integer_text(v as int),
{
    if v >= 0 {
        format_unsigned(v as u128)
    } else {
        let size: u128 = (-(v + 1)) as u128 + 1;
        let tail = digits(size);
        let mut out: Vec<char> = Vec::new();
        out.push('-');
        let mut k: usize = 0;
        while k < tail.len()
            invariant
                k <= tail.len(),
                out@ == seq!['-'] + tail@.take(k as int),
            decreases tail.len() - k,
        {
            out.push(tail[k]);
            k = k + 1;
            assert(out@ =~= seq!['-'] + tail@.take(k as int));
        }
        let s = text::string_of(&out, 0, out.len());
        proof {
            assert(tail@.take(tail.len() as int) =~= tail@);
            assert(out@.subrange(0, out.len() as int) =~= out@);
        }
        s
    }
}

/// The number that `chars[from..]` stands for, where it is a text of digits
/// and the number fits.
pub fn parse_digits(chars: &Vec<char>, from: usize) -> (n: Option<u128>)
    requires
        from <= chars.len(),
    ensures
        n == (match number_of(chars@.skip(from as int)) {
            Some(v) => if v <= u128::MAX {
                Some(v as u128)
            } else {
                None
            },
            None => None,
        }),
{
    let ghost all = chars@.skip(from as int);
    let len = chars.len();
    if from == len {
        return None;
    }
    let mut acc: u128 = 0;
    let mut k: usize = from;
    while k < len
        invariant
            from <= k <= len == chars.len(),
            all == chars@.skip(from as int),
            k > from ==> number_of(all.take(k - from)) == Some(acc as nat),
            k == from ==> acc == 0,
        decreases len - k,
    {
        let u = chars[k] as u32;
        assert(all[k - from] == chars@[k as int]);
        if u < 48 || u > 57 {
            proof {
                lemma_number_needs_digits(all, k - from);
            }
            return None;
        }
        let d: u128 = (u - 48) as u128;
        proof {
            assert(all.take(k - from + 1).drop_last() =~= all.take(k - from));
            assert(all.take(k - from + 1).last() == all[k - from]);
        }
        if acc > (u128::MAX - d) / 10 {
            proof {
                if number_of(all) is Some {
                    lemma_number_grows(all, k - from + 1);
                }
            }
            return None;
        }
        acc = acc * 10 + d;
        k = k + 1;
    }
    proof {
        assert(all.take(len - from) =~= all);
    }
    Some(acc)
}

/// The number that `text` stands for where no minus sign is admitted, where
/// it stands for one and the number fits.
pub fn parse_unsigned(text: &str) -> (n: Option<u128>)
    ensures
        n == (match unsigned_of(text@) {
            Some(v) => if v <= u128::MAX {
                Some(v as u128)
            } else {
                None
            },
            None => None,
        }),
{
    let chars = text::chars_of(text);
    proof {
        assert(chars@.skip(0) =~= chars@);
    }
    if chars.len() > 0 && chars[0] == '+' {
        parse_digits(&chars, 1)
    } else {
        parse_digits(&chars, 0)
    }
}

/// The number that `text` stands for, where it stands for one and the number
/// fits.
pub fn parse_signed(text: &str) -> (n: Option<i128>)
    ensures
        n == (match signed_of(text@) {
            Some(v) => if i128::MIN <= v && v <= i128::MAX {
                Some(v as i128)
            } else {
                None
            },
            None => None,
        }),
{
    let chars = text::chars_of(text);
    proof {
        assert(chars@.skip(0) =~= chars@);
    }
    if chars.len() > 0 && chars[0] == '-' {
        match parse_digits(&chars, 1) {
            Some(size) => {
                if size <= i128::MAX as u128 {
                    Some(-(size as i128))
                } else if size == i128::MAX as u128 + 1 {
                    Some(i128::MIN)
                } else {
                    None
                }
            },
            None => None,
        }
    } else {
        let size = if chars.len() > 0 && chars[0] == '+' {
            parse_digits(&chars, 1)
        } else {
            parse_digits(&chars, 0)
        };
        match size {
            Some(size) => {
                if size <= i128::MAX as u128 {
                    Some(size as i128)
                } else {
                    None
                }
            },
            None => None,
        }
    }
}

} // verus!
