//! Whole numbers as items of a list that is mirrored to a file: each stands
//! on its line in decimal.

use vstd::prelude::*;
use crate::codec;
use crate::decimal;
use crate::laws;
use crate::item::TextItem;

verus! {

impl TextItem for u8 {
    open spec fn text_of(v: u8) -> Seq<char> {
        decimal::digits_of(v as nat)
    }

    open spec fn item_of(text: Seq<char>) -> Option<u8> {
        match decimal::unsigned_of(text) {
            Some(n) => if n <= u8::MAX {
                Some(n as u8)
            } else {
                None
            },
            None => None,
        }
    }

    fn to_text(&self) -> (text: String) {
        decimal::format_unsigned(*self as u128)
    }

    fn from_text(text: &str) -> (item: Option<Self>) {
        match decimal::parse_unsigned(text) {
            Some(n) => if n <= u8::MAX as u128 {
                Some(n as u8)
            } else {
                None
            },
            None => None,
        }
    }
}

impl TextItem for u16 {
    open spec fn text_of(v: u16) -> Seq<char> {
        decimal::digits_of(v as nat)
    }

    open spec fn item_of(text: Seq<char>) -> Option<u16> {
        match decimal::unsigned_of(text) {
            Some(n) => if n <= u16::MAX {
                Some(n as u16)
            } else {
                None
            },
            None => None,
        }
    }

    fn to_text(&self) -> (text: String) {
        decimal::format_unsigned(*self as u128)
    }

    fn from_text(text: &str) -> (item: Option<Self>) {
        match decimal::parse_unsigned(text) {
            Some(n) => if n <= u16::MAX as u128 {
                Some(n as u16)
            } else {
                None
            },
            None => None,
        }
    }
}

impl TextItem for u32 {
    open spec fn text_of(v: u32) -> Seq<char> {
        decimal::digits_of(v as nat)
    }

    open spec fn item_of(text: Seq<char>) -> Option<u32> {
        match decimal::unsigned_of(text) {
            Some(n) => if n <= u32::MAX {
                Some(n as u32)
            } else {
                None
            },
            None => None,
        }
    }

    fn to_text(&self) -> (text: String) {
        decimal::format_unsigned(*self as u128)
    }

    fn from_text(text: &str) -> (item: Option<Self>) {
        match decimal::parse_unsigned(text) {
            Some(n) => if n <= u32::MAX as u128 {
                Some(n as u32)
            } else {
                None
            },
            None => None,
        }
    }
}

impl TextItem for u64 {
    open spec fn text_of(v: u64) -> Seq<char> {
        decimal::digits_of(v as nat)
    }

    open spec fn item_of(text: Seq<char>) -> Option<u64> {
        match decimal::unsigned_of(text) {
            Some(n) => if n <= u64::MAX {
                Some(n as u64)
            } else {
                None
            },
            None => None,
        }
    }

    fn to_text(&self) -> (text: String) {
        decimal::format_unsigned(*self as u128)
    }

    fn from_text(text: &str) -> (item: Option<Self>) {
        match decimal::parse_unsigned(text) {
            Some(n) => if n <= u64::MAX as u128 {
                Some(n as u64)
            } else {
                None
            },
            None => None,
        }
    }
}

impl TextItem for u128 {
    open spec fn text_of(v: u128) -> Seq<char> {
        decimal::digits_of(v as nat)
    }

    open spec fn item_of(text: Seq<char>) -> Option<u128> {
        match decimal::unsigned_of(text) {
            Some(n) => if n <= u128::MAX {
                Some(n as u128)
            } else {
                None
            },
            None => None,
        }
    }

    fn to_text(&self) -> (text: String) {
        decimal::format_unsigned(*self as u128)
    }

    fn from_text(text: &str) -> (item: Option<Self>) {
        match decimal::parse_unsigned(text) {
            Some(n) => if n <= u128::MAX as u128 {
                Some(n as u128)
            } else {
                None
            },
            None => None,
        }
    }
}

impl TextItem for usize {
    open spec fn text_of(v: usize) -> Seq<char> {
        decimal::digits_of(v as nat)
    }

    open spec fn item_of(text: Seq<char>) -> Option<usize> {
        match decimal::unsigned_of(text) {
            Some(n) => if n <= usize::MAX {
                Some(n as usize)
            } else {
                None
            },
            None => None,
        }
    }

    fn to_text(&self) -> (text: String) {
        decimal::format_unsigned(*self as u128)
    }

    fn from_text(text: &str) -> (item: Option<Self>) {
        match decimal::parse_unsigned(text) {
            Some(n) => if n <= usize::MAX as u128 {
                Some(n as usize)
            } else {
                None
            },
            None => None,
        }
    }
}

impl TextItem for i8 {
    open spec fn text_of(v: i8) -> Seq<char> {
        decimal::integer_text(v as int)
    }

    open spec fn item_of(text: Seq<char>) -> Option<i8> {
        match decimal::signed_of(text) {
            Some(n) => if i8::MIN <= n && n <= i8::MAX {
                Some(n as i8)
            } else {
                None
            },
            None => None,
        }
    }

    fn to_text(&self) -> (text: String) {
        decimal::format_signed(*self as i128)
    }

    fn from_text(text: &str) -> (item: Option<Self>) {
        match decimal::parse_signed(text) {
            Some(n) => if i8::MIN as i128 <= n && n <= i8::MAX as i128 {
                Some(n as i8)
            } else {
                None
            },
            None => None,
        }
    }
}

impl TextItem for i16 {
    open spec fn text_of(v: i16) -> Seq<char> {
        decimal::integer_text(v as int)
    }

    open spec fn item_of(text: Seq<char>) -> Option<i16> {
        match decimal::signed_of(text) {
            Some(n) => if i16::MIN <= n && n <= i16::MAX {
                Some(n as i16)
            } else {
                None
            },
            None => None,
        }
    }

    fn to_text(&self) -> (text: String) {
        decimal::format_signed(*self as i128)
    }

    fn from_text(text: &str) -> (item: Option<Self>) {
        match decimal::parse_signed(text) {
            Some(n) => if i16::MIN as i128 <= n && n <= i16::MAX as i128 {
                Some(n as i16)
            } else {
                None
            },
            None => None,
        }
    }
}

impl TextItem for i32 {
    open spec fn text_of(v: i32) -> Seq<char> {
        decimal::integer_text(v as int)
    }

    open spec fn item_of(text: Seq<char>) -> Option<i32> {
        match decimal::signed_of(text) {
            Some(n) => if i32::MIN <= n && n <= i32::MAX {
                Some(n as i32)
            } else {
                None
            },
            None => None,
        }
    }

    fn to_text(&self) -> (text: String) {
        decimal::format_signed(*self as i128)
    }

    fn from_text(text: &str) -> (item: Option<Self>) {
        match decimal::parse_signed(text) {
            Some(n) => if i32::MIN as i128 <= n && n <= i32::MAX as i128 {
                Some(n as i32)
            } else {
                None
            },
            None => None,
        }
    }
}

impl TextItem for i64 {
    open spec fn text_of(v: i64) -> Seq<char> {
        decimal::integer_text(v as int)
    }

    open spec fn item_of(text: Seq<char>) -> Option<i64> {
        match decimal::signed_of(text) {
            Some(n) => if i64::MIN <= n && n <= i64::MAX {
                Some(n as i64)
            } else {
                None
            },
            None => None,
        }
    }

    fn to_text(&self) -> (text: String) {
        decimal::format_signed(*self as i128)
    }

    fn from_text(text: &str) -> (item: Option<Self>) {
        match decimal::parse_signed(text) {
            Some(n) => if i64::MIN as i128 <= n && n <= i64::MAX as i128 {
                Some(n as i64)
            } else {
                None
            },
            None => None,
        }
    }
}

impl TextItem for i128 {
    open spec fn text_of(v: i128) -> Seq<char> {
        decimal::integer_text(v as int)
    }

    open spec fn item_of(text: Seq<char>) -> Option<i128> {
        match decimal::signed_of(text) {
            Some(n) => if i128::MIN <= n && n <= i128::MAX {
                Some(n as i128)
            } else {
                None
            },
            None => None,
        }
    }

    fn to_text(&self) -> (text: String) {
        decimal::format_signed(*self as i128)
    }

    fn from_text(text: &str) -> (item: Option<Self>) {
        match decimal::parse_signed(text) {
            Some(n) => if i128::MIN as i128 <= n && n <= i128::MAX as i128 {
                Some(n as i128)
            } else {
                None
            },
            None => None,
        }
    }
}

impl TextItem for isize {
    open spec fn text_of(v: isize) -> Seq<char> {
        decimal::integer_text(v as int)
    }

    open spec fn item_of(text: Seq<char>) -> Option<isize> {
        match decimal::signed_of(text) {
            Some(n) => if isize::MIN <= n && n <= isize::MAX {
                Some(n as isize)
            } else {
                None
            },
            None => None,
        }
    }

    fn to_text(&self) -> (text: String) {
        decimal::format_signed(*self as i128)
    }

    fn from_text(text: &str) -> (item: Option<Self>) {
        match decimal::parse_signed(text) {
            Some(n) => if isize::MIN as i128 <= n && n <= isize::MAX as i128 {
                Some(n as isize)
            } else {
                None
            },
            None => None,
        }
    }
}

/// Every list of `u8` is saved one number to a line and loads back as it
/// was.
pub proof fn law_u8_reads_back(items: Seq<u8>)
    ensures
        laws::fits_lines::<u8>(items),
        laws::reads_back::<u8>(items),
        codec::parse_text::<u8>(codec::render_lines::<u8>(items)) == items,
{
    assert forall|i: int| 0 <= i < items.len() implies laws::is_one_line(
        <u8 as TextItem>::text_of(#[trigger] items[i]),
    ) && codec::line_item::<u8>(<u8 as TextItem>::text_of(items[i])) == Some(items[i]) by {
        decimal::lemma_unsigned_reads_back(items[i] as nat);
    }
    laws::law_round_trip::<u8>(items);
}

/// Every list of `u16` is saved one number to a line and loads back as it
/// was.
pub proof fn law_u16_reads_back(items: Seq<u16>)
    ensures
        laws::fits_lines::<u16>(items),
        laws::reads_back::<u16>(items),
        codec::parse_text::<u16>(codec::render_lines::<u16>(items)) == items,
{
    assert forall|i: int| 0 <= i < items.len() implies laws::is_one_line(
        <u16 as TextItem>::text_of(#[trigger] items[i]),
    ) && codec::line_item::<u16>(<u16 as TextItem>::text_of(items[i])) == Some(items[i]) by {
        decimal::lemma_unsigned_reads_back(items[i] as nat);
    }
    laws::law_round_trip::<u16>(items);
}

/// Every list of `u32` is saved one number to a line and loads back as it
/// was.
pub proof fn law_u32_reads_back(items: Seq<u32>)
    ensures
        laws::fits_lines::<u32>(items),
        laws::reads_back::<u32>(items),
        codec::parse_text::<u32>(codec::render_lines::<u32>(items)) == items,
{
    assert forall|i: int| 0 <= i < items.len() implies laws::is_one_line(
        <u32 as TextItem>::text_of(#[trigger] items[i]),
    ) && codec::line_item::<u32>(<u32 as TextItem>::text_of(items[i])) == Some(items[i]) by {
        decimal::lemma_unsigned_reads_back(items[i] as nat);
    }
    laws::law_round_trip::<u32>(items);
}

/// Every list of `u64` is saved one number to a line and loads back as it
/// was.
pub proof fn law_u64_reads_back(items: Seq<u64>)
    ensures
        laws::fits_lines::<u64>(items),
        laws::reads_back::<u64>(items),
        codec::parse_text::<u64>(codec::render_lines::<u64>(items)) == items,
{
    assert forall|i: int| 0 <= i < items.len() implies laws::is_one_line(
        <u64 as TextItem>::text_of(#[trigger] items[i]),
    ) && codec::line_item::<u64>(<u64 as TextItem>::text_of(items[i])) == Some(items[i]) by {
        decimal::lemma_unsigned_reads_back(items[i] as nat);
    }
    laws::law_round_trip::<u64>(items);
}

/// Every list of `u128` is saved one number to a line and loads back as it
/// was.
pub proof fn law_u128_reads_back(items: Seq<u128>)
    ensures
        laws::fits_lines::<u128>(items),
        laws::reads_back::<u128>(items),
        codec::parse_text::<u128>(codec::render_lines::<u128>(items)) == items,
{
    assert forall|i: int| 0 <= i < items.len() implies laws::is_one_line(
        <u128 as TextItem>::text_of(#[trigger] items[i]),
    ) && codec::line_item::<u128>(<u128 as TextItem>::text_of(items[i])) == Some(items[i]) by {
        decimal::lemma_unsigned_reads_back(items[i] as nat);
    }
    laws::law_round_trip::<u128>(items);
}

/// Every list of `usize` is saved one number to a line and loads back as it
/// was.
pub proof fn law_usize_reads_back(items: Seq<usize>)
    ensures
        laws::fits_lines::<usize>(items),
        laws::reads_back::<usize>(items),
        codec::parse_text::<usize>(codec::render_lines::<usize>(items)) == items,
{
    assert forall|i: int| 0 <= i < items.len() implies laws::is_one_line(
        <usize as TextItem>::text_of(#[trigger] items[i]),
    ) && codec::line_item::<usize>(<usize as TextItem>::text_of(items[i])) == Some(items[i]) by {
        decimal::lemma_unsigned_reads_back(items[i] as nat);
    }
    laws::law_round_trip::<usize>(items);
}

/// Every list of `i8` is saved one number to a line and loads back as it
/// was.
pub proof fn law_i8_reads_back(items: Seq<i8>)
    ensures
        laws::fits_lines::<i8>(items),
        laws::reads_back::<i8>(items),
        codec::parse_text::<i8>(codec::render_lines::<i8>(items)) == items,
{
    assert forall|i: int| 0 <= i < items.len() implies laws::is_one_line(
        <i8 as TextItem>::text_of(#[trigger] items[i]),
    ) && codec::line_item::<i8>(<i8 as TextItem>::text_of(items[i])) == Some(items[i]) by {
        decimal::lemma_signed_reads_back(items[i] as int);
    }
    laws::law_round_trip::<i8>(items);
}

/// Every list of `i16` is saved one number to a line and loads back as it
/// was.
pub proof fn law_i16_reads_back(items: Seq<i16>)
    ensures
        laws::fits_lines::<i16>(items),
        laws::reads_back::<i16>(items),
        codec::parse_text::<i16>(codec::render_lines::<i16>(items)) == items,
{
    assert forall|i: int| 0 <= i < items.len() implies laws::is_one_line(
        <i16 as TextItem>::text_of(#[trigger] items[i]),
    ) && codec::line_item::<i16>(<i16 as TextItem>::text_of(items[i])) == Some(items[i]) by {
        decimal::lemma_signed_reads_back(items[i] as int);
    }
    laws::law_round_trip::<i16>(items);
}

/// Every list of `i32` is saved one number to a line and loads back as it
/// was.
pub proof fn law_i32_reads_back(items: Seq<i32>)
    ensures
        laws::fits_lines::<i32>(items),
        laws::reads_back::<i32>(items),
        codec::parse_text::<i32>(codec::render_lines::<i32>(items)) == items,
{
    assert forall|i: int| 0 <= i < items.len() implies laws::is_one_line(
        <i32 as TextItem>::text_of(#[trigger] items[i]),
    ) && codec::line_item::<i32>(<i32 as TextItem>::text_of(items[i])) == Some(items[i]) by {
        decimal::lemma_signed_reads_back(items[i] as int);
    }
    laws::law_round_trip::<i32>(items);
}

/// Every list of `i64` is saved one number to a line and loads back as it
/// was.
pub proof fn law_i64_reads_back(items: Seq<i64>)
    ensures
        laws::fits_lines::<i64>(items),
        laws::reads_back::<i64>(items),
        codec::parse_text::<i64>(codec::render_lines::<i64>(items)) == items,
{
    assert forall|i: int| 0 <= i < items.len() implies laws::is_one_line(
        <i64 as TextItem>::text_of(#[trigger] items[i]),
    ) && codec::line_item::<i64>(<i64 as TextItem>::text_of(items[i])) == Some(items[i]) by {
        decimal::lemma_signed_reads_back(items[i] as int);
    }
    laws::law_round_trip::<i64>(items);
}

/// Every list of `i128` is saved one number to a line and loads back as it
/// was.
pub proof fn law_i128_reads_back(items: Seq<i128>)
    ensures
        laws::fits_lines::<i128>(items),
        laws::reads_back::<i128>(items),
        codec::parse_text::<i128>(codec::render_lines::<i128>(items)) == items,
{
    assert forall|i: int| 0 <= i < items.len() implies laws::is_one_line(
        <i128 as TextItem>::text_of(#[trigger] items[i]),
    ) && codec::line_item::<i128>(<i128 as TextItem>::text_of(items[i])) == Some(items[i]) by {
        decimal::lemma_signed_reads_back(items[i] as int);
    }
    laws::law_round_trip::<i128>(items);
}

/// Every list of `isize` is saved one number to a line and loads back as it
/// was.
pub proof fn law_isize_reads_back(items: Seq<isize>)
    ensures
        laws::fits_lines::<isize>(items),
        laws::reads_back::<isize>(items),
        codec::parse_text::<isize>(codec::render_lines::<isize>(items)) == items,
{
    assert forall|i: int| 0 <= i < items.len() implies laws::is_one_line(
        <isize as TextItem>::text_of(#[trigger] items[i]),
    ) && codec::line_item::<isize>(<isize as TextItem>::text_of(items[i])) == Some(items[i]) by {
        decimal::lemma_signed_reads_back(items[i] as int);
    }
    laws::law_round_trip::<isize>(items);
}

} // verus!
