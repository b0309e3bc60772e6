//! What a type has to offer to be kept in a state list.

use vstd::prelude::*;

verus! {

/// A value that can be compared with another of its kind and copied out.
///
/// Equality of items is equality of their views. Strings, integers, `bool`
/// and `char` are items.
pub trait Item: View + Sized {
    /// Decides whether two items have the same view.
    fn is_same(&self, other: &Self) -> (b: bool)
        ensures
            b == (self@ == other@),
    ;

    /// An independent copy of the item.
    fn duplicate(&self) -> (copy: Self)
        ensures
            copy@ == self@,
    ;
}

/// An item with a one-line textual form, for persistence. Strings and
/// integers have one.
pub trait TextItem: Item {
    /// The text that stands for an item in a file.
    spec fn text_of(v: Self::V) -> Seq<char>;

    /// The item that a line of text stands for, if it stands for any.
    spec fn item_of(text: Seq<char>) -> Option<Self::V>;

    /// Encodes the item.
    fn to_text(&self) -> (text: String)
        ensures
            text@ == Self::text_of(self@),
    ;

    /// Decodes a line; `None` where the line is malformed.
    fn from_text(text: &str) -> (item: Option<Self>)
        ensures
            item.is_some() == Self::item_of(text@).is_some(),
            item matches Some(x) ==> Self::item_of(text@) == Some(x@),
    ;
}

impl Item for String {
    fn is_same(&self, other: &Self) -> (b: bool) {
        *self == *other
    }

    fn duplicate(&self) -> (copy: Self) {
        self.clone()
    }
}

impl TextItem for String {
    open spec fn text_of(v: Seq<char>) -> Seq<char> {
        v
    }

    open spec fn item_of(text: Seq<char>) -> Option<Seq<char>> {
        Some(text)
    }

    fn to_text(&self) -> (text: String) {
        self.clone()
    }

    fn from_text(text: &str) -> (item: Option<Self>) {
        Some(text.to_owned())
    }
}

impl Item for bool {
    fn is_same(&self, other: &Self) -> (b: bool) {
        *self == *other
    }

    fn duplicate(&self) -> (copy: Self) {
        *self
    }
}

impl Item for char {
    fn is_same(&self, other: &Self) -> (b: bool) {
        *self == *other
    }

    fn duplicate(&self) -> (copy: Self) {
        *self
    }
}

impl Item for u8 {
    fn is_same(&self, other: &Self) -> (b: bool) {
        *self == *other
    }

    fn duplicate(&self) -> (copy: Self) {
        *self
    }
}

impl Item for u16 {
    fn is_same(&self, other: &Self) -> (b: bool) {
        *self == *other
    }

    fn duplicate(&self) -> (copy: Self) {
        *self
    }
}

impl Item for u32 {
    fn is_same(&self, other: &Self) -> (b: bool) {
        *self == *other
    }

    fn duplicate(&self) -> (copy: Self) {
        *self
    }
}

impl Item for u64 {
    fn is_same(&self, other: &Self) -> (b: bool) {
        *self == *other
    }

    fn duplicate(&self) -> (copy: Self) {
        *self
    }
}

impl Item for u128 {
    fn is_same(&self, other: &Self) -> (b: bool) {
        *self == *other
    }

    fn duplicate(&self) -> (copy: Self) {
        *self
    }
}

impl Item for usize {
    fn is_same(&self, other: &Self) -> (b: bool) {
        *self == *other
    }

    fn duplicate(&self) -> (copy: Self) {
        *self
    }
}

impl Item for i8 {
    fn is_same(&self, other: &Self) -> (b: bool) {
        *self == *other
    }

    fn duplicate(&self) -> (copy: Self) {
        *self
    }
}

impl Item for i16 {
    fn is_same(&self, other: &Self) -> (b: bool) {
        *self == *other
    }

    fn duplicate(&self) -> (copy: Self) {
        *self
    }
}

impl Item for i32 {
    fn is_same(&self, other: &Self) -> (b: bool) {
        *self == *other
    }

    fn duplicate(&self) -> (copy: Self) {
        *self
    }
}

impl Item for i64 {
    fn is_same(&self, other: &Self) -> (b: bool) {
        *self == *other
    }

    fn duplicate(&self) -> (copy: Self) {
        *self
    }
}

impl Item for i128 {
    fn is_same(&self, other: &Self) -> (b: bool) {
        *self == *other
    }

    fn duplicate(&self) -> (copy: Self) {
        *self
    }
}

impl Item for isize {
    fn is_same(&self, other: &Self) -> (b: bool) {
        *self == *other
    }

    fn duplicate(&self) -> (copy: Self) {
        *self
    }
}

/// The views of a sequence of items, in order.
pub open spec fn views_of<T: View>(items: Seq<T>) -> Seq<T::V> {
    items.map_values(|x: T| x@)
}

} // verus!
