//! What each operation does for a caller who asked for the list and may have
//! been turned away.
//!
//! `access` is the list where the caller reached it, and `None` where the
//! caller was turned away. A caller who was turned away changes nothing and is
//! answered as by an empty list.

use vstd::prelude::*;
use crate::codec;
use crate::item;
use crate::item::Item;
use crate::item::TextItem;
use crate::list::FileWrite;
use crate::list::StateList;
use crate::order;
use crate::order::ItemOrder;
use crate::sequence;

verus! {

/// `content` is the file of the items of `entries` that `match_fn` accepted,
/// `mask` holding its answers.
pub open spec fn is_saved_from<T: TextItem, F: Fn(&T) -> bool>(
    content: Seq<char>,
    match_fn: F,
    entries: Seq<T>,
    mask: Seq<bool>,
) -> bool {
    &&& sequence::answers(match_fn, entries, mask)
    &&& content == codec::render_lines::<T>(item::views_of(sequence::select(entries, mask)))
}

/// Installs a fresh, empty sequence in the list that was reached. Returns
/// whether one was reached.
pub fn init_empty<T>(access: Option<&mut StateList<T>>) -> (done: bool)
    ensures
        done == access is Some,
        access matches Some(list) ==> {
            &&& final(list).is_initialized()
            &&& final(list).entries() == Seq::<T>::empty()
            &&& final(list).bound_path() == list.bound_path()
        },
{
    match access {
        Some(list) => {
            list.init_empty();
            true
        },
        None => false,
    }
}

/// Puts `list` in the place of the list that was reached. Hands `list` back
/// where none was reached.
pub fn replace<T>(access: Option<&mut StateList<T>>, list: StateList<T>) -> (left: Option<
    StateList<T>,
>)
    ensures
        access matches Some(current) ==> left is None && *final(current) == list,
        access is None ==> left == Some(list),
{
    match access {
        Some(current) => {
            *current = list;
            None
        },
        None => Some(list),
    }
}

/// Keeps the items that `match_fn` accepts in the list that was reached.
/// Returns whether one was reached.
pub fn retain_matching<T, F: Fn(&T) -> bool>(access: Option<&mut StateList<T>>, match_fn: F) -> (done:
    bool)
    requires
        access matches Some(list) ==> forall|i: int|
            0 <= i < list.entries().len() ==> call_requires(
                match_fn,
                (&#[trigger] list.entries()[i],),
            ),
    ensures
        done == access is Some,
        access matches Some(list) ==> {
            &&& final(list).is_initialized() == list.is_initialized()
            &&& final(list).bound_path() == list.bound_path()
            &&& exists|mask: Seq<bool>|
                sequence::answers(match_fn, list.entries(), mask) && final(list).entries()
                    == sequence::select(list.entries(), mask)
        },
{
    match access {
        Some(list) => {
            list.retain_matching(match_fn);
            true
        },
        None => false,
    }
}

/// Appends `item` to the list that was reached; the item is dropped where
/// none was. Returns whether one was reached.
pub fn add_item<T>(access: Option<&mut StateList<T>>, item: T) -> (done: bool)
    ensures
        done == access is Some,
        access matches Some(list) ==> {
            &&& final(list).is_initialized() == list.is_initialized()
            &&& final(list).bound_path() == list.bound_path()
            &&& final(list).entries() == if list.is_initialized() {
                list.entries().push(item)
            } else {
                list.entries()
            }
        },
{
    match access {
        Some(list) => {
            list.add_item(item);
            true
        },
        None => false,
    }
}

/// Whether the list that was reached holds an item equal to `item`; `false`
/// where none was reached.
pub fn contains<T: Item>(access: Option<&StateList<T>>, item: &T) -> (found: bool)
    ensures
        found == (access matches Some(list) && sequence::holds(list.entries(), item@)),
{
    match access {
        Some(list) => list.contains(item),
        None => false,
    }
}

/// The number of items of the list that was reached; 0 where none was
/// reached.
pub fn length<T>(access: Option<&StateList<T>>) -> (n: usize)
    ensures
        n == (match access {
            Some(list) => list.entries().len(),
            None => 0,
        }),
{
    match access {
        Some(list) => list.length(),
        None => 0,
    }
}

/// Removes the last item of the list that was reached and returns it; `None`
/// where that list is empty or none was reached.
pub fn pop<T>(access: Option<&mut StateList<T>>) -> (last: Option<T>)
    ensures
        access is None ==> last is None,
        access matches Some(list) ==> {
            &&& final(list).is_initialized() == list.is_initialized()
            &&& final(list).bound_path() == list.bound_path()
            &&& list.entries().len() == 0 ==> last is None && final(list).entries()
                == list.entries()
            &&& list.entries().len() > 0 ==> last == Some(list.entries().last())
                && final(list).entries() == list.entries().drop_last()
        },
{
    match access {
        Some(list) => list.pop(),
        None => None,
    }
}

/// Removes the first item equal to `item` from the list that was reached.
/// Returns whether one was reached.
pub fn remove<T: Item>(access: Option<&mut StateList<T>>, item: &T) -> (done: bool)
    ensures
        done == access is Some,
        access matches Some(list) ==> {
            &&& final(list).is_initialized() == list.is_initialized()
            &&& final(list).bound_path() == list.bound_path()
            &&& final(list).entries() == sequence::remove_first(list.entries(), item@)
        },
{
    match access {
        Some(list) => {
            list.remove(item);
            true
        },
        None => false,
    }
}

/// Copies of the items of the list that was reached; none where none was
/// reached.
pub fn get_entries<T: Item>(access: Option<&StateList<T>>) -> (entries: Vec<T>)
    ensures
        item::views_of(entries@) == (match access {
            Some(list) => item::views_of(list.entries()),
            None => Seq::empty(),
        }),
{
    match access {
        Some(list) => list.get_entries(),
        None => Vec::new(),
    }
}

/// Sorts and deduplicates the list that was reached. Returns whether one was
/// reached.
pub fn sort_dedup_list<T: Item, O: ItemOrder<T>>(access: Option<&mut StateList<T>>, sorting: &O) -> (done:
    bool)
    ensures
        done == access is Some,
        access matches Some(list) ==> {
            &&& final(list).is_initialized() == list.is_initialized()
            &&& final(list).bound_path() == list.bound_path()
            &&& final(list).entries() == sequence::dedup_adjacent(
                order::sort_by(*sorting, list.entries()),
            )
        },
{
    match access {
        Some(list) => {
            list.sort_dedup_list(sorting);
            true
        },
        None => false,
    }
}

/// The request that mirrors the accepted items of the list that was reached
/// to its file; none where no list was reached, or the one reached is
/// uninitialized or bound to no path.
pub fn save_matching<T: TextItem, F: Fn(&T) -> bool>(access: Option<&StateList<T>>, match_fn: F) -> (request:
    Option<FileWrite>)
    requires
        access matches Some(list) ==> forall|i: int|
            0 <= i < list.entries().len() ==> call_requires(
                match_fn,
                (&#[trigger] list.entries()[i],),
            ),
    ensures
        request is Some <==> (access matches Some(list) && list.is_initialized()
            && list.bound_path() is Some),
        request matches Some(w) ==> {
            &&& access matches Some(list)
            &&& Some(w.path@) == list.bound_path()
            &&& exists|mask: Seq<bool>|
                is_saved_from(w.content@, match_fn, list.entries(), mask)
        },
{
    match access {
        Some(list) => {
            let request = list.save_matching(match_fn);
            proof {
                if request is Some {
                    let mask = choose|mask: Seq<bool>|
                        sequence::answers(match_fn, list.entries(), mask) && request->0.content@
                            == codec::render_lines::<T>(
                            item::views_of(sequence::select(list.entries(), mask)),
                        );
                    assert(is_saved_from(request->0.content@, match_fn, list.entries(), mask));
                }
            }
            request
        },
        None => None,
    }
}

/// The request that mirrors all items of the list that was reached to its
/// file; none where no list was reached, or the one reached is uninitialized
/// or bound to no path.
pub fn save_state<T: TextItem>(access: Option<&StateList<T>>) -> (request: Option<FileWrite>)
    ensures
        request is Some <==> (access matches Some(list) && list.is_initialized()
            && list.bound_path() is Some),
        request matches Some(w) ==> {
            &&& access matches Some(list)
            &&& Some(w.path@) == list.bound_path()
            &&& w.content@ == codec::render_lines::<T>(item::views_of(list.entries()))
        },
{
    match access {
        Some(list) => list.save_state(),
        None => None,
    }
}

/// Installs in the list that was reached the items that `instr` stands for,
/// and returns the rejected lines. Hands `instr` back where none was reached.
pub fn init_string<T: TextItem>(access: Option<&mut StateList<T>>, instr: String) -> (outcome: Result<
    Vec<String>,
    String,
>)
    ensures
        access is None ==> outcome == Err::<Vec<String>, String>(instr),
        access matches Some(list) ==> {
            &&& outcome matches Ok(rejected) && item::views_of(rejected@)
                == codec::rejected_text::<T>(instr@)
            &&& final(list).is_initialized()
            &&& final(list).bound_path() == list.bound_path()
            &&& item::views_of(final(list).entries()) == codec::parse_text::<T>(instr@)
        },
{
    match access {
        Some(list) => Ok(list.init_string(instr)),
        None => Err(instr),
    }
}

} // verus!
