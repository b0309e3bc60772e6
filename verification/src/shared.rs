//! A state list behind a reader-writer lock that is never waited for.
//!
//! Every operation asks for the lock once. Where the lock is not free, or no
//! list has been installed yet, the operation does nothing and answers as an
//! empty list would.

use vstd::prelude::*;
use state::Storage;
use std::sync::RwLock;
use std::sync::RwLockReadGuard;
use std::sync::RwLockWriteGuard;
use crate::access;
use crate::codec;
use crate::item;
use crate::item::Item;
use crate::item::TextItem;
use crate::list::FileWrite;
use crate::list::StateList;
use crate::order::ItemOrder;

verus! {

/// `state::Storage`: a cell that is set at most once. Opaque here.
#[verifier::external_type_specification]
#[verifier::external_body]
#[verifier::reject_recursive_types(T)]
pub struct ExStorage<T>(Storage<T>);

/// `std::sync::RwLock`. Opaque here.
#[verifier::external_type_specification]
#[verifier::external_body]
#[verifier::reject_recursive_types(T)]
pub struct ExRwLock<T: ?Sized>(RwLock<T>);

/// `std::sync::RwLockReadGuard`. Opaque here.
#[verifier::external_type_specification]
#[verifier::external_body]
#[verifier::reject_recursive_types(T)]
pub struct ExRwLockReadGuard<'a, T: ?Sized>(RwLockReadGuard<'a, T>);

/// `std::sync::RwLockWriteGuard`. Opaque here.
#[verifier::external_type_specification]
#[verifier::external_body]
#[verifier::reject_recursive_types(T)]
pub struct ExRwLockWriteGuard<'a, T: ?Sized + 'a>(RwLockWriteGuard<'a, T>);

/// Calls `Storage::new`. Trusted; nothing is claimed of the cell.
#[verifier::external_body]
fn cell_new<V>() -> (cell: Storage<V>) {
    Storage::new()
}

/// Calls `Storage::set`, which stores the value unless one is stored
/// already. Trusted; nothing is claimed of the answer.
#[verifier::external_body]
fn cell_set<V: Send + Sync>(cell: &Storage<V>, value: V) -> (stored: bool) {
    cell.set(value)
}

/// Calls `Storage::try_get`. Trusted; nothing is claimed of the answer.
#[verifier::external_body]
fn cell_try_get<V: Send + Sync>(cell: &Storage<V>) -> (value: Option<&V>) {
    cell.try_get()
}

/// Calls `RwLock::new`. Trusted; nothing is claimed of the lock.
#[verifier::external_body]
fn lock_new<V>(value: V) -> (lock: RwLock<V>) {
    RwLock::new(value)
}

/// Calls `RwLock::try_read`; a lock that is held or poisoned gives `None`.
/// Trusted; nothing is claimed of the answer.
#[verifier::external_body]
fn lock_try_read<'a, V>(lock: &'a RwLock<V>) -> (guard: Option<RwLockReadGuard<'a, V>>) {
    lock.try_read().ok()
}

/// Calls `RwLock::try_write`; a lock that is held or poisoned gives `None`.
/// Trusted; nothing is claimed of the answer.
#[verifier::external_body]
fn lock_try_write<'a, V>(lock: &'a RwLock<V>) -> (guard: Option<RwLockWriteGuard<'a, V>>) {
    lock.try_write().ok()
}

/// Borrows what a read guard protects. Trusted; nothing is claimed of the
/// value.
#[verifier::external_body]
fn guard_get<'a, 'b, V>(guard: &'a RwLockReadGuard<'b, V>) -> (value: &'a V) {
    &**guard
}

/// Borrows what a write guard protects, for change. Trusted; nothing is
/// claimed of the value.
#[verifier::external_body]
fn guard_get_mut<'a, 'b, V>(guard: &'a mut RwLockWriteGuard<'b, V>) -> (value: &'a mut V) {
    &mut **guard
}

/// A state list that many callers share. No caller ever waits: an operation
/// that finds the lock taken is dropped.
///
/// Whether an operation reaches the list depends on what other callers do at
/// that moment, and nothing here can promise that it does. Each operation
/// asks for the lock and hands the outcome to the function of the same name
/// in `access`, which states what is done and returned for each outcome.
#[verifier::reject_recursive_types(T)]
pub struct SharedStateList<T> {
    cell: Storage<RwLock<StateList<T>>>,
}

impl<T: Item + Send + Sync> SharedStateList<T> {
    /// A handle with no list installed yet.
    pub fn new() -> (shared: Self) {
        SharedStateList { cell: cell_new() }
    }

    /// Shared access to the list, unless a writer holds it or none is
    /// installed. While the guard lives, writers are turned away.
    pub fn read_access(&self) -> (guard: Option<RwLockReadGuard<'_, StateList<T>>>) {
        match cell_try_get(&self.cell) {
            Some(lock) => lock_try_read(lock),
            None => None,
        }
    }

    /// Exclusive access to the list, unless anyone holds it or none is
    /// installed. While the guard lives, every other caller is turned away.
    pub fn write_access(&self) -> (guard: Option<RwLockWriteGuard<'_, StateList<T>>>) {
        match cell_try_get(&self.cell) {
            Some(lock) => lock_try_write(lock),
            None => None,
        }
    }

    /// Installs `list` where none is installed; otherwise puts it in the
    /// place of the installed one. Returns whether it is in place.
    fn install(&self, list: StateList<T>) -> (done: bool) {
        let left = match self.write_access() {
            Some(mut guard) => access::replace(Some(guard_get_mut(&mut guard)), list),
            None => access::replace(None, list),
        };
        match left {
            Some(list) => cell_set(&self.cell, lock_new(list)),
            None => true,
        }
    }

    /// Installs a fresh, empty sequence. Returns whether it did.
    pub fn init_empty(&self) -> (done: bool) {
        let reached = match self.write_access() {
            Some(mut guard) => access::init_empty(Some(guard_get_mut(&mut guard))),
            None => access::init_empty::<T>(None),
        };
        if reached {
            true
        } else {
            let mut list = StateList::new();
            list.init_empty();
            cell_set(&self.cell, lock_new(list))
        }
    }

    /// Keeps the items that `match_fn` accepts. Returns whether the list
    /// was reached.
    pub fn retain_matching<F: Fn(&T) -> bool>(&self, match_fn: F) -> (done: bool)
        requires
            forall|x: T| call_requires(match_fn, (&x,)),
    {
        match self.write_access() {
            Some(mut guard) => access::retain_matching(Some(guard_get_mut(&mut guard)), match_fn),
            None => access::retain_matching::<T, F>(None, match_fn),
        }
    }

    /// Appends `item`. Returns whether the list was reached; if not, the
    /// item is dropped.
    pub fn add_item(&self, item: T) -> (done: bool) {
        match self.write_access() {
            Some(mut guard) => access::add_item(Some(guard_get_mut(&mut guard)), item),
            None => access::add_item(None, item),
        }
    }

    /// Whether some item equals `item`; `false` where the list was not
    /// reached.
    pub fn contains(&self, item: &T) -> (found: bool) {
        match self.read_access() {
            Some(guard) => access::contains(Some(guard_get(&guard)), item),
            None => access::contains(None, item),
        }
    }

    /// The number of items; 0 where the list was not reached.
    pub fn length(&self) -> (n: usize) {
        match self.read_access() {
            Some(guard) => access::length(Some(guard_get(&guard))),
            None => access::length::<T>(None),
        }
    }

    /// Removes the last item and returns it; `None` where there is none or
    /// the list was not reached.
    pub fn pop(&self) -> (last: Option<T>) {
        match self.write_access() {
            Some(mut guard) => access::pop(Some(guard_get_mut(&mut guard))),
            None => access::pop(None),
        }
    }

    /// Removes the first item that equals `item`. Returns whether the list
    /// was reached.
    pub fn remove(&self, item: &T) -> (done: bool) {
        match self.write_access() {
            Some(mut guard) => access::remove(Some(guard_get_mut(&mut guard)), item),
            None => access::remove(None, item),
        }
    }

    /// Copies of all items; none where the list was not reached.
    pub fn get_entries(&self) -> (entries: Vec<T>) {
        match self.read_access() {
            Some(guard) => access::get_entries(Some(guard_get(&guard))),
            None => access::get_entries(None),
        }
    }

    /// Sorts and deduplicates the items. Returns whether the list was
    /// reached.
    pub fn sort_dedup_list<O: ItemOrder<T>>(&self, sorting: &O) -> (done: bool) {
        match self.write_access() {
            Some(mut guard) => access::sort_dedup_list(Some(guard_get_mut(&mut guard)), sorting),
            None => access::sort_dedup_list(None, sorting),
        }
    }
}

impl<T: TextItem + Send + Sync> SharedStateList<T> {
    /// Loads a list from the content of the file at `file_path` and installs
    /// it. Returns the rejected lines, or `None` where the list could not be
    /// put in place.
    pub fn load(&self, file_path: String, content: Option<String>) -> (rejected: Option<
        Vec<String>,
    >)
        ensures
            rejected matches Some(lines) ==> item::views_of(lines@) == codec::rejected_text::<T>(
                match content {
                    Some(t) => t@,
                    None => Seq::empty(),
                },
            ),
    {
        let mut list = StateList::new();
        let rejected = list.load(file_path, content);
        if self.install(list) {
            Some(rejected)
        } else {
            None
        }
    }

    /// The request that mirrors the accepted items to the bound file; `None`
    /// where the list was not reached or is bound to no path. The lock is
    /// asked for exclusively, so that no change happens meanwhile. Whatever
    /// list was reached, the content is the file of those of its items that
    /// `match_fn` accepted.
    pub fn save_matching<F: Fn(&T) -> bool>(&self, match_fn: F) -> (request: Option<FileWrite>)
        requires
            forall|x: T| call_requires(match_fn, (&x,)),
        ensures
            request matches Some(w) ==> exists|entries: Seq<T>, mask: Seq<bool>|
                access::is_saved_from(w.content@, match_fn, entries, mask),
    {
        match self.write_access() {
            Some(mut guard) => {
                let list = guard_get_mut(&mut guard);
                let request = access::save_matching(Some(&*list), match_fn);
                proof {
                    if request is Some {
                        let mask = choose|mask: Seq<bool>|
                            access::is_saved_from(
                                request->0.content@,
                                match_fn,
                                list.entries(),
                                mask,
                            );
                        assert(access::is_saved_from(
                            request->0.content@,
                            match_fn,
                            list.entries(),
                            mask,
                        ));
                    }
                }
                request
            },
            None => access::save_matching::<T, F>(None, match_fn),
        }
    }

    /// The request that mirrors all items to the bound file. Whatever list
    /// was reached, the content is the file of its items.
    pub fn save_state(&self) -> (request: Option<FileWrite>)
        ensures
            request matches Some(w) ==> exists|entries: Seq<T>|
                w.content@ == codec::render_lines::<T>(#[trigger] item::views_of(entries)),
    {
        match self.write_access() {
            Some(mut guard) => {
                let list = guard_get_mut(&mut guard);
                let request = access::save_state(Some(&*list));
                proof {
                    if request is Some {
                        assert(request->0.content@ == codec::render_lines::<T>(
                            item::views_of(list.entries()),
                        ));
                    }
                }
                request
            },
            None => access::save_state::<T>(None),
        }
    }

    /// Installs the items that `instr` stands for and keeps the bound path.
    /// Returns the rejected lines, or `None` where the list could not be put
    /// in place.
    pub fn init_string(&self, instr: String) -> (rejected: Option<Vec<String>>)
        ensures
            rejected matches Some(lines) ==> item::views_of(lines@) == codec::rejected_text::<T>(
                instr@,
            ),
    {
        let outcome = match self.write_access() {
            Some(mut guard) => access::init_string(Some(guard_get_mut(&mut guard)), instr),
            None => access::init_string::<T>(None, instr),
        };
        match outcome {
            Ok(rejected) => Some(rejected),
            Err(instr) => {
                let mut list = StateList::new();
                let rejected = list.init_string(instr);
                if cell_set(&self.cell, lock_new(list)) {
                    Some(rejected)
                } else {
                    None
                }
            },
        }
    }
}

} // verus!
