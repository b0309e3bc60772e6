//! The state list: an ordered collection of items that is bound to a file.

use vstd::prelude::*;
use crate::codec;
use crate::item;
use crate::item::Item;
use crate::item::TextItem;
use crate::order;
use crate::order::ItemOrder;
use crate::sequence;
use crate::text;

verus! {

/// A request to replace the whole content of the file at `path`.
#[derive(Debug, Clone, PartialEq, Eq)]
pub struct FileWrite {
    pub path: String,
    pub content: String,
}

/// An ordered collection of items with the path of the file that mirrors it.
///
/// A list starts uninitialized: it holds no sequence at all. `init_empty`,
/// `init_string` and `load` install one. On an uninitialized list the other
/// operations change nothing and answer as an empty list would.
pub struct StateList<T> {
    path: Option<String>,
    items: Option<Vec<T>>,
}

impl<T> StateList<T> {
    /// Whether a sequence has been installed.
    pub closed spec fn is_initialized(&self) -> bool {
        self.items is Some
    }

    /// The items, in order; empty while the list is uninitialized.
    pub closed spec fn entries(&self) -> Seq<T> {
        match self.items {
            Some(v) => v@,
            None => Seq::empty(),
        }
    }

    /// The path that the list is bound to, if `load` has bound one.
    pub closed spec fn bound_path(&self) -> Option<Seq<char>> {
        match self.path {
            Some(p) => Some(p@),
            None => None,
        }
    }

    /// An uninitialized list, bound to no path.
    pub fn new() -> (list: Self)
        ensures
            !list.is_initialized(),
            list.entries() == Seq::<T>::empty(),
            list.bound_path() is None,
    {
        StateList { path: None, items: None }
    }

    /// Installs a fresh, empty sequence in place of whatever was there.
    pub fn init_empty(&mut self)
        ensures
            final(self).is_initialized(),
            final(self).entries() == Seq::<T>::empty(),
            final(self).bound_path() == old(self).bound_path(),
    {
        self.items = Some(Vec::new());
    }

    /// Keeps the items that `match_fn` accepts, in their order.
    pub fn retain_matching<F: Fn(&T) -> bool>(&mut self, match_fn: F)
        requires
            forall|i: int|
                0 <= i < old(self).entries().len() ==> call_requires(
                    match_fn,
                    (&#[trigger] old(self).entries()[i],),
                ),
        ensures
            final(self).is_initialized() == old(self).is_initialized(),
            final(self).bound_path() == old(self).bound_path(),
            exists|mask: Seq<bool>|
                sequence::answers(match_fn, old(self).entries(), mask) && final(self).entries()
                    == sequence::select(old(self).entries(), mask),
    {
        match self.items.take() {
            Some(v) => {
                assert(v@ == old(self).entries());
                self.items = Some(sequence::retain(v, match_fn));
            },
            None => {
                assert(self.entries() == sequence::select(self.entries(), Seq::<bool>::empty()));
            },
        }
    }

    /// Appends `item` at the end.
    pub fn add_item(&mut self, item: T)
        ensures
            final(self).is_initialized() == old(self).is_initialized(),
            final(self).bound_path() == old(self).bound_path(),
            final(self).entries() == if old(self).is_initialized() {
                old(self).entries().push(item)
            } else {
                old(self).entries()
            },
    {
        match self.items.take() {
            Some(mut v) => {
                v.push(item);
                self.items = Some(v);
            },
            None => {},
        }
    }

    /// The number of items.
    pub fn length(&self) -> (n: usize)
        ensures
            n == self.entries().len(),
    {
        match &self.items {
            Some(v) => v.len(),
            None => 0,
        }
    }

    /// Removes the last item and returns it; `None` where there is none.
    pub fn pop(&mut self) -> (last: Option<T>)
        ensures
            final(self).is_initialized() == old(self).is_initialized(),
            final(self).bound_path() == old(self).bound_path(),
            old(self).entries().len() == 0 ==> last is None && final(self).entries() == old(
                self,
            ).entries(),
            old(self).entries().len() > 0 ==> last == Some(old(self).entries().last())
                && final(self).entries() == old(self).entries().drop_last(),
    {
        match self.items.take() {
            Some(mut v) => {
                let last = v.pop();
                self.items = Some(v);
                last
            },
            None => None,
        }
    }
}

impl<T: Item> StateList<T> {
    /// Whether some item equals `item`.
    pub fn contains(&self, item: &T) -> (found: bool)
        ensures
            found == sequence::holds(self.entries(), item@),
    {
        match &self.items {
            Some(v) => sequence::find_same(v, item) < v.len(),
            None => false,
        }
    }

    /// Removes the first item that equals `item`, if there is one.
    pub fn remove(&mut self, item: &T)
        ensures
            final(self).is_initialized() == old(self).is_initialized(),
            final(self).bound_path() == old(self).bound_path(),
            final(self).entries() == sequence::remove_first(old(self).entries(), item@),
    {
        match self.items.take() {
            Some(mut v) => {
                let k = sequence::find_same(&v, item);
                if k < v.len() {
                    v.remove(k);
                }
                self.items = Some(v);
            },
            None => {},
        }
    }

    /// Independent copies of all items, in order.
    pub fn get_entries(&self) -> (entries: Vec<T>)
        ensures
            item::views_of(entries@) == item::views_of(self.entries()),
    {
        match &self.items {
            Some(v) => sequence::duplicate_all(v),
            None => Vec::new(),
        }
    }

    /// Sorts the items by `sorting`, then reduces each run of equal
    /// neighbours to its first item.
    pub fn sort_dedup_list<O: ItemOrder<T>>(&mut self, sorting: &O)
        ensures
            final(self).is_initialized() == old(self).is_initialized(),
            final(self).bound_path() == old(self).bound_path(),
            final(self).entries() == sequence::dedup_adjacent(
                order::sort_by(*sorting, old(self).entries()),
            ),
    {
        match self.items.take() {
            Some(v) => {
                self.items = Some(sequence::dedup(order::sort(sorting, v)));
            },
            None => {
                proof {
                    assert(sequence::dedup_adjacent(order::sort_by(*sorting, Seq::<T>::empty()))
                        =~= Seq::<T>::empty());
                }
            },
        }
    }
}

impl<T: TextItem> StateList<T> {
    /// Binds the list to `file_path` and installs the items that the file's
    /// content stands for. `content` is what was read from the file, `None`
    /// where it could not be read: the list is then loaded as from an empty
    /// file. Returns the lines that were not blank and did not decode.
    pub fn load(&mut self, file_path: String, content: Option<String>) -> (rejected: Vec<String>)
        ensures
            final(self).bound_path() == Some(file_path@),
            final(self).is_initialized(),
            item::views_of(final(self).entries()) == codec::parse_text::<T>(
                match content {
                    Some(t) => t@,
                    None => Seq::empty(),
                },
            ),
            item::views_of(rejected@) == codec::rejected_text::<T>(
                match content {
                    Some(t) => t@,
                    None => Seq::empty(),
                },
            ),
    {
        self.path = Some(file_path);
        let text = match content {
            Some(t) => t,
            None => String::new(),
        };
        self.init_string(text)
    }

    /// The request that mirrors to the bound file the items that `match_fn`
    /// accepts, one per line in their order. There is none while the list is
    /// uninitialized or bound to no path. The list itself stays as it is.
    pub fn save_matching<F: Fn(&T) -> bool>(&self, match_fn: F) -> (request: Option<FileWrite>)
        requires
            forall|i: int|
                0 <= i < self.entries().len() ==> call_requires(
                    match_fn,
                    (&#[trigger] self.entries()[i],),
                ),
        ensures
            request is Some <==> self.is_initialized() && self.bound_path() is Some,
            request matches Some(w) ==> {
                &&& Some(w.path@) == self.bound_path()
                &&& exists|mask: Seq<bool>|
                    sequence::answers(match_fn, self.entries(), mask) && w.content@
                        == codec::render_lines::<T>(
                        item::views_of(sequence::select(self.entries(), mask)),
                    )
            },
    {
        match (&self.items, &self.path) {
            (Some(v), Some(p)) => {
                let mut content = String::new();
                let ghost mut mask: Seq<bool> = Seq::empty();
                let mut k: usize = 0;
                proof {
                    assert forall|i: int| 0 <= i < v.len() implies call_requires(
                        match_fn,
                        (&#[trigger] v@[i],),
                    ) by {
                        assert(v@[i] == self.entries()[i]);
                    }
                }
                while k < v.len()
                    invariant
                        k <= v.len(),
                        v@ == self.entries(),
                        forall|i: int|
                            0 <= i < v.len() ==> call_requires(match_fn, (&#[trigger] v@[i],)),
                        sequence::answers(match_fn, v@.take(k as int), mask),
                        content@ == codec::render_lines::<T>(
                            item::views_of(sequence::select(v@.take(k as int), mask)),
                        ),
                    decreases v.len() - k,
                {
                    let ghost chosen = sequence::select(v@.take(k as int), mask);
                    let keep = match_fn(&v[k]);
                    if keep {
                        let line = v[k].to_text();
                        text::push_line(&mut content, line.as_str());
                        proof {
                            codec::lemma_views_of_push(chosen, v@[k as int]);
                            assert(item::views_of(chosen.push(v@[k as int])).drop_last()
                                =~= item::views_of(chosen));
                        }
                    }
                    proof {
                        assert(v@.take(k + 1).drop_last() =~= v@.take(k as int));
                        assert(mask.push(keep).drop_last() =~= mask);
                        mask = mask.push(keep);
                    }
                    k = k + 1;
                }
                proof {
                    assert(v@.take(v.len() as int) =~= v@);
                }
                Some(FileWrite { path: p.clone(), content })
            },
            _ => None,
        }
    }

    /// The request that mirrors all items to the bound file.
    pub fn save_state(&self) -> (request: Option<FileWrite>)
        ensures
            request is Some <==> self.is_initialized() && self.bound_path() is Some,
            request matches Some(w) ==> {
                &&& Some(w.path@) == self.bound_path()
                &&& w.content@ == codec::render_lines::<T>(item::views_of(self.entries()))
            },
    {
        let all = |x: &T| -> (keep: bool)
            ensures
                keep,
            { true };
        let request = self.save_matching(all);
        proof {
            if request is Some {
                let w = request->0;
                let mask = choose|mask: Seq<bool>|
                    sequence::answers(all, self.entries(), mask) && w.content@
                        == codec::render_lines::<T>(
                        item::views_of(sequence::select(self.entries(), mask)),
                    );
                sequence::lemma_select_all(self.entries(), mask);
            }
        }
        request
    }

    /// Installs the items that `instr` stands for, one per line, in place of
    /// whatever was there. Returns the lines that were not blank and did not
    /// decode.
    pub fn init_string(&mut self, instr: String) -> (rejected: Vec<String>)
        ensures
            final(self).is_initialized(),
            final(self).bound_path() == old(self).bound_path(),
            item::views_of(final(self).entries()) == codec::parse_text::<T>(instr@),
            item::views_of(rejected@) == codec::rejected_text::<T>(instr@),
    {
        let (items, rejected) = codec::decode_text::<T>(instr.as_str());
        self.items = Some(items);
        rejected
    }
}

} // verus!
