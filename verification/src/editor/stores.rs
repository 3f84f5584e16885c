//! Id-keyed stores of documents and cursors. Each store mints the id of
//! every value it takes from its own monotonic counter, so an id is
//! never reused: a value removed and inserted again gets a fresh id.

use vstd::prelude::*;

use crate::editor::ids::{CursorId, DocId};

verus! {

/// Ids strictly increase along the table and stay below `next`.
pub open spec fn ids_below<T>(s: Seq<(u64, T)>, next: u64) -> bool {
    &&& forall|i: int, j: int| 0 <= i < j < s.len() ==> s[i].0 < s[j].0
    &&& forall|i: int| 0 <= i < s.len() ==> s[i].0 < next
}

/// The table with the entry for `id` taken out.
pub open spec fn without<T>(s: Seq<(u64, T)>, id: u64) -> Seq<(u64, T)> {
    match index_of(s, id) {
        Some(i) => s.remove(i),
        None => s,
    }
}

/// Where `id` sits in the table.
pub open spec fn index_of<T>(s: Seq<(u64, T)>, id: u64) -> Option<int> {
    if exists|i: int| 0 <= i < s.len() && s[i].0 == id {
        Some(choose|i: int| 0 <= i < s.len() && s[i].0 == id)
    } else {
        None
    }
}

/// A table of values under ids it mints itself, in insertion order.
pub struct IdTable<T> {
    next: u64,
    entries: Vec<(u64, T)>,
}

impl<T> IdTable<T> {
    #[verifier::type_invariant]
    spec fn inv(self) -> bool {
        &&& 1 <= self.next
        &&& ids_below(self.entries@, self.next)
    }

    /// `(id, value)` in insertion order.
    pub closed spec fn table(&self) -> Seq<(u64, T)> {
        self.entries@
    }

    /// The id the next insert mints.
    pub closed spec fn next_id(&self) -> u64 {
        self.next
    }

    pub fn new() -> (t: Self)
        ensures
            t.table() == Seq::<(u64, T)>::empty(),
            t.next_id() == 1,
            ids_below(t.table(), t.next_id()),
    {
        IdTable { next: 1, entries: Vec::new() }
    }

    fn position(&self, id: u64) -> (r: Option<usize>)
        ensures
            match r {
                Some(k) => k < self.table().len() && self.table()[k as int].0 == id && index_of(
                    self.table(),
                    id,
                ) == Some(k as int),
                None => index_of(self.table(), id) is None,
            },
    {
        proof {
            use_type_invariant(self);
        }
        let mut i: usize = 0;
        while i < self.entries.len()
            invariant
                i <= self.entries@.len(),
                ids_below(self.entries@, self.next),
                forall|k: int| 0 <= k < i ==> self.entries@[k].0 != id,
            decreases self.entries@.len() - i,
        {
            if self.entries[i].0 == id {
                proof {
                    let k = choose|k: int| 0 <= k < self.entries@.len() && self.entries@[k].0 == id;
                    if k < i {
                        assert(self.entries@[k].0 != id);
                    } else if k > i {
                        assert(self.entries@[i as int].0 < self.entries@[k].0);
                    }
                }
                return Some(i);
            }
            i = i + 1;
        }
        None
    }

    /// Take `v`, minting its id.
    pub fn insert(&mut self, v: T) -> (id: u64)
        requires
            old(self).next_id() < u64::MAX,
        ensures
            id == old(self).next_id(),
            final(self).next_id() == id + 1,
            final(self).table() == old(self).table().push((id, v)),
            index_of(old(self).table(), id) is None,
            ids_below(final(self).table(), final(self).next_id()),
    {
        proof {
            use_type_invariant(&*self);
        }
        let id = self.next;
        proof {
            assert(!exists|i: int| 0 <= i < self.entries@.len() && self.entries@[i].0 == id);
        }
        let mut entries: Vec<(u64, T)> = Vec::new();
        std::mem::swap(&mut entries, &mut self.entries);
        entries.push((id, v));
        self.next = id + 1;
        self.entries = entries;
        proof {
            use_type_invariant(&*self);
        }
        id
    }

    /// Take out the value under `id`.
    pub fn remove(&mut self, id: u64) -> (r: Option<T>)
        ensures
            final(self).next_id() == old(self).next_id(),
            final(self).table() == without(old(self).table(), id),
            match index_of(old(self).table(), id) {
                Some(i) => r == Some(old(self).table()[i].1),
                None => r is None,
            },
            index_of(final(self).table(), id) is None,
            ids_below(final(self).table(), final(self).next_id()),
    {
        proof {
            use_type_invariant(&*self);
        }
        let ghost before = self.entries@;
        let r = match self.position(id) {
            Some(i) => {
                let ghost s = self.entries@;
                let mut entries: Vec<(u64, T)> = Vec::new();
                std::mem::swap(&mut entries, &mut self.entries);
                let (_, v) = entries.remove(i);
                proof {
                    assert forall|a: int, b: int| 0 <= a < b < entries@.len() implies entries@[a].0
                        < entries@[b].0 by {
                        if a < i && b >= i {
                            assert(entries@[b] == s[b + 1]);
                        } else if a >= i {
                            assert(entries@[a] == s[a + 1]);
                            assert(entries@[b] == s[b + 1]);
                        }
                    }
                    assert forall|a: int| 0 <= a < entries@.len() implies entries@[a].0 < self.next by {
                        if a >= i {
                            assert(entries@[a] == s[a + 1]);
                        }
                    }
                }
                self.entries = entries;
                proof {
                    lemma_reinsert_is_fresh(before, self.next, id);
                }
                Some(v)
            },
            None => None,
        };
        proof {
            use_type_invariant(&*self);
        }
        r
    }

    /// Put `v` in place of the value under `id`, returning the value it
    /// replaces; nothing changes when `id` is not in the table.
    pub fn replace(&mut self, id: u64, v: T) -> (r: Option<T>)
        ensures
            final(self).next_id() == old(self).next_id(),
            final(self).table().len() == old(self).table().len(),
            forall|k: int|
                0 <= k < old(self).table().len() ==> #[trigger] final(self).table()[k] == (if old(
                    self,
                ).table()[k].0 == id {
                    (id, v)
                } else {
                    old(self).table()[k]
                }),
            match index_of(old(self).table(), id) {
                Some(i) => r == Some(old(self).table()[i].1),
                None => r is None,
            },
            ids_below(final(self).table(), final(self).next_id()),
    {
        proof {
            use_type_invariant(&*self);
        }
        let r = match self.position(id) {
            Some(i) => {
                let ghost s = self.entries@;
                let mut entries: Vec<(u64, T)> = Vec::new();
                std::mem::swap(&mut entries, &mut self.entries);
                let (_, old_v) = entries.remove(i);
                entries.insert(i, (id, v));
                proof {
                    assert(entries@ =~= s.update(i as int, (id, v)));
                    assert forall|k: int| 0 <= k < s.len() && k != i implies s[k].0 != id by {
                        if k < i {
                            assert(s[k].0 < s[i as int].0);
                        } else {
                            assert(s[i as int].0 < s[k].0);
                        }
                    }
                }
                self.entries = entries;
                Some(old_v)
            },
            None => {
                proof {
                    assert forall|k: int| 0 <= k < self.entries@.len() implies self.entries@[k].0 != id by {
                        if self.entries@[k].0 == id {
                            assert(exists|j: int| 0 <= j < self.entries@.len() && self.entries@[j].0 == id);
                        }
                    }
                }
                None
            },
        };
        proof {
            use_type_invariant(&*self);
        }
        r
    }

    /// The value under `id`.
    pub fn get(&self, id: u64) -> (r: Option<&T>)
        ensures
            match index_of(self.table(), id) {
                Some(i) => r == Some(&self.table()[i].1),
                None => r is None,
            },
            ids_below(self.table(), self.next_id()),
    {
        proof {
            use_type_invariant(self);
        }
        match self.position(id) {
            Some(i) => Some(&self.entries[i].1),
            None => None,
        }
    }

    /// The ids in insertion order.
    pub fn keys(&self) -> (r: Vec<u64>)
        ensures
            r@ == self.table().map_values(|e: (u64, T)| e.0),
    {
        let mut r: Vec<u64> = Vec::new();
        let mut i: usize = 0;
        while i < self.entries.len()
            invariant
                i <= self.entries@.len(),
                r@ == self.entries@.take(i as int).map_values(|e: (u64, T)| e.0),
            decreases self.entries@.len() - i,
        {
            r.push(self.entries[i].0);
            proof {
                assert(self.entries@.take(i + 1).map_values(|e: (u64, T)| e.0) =~= self.entries@.take(
                    i as int,
                ).map_values(|e: (u64, T)| e.0).push(self.entries@[i as int].0));
            }
            i = i + 1;
        }
        proof {
            assert(self.entries@.take(i as int) =~= self.entries@);
        }
        r
    }

    pub fn len(&self) -> (n: usize)
        ensures
            n == self.table().len(),
    {
        self.entries.len()
    }

    /// The id the next insert mints.
    pub fn peek_next(&self) -> (n: u64)
        ensures
            n == self.next_id(),
    {
        self.next
    }
}

/// The documents of the editor, under the `DocId`s the store mints.
pub struct DocStore<T> {
    pub docs: IdTable<T>,
}

impl<T> DocStore<T> {
    pub fn new() -> (s: Self)
        ensures
            s.docs.table() == Seq::<(u64, T)>::empty(),
            s.docs.next_id() == 1,
            ids_below(s.docs.table(), s.docs.next_id()),
    {
        DocStore { docs: IdTable::new() }
    }

    /// Take `doc` and mint a fresh id for it.
    pub fn insert(&mut self, doc: T) -> (id: DocId)
        requires
            old(self).docs.next_id() < u64::MAX,
        ensures
            id.0 == old(self).docs.next_id(),
            final(self).docs.next_id() == id.0 + 1,
            index_of(old(self).docs.table(), id.0) is None,
            ids_below(final(self).docs.table(), final(self).docs.next_id()),
            final(self).docs.table() == old(self).docs.table().push((id.0, doc)),
    {
        DocId(self.docs.insert(doc))
    }

    /// Take out the document `id`.
    pub fn remove(&mut self, id: DocId) -> (r: Option<T>)
        ensures
            final(self).docs.next_id() == old(self).docs.next_id(),
            final(self).docs.table() == without(old(self).docs.table(), id.0),
            match index_of(old(self).docs.table(), id.0) {
                Some(i) => r == Some(old(self).docs.table()[i].1),
                None => r is None,
            },
            index_of(final(self).docs.table(), id.0) is None,
            ids_below(final(self).docs.table(), final(self).docs.next_id()),
    {
        self.docs.remove(id.0)
    }

    /// The document `id`.
    pub fn get(&self, id: DocId) -> (r: Option<&T>)
        ensures
            match index_of(self.docs.table(), id.0) {
                Some(i) => r == Some(&self.docs.table()[i].1),
                None => r is None,
            },
    {
        self.docs.get(id.0)
    }

    /// Whether the document `id` is in the store.
    pub fn contains_key(&self, id: DocId) -> (b: bool)
        ensures
            b == (index_of(self.docs.table(), id.0) is Some),
    {
        self.docs.get(id.0).is_some()
    }

    pub fn len(&self) -> (n: usize)
        ensures
            n == self.docs.table().len(),
    {
        self.docs.len()
    }

    pub fn is_empty(&self) -> (b: bool)
        ensures
            b == (self.docs.table().len() == 0),
    {
        self.docs.len() == 0
    }
}

/// The cursors of the editor, under the `CursorId`s the store mints.
pub struct CursorStore<T> {
    pub cursors: IdTable<T>,
}

impl<T> CursorStore<T> {
    pub fn new() -> (s: Self)
        ensures
            s.cursors.table() == Seq::<(u64, T)>::empty(),
            s.cursors.next_id() == 1,
            ids_below(s.cursors.table(), s.cursors.next_id()),
    {
        CursorStore { cursors: IdTable::new() }
    }

    /// Take `cursor` and mint a fresh id for it.
    pub fn insert(&mut self, cursor: T) -> (id: CursorId)
        requires
            old(self).cursors.next_id() < u64::MAX,
        ensures
            id.0 == old(self).cursors.next_id(),
            final(self).cursors.next_id() == id.0 + 1,
            index_of(old(self).cursors.table(), id.0) is None,
            ids_below(final(self).cursors.table(), final(self).cursors.next_id()),
            final(self).cursors.table() == old(self).cursors.table().push((id.0, cursor)),
    {
        CursorId(self.cursors.insert(cursor))
    }

    /// Take out the cursor `id`.
    pub fn remove(&mut self, id: CursorId) -> (r: Option<T>)
        ensures
            final(self).cursors.next_id() == old(self).cursors.next_id(),
            final(self).cursors.table() == without(old(self).cursors.table(), id.0),
            match index_of(old(self).cursors.table(), id.0) {
                Some(i) => r == Some(old(self).cursors.table()[i].1),
                None => r is None,
            },
            index_of(final(self).cursors.table(), id.0) is None,
            ids_below(final(self).cursors.table(), final(self).cursors.next_id()),
    {
        self.cursors.remove(id.0)
    }

    /// The cursor `id`.
    pub fn get(&self, id: CursorId) -> (r: Option<&T>)
        ensures
            match index_of(self.cursors.table(), id.0) {
                Some(i) => r == Some(&self.cursors.table()[i].1),
                None => r is None,
            },
            ids_below(self.cursors.table(), self.cursors.next_id()),
    {
        self.cursors.get(id.0)
    }

    /// Put `cursor` in place of the cursor `id`, returning the one it
    /// replaces; nothing changes when `id` is not in the store.
    pub fn replace(&mut self, id: CursorId, cursor: T) -> (r: Option<T>)
        ensures
            final(self).cursors.next_id() == old(self).cursors.next_id(),
            final(self).cursors.table().len() == old(self).cursors.table().len(),
            forall|k: int|
                0 <= k < old(self).cursors.table().len() ==> #[trigger] final(self).cursors.table()[k] == (if old(
                    self,
                ).cursors.table()[k].0 == id.0 {
                    (id.0, cursor)
                } else {
                    old(self).cursors.table()[k]
                }),
            match index_of(old(self).cursors.table(), id.0) {
                Some(i) => r == Some(old(self).cursors.table()[i].1),
                None => r is None,
            },
            ids_below(final(self).cursors.table(), final(self).cursors.next_id()),
    {
        self.cursors.replace(id.0, cursor)
    }

    /// Whether the cursor `id` is in the store.
    pub fn contains_key(&self, id: CursorId) -> (b: bool)
        ensures
            b == (index_of(self.cursors.table(), id.0) is Some),
    {
        self.cursors.get(id.0).is_some()
    }

    pub fn len(&self) -> (n: usize)
        ensures
            n == self.cursors.table().len(),
    {
        self.cursors.len()
    }

    pub fn is_empty(&self) -> (b: bool)
        ensures
            b == (self.cursors.table().len() == 0),
    {
        self.cursors.len() == 0
    }
}

/// A removed id is gone, and the next insert mints an id greater than
/// every id ever held, the removed one included.
pub proof fn lemma_reinsert_is_fresh<T>(before: Seq<(u64, T)>, next: u64, id: u64)
    requires
        ids_below(before, next),
        index_of(before, id) is Some,
    ensures
        index_of(without(before, id), id) is None,
        id < next,
{
    let i = index_of(before, id).unwrap();
    let after = before.remove(i);
    assert forall|k: int| 0 <= k < after.len() implies after[k].0 != id by {
        if k < i {
            assert(after[k] == before[k]);
        } else {
            assert(after[k] == before[k + 1]);
        }
    }
}

/// Ids are never reused. `nexts` are a store's `next_id()` after each
/// of a run of `insert`s and `remove`s (an insert raises it by one, a
/// remove keeps it). If step `i` is the insert that minted `nexts[i]`,
/// every insert at a later step `j` mints a larger id, whatever was
/// removed in between.
pub proof fn lemma_minted_ids_increase(nexts: Seq<u64>, i: int, j: int)
    requires
        forall|k: int| 0 <= k < nexts.len() - 1 ==> #[trigger] nexts[k] <= nexts[k + 1],
        0 <= i < j < nexts.len(),
        nexts[i + 1] == nexts[i] + 1,
    ensures
        nexts[i] < nexts[j],
    decreases j - i,
{
    if j > i + 1 {
        lemma_minted_ids_increase(nexts, i, j - 1);
        assert(nexts[j - 1] <= nexts[j - 1 + 1]);
    }
}

} // verus!
