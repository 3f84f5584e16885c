//! Theme store: every `contributes.themes` declaration, from the
//! built-ins and each plugin manifest, collected under its theme id.
//! The first declaration of an id wins; ids keep registration order.

use vstd::prelude::*;

use crate::commands::registry::str_eq;

verus! {

/// The entries after registering `ts` in order: an id already present
/// keeps its first declaration, a new id is appended.
pub open spec fn register_themes<T>(s: Seq<(Seq<char>, T)>, ts: Seq<(Seq<char>, T)>) -> Seq<
    (Seq<char>, T),
>
    decreases ts.len(),
{
    if ts.len() == 0 {
        s
    } else {
        let prev = register_themes(s, ts.drop_last());
        if exists|i: int| 0 <= i < prev.len() && prev[i].0 == ts.last().0 {
            prev
        } else {
            prev.push(ts.last())
        }
    }
}

/// No id occurs twice.
pub open spec fn ids_distinct<T>(s: Seq<(Seq<char>, T)>) -> bool {
    forall|i: int, j: int| 0 <= i < j < s.len() ==> s[i].0 != s[j].0
}

/// The theme declarations of a store, in registration order; `T` is the
/// declaration type.
pub struct ThemeStore<T> {
    entries: Vec<(String, T)>,
}

/// The entries with their ids as text.
pub open spec fn entries_view<T>(s: Seq<(String, T)>) -> Seq<(Seq<char>, T)> {
    s.map_values(|e: (String, T)| (e.0@, e.1))
}

impl<T> View for ThemeStore<T> {
    type V = Seq<(Seq<char>, T)>;

    closed spec fn view(&self) -> Seq<(Seq<char>, T)> {
        entries_view(self.entries@)
    }
}

impl<T> ThemeStore<T> {
    #[verifier::type_invariant]
    spec fn inv(self) -> bool {
        ids_distinct(entries_view(self.entries@))
    }

    pub fn new() -> (s: Self)
        ensures
            s@ == Seq::<(Seq<char>, T)>::empty(),
    {
        let s = ThemeStore { entries: Vec::new() };
        proof {
            assert(s@ =~= Seq::<(Seq<char>, T)>::empty());
        }
        s
    }

    fn index_of(&self, id: &str) -> (r: Option<usize>)
        ensures
            r matches Some(i) ==> i < self@.len() && self@[i as int].0 == id@,
            r is None ==> forall|j: int| 0 <= j < self@.len() ==> self@[j].0 != id@,
    {
        let mut i: usize = 0;
        while i < self.entries.len()
            invariant
                i <= self.entries@.len(),
                self@ == entries_view(self.entries@),
                forall|j: int| 0 <= j < i ==> self@[j].0 != id@,
            decreases self.entries@.len() - i,
        {
            if str_eq(self.entries[i].0.as_str(), id) {
                return Some(i);
            }
            i = i + 1;
        }
        None
    }

    /// Add every declaration of `themes` (id and declaration) in order;
    /// one whose id is already present is skipped (first declaration
    /// wins). Returns how many were added.
    pub fn register_from_manifest(&mut self, themes: Vec<(String, T)>) -> (added: usize)
        ensures
            final(self)@ == register_themes(old(self)@, entries_view(themes@)),
            final(self)@.len() == old(self)@.len() + added,
    {
        proof {
            use_type_invariant(&*self);
        }
        let ghost start = self@;
        let ghost tv = entries_view(themes@);
        let mut tab: Vec<(String, T)> = Vec::new();
        proof {
            assert(entries_view(tab@) =~= Seq::<(Seq<char>, T)>::empty());
        }
        std::mem::swap(&mut tab, &mut self.entries);
        let mut store = ThemeStore { entries: tab };
        let mut added: usize = 0;
        let mut rest = themes;
        let total = rest.len();
        let ghost n = tv.len();
        proof {
            assert(n == total);
            assert(tv.take(0) =~= Seq::<(Seq<char>, T)>::empty());
        }
        while rest.len() > 0
            invariant
                n == tv.len(),
                n <= usize::MAX,
                rest@.len() <= n,
                entries_view(rest@) == tv.skip(n - rest@.len()),
                store@ == register_themes(start, tv.take(n - rest@.len())),
                store@.len() == start.len() + added,
                added <= n - rest@.len(),
            decreases rest@.len(),
        {
            let ghost k = n - rest@.len();
            let ghost r0 = rest@;
            let entry = rest.remove(0);
            proof {
                use_type_invariant(&store);
                assert(tv.take(k + 1).drop_last() =~= tv.take(k));
                assert(entries_view(r0)[0] == tv[k]);
                assert(tv.take(k + 1).last() == (entry.0@, entry.1));
                assert forall|j: int| 0 <= j < rest@.len() implies #[trigger] entries_view(rest@)[j]
                    == tv.skip(k + 1)[j] by {
                    assert(rest@[j] == r0[j + 1]);
                    assert(entries_view(r0)[j + 1] == tv.skip(k)[j + 1]);
                }
                assert(entries_view(rest@) =~= tv.skip(k + 1));
            }
            match store.index_of(entry.0.as_str()) {
                Some(i) => {},
                None => {
                    let ghost before = store@;
                    let mut t2: Vec<(String, T)> = Vec::new();
                    proof {
                        assert(entries_view(t2@) =~= Seq::<(Seq<char>, T)>::empty());
                    }
                    std::mem::swap(&mut t2, &mut store.entries);
                    t2.push(entry);
                    proof {
                        assert(entries_view(t2@) =~= before.push(tv.take(k + 1).last()));
                    }
                    store.entries = t2;
                    added = added + 1;
                },
            }
        }
        proof {
            assert(tv.take(n as int) =~= tv);
        }
        proof {
            use_type_invariant(&store);
        }
        let mut done: Vec<(String, T)> = Vec::new();
        std::mem::swap(&mut done, &mut store.entries);
        self.entries = done;
        added
    }

    /// The registered theme ids, in registration order.
    pub fn ids(&self) -> (r: Vec<&str>)
        ensures
            r@.len() == self@.len(),
            forall|i: int| 0 <= i < r@.len() ==> r@[i]@ == self@[i].0,
    {
        let mut r: Vec<&str> = Vec::new();
        let mut i: usize = 0;
        while i < self.entries.len()
            invariant
                i <= self.entries@.len(),
                self@ == entries_view(self.entries@),
                r@.len() == i,
                forall|j: int| 0 <= j < i ==> r@[j]@ == self@[j].0,
            decreases self.entries@.len() - i,
        {
            r.push(self.entries[i].0.as_str());
            i = i + 1;
        }
        r
    }

    /// The declaration registered under `id`.
    pub fn get(&self, id: &str) -> (r: Option<&T>)
        ensures
            r matches Some(t) ==> exists|i: int|
                0 <= i < self@.len() && self@[i].0 == id@ && self@[i].1 == *t,
            r is None ==> forall|i: int| 0 <= i < self@.len() ==> self@[i].0 != id@,
    {
        match self.index_of(id) {
            Some(i) => Some(&self.entries[i].1),
            None => None,
        }
    }

    pub fn len(&self) -> (n: usize)
        ensures
            n == self@.len(),
    {
        self.entries.len()
    }

    pub fn is_empty(&self) -> (b: bool)
        ensures
            b == (self@.len() == 0),
    {
        self.entries.len() == 0
    }
}

} // verus!
