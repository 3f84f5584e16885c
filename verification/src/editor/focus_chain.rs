//! Focus chain — owner of the active pane path.
//!
//! Holds the current focus path (a list of `Split.children` indices,
//! canonically written `/pane(/<i>)*`) and produces a
//! [`FocusTransition`] only when the path actually changes, so a focus
//! change is announced once per real transition and never for no-ops or
//! for tree-shape adjustments that preserve the user's logical focus
//! (those go through [`FocusChain::transform`]).

use vstd::prelude::*;

use crate::text::{decimal, push_char, push_decimal};

verus! {

/// Element-wise equality of two index lists.
pub fn indices_eq(a: &[usize], b: &[usize]) -> (r: bool)
    ensures
        r == (a@ == b@),
{
    if a.len() != b.len() {
        return false;
    }
    let mut i: usize = 0;
    while i < a.len()
        invariant
            a@.len() == b@.len(),
            i <= a@.len(),
            forall|k: int| 0 <= k < i ==> a@[k] == b@[k],
        decreases a@.len() - i,
    {
        if a[i] != b[i] {
            return false;
        }
        i = i + 1;
    }
    assert(a@ =~= b@);
    true
}

pub struct FocusChain {
    active: Vec<usize>,
}

impl View for FocusChain {
    type V = Seq<usize>;

    closed spec fn view(&self) -> Seq<usize> {
        self.active@
    }
}

/// A real focus change: `from` and `to` are the pre- and post-mutation
/// `Split.children` index lists.
pub struct FocusTransition {
    pub from: Vec<usize>,
    pub to: Vec<usize>,
}

impl FocusChain {
    /// Focus on the root pane (empty path).
    pub fn new() -> (c: Self)
        ensures
            c@ == Seq::<usize>::empty(),
    {
        Self { active: Vec::new() }
    }

    /// The current focus path as a `Split.children` index list. An empty
    /// slice means focus is on the root pane.
    pub fn active(&self) -> (p: &[usize])
        ensures
            p@ == self@,
    {
        self.active.as_slice()
    }

    pub fn as_vec(&self) -> (v: Vec<usize>)
        ensures
            v@ == self@,
    {
        self.active.clone()
    }

    /// Replace the focus path. Returns a transition iff the path actually
    /// changed; the caller announces the focus change exactly when this
    /// returns `Some`.
    pub fn replace(&mut self, new: Vec<usize>) -> (t: Option<FocusTransition>)
        ensures
            final(self)@ == new@,
            old(self)@ == new@ ==> t is None,
            old(self)@ != new@ ==> (t matches Some(tr) && tr.from@ == old(self)@ && tr.to@
                == new@),
    {
        if indices_eq(self.active.as_slice(), new.as_slice()) {
            return None;
        }
        let mut from = new;
        std::mem::swap(&mut from, &mut self.active);
        let to = self.active.clone();
        Some(FocusTransition { from, to })
    }

    /// Adjust the focus path in place without emitting a transition.
    /// Used after structural tree mutations that shift indices without
    /// moving the user's focus to a different leaf (e.g. inserting a
    /// sibling that pushes existing children one slot over). `f` maps
    /// the old path to the new one.
    pub fn transform<F: FnOnce(Vec<usize>) -> Vec<usize>>(&mut self, f: F)
        requires
            f.requires((old(self).spec_active(),)),
        ensures
            f.ensures((old(self).spec_active(),), final(self).spec_active()),
            final(self)@ == final(self).spec_active()@,
    {
        let mut cur: Vec<usize> = Vec::new();
        std::mem::swap(&mut cur, &mut self.active);
        self.active = f(cur);
    }

    /// The current focus path, as the vector handed to `transform`.
    pub closed spec fn spec_active(&self) -> Vec<usize> {
        self.active
    }

    /// The view is the stored path.
    pub proof fn lemma_view_is_active(&self)
        ensures
            self@ == self.spec_active()@,
    {
    }
}

/// `/pane` followed by one `/<i>` segment per index.
pub open spec fn pane_path_chars(indices: Seq<usize>) -> Seq<char>
    decreases indices.len(),
{
    if indices.len() == 0 {
        seq!['/', 'p', 'a', 'n', 'e']
    } else {
        pane_path_chars(indices.drop_last()) + seq!['/'] + decimal(indices.last() as nat)
    }
}

/// Canonical pane path for an index list: `/pane(/<i>)*`.
pub fn pane_path_from_indices(indices: &[usize]) -> (s: String)
    ensures
        s@ == pane_path_chars(indices@),
{
    let mut s = String::new();
    push_char(&mut s, '/');
    push_char(&mut s, 'p');
    push_char(&mut s, 'a');
    push_char(&mut s, 'n');
    push_char(&mut s, 'e');
    assert(s@ =~= seq!['/', 'p', 'a', 'n', 'e']);
    let mut i: usize = 0;
    while i < indices.len()
        invariant
            i <= indices@.len(),
            s@ == pane_path_chars(indices@.subrange(0, i as int)),
        decreases indices@.len() - i,
    {
        let ghost before = s@;
        push_char(&mut s, '/');
        push_decimal(&mut s, indices[i] as u64);
        proof {
            let p = indices@.subrange(0, i + 1);
            assert(p.drop_last() =~= indices@.subrange(0, i as int));
            assert(s@ =~= before + seq!['/'] + decimal(indices@[i as int] as nat));
        }
        i = i + 1;
    }
    assert(indices@.subrange(0, indices@.len() as int) =~= indices@);
    s
}

impl FocusTransition {
    /// The canonical `/pane(/<i>)*` paths of the old and new focus, as
    /// carried by a focus-changed announcement.
    pub fn pane_paths(&self) -> (r: (String, String))
        ensures
            r.0@ == pane_path_chars(self.from@),
            r.1@ == pane_path_chars(self.to@),
    {
        (pane_path_from_indices(self.from.as_slice()), pane_path_from_indices(self.to.as_slice()))
    }
}

} // verus!
