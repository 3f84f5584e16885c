//! Chord → command resolution.
//!
//! The keymap binds a chord either to a command id (a discoverable,
//! palette-listable command of the registry) or directly to an action
//! (continuously fired actions such as motion or character insertion,
//! which never appear in the palette). It also remembers, per command,
//! the first chord bound to it, for palette and status-line hints.

use std::sync::Arc;

use vstd::prelude::*;

use crate::commands::registry::{CommandId, CommandRegistry, arc_clone, position_of};
use crate::editor::editor::{keys_distinct, lemma_lookup_push, lemma_lookup_update, lookup};
use crate::input::{Chord, chord_to_protocol, proto_chord_text, proto_chord_to_string, spec_chord_to_protocol};
use crate::paths::{join_path, join_segments, owned, seg_chars, seg_is};
use crate::plugin::{is_segment, segment_valid};
use crate::commands::registry::command_segments;

verus! {

/// What a chord is bound to.
pub enum Binding<A> {
    Command(CommandId),
    Action(Arc<A>),
}

pub struct Keymap<A> {
    bindings: Vec<(Chord, Binding<A>)>,
    chord_for: Vec<(CommandId, Chord)>,
    bound_paths: Vec<(String, CommandId)>,
}

/// The `/keymap/<chord>` segment of a chord: the text of its wire form,
/// when it has one that is a valid path segment.
pub open spec fn chord_segment(c: Chord) -> Option<Seq<char>> {
    match spec_chord_to_protocol(c) {
        Some(p) => if is_segment(proto_chord_text(p)) {
            Some(proto_chord_text(p))
        } else {
            None
        },
        None => None,
    }
}

/// The path table keyed by segment text.
pub open spec fn path_view(s: Seq<(String, CommandId)>) -> Seq<(Seq<char>, (Option<Seq<char>>, Seq<char>))> {
    s.map_values(|e: (String, CommandId)| (e.0@, e.1@))
}

/// `keymap`.
pub open spec fn keymap_root() -> Seq<char> {
    seq!['k', 'e', 'y', 'm', 'a', 'p']
}

/// The path segment of `c`, as `chord_segment` says.
pub fn chord_path_segment(c: Chord) -> (r: Option<String>)
    ensures
        match r {
            Some(s) => chord_segment(c) == Some(s@),
            None => chord_segment(c) is None,
        },
{
    match chord_to_protocol(c) {
        Some(p) => {
            let s = proto_chord_to_string(&p);
            if segment_valid(s.as_str()) {
                Some(s)
            } else {
                None
            }
        },
        None => None,
    }
}

/// The first-chord table keyed by id text.
pub open spec fn hint_view(s: Seq<(CommandId, Chord)>) -> Seq<((Option<Seq<char>>, Seq<char>), Chord)> {
    s.map_values(|e: (CommandId, Chord)| (e.0@, e.1))
}

impl<A> Keymap<A> {
    #[verifier::type_invariant]
    spec fn inv(self) -> bool {
        &&& keys_distinct(self.bindings@)
        &&& keys_distinct(hint_view(self.chord_for@))
        &&& keys_distinct(path_view(self.bound_paths@))
    }

    /// Keymap path segment → command id of the chord's command binding,
    /// as an association list. Only `bind_command` adds entries; an
    /// action bound to a chord takes the chord's entry out.
    pub closed spec fn path_table(&self) -> Seq<(Seq<char>, (Option<Seq<char>>, Seq<char>))> {
        path_view(self.bound_paths@)
    }

    /// Chord → binding, as an association list.
    pub closed spec fn binding_table(&self) -> Seq<(Chord, Binding<A>)> {
        self.bindings@
    }

    /// Command id → first chord bound to it, as an association list.
    pub closed spec fn hint_table(&self) -> Seq<((Option<Seq<char>>, Seq<char>), Chord)> {
        hint_view(self.chord_for@)
    }

    pub fn new() -> (k: Self)
        ensures
            k.binding_table().len() == 0,
            k.hint_table().len() == 0,
            k.path_table().len() == 0,
    {
        Keymap { bindings: Vec::new(), chord_for: Vec::new(), bound_paths: Vec::new() }
    }

    fn binding_index(&self, chord: Chord) -> (r: Option<usize>)
        ensures
            r matches Some(i) ==> i < self.bindings@.len() && self.bindings@[i as int].0 == chord,
            r is None ==> forall|i: int| 0 <= i < self.bindings@.len() ==> self.bindings@[i].0 != chord,
    {
        let mut i: usize = 0;
        while i < self.bindings.len()
            invariant
                i <= self.bindings@.len(),
                forall|k: int| 0 <= k < i ==> self.bindings@[k].0 != chord,
            decreases self.bindings@.len() - i,
        {
            if self.bindings[i].0 == chord {
                return Some(i);
            }
            i = i + 1;
        }
        None
    }

    fn set_binding(&mut self, chord: Chord, b: Binding<A>)
        ensures
            lookup(final(self).binding_table(), chord) == Some(b),
            forall|c: Chord| c != chord ==> lookup(final(self).binding_table(), c) == lookup(
                old(self).binding_table(),
                c,
            ),
            final(self).hint_table() == old(self).hint_table(),
            final(self).path_table() == old(self).path_table(),
    {
        proof {
            use_type_invariant(&*self);
        }
        let ghost s = self.bindings@;
        let mut v: Vec<(Chord, Binding<A>)> = Vec::new();
        std::mem::swap(&mut v, &mut self.bindings);
        match self.binding_index_in(&v, chord) {
            Some(i) => {
                v.set(i, (chord, b));
                proof {
                    lemma_lookup_update(s, i as int, chord, b);
                }
            },
            None => {
                v.push((chord, b));
                proof {
                    lemma_lookup_push(s, chord, b);
                }
            },
        }
        self.bindings = v;
    }

    fn binding_index_in(&self, v: &Vec<(Chord, Binding<A>)>, chord: Chord) -> (r: Option<usize>)
        ensures
            r matches Some(i) ==> i < v@.len() && v@[i as int].0 == chord,
            r is None ==> forall|i: int| 0 <= i < v@.len() ==> v@[i].0 != chord,
    {
        let mut i: usize = 0;
        while i < v.len()
            invariant
                i <= v@.len(),
                forall|k: int| 0 <= k < i ==> v@[k].0 != chord,
            decreases v@.len() - i,
        {
            if v[i].0 == chord {
                return Some(i);
            }
            i = i + 1;
        }
        None
    }

    /// Bind `chord` to the command `id`, replacing any earlier binding of
    /// the chord. The first chord bound to an id is remembered as its
    /// hint; later chords for the same id don't replace it.
    pub fn bind_command(&mut self, chord: Chord, id: CommandId)
        ensures
            lookup(final(self).binding_table(), chord) == Some(Binding::<A>::Command(id)),
            forall|c: Chord| c != chord ==> lookup(final(self).binding_table(), c) == lookup(
                old(self).binding_table(),
                c,
            ),
            lookup(final(self).hint_table(), id@) == (match lookup(old(self).hint_table(), id@) {
                Some(c) => Some(c),
                None => Some(chord),
            }),
            forall|k: (Option<Seq<char>>, Seq<char>)| k != id@ ==> lookup(final(self).hint_table(), k)
                == lookup(old(self).hint_table(), k),
            match chord_segment(chord) {
                Some(seg) => lookup(final(self).path_table(), seg) == Some(id@) && forall|s: Seq<char>|
                    s != seg ==> lookup(final(self).path_table(), s) == lookup(
                        old(self).path_table(),
                        s,
                    ),
                None => final(self).path_table() == old(self).path_table(),
            },
    {
        proof {
            use_type_invariant(&*self);
        }
        let ghost s = hint_view(self.chord_for@);
        let found = self.hint_index(&id);
        self.set_binding(chord, Binding::Command(id));
        match found {
            Some(i) => {
                proof {
                    lemma_lookup_present(s, i as int);
                }
            },
            None => {
                proof {
                    lemma_lookup_absent(s, id@);
                }
                let mut v: Vec<(CommandId, Chord)> = Vec::new();
                proof {
                    use_type_invariant(&*self);
                    assert(hint_view(v@) =~= Seq::empty());
                }
                std::mem::swap(&mut v, &mut self.chord_for);
                proof {
                    assert(hint_view(v@) == s);
                }
                v.push((id, chord));
                proof {
                    lemma_lookup_push(s, id@, chord);
                    assert(hint_view(v@) =~= s.push((id@, chord)));
                }
                self.chord_for = v;
            },
        }
        self.record_path(chord, id);
    }

    /// Remember `/keymap/<chord>` → `id` when the chord has a segment.
    fn record_path(&mut self, chord: Chord, id: CommandId)
        ensures
            final(self).binding_table() == old(self).binding_table(),
            final(self).hint_table() == old(self).hint_table(),
            match chord_segment(chord) {
                Some(seg) => lookup(final(self).path_table(), seg) == Some(id@) && forall|s: Seq<char>|
                    s != seg ==> lookup(final(self).path_table(), s) == lookup(
                        old(self).path_table(),
                        s,
                    ),
                None => final(self).path_table() == old(self).path_table(),
            },
    {
        proof {
            use_type_invariant(&*self);
        }
        let seg = match chord_path_segment(chord) {
            Some(s) => s,
            None => {
                return ;
            },
        };
        let ghost ps = path_view(self.bound_paths@);
        let found = self.path_index(seg.as_str());
        let mut v: Vec<(String, CommandId)> = Vec::new();
        proof {
            assert(path_view(v@) =~= Seq::empty());
        }
        std::mem::swap(&mut v, &mut self.bound_paths);
        let ghost segv = seg@;
        match found {
            Some(i) => {
                proof {
                    assert(ps[i as int].0 == segv);
                    lemma_lookup_update(ps, i as int, segv, id@);
                }
                v.set(i, (seg, id));
                proof {
                    assert(path_view(v@) =~= ps.update(i as int, (segv, id@)));
                }
            },
            None => {
                proof {
                    lemma_lookup_push(ps, segv, id@);
                }
                v.push((seg, id));
                proof {
                    assert(path_view(v@) =~= ps.push((segv, id@)));
                }
            },
        }
        self.bound_paths = v;
    }

    fn path_index(&self, seg: &str) -> (r: Option<usize>)
        ensures
            r matches Some(i) ==> i < self.bound_paths@.len() && path_view(self.bound_paths@)[i as int].0
                == seg@,
            r is None ==> forall|j: int|
                0 <= j < self.bound_paths@.len() ==> path_view(self.bound_paths@)[j].0 != seg@,
    {
        let ghost ps = path_view(self.bound_paths@);
        let mut i: usize = 0;
        while i < self.bound_paths.len()
            invariant
                i <= self.bound_paths@.len(),
                ps == path_view(self.bound_paths@),
                forall|j: int| 0 <= j < i ==> ps[j].0 != seg@,
            decreases self.bound_paths@.len() - i,
        {
            if seg_is(&self.bound_paths[i].0, seg) {
                return Some(i);
            }
            i = i + 1;
        }
        None
    }

    /// The command path bound under a keymap path given as segments
    /// (`["keymap", "<chord>"]`): `/cmd/<id>` or `/plugin/<p>/cmd/<id>`.
    pub fn lookup_path(&self, segs: &[String]) -> (r: Option<String>)
        ensures
            match r {
                Some(p) => {
                    &&& segs@.len() == 2
                    &&& segs@[0]@ == keymap_root()
                    &&& lookup(self.path_table(), segs@[1]@) matches Some(idv)
                    &&& p@ == join_path(command_segments(idv))
                },
                None => !(segs@.len() == 2 && segs@[0]@ == keymap_root() && lookup(
                    self.path_table(),
                    segs@[1]@,
                ) is Some),
            },
    {
        proof {
            use_type_invariant(self);
            reveal_strlit("keymap");
            assert("keymap"@ =~= keymap_root());
        }
        if !(segs.len() == 2 && seg_is(&segs[0], "keymap")) {
            return None;
        }
        let ghost ps = path_view(self.bound_paths@);
        match self.path_index(segs[1].as_str()) {
            Some(i) => {
                proof {
                    lemma_lookup_present(ps, i as int);
                }
                Some(self.bound_paths[i].1.to_path())
            },
            None => {
                proof {
                    lemma_lookup_absent(ps, segs@[1]@);
                }
                None
            },
        }
    }

    /// Every keymap path with a command behind it, in the order the
    /// chords were first bound.
    pub fn paths(&self) -> (r: Vec<String>)
        ensures
            r@.len() == self.path_table().len(),
            forall|i: int|
                0 <= i < r@.len() ==> #[trigger] r@[i]@ == join_path(
                    seq![keymap_root(), self.path_table()[i].0],
                ),
    {
        let ghost ps = path_view(self.bound_paths@);
        let mut r: Vec<String> = Vec::new();
        let mut i: usize = 0;
        while i < self.bound_paths.len()
            invariant
                i <= self.bound_paths@.len(),
                ps == path_view(self.bound_paths@),
                r@.len() == i,
                forall|j: int| 0 <= j < i ==> #[trigger] r@[j]@ == join_path(seq![keymap_root(), ps[j].0]),
            decreases self.bound_paths@.len() - i,
        {
            proof {
                reveal_strlit("keymap");
                assert("keymap"@ =~= keymap_root());
            }
            let mut segs: Vec<String> = Vec::new();
            segs.push(owned("keymap"));
            segs.push(owned(self.bound_paths[i].0.as_str()));
            proof {
                assert(seg_chars(segs@) =~= seq![keymap_root(), ps[i as int].0]);
            }
            r.push(join_segments(segs.as_slice()));
            i = i + 1;
        }
        r
    }

    fn hint_index(&self, id: &CommandId) -> (r: Option<usize>)
        ensures
            r matches Some(i) ==> i < self.chord_for@.len() && hint_view(self.chord_for@)[i as int].0
                == id@,
            r is None ==> forall|j: int|
                0 <= j < self.chord_for@.len() ==> hint_view(self.chord_for@)[j].0 != id@,
    {
        let ghost s = hint_view(self.chord_for@);
        let mut i: usize = 0;
        while i < self.chord_for.len()
            invariant
                i <= self.chord_for@.len(),
                s == hint_view(self.chord_for@),
                forall|k: int| 0 <= k < i ==> s[k].0 != id@,
            decreases self.chord_for@.len() - i,
        {
            proof {
                assert(s[i as int].0 == self.chord_for@[i as int].0@);
            }
            if self.chord_for[i].0.same(id) {
                return Some(i);
            }
            i = i + 1;
        }
        None
    }

    /// Bind `chord` to `id` only if the chord is unbound (first loaded
    /// wins on conflicts). Returns whether it was bound.
    pub fn bind_command_if_free(&mut self, chord: Chord, id: CommandId) -> (bound: bool)
        ensures
            bound == (lookup(old(self).binding_table(), chord) is None),
            !bound ==> final(self).binding_table() == old(self).binding_table()
                && final(self).hint_table() == old(self).hint_table() && final(self).path_table()
                == old(self).path_table(),
            bound ==> lookup(final(self).binding_table(), chord) == Some(Binding::<A>::Command(id)),
            forall|c: Chord| c != chord ==> lookup(final(self).binding_table(), c) == lookup(
                old(self).binding_table(),
                c,
            ),
            bound ==> lookup(final(self).hint_table(), id@) == (match lookup(old(self).hint_table(), id@) {
                Some(c) => Some(c),
                None => Some(chord),
            }),
            forall|k: (Option<Seq<char>>, Seq<char>)| k != id@ ==> lookup(final(self).hint_table(), k)
                == lookup(old(self).hint_table(), k),
            bound ==> match chord_segment(chord) {
                Some(seg) => lookup(final(self).path_table(), seg) == Some(id@) && forall|s: Seq<char>|
                    s != seg ==> lookup(final(self).path_table(), s) == lookup(
                        old(self).path_table(),
                        s,
                    ),
                None => final(self).path_table() == old(self).path_table(),
            },
    {
        match self.binding_index(chord) {
            Some(_) => {
                proof {
                    use_type_invariant(&*self);
                    let i = choose|i: int| 0 <= i < self.bindings@.len() && self.bindings@[i].0 == chord;
                    lemma_lookup_present(self.bindings@, i);
                }
                false
            },
            None => {
                proof {
                    lemma_lookup_absent(self.bindings@, chord);
                }
                self.bind_command(chord, id);
                true
            },
        }
    }

    /// Bind `chord` directly to `action` (no command id, no hint). An
    /// action binding has no command path, so the chord's keymap path,
    /// if an earlier command binding recorded one, is forgotten: action
    /// bindings are invisible to the path lookup.
    pub fn bind_action(&mut self, chord: Chord, action: Arc<A>)
        ensures
            lookup(final(self).binding_table(), chord) == Some(Binding::Action(action)),
            forall|c: Chord| c != chord ==> lookup(final(self).binding_table(), c) == lookup(
                old(self).binding_table(),
                c,
            ),
            final(self).hint_table() == old(self).hint_table(),
            match chord_segment(chord) {
                Some(seg) => lookup(final(self).path_table(), seg) is None && forall|s: Seq<char>|
                    s != seg ==> lookup(final(self).path_table(), s) == lookup(
                        old(self).path_table(),
                        s,
                    ),
                None => final(self).path_table() == old(self).path_table(),
            },
    {
        self.set_binding(chord, Binding::Action(action));
        self.forget_path(chord);
    }

    /// Forget the `/keymap/<chord>` entry, when the chord has a segment.
    fn forget_path(&mut self, chord: Chord)
        ensures
            final(self).binding_table() == old(self).binding_table(),
            final(self).hint_table() == old(self).hint_table(),
            match chord_segment(chord) {
                Some(seg) => lookup(final(self).path_table(), seg) is None && forall|s: Seq<char>|
                    s != seg ==> lookup(final(self).path_table(), s) == lookup(
                        old(self).path_table(),
                        s,
                    ),
                None => final(self).path_table() == old(self).path_table(),
            },
    {
        proof {
            use_type_invariant(&*self);
        }
        let seg = match chord_path_segment(chord) {
            Some(s) => s,
            None => {
                return ;
            },
        };
        let ghost ps = path_view(self.bound_paths@);
        match self.path_index(seg.as_str()) {
            Some(i) => {
                let mut v: Vec<(String, CommandId)> = Vec::new();
                proof {
                    assert(path_view(v@) =~= Seq::empty());
                }
                std::mem::swap(&mut v, &mut self.bound_paths);
                let _gone = v.remove(i);
                proof {
                    assert(path_view(v@) =~= ps.remove(i as int));
                    lemma_lookup_remove(ps, i as int);
                }
                self.bound_paths = v;
            },
            None => {
                proof {
                    lemma_lookup_absent(ps, seg@);
                }
            },
        }
    }

    /// The action `chord` triggers: its bound action, or the registry's
    /// action for its bound command id.
    pub fn resolve_chord(&self, chord: Chord, reg: &CommandRegistry<A>) -> (r: Option<Arc<A>>)
        requires
            reg.wf(),
        ensures
            r == (match lookup(self.binding_table(), chord) {
                Some(Binding::Action(a)) => Some(a),
                Some(Binding::Command(id)) => match position_of(reg@, id@) {
                    Some(i) => Some(reg@[i].action),
                    None => None,
                },
                None => None,
            }),
    {
        proof {
            use_type_invariant(self);
        }
        match self.binding_index(chord) {
            Some(i) => {
                proof {
                    lemma_lookup_present(self.bindings@, i as int);
                }
                match &self.bindings[i].1 {
                    Binding::Command(id) => reg.resolve(*id),
                    Binding::Action(a) => Some(arc_clone(a)),
                }
            },
            None => {
                proof {
                    lemma_lookup_absent(self.bindings@, chord);
                }
                None
            },
        }
    }

    /// The first chord bound to `id`, for display.
    pub fn chord_for(&self, id: CommandId) -> (r: Option<Chord>)
        ensures
            r == lookup(self.hint_table(), id@),
    {
        proof {
            use_type_invariant(self);
        }
        let ghost s = hint_view(self.chord_for@);
        match self.hint_index(&id) {
            Some(i) => {
                proof {
                    lemma_lookup_present(s, i as int);
                }
                Some(self.chord_for[i].1)
            },
            None => {
                proof {
                    lemma_lookup_absent(s, id@);
                }
                None
            },
        }
    }
}

/// With distinct keys, the entry at `i` is what its key looks up.
pub proof fn lemma_lookup_present<K, V>(s: Seq<(K, V)>, i: int)
    requires
        keys_distinct(s),
        0 <= i < s.len(),
    ensures
        lookup(s, s[i].0) == Some(s[i].1),
    decreases s.len(),
{
    if i < s.len() - 1 {
        assert(s.drop_last()[i] == s[i]);
        lemma_lookup_present(s.drop_last(), i);
    }
}

/// Removing the entry at `i` of a list with distinct keys keeps the keys
/// distinct, makes its key look up nothing and leaves every other key's
/// lookup alone.
pub proof fn lemma_lookup_remove<K, V>(s: Seq<(K, V)>, i: int)
    requires
        keys_distinct(s),
        0 <= i < s.len(),
    ensures
        keys_distinct(s.remove(i)),
        lookup(s.remove(i), s[i].0) is None,
        forall|k: K| k != s[i].0 ==> lookup(s.remove(i), k) == lookup(s, k),
{
    let r = s.remove(i);
    assert forall|a: int, b: int| 0 <= a < b < r.len() implies r[a].0 != r[b].0 by {
        let a0 = if a < i { a } else { a + 1 };
        let b0 = if b < i { b } else { b + 1 };
        assert(r[a] == s[a0] && r[b] == s[b0]);
    }
    assert forall|j: int| 0 <= j < r.len() implies r[j].0 != s[i].0 by {
        let j0 = if j < i { j } else { j + 1 };
        assert(r[j] == s[j0]);
    }
    lemma_lookup_absent(r, s[i].0);
    assert forall|k: K| k != s[i].0 implies lookup(r, k) == lookup(s, k) by {
        if exists|j: int| 0 <= j < s.len() && s[j].0 == k {
            let j = choose|j: int| 0 <= j < s.len() && s[j].0 == k;
            lemma_lookup_present(s, j);
            let j1 = if j < i { j } else { j - 1 };
            assert(r[j1] == s[j]);
            lemma_lookup_present(r, j1);
        } else {
            lemma_lookup_absent(s, k);
            assert forall|j: int| 0 <= j < r.len() implies r[j].0 != k by {
                let j0 = if j < i { j } else { j + 1 };
                assert(r[j] == s[j0]);
            }
            lemma_lookup_absent(r, k);
        }
    }
}

/// A key no entry holds looks up nothing.
pub proof fn lemma_lookup_absent<K, V>(s: Seq<(K, V)>, k: K)
    requires
        forall|i: int| 0 <= i < s.len() ==> s[i].0 != k,
    ensures
        lookup(s, k) is None,
    decreases s.len(),
{
    if s.len() > 0 {
        lemma_lookup_absent(s.drop_last(), k);
    }
}

} // verus!
