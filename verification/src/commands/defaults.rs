//! The default keymap: the built-in manifest's keymap entries, then the
//! bindings that stay in source (chords whose characters the path
//! grammar reserves, terminal workarounds), the direct motion and edit
//! actions, and the multi-cursor commands, which override the
//! extend-to-document motions on `Ctrl+Shift+Up/Down`.

use std::sync::Arc;

use vstd::prelude::*;

use crate::commands::keymap::{Binding, Keymap, chord_segment};
use crate::commands::manifest::{
    KeymapContribution, KeymapStep, all_bind, bound_after, contribution_steps, hint_after, keymap_after, path_after,
    register_keymap_contributions, step_error,
};
use crate::commands::registry::{CommandId, CommandRegistry};
use crate::editor::editor::lookup;
use crate::geom::Direction;
use crate::input::{Chord, KeyCode, KeyModifiers};

verus! {

/// A direct action of the default keymap: continuously fired, never a
/// palette command.
#[derive(Copy, Clone, Debug, PartialEq, Eq, Structural)]
pub enum DefaultAction {
    MoveLineStart { extend: bool },
    MoveLineEnd { extend: bool },
    MoveDocStart { extend: bool },
    MoveDocEnd { extend: bool },
    MoveWordLeft { extend: bool },
    MoveWordRight { extend: bool },
    MoveLeft { extend: bool },
    MoveRight { extend: bool },
    MoveUp { extend: bool },
    MoveDown { extend: bool },
    PageUp { extend: bool },
    PageDown { extend: bool },
    FocusDir(Direction),
    DeleteBack { word: bool },
    DeleteForward { word: bool },
    InsertNewline,
    InsertTab,
}

/// What the default keymap binds a chord to in source.
#[derive(Copy, Clone, Debug)]
pub enum DefaultBinding {
    Command(CommandId),
    Action(DefaultAction),
}

/// The chord of `code` with exactly the given Ctrl, Shift and Alt bits.
pub open spec fn key(code: KeyCode, control: bool, shift: bool, alt: bool) -> Chord {
    Chord {
        code,
        mods: KeyModifiers { shift, control, alt, super_key: false, hyper: false, meta: false },
    }
}

/// The built-in command `id`.
pub open spec fn builtin(id: &'static str) -> DefaultBinding {
    DefaultBinding::Command(CommandId { plugin: None, id })
}

/// The action `a`.
pub open spec fn act(a: DefaultAction) -> DefaultBinding {
    DefaultBinding::Action(a)
}

/// Tab cycling and the horizontal split, on chords the manifest cannot
/// spell.
pub open spec fn supplemental_bindings() -> Seq<(Chord, DefaultBinding)> {
    seq![
        (key(KeyCode::Char('['), true, true, false), builtin("tab.prev")),
        (key(KeyCode::Char(']'), true, true, false), builtin("tab.next")),
        (key(KeyCode::Char('{'), true, false, false), builtin("tab.prev")),
        (key(KeyCode::Char('}'), true, false, false), builtin("tab.next")),
        (key(KeyCode::PageUp, true, false, false), builtin("tab.prev")),
        (key(KeyCode::PageDown, true, false, false), builtin("tab.next")),
        (key(KeyCode::Char('-'), true, false, false), builtin("split.horizontal")),
    ]
}

/// The motions, with Shift held exactly when they extend the selection.
pub open spec fn motion_bindings(extend: bool) -> Seq<(Chord, DefaultBinding)> {
    let s = extend;
    seq![
        (key(KeyCode::Left, true, s, false), act(DefaultAction::MoveLineStart { extend })),
        (key(KeyCode::Right, true, s, false), act(DefaultAction::MoveLineEnd { extend })),
        (key(KeyCode::Up, true, s, false), act(DefaultAction::MoveDocStart { extend })),
        (key(KeyCode::Down, true, s, false), act(DefaultAction::MoveDocEnd { extend })),
        (key(KeyCode::Left, false, s, true), act(DefaultAction::MoveWordLeft { extend })),
        (key(KeyCode::Right, false, s, true), act(DefaultAction::MoveWordRight { extend })),
        (key(KeyCode::Left, false, s, false), act(DefaultAction::MoveLeft { extend })),
        (key(KeyCode::Right, false, s, false), act(DefaultAction::MoveRight { extend })),
        (key(KeyCode::Up, false, s, false), act(DefaultAction::MoveUp { extend })),
        (key(KeyCode::Down, false, s, false), act(DefaultAction::MoveDown { extend })),
        (key(KeyCode::Home, false, s, false), act(DefaultAction::MoveLineStart { extend })),
        (key(KeyCode::End, false, s, false), act(DefaultAction::MoveLineEnd { extend })),
        (key(KeyCode::PageUp, false, s, false), act(DefaultAction::PageUp { extend })),
        (key(KeyCode::PageDown, false, s, false), act(DefaultAction::PageDown { extend })),
        (key(KeyCode::Home, true, s, false), act(DefaultAction::MoveDocStart { extend })),
        (key(KeyCode::End, true, s, false), act(DefaultAction::MoveDocEnd { extend })),
    ]
}

/// Legacy meta word motions, focus traversal, edits, and the
/// multi-cursor commands.
pub open spec fn closing_bindings() -> Seq<(Chord, DefaultBinding)> {
    seq![
        (key(KeyCode::Char('b'), false, false, true), act(DefaultAction::MoveWordLeft { extend: false })),
        (key(KeyCode::Char('f'), false, false, true), act(DefaultAction::MoveWordRight { extend: false })),
        (key(KeyCode::Left, true, false, true), act(DefaultAction::FocusDir(Direction::Left))),
        (key(KeyCode::Right, true, false, true), act(DefaultAction::FocusDir(Direction::Right))),
        (key(KeyCode::Up, true, false, true), act(DefaultAction::FocusDir(Direction::Up))),
        (key(KeyCode::Down, true, false, true), act(DefaultAction::FocusDir(Direction::Down))),
        (key(KeyCode::Backspace, false, false, false), act(DefaultAction::DeleteBack { word: false })),
        (key(KeyCode::Backspace, false, false, true), act(DefaultAction::DeleteBack { word: true })),
        (key(KeyCode::Delete, false, false, false), act(DefaultAction::DeleteForward { word: false })),
        (key(KeyCode::Delete, false, false, true), act(DefaultAction::DeleteForward { word: true })),
        (key(KeyCode::Enter, false, false, false), act(DefaultAction::InsertNewline)),
        (key(KeyCode::Tab, false, false, false), act(DefaultAction::InsertTab)),
        (key(KeyCode::Up, true, true, false), builtin("edit.add_cursor_above")),
        (key(KeyCode::Down, true, true, false), builtin("edit.add_cursor_below")),
        (key(KeyCode::Esc, false, false, false), builtin("edit.collapse_selection")),
    ]
}

/// Every in-source binding of the default keymap, in the order they are
/// made (a later one for the same chord replaces an earlier one).
pub open spec fn default_bindings() -> Seq<(Chord, DefaultBinding)> {
    supplemental_bindings() + motion_bindings(false) + motion_bindings(true) + closing_bindings()
}

/// The in-source bindings as keymap steps, for the hint table: command
/// bindings bind, action bindings leave the hints alone.
pub open spec fn command_steps(list: Seq<(Chord, DefaultBinding)>) -> Seq<KeymapStep> {
    list.map_values(
        |e: (Chord, DefaultBinding)|
            match e.1 {
                DefaultBinding::Command(id) => KeymapStep::Bind(e.0, id),
                DefaultBinding::Action(_) => KeymapStep::Unknown(Seq::empty()),
            },
    )
}

/// `actual` is what `c` is bound to after the in-source bindings `list`
/// were made over `before`: the last of them for `c` wins, an action
/// binding holding what `action` made of it.
pub open spec fn binds_as<A, F: Fn(DefaultAction) -> Arc<A>>(
    actual: Option<Binding<A>>,
    list: Seq<(Chord, DefaultBinding)>,
    c: Chord,
    before: Option<Binding<A>>,
    action: F,
) -> bool {
    match lookup(list, c) {
        None => actual == before,
        Some(DefaultBinding::Command(id)) => actual == Some(Binding::<A>::Command(id)),
        Some(DefaultBinding::Action(a)) => actual matches Some(Binding::Action(x)) && action.ensures(
            (a,),
            x,
        ),
    }
}

/// The command behind keymap path segment `seg` after the in-source
/// bindings `list` were made over `before`: the last one whose chord has
/// that segment decides; an action binding leaves no path.
pub open spec fn defaults_path(
    before: Option<(Option<Seq<char>>, Seq<char>)>,
    list: Seq<(Chord, DefaultBinding)>,
    seg: Seq<char>,
) -> Option<(Option<Seq<char>>, Seq<char>)>
    decreases list.len(),
{
    if list.len() == 0 {
        before
    } else if chord_segment(list.last().0) == Some(seg) {
        match list.last().1 {
            DefaultBinding::Command(id) => Some(id@),
            DefaultBinding::Action(_) => None,
        }
    } else {
        defaults_path(before, list.drop_last(), seg)
    }
}

fn chord_of(code: KeyCode, control: bool, shift: bool, alt: bool) -> (c: Chord)
    ensures
        c == key(code, control, shift, alt),
{
    Chord {
        code,
        mods: KeyModifiers { shift, control, alt, super_key: false, hyper: false, meta: false },
    }
}

fn command_of(id: &'static str) -> (b: DefaultBinding)
    ensures
        b == builtin(id),
{
    DefaultBinding::Command(CommandId::builtin(id))
}

fn push_supplemental(v: &mut Vec<(Chord, DefaultBinding)>)
    ensures
        final(v)@ == old(v)@ + supplemental_bindings(),
{
    v.push((chord_of(KeyCode::Char('['), true, true, false), command_of("tab.prev")));
    v.push((chord_of(KeyCode::Char(']'), true, true, false), command_of("tab.next")));
    v.push((chord_of(KeyCode::Char('{'), true, false, false), command_of("tab.prev")));
    v.push((chord_of(KeyCode::Char('}'), true, false, false), command_of("tab.next")));
    v.push((chord_of(KeyCode::PageUp, true, false, false), command_of("tab.prev")));
    v.push((chord_of(KeyCode::PageDown, true, false, false), command_of("tab.next")));
    v.push((chord_of(KeyCode::Char('-'), true, false, false), command_of("split.horizontal")));
    proof {
        assert(final(v)@ =~= old(v)@ + supplemental_bindings());
    }
}

fn push_motions(v: &mut Vec<(Chord, DefaultBinding)>, extend: bool)
    ensures
        final(v)@ == old(v)@ + motion_bindings(extend),
{
    let s = extend;
    v.push((chord_of(KeyCode::Left, true, s, false), DefaultBinding::Action(DefaultAction::MoveLineStart { extend })));
    v.push((chord_of(KeyCode::Right, true, s, false), DefaultBinding::Action(DefaultAction::MoveLineEnd { extend })));
    v.push((chord_of(KeyCode::Up, true, s, false), DefaultBinding::Action(DefaultAction::MoveDocStart { extend })));
    v.push((chord_of(KeyCode::Down, true, s, false), DefaultBinding::Action(DefaultAction::MoveDocEnd { extend })));
    v.push((chord_of(KeyCode::Left, false, s, true), DefaultBinding::Action(DefaultAction::MoveWordLeft { extend })));
    v.push((chord_of(KeyCode::Right, false, s, true), DefaultBinding::Action(DefaultAction::MoveWordRight { extend })));
    v.push((chord_of(KeyCode::Left, false, s, false), DefaultBinding::Action(DefaultAction::MoveLeft { extend })));
    v.push((chord_of(KeyCode::Right, false, s, false), DefaultBinding::Action(DefaultAction::MoveRight { extend })));
    v.push((chord_of(KeyCode::Up, false, s, false), DefaultBinding::Action(DefaultAction::MoveUp { extend })));
    v.push((chord_of(KeyCode::Down, false, s, false), DefaultBinding::Action(DefaultAction::MoveDown { extend })));
    v.push((chord_of(KeyCode::Home, false, s, false), DefaultBinding::Action(DefaultAction::MoveLineStart { extend })));
    v.push((chord_of(KeyCode::End, false, s, false), DefaultBinding::Action(DefaultAction::MoveLineEnd { extend })));
    v.push((chord_of(KeyCode::PageUp, false, s, false), DefaultBinding::Action(DefaultAction::PageUp { extend })));
    v.push((chord_of(KeyCode::PageDown, false, s, false), DefaultBinding::Action(DefaultAction::PageDown { extend })));
    v.push((chord_of(KeyCode::Home, true, s, false), DefaultBinding::Action(DefaultAction::MoveDocStart { extend })));
    v.push((chord_of(KeyCode::End, true, s, false), DefaultBinding::Action(DefaultAction::MoveDocEnd { extend })));
    proof {
        assert(final(v)@ =~= old(v)@ + motion_bindings(extend));
    }
}

fn push_closing(v: &mut Vec<(Chord, DefaultBinding)>)
    ensures
        final(v)@ == old(v)@ + closing_bindings(),
{
    v.push((chord_of(KeyCode::Char('b'), false, false, true), DefaultBinding::Action(DefaultAction::MoveWordLeft { extend: false })));
    v.push((chord_of(KeyCode::Char('f'), false, false, true), DefaultBinding::Action(DefaultAction::MoveWordRight { extend: false })));
    v.push((chord_of(KeyCode::Left, true, false, true), DefaultBinding::Action(DefaultAction::FocusDir(Direction::Left))));
    v.push((chord_of(KeyCode::Right, true, false, true), DefaultBinding::Action(DefaultAction::FocusDir(Direction::Right))));
    v.push((chord_of(KeyCode::Up, true, false, true), DefaultBinding::Action(DefaultAction::FocusDir(Direction::Up))));
    v.push((chord_of(KeyCode::Down, true, false, true), DefaultBinding::Action(DefaultAction::FocusDir(Direction::Down))));
    v.push((chord_of(KeyCode::Backspace, false, false, false), DefaultBinding::Action(DefaultAction::DeleteBack { word: false })));
    v.push((chord_of(KeyCode::Backspace, false, false, true), DefaultBinding::Action(DefaultAction::DeleteBack { word: true })));
    v.push((chord_of(KeyCode::Delete, false, false, false), DefaultBinding::Action(DefaultAction::DeleteForward { word: false })));
    v.push((chord_of(KeyCode::Delete, false, false, true), DefaultBinding::Action(DefaultAction::DeleteForward { word: true })));
    v.push((chord_of(KeyCode::Enter, false, false, false), DefaultBinding::Action(DefaultAction::InsertNewline)));
    v.push((chord_of(KeyCode::Tab, false, false, false), DefaultBinding::Action(DefaultAction::InsertTab)));
    v.push((chord_of(KeyCode::Up, true, true, false), command_of("edit.add_cursor_above")));
    v.push((chord_of(KeyCode::Down, true, true, false), command_of("edit.add_cursor_below")));
    v.push((chord_of(KeyCode::Esc, false, false, false), command_of("edit.collapse_selection")));
    proof {
        assert(final(v)@ =~= old(v)@ + closing_bindings());
    }
}

/// The in-source bindings of the default keymap, in order.
pub fn default_binding_list() -> (v: Vec<(Chord, DefaultBinding)>)
    ensures
        v@ == default_bindings(),
{
    let mut v: Vec<(Chord, DefaultBinding)> = Vec::new();
    push_supplemental(&mut v);
    push_motions(&mut v, false);
    push_motions(&mut v, true);
    push_closing(&mut v);
    proof {
        assert(v@ =~= default_bindings());
    }
    v
}

/// The default keymap: `manifest`'s keymap entries registered against
/// the commands of `reg` (every entry must register), then the in-source
/// bindings of `default_bindings`, in order, each action binding
/// holding what `action` makes of its action.
pub fn default_keymap<A, F: Fn(DefaultAction) -> Arc<A>>(
    manifest: &[KeymapContribution],
    reg: &CommandRegistry<A>,
    action: F,
) -> (k: Keymap<A>)
    requires
        reg.wf(),
        all_bind(contribution_steps(manifest@, reg@)),
        forall|a: DefaultAction| action.requires((a,)),
    ensures
        forall|c: Chord|
            binds_as(
                #[trigger] lookup(k.binding_table(), c),
                default_bindings(),
                c,
                bound_after(None, contribution_steps(manifest@, reg@), c),
                action,
            ),
        forall|id: (Option<Seq<char>>, Seq<char>)| #[trigger]
            lookup(k.hint_table(), id) == hint_after(
                hint_after(None, contribution_steps(manifest@, reg@), id),
                command_steps(default_bindings()),
                id,
            ),
        forall|seg: Seq<char>| #[trigger]
            lookup(k.path_table(), seg) == defaults_path(
                path_after(None, contribution_steps(manifest@, reg@), seg),
                default_bindings(),
                seg,
            ),
{
    let ghost steps = contribution_steps(manifest@, reg@);
    let mut k: Keymap<A> = Keymap::new();
    let ghost start = k;
    let r = register_keymap_contributions(&mut k, manifest, reg);
    proof {
        match r {
            Ok(_) => {},
            Err(e) => {
                let j = choose|j: int|
                    0 <= j < manifest@.len() && all_bind(steps.take(j)) && step_error(
                        #[trigger] steps[j],
                        e,
                    ) && keymap_after(start, k, steps.take(j));
                assert(steps[j] is Bind);
                assert(false);
            },
        }
        assert forall|c: Chord| #[trigger] lookup(start.binding_table(), c) is None by {
            assert(start.binding_table() =~= Seq::empty());
        }
        assert forall|id: (Option<Seq<char>>, Seq<char>)| #[trigger] lookup(start.hint_table(), id) is None by {
            assert(start.hint_table() =~= Seq::empty());
        }
        assert forall|seg: Seq<char>| #[trigger] lookup(start.path_table(), seg) is None by {
            assert(start.path_table() =~= Seq::empty());
        }
    }
    let list = default_binding_list();
    let ghost all = list@;
    let mut i: usize = 0;
    proof {
        assert(all.take(0) =~= Seq::<(Chord, DefaultBinding)>::empty());
        assert(command_steps(all.take(0)) =~= Seq::<KeymapStep>::empty());
    }
    while i < list.len()
        invariant
            i <= all.len(),
            all == list@,
            all == default_bindings(),
            forall|a: DefaultAction| action.requires((a,)),
            forall|c: Chord|
                binds_as(
                    #[trigger] lookup(k.binding_table(), c),
                    all.take(i as int),
                    c,
                    bound_after(None, steps, c),
                    action,
                ),
            forall|id: (Option<Seq<char>>, Seq<char>)| #[trigger]
                lookup(k.hint_table(), id) == hint_after(
                    hint_after(None, steps, id),
                    command_steps(all.take(i as int)),
                    id,
                ),
            forall|seg: Seq<char>| #[trigger]
                lookup(k.path_table(), seg) == defaults_path(
                    path_after(None, steps, seg),
                    all.take(i as int),
                    seg,
                ),
        decreases all.len() - i,
    {
        let ghost prefix = all.take(i as int);
        let ghost next = all.take(i + 1);
        let (c0, b0) = list[i];
        proof {
            assert(next.drop_last() =~= prefix);
            assert(next.last() == (c0, b0));
            assert(command_steps(next) =~= command_steps(prefix).push(command_steps(next).last()));
            assert(command_steps(next).drop_last() =~= command_steps(prefix));
        }
        match b0 {
            DefaultBinding::Command(id) => {
                k.bind_command(c0, id);
            },
            DefaultBinding::Action(a) => {
                let made = action(a);
                let ghost madev = made;
                k.bind_action(c0, made);
                proof {
                    assert(action.ensures((a,), madev));
                }
            },
        }
        proof {
            assert forall|c: Chord| c != c0 implies #[trigger] lookup(next, c) == lookup(prefix, c) by {}
            assert(lookup(next, c0) == Some(b0));
        }
        i = i + 1;
    }
    proof {
        assert(all.take(i as int) =~= all);
    }
    k
}

proof fn lemma_closing_lookups()
    ensures
        lookup(closing_bindings(), key(KeyCode::Up, true, true, false)) == Some(builtin("edit.add_cursor_above")),
        lookup(closing_bindings(), key(KeyCode::Down, true, true, false)) == Some(builtin("edit.add_cursor_below")),
        lookup(closing_bindings(), key(KeyCode::Home, true, true, false)) is None,
        lookup(closing_bindings(), key(KeyCode::End, true, true, false)) is None,
        lookup(closing_bindings(), key(KeyCode::Char('['), true, true, false)) is None,
        lookup(closing_bindings(), key(KeyCode::Char(']'), true, true, false)) is None,
{
    reveal_with_fuel(lookup, 16);
}

proof fn lemma_motion_lookups(extend: bool)
    ensures
        extend ==> lookup(motion_bindings(extend), key(KeyCode::Home, true, true, false)) == Some(
            act(DefaultAction::MoveDocStart { extend: true }),
        ),
        extend ==> lookup(motion_bindings(extend), key(KeyCode::End, true, true, false)) == Some(
            act(DefaultAction::MoveDocEnd { extend: true }),
        ),
        lookup(motion_bindings(extend), key(KeyCode::Char('['), true, true, false)) is None,
        lookup(motion_bindings(extend), key(KeyCode::Char(']'), true, true, false)) is None,
{
    reveal_with_fuel(lookup, 17);
}

proof fn lemma_supplemental_lookups()
    ensures
        lookup(supplemental_bindings(), key(KeyCode::Char('['), true, true, false)) == Some(builtin("tab.prev")),
        lookup(supplemental_bindings(), key(KeyCode::Char(']'), true, true, false)) == Some(builtin("tab.next")),
{
    reveal_with_fuel(lookup, 8);
}

/// The multi-cursor commands take `Ctrl+Shift+Up/Down` from the
/// extend-to-document motions, which stay on `Ctrl+Shift+Home/End`;
/// `Ctrl+Shift+[` and `]` cycle tabs.
pub proof fn lemma_default_bindings_overrides()
    ensures
        lookup(default_bindings(), key(KeyCode::Up, true, true, false)) == Some(builtin("edit.add_cursor_above")),
        lookup(default_bindings(), key(KeyCode::Down, true, true, false)) == Some(builtin("edit.add_cursor_below")),
        lookup(default_bindings(), key(KeyCode::Home, true, true, false)) == Some(
            act(DefaultAction::MoveDocStart { extend: true }),
        ),
        lookup(default_bindings(), key(KeyCode::End, true, true, false)) == Some(
            act(DefaultAction::MoveDocEnd { extend: true }),
        ),
        lookup(default_bindings(), key(KeyCode::Char('['), true, true, false)) == Some(builtin("tab.prev")),
        lookup(default_bindings(), key(KeyCode::Char(']'), true, true, false)) == Some(builtin("tab.next")),
{
    let a = supplemental_bindings();
    let b = motion_bindings(false);
    let c = motion_bindings(true);
    let d = closing_bindings();
    lemma_closing_lookups();
    lemma_motion_lookups(false);
    lemma_motion_lookups(true);
    lemma_supplemental_lookups();
    let ks = seq![
        key(KeyCode::Up, true, true, false),
        key(KeyCode::Down, true, true, false),
        key(KeyCode::Home, true, true, false),
        key(KeyCode::End, true, true, false),
        key(KeyCode::Char('['), true, true, false),
        key(KeyCode::Char(']'), true, true, false),
    ];
    assert forall|i: int| 0 <= i < ks.len() implies lookup(default_bindings(), #[trigger] ks[i]) == (match lookup(d, ks[i]) {
        Some(v) => Some(v),
        None => match lookup(c, ks[i]) {
            Some(v) => Some(v),
            None => match lookup(b, ks[i]) {
                Some(v) => Some(v),
                None => lookup(a, ks[i]),
            },
        },
    }) by {
        lemma_lookup_concat(a + b + c, d, ks[i]);
        lemma_lookup_concat(a + b, c, ks[i]);
        lemma_lookup_concat(a, b, ks[i]);
    }
    assert(ks[0] == key(KeyCode::Up, true, true, false));
    assert(ks[1] == key(KeyCode::Down, true, true, false));
    assert(ks[2] == key(KeyCode::Home, true, true, false));
    assert(ks[3] == key(KeyCode::End, true, true, false));
    assert(ks[4] == key(KeyCode::Char('['), true, true, false));
    assert(ks[5] == key(KeyCode::Char(']'), true, true, false));
}

/// Looking up in `s + t` finds `t`'s entry first.
pub proof fn lemma_lookup_concat<K, V>(s: Seq<(K, V)>, t: Seq<(K, V)>, k: K)
    ensures
        lookup(s + t, k) == (match lookup(t, k) {
            Some(v) => Some(v),
            None => lookup(s, k),
        }),
    decreases t.len(),
{
    if t.len() > 0 {
        assert((s + t).drop_last() =~= s + t.drop_last());
        assert((s + t).last() == t.last());
        lemma_lookup_concat(s, t.drop_last(), k);
    } else {
        assert(s + t =~= s);
    }
}

} // verus!
