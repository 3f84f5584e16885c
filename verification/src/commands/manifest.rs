//! Registering a manifest's command contributions into the command
//! registry, and the built-in command set that is registered that way.
//!
//! A manifest lists commands by bare id, label and optional category.
//! Each id is resolved to its handler by a caller-supplied resolver; an
//! id with no handler is a load-time error.

use std::sync::Arc;

use vstd::prelude::*;

use crate::commands::registry::{
    Command, CommandId, CommandRegistry, after_register, distinct_ids, opt_chars, position_of, registered_all,
};
use crate::commands::keymap::{Binding, Keymap, chord_segment};
use crate::editor::editor::lookup;
use crate::input::{
    Chord, ProtoChord, ProtoKey, chord_from_protocol, f_key_reason, proto_chord_text,
    proto_chord_to_string, spec_chord_from_protocol,
};
use crate::paths::{leak_str, owned};

verus! {

/// One entry of a manifest's `contributes.commands`.
pub struct ManifestCommand {
    pub id: String,
    pub label: String,
    pub category: Option<String>,
}

/// Errors registering a manifest's contributions: the manifest is valid
/// but references something the host can't satisfy.
pub enum ManifestRegisterError {
    /// No handler for the built-in command with this id.
    NoHandlerForCommand(String),
    /// A keymap binding names a command id nobody registered.
    UnknownKeymapCommand(String),
    /// A keymap chord has no keyboard equivalent.
    UnsupportedChord { chord: String, reason: String },
}

impl ManifestRegisterError {
    /// The message describing the error.
    pub fn message(&self) -> (s: String)
        ensures
            s@ == match self {
                ManifestRegisterError::NoHandlerForCommand(id) => "no Rust handler registered for built-in command `"@
                    + id@ + "`"@,
                ManifestRegisterError::UnknownKeymapCommand(id) => "keymap binding references unknown command id `"@
                    + id@ + "`"@,
                ManifestRegisterError::UnsupportedChord { chord, reason } => "keymap chord `"@ + chord@
                    + "` cannot be converted to crossterm shape: "@ + reason@,
            },
    {
        match self {
            ManifestRegisterError::NoHandlerForCommand(id) => {
                let mut s = owned("no Rust handler registered for built-in command `");
                crate::paths::push_str(&mut s, id.as_str());
                crate::paths::push_str(&mut s, "`");
                s
            },
            ManifestRegisterError::UnknownKeymapCommand(id) => {
                let mut s = owned("keymap binding references unknown command id `");
                crate::paths::push_str(&mut s, id.as_str());
                crate::paths::push_str(&mut s, "`");
                s
            },
            ManifestRegisterError::UnsupportedChord { chord, reason } => {
                let mut s = owned("keymap chord `");
                crate::paths::push_str(&mut s, chord.as_str());
                crate::paths::push_str(&mut s, "` cannot be converted to crossterm shape: ");
                crate::paths::push_str(&mut s, reason.as_str());
                s
            },
        }
    }
}

/// Intern runtime text as `&'static str` (command ids and labels are
/// `&'static str`). The text lives for the rest of the process; the
/// built-ins are loaded once.
pub fn intern_id(s: &str) -> (r: &'static str)
    ensures
        r@ == s@,
{
    leak_str(s)
}

/// What a registry entry says, without its action: id, label, category.
pub type EntryView = ((Option<Seq<char>>, Seq<char>), Seq<char>, Option<Seq<char>>);

pub open spec fn entry_view<A>(c: Command<A>) -> EntryView {
    (c.id@, c.label@, opt_chars(c.category))
}

/// The entry a manifest command becomes: a built-in id.
pub open spec fn manifest_entry(m: ManifestCommand) -> EntryView {
    (
        (None, m.id@),
        m.label@,
        match m.category {
            Some(c) => Some(c@),
            None => None,
        },
    )
}

/// Position of the entry with id `key`, if any.
pub open spec fn key_position(s: Seq<EntryView>, key: (Option<Seq<char>>, Seq<char>)) -> Option<int> {
    if exists|i: int| 0 <= i < s.len() && s[i].0 == key {
        Some(choose|i: int| 0 <= i < s.len() && s[i].0 == key)
    } else {
        None
    }
}

/// Registering an entry: replaced in place when its id is present,
/// appended otherwise.
pub open spec fn register_view(s: Seq<EntryView>, e: EntryView) -> Seq<EntryView> {
    match key_position(s, e.0) {
        Some(i) => s.update(i, e),
        None => s.push(e),
    }
}

/// Registering `es` in order.
pub open spec fn register_all(s: Seq<EntryView>, es: Seq<EntryView>) -> Seq<EntryView>
    decreases es.len(),
{
    if es.len() == 0 {
        s
    } else {
        register_view(register_all(s, es.drop_last()), es.last())
    }
}

/// The entry views of a registry's commands.
pub open spec fn entries_view<A>(s: Seq<Command<A>>) -> Seq<EntryView> {
    s.map_values(|c: Command<A>| entry_view(c))
}

/// The entry views manifest commands become.
pub open spec fn manifest_view(ms: Seq<ManifestCommand>) -> Seq<EntryView> {
    ms.map_values(|m: ManifestCommand| manifest_entry(m))
}

/// Registering a command acts on entry views as `register_view` does.
proof fn lemma_register_view<A>(s: Seq<Command<A>>, c: Command<A>)
    requires
        distinct_ids(s),
    ensures
        entries_view(after_register(s, c)) == register_view(entries_view(s), entry_view(c)),
{
    let vs = entries_view(s);
    let key = c.id@;
    assert forall|i: int| 0 <= i < s.len() implies #[trigger] vs[i].0 == s[i].id@ by {}
    match position_of(s, key) {
        Some(p) => {
            assert(vs[p].0 == key);
            let q = choose|i: int| 0 <= i < vs.len() && vs[i].0 == key;
            assert(s[q].id@ == key);
            assert(p == q);
            assert(entries_view(after_register(s, c)) =~= vs.update(p, entry_view(c)));
        },
        None => {
            assert(!exists|i: int| 0 <= i < vs.len() && vs[i].0 == key) by {
                if exists|i: int| 0 <= i < vs.len() && vs[i].0 == key {
                    let q = choose|i: int| 0 <= i < vs.len() && vs[i].0 == key;
                    assert(s[q].id@ == key);
                }
            }
            assert(entries_view(after_register(s, c)) =~= vs.push(entry_view(c)));
        },
    }
}

/// `c` is the command manifest entry `m` registers: its built-in id, label
/// and category, with the handler `resolver` gave for its id.
pub open spec fn manifest_command<A, F: Fn(&str) -> Option<Arc<A>>>(
    c: Command<A>,
    m: ManifestCommand,
    resolver: F,
) -> bool {
    &&& entry_view(c) == manifest_entry(m)
    &&& exists|s: &str| s@ == m.id@ && #[trigger] resolver.ensures((s,), Some(c.action))
}

/// `cmds` are the commands the first `cmds.len()` entries of `ms`
/// register, in order.
pub open spec fn manifest_commands<A, F: Fn(&str) -> Option<Arc<A>>>(
    cmds: Seq<Command<A>>,
    ms: Seq<ManifestCommand>,
    resolver: F,
) -> bool {
    &&& cmds.len() <= ms.len()
    &&& forall|i: int| 0 <= i < cmds.len() ==> manifest_command(#[trigger] cmds[i], ms[i], resolver)
}

/// Register `commands` in order, each under its built-in id, with the
/// handler `resolver` returns for its id. Stops at the first id with no
/// handler and reports it; the commands before it stay registered.
/// Returns the number registered.
pub fn register_command_contributions<A, F: Fn(&str) -> Option<Arc<A>>>(
    reg: &mut CommandRegistry<A>,
    commands: &[ManifestCommand],
    resolver: F,
) -> (r: Result<usize, ManifestRegisterError>)
    requires
        old(reg).wf(),
        forall|s: &str| resolver.requires((s,)),
    ensures
        final(reg).wf(),
        match r {
            Ok(n) => n == commands@.len() && entries_view(final(reg)@) == register_all(
                entries_view(old(reg)@),
                manifest_view(commands@),
            ),
            Err(e) => exists|k: int|
                0 <= k < commands@.len() && (e matches ManifestRegisterError::NoHandlerForCommand(
                    id,
                ) && id@ == commands@[k].id@) && entries_view(final(reg)@) == register_all(
                    entries_view(old(reg)@),
                    manifest_view(commands@).take(k),
                ) && exists|s: &str| s@ == commands@[k].id@ && #[trigger] resolver.ensures((s,), None),
        },
        exists|cmds: Seq<Command<A>>|
            manifest_commands(cmds, commands@, resolver) && #[trigger] registered_all(old(reg)@, cmds)
                == final(reg)@ && match r {
                Ok(n) => cmds.len() == n,
                Err(e) => cmds.len() < commands@.len() && (e matches ManifestRegisterError::NoHandlerForCommand(
                    id,
                ) && id@ == commands@[cmds.len() as int].id@) && exists|s: &str|
                    s@ == commands@[cmds.len() as int].id@ && #[trigger] resolver.ensures((s,), None),
            },
{
    let ghost start = entries_view(reg@);
    let ghost mv = manifest_view(commands@);
    let ghost reg0 = reg@;
    let ghost mut cmds: Seq<Command<A>> = Seq::empty();
    let mut count: usize = 0;
    proof {
        assert(mv.take(0) =~= Seq::<EntryView>::empty());
    }
    while count < commands.len()
        invariant
            reg.wf(),
            count <= commands@.len(),
            mv == manifest_view(commands@),
            start == entries_view(old(reg)@),
            reg0 == old(reg)@,
            forall|s: &str| resolver.requires((s,)),
            entries_view(reg@) == register_all(start, mv.take(count as int)),
            cmds.len() == count,
            manifest_commands(cmds, commands@, resolver),
            reg@ == registered_all(reg0, cmds),
        decreases commands@.len() - count,
    {
        let spec = &commands[count];
        let idstr = spec.id.as_str();
        let found = resolver(idstr);
        let action = match found {
            Some(a) => a,
            None => {
                proof {
                    assert(resolver.ensures((idstr,), None));
                }
                return Err(ManifestRegisterError::NoHandlerForCommand(owned(spec.id.as_str())));
            },
        };
        proof {
            assert(resolver.ensures((idstr,), Some(action)));
        }
        let id = CommandId::builtin(intern_id(spec.id.as_str()));
        let label = intern_id(spec.label.as_str());
        let category = match &spec.category {
            Some(c) => Some(intern_id(c.as_str())),
            None => None,
        };
        let cmd = Command { id, label, category, action };
        proof {
            lemma_register_view(reg@, cmd);
            assert(entry_view(cmd) == mv[count as int]);
            assert(mv.take(count + 1).drop_last() =~= mv.take(count as int));
        }
        let ghost cmdv = cmd;
        reg.register(cmd);
        proof {
            let prev = cmds;
            cmds = cmds.push(cmdv);
            assert(cmds.drop_last() =~= prev);
            assert(idstr@ == commands@[count as int].id@);
            assert(mv[count as int] == manifest_entry(commands@[count as int]));
            assert(entry_view(cmdv) == manifest_entry(commands@[count as int]));
            assert(resolver.ensures((idstr,), Some(cmdv.action)));
            assert(manifest_command(cmdv, commands@[count as int], resolver));
            assert(forall|i: int| 0 <= i < prev.len() ==> cmds[i] == prev[i]);
        }
        count = count + 1;
    }
    proof {
        assert(mv.take(count as int) =~= mv);
    }
    Ok(count)
}

/// Register every built-in command the built-in manifest lists, each
/// resolved to its handler by `resolver`. The built-in manifest has a
/// handler for every id it lists.
pub fn register_builtins<A, F: Fn(&str) -> Option<Arc<A>>>(
    reg: &mut CommandRegistry<A>,
    manifest: &[ManifestCommand],
    resolver: F,
)
    requires
        old(reg).wf(),
        forall|s: &str| resolver.requires((s,)),
        forall|s: &str, r: Option<Arc<A>>|
            (exists|k: int| 0 <= k < manifest@.len() && s@ == manifest@[k].id@) && #[trigger] resolver.ensures((s,), r)
                ==> r is Some,
    ensures
        final(reg).wf(),
        entries_view(final(reg)@) == register_all(entries_view(old(reg)@), manifest_view(manifest@)),
        exists|cmds: Seq<Command<A>>|
            cmds.len() == manifest@.len() && manifest_commands(cmds, manifest@, resolver)
                && #[trigger] registered_all(old(reg)@, cmds) == final(reg)@,
{
    let ghost start = entries_view(reg@);
    let ghost mv = manifest_view(manifest@);
    let ghost reg0 = reg@;
    let ghost mut cmds: Seq<Command<A>> = Seq::empty();
    let mut count: usize = 0;
    proof {
        assert(mv.take(0) =~= Seq::<EntryView>::empty());
    }
    while count < manifest.len()
        invariant
            reg.wf(),
            count <= manifest@.len(),
            mv == manifest_view(manifest@),
            start == entries_view(old(reg)@),
            forall|s: &str| resolver.requires((s,)),
            forall|s: &str, r: Option<Arc<A>>|
                (exists|k: int| 0 <= k < manifest@.len() && s@ == manifest@[k].id@) && #[trigger] resolver.ensures((s,), r)
                    ==> r is Some,
            entries_view(reg@) == register_all(start, mv.take(count as int)),
            reg0 == old(reg)@,
            cmds.len() == count,
            manifest_commands(cmds, manifest@, resolver),
            reg@ == registered_all(reg0, cmds),
        decreases manifest@.len() - count,
    {
        let spec = &manifest[count];
        let idstr = spec.id.as_str();
        let found = resolver(idstr);
        proof {
            assert(idstr@ == manifest@[count as int].id@);
        }
        let action = match found {
            Some(a) => a,
            None => {
                proof {
                    assert(false);
                }
                return ;
            },
        };
        proof {
            assert(resolver.ensures((idstr,), Some(action)));
        }
        let id = CommandId::builtin(intern_id(spec.id.as_str()));
        let label = intern_id(spec.label.as_str());
        let category = match &spec.category {
            Some(c) => Some(intern_id(c.as_str())),
            None => None,
        };
        let cmd = Command { id, label, category, action };
        proof {
            lemma_register_view(reg@, cmd);
            assert(entry_view(cmd) == mv[count as int]);
            assert(mv.take(count + 1).drop_last() =~= mv.take(count as int));
        }
        let ghost cmdv = cmd;
        reg.register(cmd);
        proof {
            let prev = cmds;
            cmds = cmds.push(cmdv);
            assert(cmds.drop_last() =~= prev);
            assert(idstr@ == manifest@[count as int].id@);
            assert(mv[count as int] == manifest_entry(manifest@[count as int]));
            assert(entry_view(cmdv) == manifest_entry(manifest@[count as int]));
            assert(resolver.ensures((idstr,), Some(cmdv.action)));
            assert(manifest_command(cmdv, manifest@[count as int], resolver));
            assert(forall|i: int| 0 <= i < prev.len() ==> cmds[i] == prev[i]);
        }
        count = count + 1;
    }
    proof {
        assert(mv.take(count as int) =~= mv);
    }
}

/// A registry holding exactly the built-in commands of `manifest`.
pub fn build_registry<A, F: Fn(&str) -> Option<Arc<A>>>(manifest: &[ManifestCommand], resolver: F) -> (r:
    CommandRegistry<A>)
    requires
        forall|s: &str| resolver.requires((s,)),
        forall|s: &str, r: Option<Arc<A>>|
            (exists|k: int| 0 <= k < manifest@.len() && s@ == manifest@[k].id@) && #[trigger] resolver.ensures((s,), r)
                ==> r is Some,
    ensures
        r.wf(),
        entries_view(r@) == register_all(Seq::empty(), manifest_view(manifest@)),
        exists|cmds: Seq<Command<A>>|
            cmds.len() == manifest@.len() && manifest_commands(cmds, manifest@, resolver)
                && #[trigger] registered_all(Seq::empty(), cmds) == r@,
{
    let mut reg = CommandRegistry::new();
    proof {
        assert(entries_view(reg@) =~= Seq::<EntryView>::empty());
    }
    register_builtins(&mut reg, manifest, resolver);
    reg
}


/// One entry of a manifest's `contributes.keymaps`: a chord and the
/// command it runs, as a bare id (`edit.copy`) or a `/cmd/<id>` path.
pub struct KeymapContribution {
    pub key: ProtoChord,
    pub command: String,
}

/// What registering one keymap entry comes to.
pub enum KeymapStep {
    /// Bind the chord to this registered command.
    Bind(Chord, CommandId),
    /// The entry names no registered command (the text is quoted back).
    Unknown(Seq<char>),
    /// The chord has no keymap form: its text and the reason.
    Unsupported(Seq<char>, Seq<char>),
}

/// `/cmd/`.
pub open spec fn cmd_prefix() -> Seq<char> {
    seq!['/', 'c', 'm', 'd', '/']
}

/// The bare id a keymap entry's command names: the text itself, or what
/// follows `/cmd/` in a path; none for any other path.
pub open spec fn bare_command(cmd: Seq<char>) -> Option<Seq<char>> {
    if cmd.len() > 0 && cmd[0] == '/' {
        if cmd.len() >= 5 && cmd.take(5) == cmd_prefix() {
            Some(cmd.skip(5))
        } else {
            None
        }
    } else {
        Some(cmd)
    }
}

/// What registering `b` against the commands `reg` comes to: the
/// command is resolved first, then the chord converted.
pub open spec fn keymap_step<A>(b: KeymapContribution, reg: Seq<Command<A>>) -> KeymapStep {
    match bare_command(b.command@) {
        None => KeymapStep::Unknown(b.command@),
        Some(bare) => match position_of(reg, (None, bare)) {
            None => KeymapStep::Unknown(bare),
            Some(i) => match spec_chord_from_protocol(b.key) {
                Some(c) => KeymapStep::Bind(c, reg[i].id),
                None => KeymapStep::Unsupported(
                    proto_chord_text(b.key),
                    match b.key.key {
                        ProtoKey::F(n) => f_key_reason(n),
                        _ => Seq::empty(),
                    },
                ),
            },
        },
    }
}

/// `e` is the error a failed step reports.
pub open spec fn step_error(s: KeymapStep, e: ManifestRegisterError) -> bool {
    match s {
        KeymapStep::Bind(_, _) => false,
        KeymapStep::Unknown(t) => e matches ManifestRegisterError::UnknownKeymapCommand(x) && x@ == t,
        KeymapStep::Unsupported(c, r) => e matches ManifestRegisterError::UnsupportedChord {
            chord,
            reason,
        } && chord@ == c && reason@ == r,
    }
}

/// The steps the entries `bs` come to.
pub open spec fn contribution_steps<A>(bs: Seq<KeymapContribution>, reg: Seq<Command<A>>) -> Seq<KeymapStep> {
    bs.map_values(|b: KeymapContribution| keymap_step(b, reg))
}

/// Every step binds.
pub open spec fn all_bind(steps: Seq<KeymapStep>) -> bool {
    forall|i: int| 0 <= i < steps.len() ==> #[trigger] steps[i] is Bind
}

/// What `c` is bound to after the steps are taken in order, when it was
/// bound to `before`: the last step binding `c` wins.
pub open spec fn bound_after<A>(before: Option<Binding<A>>, steps: Seq<KeymapStep>, c: Chord) -> Option<
    Binding<A>,
>
    decreases steps.len(),
{
    if steps.len() == 0 {
        before
    } else {
        match steps.last() {
            KeymapStep::Bind(c2, id) => if c2 == c {
                Some(Binding::Command(id))
            } else {
                bound_after(before, steps.drop_last(), c)
            },
            _ => bound_after(before, steps.drop_last(), c),
        }
    }
}

/// The hint chord of the command `k` after the steps are taken in order,
/// when it was `before`: the first chord bound to it stays.
pub open spec fn hint_after(before: Option<Chord>, steps: Seq<KeymapStep>, k: (Option<Seq<char>>, Seq<char>)) -> Option<
    Chord,
>
    decreases steps.len(),
{
    if steps.len() == 0 {
        before
    } else {
        let prev = hint_after(before, steps.drop_last(), k);
        match steps.last() {
            KeymapStep::Bind(c, id) => if id@ == k && prev is None {
                Some(c)
            } else {
                prev
            },
            _ => prev,
        }
    }
}

/// The command behind the keymap path segment `seg` after the steps
/// are taken in order, when it was `before`: the last step whose chord
/// has that segment wins.
pub open spec fn path_after(
    before: Option<(Option<Seq<char>>, Seq<char>)>,
    steps: Seq<KeymapStep>,
    seg: Seq<char>,
) -> Option<(Option<Seq<char>>, Seq<char>)>
    decreases steps.len(),
{
    if steps.len() == 0 {
        before
    } else {
        match steps.last() {
            KeymapStep::Bind(c, id) => if chord_segment(c) == Some(seg) {
                Some(id@)
            } else {
                path_after(before, steps.drop_last(), seg)
            },
            _ => path_after(before, steps.drop_last(), seg),
        }
    }
}

/// `after` is `before` with the binding steps taken in order.
pub open spec fn keymap_after<A>(before: Keymap<A>, after: Keymap<A>, steps: Seq<KeymapStep>) -> bool {
    &&& forall|c: Chord| #[trigger]
        lookup(after.binding_table(), c) == bound_after(lookup(before.binding_table(), c), steps, c)
    &&& forall|k: (Option<Seq<char>>, Seq<char>)| #[trigger]
        lookup(after.hint_table(), k) == hint_after(lookup(before.hint_table(), k), steps, k)
    &&& forall|s: Seq<char>| #[trigger]
        lookup(after.path_table(), s) == path_after(lookup(before.path_table(), s), steps, s)
}

/// `after` is `before` with `c` bound to `id` by `bind_command`.
pub open spec fn bound_by<A>(before: Keymap<A>, after: Keymap<A>, c: Chord, id: CommandId) -> bool {
    &&& lookup(after.binding_table(), c) == Some(Binding::<A>::Command(id))
    &&& forall|c2: Chord|
        c2 != c ==> #[trigger] lookup(after.binding_table(), c2) == lookup(before.binding_table(), c2)
    &&& lookup(after.hint_table(), id@) == (match lookup(before.hint_table(), id@) {
        Some(h) => Some(h),
        None => Some(c),
    })
    &&& forall|k: (Option<Seq<char>>, Seq<char>)|
        k != id@ ==> #[trigger] lookup(after.hint_table(), k) == lookup(before.hint_table(), k)
    &&& match chord_segment(c) {
        Some(seg) => lookup(after.path_table(), seg) == Some(id@) && forall|s: Seq<char>|
            s != seg ==> #[trigger] lookup(after.path_table(), s) == lookup(before.path_table(), s),
        None => after.path_table() == before.path_table(),
    }
}

/// One more binding step extends `keymap_after`.
proof fn lemma_keymap_after_push<A>(
    start: Keymap<A>,
    before: Keymap<A>,
    after: Keymap<A>,
    steps: Seq<KeymapStep>,
    c: Chord,
    id: CommandId,
)
    requires
        keymap_after(start, before, steps),
        bound_by(before, after, c, id),
    ensures
        keymap_after(start, after, steps.push(KeymapStep::Bind(c, id))),
{
    let s1 = steps.push(KeymapStep::Bind(c, id));
    assert(s1.drop_last() =~= steps);
    assert forall|c2: Chord| #[trigger]
        lookup(after.binding_table(), c2) == bound_after(lookup(start.binding_table(), c2), s1, c2) by {
        assert(lookup(before.binding_table(), c2) == bound_after(lookup(start.binding_table(), c2), steps, c2));
    }
    assert forall|k: (Option<Seq<char>>, Seq<char>)| #[trigger]
        lookup(after.hint_table(), k) == hint_after(lookup(start.hint_table(), k), s1, k) by {
        assert(lookup(before.hint_table(), k) == hint_after(lookup(start.hint_table(), k), steps, k));
    }
    assert forall|s: Seq<char>| #[trigger]
        lookup(after.path_table(), s) == path_after(lookup(start.path_table(), s), s1, s) by {
        assert(lookup(before.path_table(), s) == path_after(lookup(start.path_table(), s), steps, s));
    }
}

/// The bare id `cmd` names, as `bare_command` says.
fn bare_command_of(cmd: &str) -> (r: Option<&str>)
    ensures
        match r {
            Some(s) => bare_command(cmd@) == Some(s@),
            None => bare_command(cmd@) is None,
        },
{
    let n = cmd.unicode_len();
    if n > 0 && cmd.get_char(0) == '/' {
        if n >= 5 && cmd.get_char(1) == 'c' && cmd.get_char(2) == 'm' && cmd.get_char(3) == 'd'
            && cmd.get_char(4) == '/' {
            proof {
                assert(cmd@.take(5) =~= cmd_prefix());
            }
            let rest = cmd.substring_char(5, n);
            proof {
                assert(rest@ =~= cmd@.skip(5));
            }
            Some(rest)
        } else {
            proof {
                if n >= 5 {
                    assert(cmd@.take(5)[1] == cmd@[1]);
                    assert(cmd@.take(5)[2] == cmd@[2]);
                    assert(cmd@.take(5)[3] == cmd@[3]);
                    assert(cmd@.take(5)[4] == cmd@[4]);
                    assert(cmd@.take(5) != cmd_prefix());
                }
            }
            None
        }
    } else {
        Some(cmd)
    }
}

/// Resolve one keymap entry: its chord and the registered command it
/// names.
fn resolve_one<A>(b: &KeymapContribution, commands: &CommandRegistry<A>) -> (r: Result<
    (Chord, CommandId),
    ManifestRegisterError,
>)
    requires
        commands.wf(),
    ensures
        match r {
            Ok((c, id)) => keymap_step(*b, commands@) == KeymapStep::Bind(c, id),
            Err(e) => step_error(keymap_step(*b, commands@), e),
        },
{
    let bare = match bare_command_of(b.command.as_str()) {
        Some(s) => s,
        None => {
            return Err(ManifestRegisterError::UnknownKeymapCommand(owned(b.command.as_str())));
        },
    };
    let id = match commands.builtin_id(bare) {
        Some(id) => id,
        None => {
            return Err(ManifestRegisterError::UnknownKeymapCommand(owned(bare)));
        },
    };
    match chord_from_protocol(&b.key) {
        Ok(c) => Ok((c, id)),
        Err(reason) => Err(
            ManifestRegisterError::UnsupportedChord { chord: proto_chord_to_string(&b.key), reason },
        ),
    }
}

/// Register one keymap entry: bind its chord to its command.
fn register_one<A>(
    keymap: &mut Keymap<A>,
    b: &KeymapContribution,
    commands: &CommandRegistry<A>,
) -> (r: Result<(), ManifestRegisterError>)
    requires
        commands.wf(),
    ensures
        match r {
            Ok(_) => keymap_step(*b, commands@) matches KeymapStep::Bind(c, id) && bound_by(
                *old(keymap),
                *final(keymap),
                c,
                id,
            ),
            Err(e) => step_error(keymap_step(*b, commands@), e) && *final(keymap) == *old(keymap),
        },
{
    match resolve_one(b, commands) {
        Ok((chord, id)) => {
            keymap.bind_command(chord, id);
            Ok(())
        },
        Err(e) => Err(e),
    }
}

/// Register a manifest's keymap entries into `keymap`, in order. Each
/// entry's command must already be registered in `commands`; an entry
/// naming an unknown command, or a chord with no keymap form, stops the
/// registration with that error (the entries before it stay bound).
/// Returns the number bound.
pub fn register_keymap_contributions<A>(
    keymap: &mut Keymap<A>,
    bindings: &[KeymapContribution],
    commands: &CommandRegistry<A>,
) -> (r: Result<usize, ManifestRegisterError>)
    requires
        commands.wf(),
    ensures
        ({
            let steps = contribution_steps(bindings@, commands@);
            match r {
                Ok(n) => n == bindings@.len() && all_bind(steps) && keymap_after(
                    *old(keymap),
                    *final(keymap),
                    steps,
                ),
                Err(e) => exists|k: int|
                    0 <= k < bindings@.len() && all_bind(steps.take(k)) && step_error(
                        #[trigger] steps[k],
                        e,
                    ) && keymap_after(*old(keymap), *final(keymap), steps.take(k)),
            }
        }),
{
    let ghost start = *keymap;
    let ghost reg = commands@;
    let ghost steps = contribution_steps(bindings@, reg);
    let mut i: usize = 0;
    proof {
        assert(steps.take(0) =~= Seq::<KeymapStep>::empty());
    }
    while i < bindings.len()
        invariant
            commands.wf(),
            reg == commands@,
            steps == contribution_steps(bindings@, reg),
            start == *old(keymap),
            i <= bindings@.len(),
            all_bind(steps.take(i as int)),
            keymap_after(start, *keymap, steps.take(i as int)),
        decreases bindings@.len() - i,
    {
        let ghost before = *keymap;
        proof {
            assert(steps[i as int] == keymap_step(bindings@[i as int], reg));
        }
        match register_one(keymap, &bindings[i], commands) {
            Ok(_) => {},
            Err(e) => {
                return Err(e);
            },
        }
        proof {
            let step = steps[i as int];
            let (c, id) = match step {
                KeymapStep::Bind(c, id) => (c, id),
                _ => arbitrary(),
            };
            lemma_keymap_after_push(start, before, *keymap, steps.take(i as int), c, id);
            assert(steps.take(i + 1) =~= steps.take(i as int).push(step));
        }
        i = i + 1;
    }
    proof {
        assert(steps.take(i as int) =~= steps);
    }
    Ok(i)
}

/// The chords bound in `k`.
pub open spec fn bound_chords<A>(k: Keymap<A>) -> spec_fn(Chord) -> bool {
    |c: Chord| lookup(k.binding_table(), c) is Some
}

/// Whether one of `steps` binds `c`.
pub open spec fn binds_chord(steps: Seq<KeymapStep>, c: Chord) -> bool
    decreases steps.len(),
{
    steps.len() > 0 && (binds_chord(steps.drop_last(), c) || (steps.last() matches KeymapStep::Bind(
        c2,
        _,
    ) && c2 == c))
}

/// The steps that take effect when each binds only a chord that is
/// still free (`bound0` says which chords were bound before): the first
/// step for a free chord wins, later ones are dropped.
pub open spec fn free_steps(bound0: spec_fn(Chord) -> bool, steps: Seq<KeymapStep>) -> Seq<KeymapStep>
    decreases steps.len(),
{
    if steps.len() == 0 {
        Seq::empty()
    } else {
        let p = free_steps(bound0, steps.drop_last());
        match steps.last() {
            KeymapStep::Bind(c, _) => if bound0(c) || binds_chord(p, c) {
                p
            } else {
                p.push(steps.last())
            },
            _ => p,
        }
    }
}

/// A chord is bound after the steps exactly when it was bound before or
/// a step binds it.
pub proof fn lemma_bound_after_some<A>(before: Option<Binding<A>>, steps: Seq<KeymapStep>, c: Chord)
    ensures
        (bound_after(before, steps, c) is Some) == (before is Some || binds_chord(steps, c)),
    decreases steps.len(),
{
    if steps.len() > 0 {
        lemma_bound_after_some(before, steps.drop_last(), c);
    }
}

/// Register a manifest's keymap entries into `keymap`, in order, each
/// only where its chord is still free: a chord already bound (by the
/// built-ins, an earlier plugin or an earlier entry) keeps its binding,
/// first loaded wins. Errors as `register_keymap_contributions`.
/// Returns the number of entries taken.
pub fn register_keymap_contributions_if_free<A>(
    keymap: &mut Keymap<A>,
    bindings: &[KeymapContribution],
    commands: &CommandRegistry<A>,
) -> (r: Result<usize, ManifestRegisterError>)
    requires
        commands.wf(),
    ensures
        ({
            let steps = contribution_steps(bindings@, commands@);
            let bound0 = bound_chords(*old(keymap));
            match r {
                Ok(n) => n == bindings@.len() && all_bind(steps) && keymap_after(
                    *old(keymap),
                    *final(keymap),
                    free_steps(bound0, steps),
                ),
                Err(e) => exists|k: int|
                    0 <= k < bindings@.len() && all_bind(steps.take(k)) && step_error(
                        #[trigger] steps[k],
                        e,
                    ) && keymap_after(*old(keymap), *final(keymap), free_steps(bound0, steps.take(k))),
            }
        }),
{
    let ghost start = *keymap;
    let ghost reg = commands@;
    let ghost steps = contribution_steps(bindings@, reg);
    let ghost bound0 = bound_chords(start);
    let mut i: usize = 0;
    proof {
        assert(steps.take(0) =~= Seq::<KeymapStep>::empty());
        assert(free_steps(bound0, steps.take(0)) =~= Seq::<KeymapStep>::empty());
    }
    while i < bindings.len()
        invariant
            commands.wf(),
            reg == commands@,
            steps == contribution_steps(bindings@, reg),
            start == *old(keymap),
            bound0 == bound_chords(start),
            i <= bindings@.len(),
            all_bind(steps.take(i as int)),
            keymap_after(start, *keymap, free_steps(bound0, steps.take(i as int))),
        decreases bindings@.len() - i,
    {
        let ghost before = *keymap;
        let ghost eff = free_steps(bound0, steps.take(i as int));
        proof {
            assert(steps[i as int] == keymap_step(bindings@[i as int], reg));
            assert(steps.take(i + 1).drop_last() =~= steps.take(i as int));
            assert(steps.take(i + 1).last() == steps[i as int]);
        }
        match resolve_one(&bindings[i], commands) {
            Ok((chord, id)) => {
                proof {
                    lemma_bound_after_some(lookup(start.binding_table(), chord), eff, chord);
                }
                let bound = keymap.bind_command_if_free(chord, id);
                proof {
                    if bound {
                        lemma_keymap_after_push(start, before, *keymap, eff, chord, id);
                        assert(free_steps(bound0, steps.take(i + 1)) == eff.push(KeymapStep::Bind(chord, id)));
                    } else {
                        assert(free_steps(bound0, steps.take(i + 1)) == eff);
                    }
                }
            },
            Err(e) => {
                proof {
                    assert(step_error(steps[i as int], e));
                }
                return Err(e);
            },
        }
        proof {
            assert forall|j: int| 0 <= j < i + 1 implies #[trigger] steps.take(i + 1)[j] is Bind by {
                if j < i {
                    assert(steps.take(i + 1)[j] == steps.take(i as int)[j]);
                }
            }
        }
        i = i + 1;
    }
    proof {
        assert(steps.take(i as int) =~= steps);
    }
    Ok(i)
}

/// A user override: the chord text as written, the chord it parsed to
/// (or why it didn't parse), and the command (a bare id or a `/cmd/<id>`
/// path).
pub struct KeymapOverride {
    pub chord_text: String,
    pub chord: Result<ProtoChord, String>,
    pub command: String,
}

/// The bare id an override's command names: what follows `/cmd/`, or
/// the text itself.
pub open spec fn override_command(cmd: Seq<char>) -> Seq<char> {
    if cmd.len() >= 5 && cmd.take(5) == cmd_prefix() {
        cmd.skip(5)
    } else {
        cmd
    }
}

/// What applying override `o` against the commands `reg` comes to: the
/// chord is converted first, then the command resolved.
pub open spec fn override_step<A>(o: KeymapOverride, reg: Seq<Command<A>>) -> KeymapStep {
    match o.chord {
        Err(reason) => KeymapStep::Unsupported(o.chord_text@, reason@),
        Ok(p) => match spec_chord_from_protocol(p) {
            None => KeymapStep::Unsupported(
                o.chord_text@,
                match p.key {
                    ProtoKey::F(n) => f_key_reason(n),
                    _ => Seq::empty(),
                },
            ),
            Some(c) => match position_of(reg, (None, override_command(o.command@))) {
                None => KeymapStep::Unknown(override_command(o.command@)),
                Some(i) => KeymapStep::Bind(c, reg[i].id),
            },
        },
    }
}

/// The steps the overrides `os` come to.
pub open spec fn override_steps<A>(os: Seq<KeymapOverride>, reg: Seq<Command<A>>) -> Seq<KeymapStep> {
    os.map_values(|o: KeymapOverride| override_step(o, reg))
}

fn strip_cmd_prefix(cmd: &str) -> (r: &str)
    ensures
        r@ == override_command(cmd@),
{
    let n = cmd.unicode_len();
    if n >= 5 && cmd.get_char(0) == '/' && cmd.get_char(1) == 'c' && cmd.get_char(2) == 'm'
        && cmd.get_char(3) == 'd' && cmd.get_char(4) == '/' {
        proof {
            assert(cmd@.take(5) =~= cmd_prefix());
        }
        let rest = cmd.substring_char(5, n);
        proof {
            assert(rest@ =~= cmd@.skip(5));
        }
        rest
    } else {
        proof {
            if n >= 5 {
                assert(cmd@.take(5)[0] == cmd@[0]);
                assert(cmd@.take(5)[1] == cmd@[1]);
                assert(cmd@.take(5)[2] == cmd@[2]);
                assert(cmd@.take(5)[3] == cmd@[3]);
                assert(cmd@.take(5)[4] == cmd@[4]);
                assert(cmd@.take(5) != cmd_prefix());
            }
        }
        cmd
    }
}

fn apply_one_override<A>(
    keymap: &mut Keymap<A>,
    o: &KeymapOverride,
    commands: &CommandRegistry<A>,
) -> (r: Result<(), ManifestRegisterError>)
    requires
        commands.wf(),
    ensures
        match r {
            Ok(_) => override_step(*o, commands@) matches KeymapStep::Bind(c, id) && bound_by(
                *old(keymap),
                *final(keymap),
                c,
                id,
            ),
            Err(e) => step_error(override_step(*o, commands@), e) && *final(keymap) == *old(keymap),
        },
{
    let p = match &o.chord {
        Ok(p) => p,
        Err(reason) => {
            return Err(
                ManifestRegisterError::UnsupportedChord {
                    chord: owned(o.chord_text.as_str()),
                    reason: owned(reason.as_str()),
                },
            );
        },
    };
    let chord = match chord_from_protocol(p) {
        Ok(c) => c,
        Err(reason) => {
            return Err(
                ManifestRegisterError::UnsupportedChord { chord: owned(o.chord_text.as_str()), reason },
            );
        },
    };
    let bare = strip_cmd_prefix(o.command.as_str());
    let id = match commands.builtin_id(bare) {
        Some(id) => id,
        None => {
            return Err(ManifestRegisterError::UnknownKeymapCommand(owned(bare)));
        },
    };
    keymap.bind_command(chord, id);
    Ok(())
}

/// Apply user keymap overrides in order, after every manifest's keymap
/// has loaded, so the user's choice displaces any earlier binding of the
/// chord. A chord that didn't parse or has no keymap form, or a command
/// nobody registered, stops with that error (the overrides before it
/// stay applied). Returns the number applied.
pub fn apply_keymap_overrides<A>(
    keymap: &mut Keymap<A>,
    commands: &CommandRegistry<A>,
    overrides: &[KeymapOverride],
) -> (r: Result<usize, ManifestRegisterError>)
    requires
        commands.wf(),
    ensures
        ({
            let steps = override_steps(overrides@, commands@);
            match r {
                Ok(n) => n == overrides@.len() && all_bind(steps) && keymap_after(
                    *old(keymap),
                    *final(keymap),
                    steps,
                ),
                Err(e) => exists|k: int|
                    0 <= k < overrides@.len() && all_bind(steps.take(k)) && step_error(
                        #[trigger] steps[k],
                        e,
                    ) && keymap_after(*old(keymap), *final(keymap), steps.take(k)),
            }
        }),
{
    let ghost start = *keymap;
    let ghost reg = commands@;
    let ghost steps = override_steps(overrides@, reg);
    let mut i: usize = 0;
    proof {
        assert(steps.take(0) =~= Seq::<KeymapStep>::empty());
    }
    while i < overrides.len()
        invariant
            commands.wf(),
            reg == commands@,
            steps == override_steps(overrides@, reg),
            start == *old(keymap),
            i <= overrides@.len(),
            all_bind(steps.take(i as int)),
            keymap_after(start, *keymap, steps.take(i as int)),
        decreases overrides@.len() - i,
    {
        let ghost before = *keymap;
        proof {
            assert(steps[i as int] == override_step(overrides@[i as int], reg));
        }
        match apply_one_override(keymap, &overrides[i], commands) {
            Ok(_) => {},
            Err(e) => {
                return Err(e);
            },
        }
        proof {
            let step = steps[i as int];
            let (c, id) = match step {
                KeymapStep::Bind(c, id) => (c, id),
                _ => arbitrary(),
            };
            lemma_keymap_after_push(start, before, *keymap, steps.take(i as int), c, id);
            assert(steps.take(i + 1) =~= steps.take(i as int).push(step));
        }
        i = i + 1;
    }
    proof {
        assert(steps.take(i as int) =~= steps);
    }
    Ok(i)
}

} // verus!
