//! Installing a plugin's manifest-declared contributions: what to
//! register, what to skip, and which plugin errors to announce.
//!
//! A major engine-version mismatch skips everything. Each contribution
//! kind the manifest uses needs the matching host capability; a missing
//! one skips that kind (commands being skipped skips the rest too). A
//! declared command needs a handler the plugin registered under its id;
//! a declared pane needs a pane the plugin registered on its slot.

use std::sync::Arc;

use vstd::prelude::*;

use crate::commands::keymap::{Binding, Keymap, chord_segment};
use crate::commands::manifest::bound_chords;
use crate::commands::registry::{Command, CommandId, CommandRegistry, registered_all, str_eq};
use crate::editor::editor::lookup;
use crate::input::Chord;
use crate::geom::SidebarSlot;
use crate::paths::{leak_str, owned, push_str};
use crate::plugin::{EngineMismatch, Engines, ProtocolVersion, engines_compatible, mismatches};
use crate::text::{decimal, push_decimal};

verus! {

/// The contribution capabilities a host advertises.
#[derive(Copy, Clone, Debug)]
pub struct Capabilities {
    pub contribute_commands: bool,
    pub contribute_keymaps: bool,
    pub contribute_sidebar_pane: bool,
}

/// A pane a manifest declares: its id and slot.
pub struct ManifestPane {
    pub id: String,
    pub slot: SidebarSlot,
}

/// What to do with one declared command.
pub enum CommandStep {
    /// No handler under this id: announce the message.
    Missing(String),
    /// Register declared command `.0` with the plugin's handler `.1`.
    Register(usize, usize),
}

/// The decisions of one install.
pub struct InstallPlan {
    /// Errors to announce before anything is registered.
    pub setup_errors: Vec<String>,
    /// One step per declared command, in manifest order (empty when
    /// commands are skipped).
    pub commands: Vec<CommandStep>,
    /// Whether to register the manifest's keymaps.
    pub keymaps: bool,
    /// Whether to install the plugin's panes.
    pub panes: bool,
    /// Errors for declared panes with no pane on their slot.
    pub pane_errors: Vec<String>,
    /// Declared panes (by index) whose slot has a pane, to address.
    pub pane_addresses: Vec<usize>,
}

/// `major.minor`.
pub open spec fn version_text(v: ProtocolVersion) -> Seq<char> {
    decimal(v.major as nat) + seq!['.'] + decimal(v.minor as nat)
}

/// The error of one engine mismatch.
pub open spec fn engine_error(surface: Seq<char>, declared: ProtocolVersion, host: ProtocolVersion) -> Seq<char> {
    "engines."@ + surface + " major version mismatch: plugin declares "@ + version_text(declared)
        + ", host supports "@ + version_text(host)
}

/// The error of a contribution kind the host has no capability for.
pub open spec fn capability_error(cap: Seq<char>, kind: Seq<char>) -> Seq<char> {
    "host does not advertise `"@ + cap + "`; `"@ + kind + "` contributions skipped"@
}

/// The error of a declared command with no handler.
pub open spec fn missing_handler_error(id: Seq<char>) -> Seq<char> {
    "manifest declares command `"@ + id
        + "` but the plugin's Lua entry never registered a handler with that id"@
}

/// A slot's name.
pub open spec fn slot_name(s: SidebarSlot) -> Seq<char> {
    match s {
        SidebarSlot::Left => "Left"@,
        SidebarSlot::Right => "Right"@,
    }
}

/// The error of a declared pane with no pane on its slot.
pub open spec fn missing_pane_error(id: Seq<char>, slot: SidebarSlot) -> Seq<char> {
    "manifest declares pane `"@ + id + "` on slot `"@ + slot_name(slot)
        + "` but the plugin's Lua entry never called `register_pane` for that slot"@
}

/// The first index of `ids` holding `id`.
pub open spec fn first_index(ids: Seq<Seq<char>>, id: Seq<char>) -> Option<int> {
    if exists|i: int| 0 <= i < ids.len() && ids[i] == id && forall|j: int| 0 <= j < i ==> ids[j] != id {
        Some(choose|i: int| 0 <= i < ids.len() && ids[i] == id && forall|j: int| 0 <= j < i ==> ids[j] != id)
    } else {
        None
    }
}

/// A step with its message as text.
pub enum StepView {
    Missing(Seq<char>),
    Register(int, int),
}

/// The step for each declared command.
pub open spec fn command_steps(decls: Seq<Seq<char>>, runtime: Seq<Seq<char>>) -> Seq<StepView> {
    Seq::new(
        decls.len(),
        |i: int|
            match first_index(runtime, decls[i]) {
                Some(r) => StepView::Register(i, r),
                None => StepView::Missing(missing_handler_error(decls[i])),
            },
    )
}

/// The errors of declared panes whose slot has no pane.
pub open spec fn pane_errors(decls: Seq<(Seq<char>, SidebarSlot)>, slots: Seq<SidebarSlot>) -> Seq<Seq<char>>
    decreases decls.len(),
{
    if decls.len() == 0 {
        Seq::empty()
    } else {
        let prev = pane_errors(decls.drop_last(), slots);
        if slots.contains(decls.last().1) {
            prev
        } else {
            prev.push(missing_pane_error(decls.last().0, decls.last().1))
        }
    }
}

/// The declared panes (by index) whose slot has a pane.
pub open spec fn pane_addresses(decls: Seq<(Seq<char>, SidebarSlot)>, slots: Seq<SidebarSlot>) -> Seq<int>
    decreases decls.len(),
{
    if decls.len() == 0 {
        Seq::empty()
    } else {
        let prev = pane_addresses(decls.drop_last(), slots);
        if slots.contains(decls.last().1) {
            prev.push(decls.len() - 1)
        } else {
            prev
        }
    }
}

/// The capability errors, in the order commands, keymaps, panes.
pub open spec fn capability_errors(caps: Capabilities, uses: (bool, bool, bool)) -> Seq<Seq<char>> {
    (if !caps.contribute_commands && uses.0 {
        seq![capability_error("ContributeCommands"@, "contributes.commands"@)]
    } else {
        Seq::empty()
    }) + (if !caps.contribute_keymaps && uses.1 {
        seq![capability_error("ContributeKeymaps"@, "contributes.keymaps"@)]
    } else {
        Seq::empty()
    }) + (if !caps.contribute_sidebar_pane && uses.2 {
        seq![capability_error("ContributeSidebarPane"@, "contributes.panes"@)]
    } else {
        Seq::empty()
    })
}

/// The views of the plan's fields.
pub open spec fn step_view(s: CommandStep) -> StepView {
    match s {
        CommandStep::Missing(m) => StepView::Missing(m@),
        CommandStep::Register(d, r) => StepView::Register(d as int, r as int),
    }
}

/// The texts of strings.
pub open spec fn texts(v: Seq<String>) -> Seq<Seq<char>> {
    v.map_values(|s: String| s@)
}

/// The panes with their ids as text.
pub open spec fn pane_views(v: Seq<ManifestPane>) -> Seq<(Seq<char>, SidebarSlot)> {
    v.map_values(|p: ManifestPane| (p.id@, p.slot))
}

fn engine_error_string(m: &EngineMismatch) -> (s: String)
    ensures
        s@ == engine_error(m.surface@, m.declared, m.host),
{
    let mut s = owned("engines.");
    push_str(&mut s, m.surface);
    push_str(&mut s, " major version mismatch: plugin declares ");
    push_decimal(&mut s, m.declared.major as u64);
    push_str(&mut s, ".");
    push_decimal(&mut s, m.declared.minor as u64);
    push_str(&mut s, ", host supports ");
    push_decimal(&mut s, m.host.major as u64);
    push_str(&mut s, ".");
    push_decimal(&mut s, m.host.minor as u64);
    proof {
        reveal_strlit(".");
        assert("."@ =~= seq!['.']);
    }
    s
}

fn capability_error_string(cap: &str, kind: &str) -> (s: String)
    ensures
        s@ == capability_error(cap@, kind@),
{
    let mut s = owned("host does not advertise `");
    push_str(&mut s, cap);
    push_str(&mut s, "`; `");
    push_str(&mut s, kind);
    push_str(&mut s, "` contributions skipped");
    s
}

fn missing_pane_string(id: &str, slot: SidebarSlot) -> (s: String)
    ensures
        s@ == missing_pane_error(id@, slot),
{
    let mut s = owned("manifest declares pane `");
    push_str(&mut s, id);
    push_str(&mut s, "` on slot `");
    match slot {
        SidebarSlot::Left => push_str(&mut s, "Left"),
        SidebarSlot::Right => push_str(&mut s, "Right"),
    }
    push_str(&mut s, "` but the plugin's Lua entry never called `register_pane` for that slot");
    s
}

/// The first index of `ids` holding `id`.
fn find_first(ids: &[String], id: &str) -> (r: Option<usize>)
    ensures
        match r {
            Some(i) => first_index(texts(ids@), id@) == Some(i as int),
            None => first_index(texts(ids@), id@) is None,
        },
{
    let ghost t = texts(ids@);
    let mut i: usize = 0;
    while i < ids.len()
        invariant
            i <= ids@.len(),
            t == texts(ids@),
            forall|j: int| 0 <= j < i ==> t[j] != id@,
        decreases ids@.len() - i,
    {
        if str_eq(ids[i].as_str(), id) {
            proof {
                assert(t[i as int] == id@);
                let k = choose|k: int|
                    0 <= k < t.len() && t[k] == id@ && forall|j: int| 0 <= j < k ==> t[j] != id@;
                if k < i {
                    assert(t[k] != id@);
                } else if k > i {
                    assert(t[i as int] != id@);
                }
            }
            return Some(i);
        }
        i = i + 1;
    }
    None
}

fn slot_present(slots: &[SidebarSlot], slot: SidebarSlot) -> (b: bool)
    ensures
        b == slots@.contains(slot),
{
    let mut i: usize = 0;
    while i < slots.len()
        invariant
            i <= slots@.len(),
            forall|j: int| 0 <= j < i ==> slots@[j] != slot,
        decreases slots@.len() - i,
    {
        if slots[i] == slot {
            return true;
        }
        i = i + 1;
    }
    false
}

/// Decide how to install a plugin's contributions. `declared` is the
/// manifest's engines block and `host` the host's versions; `caps` the
/// host's capabilities; `decl_commands`, `has_keymaps` and `decl_panes`
/// what the manifest contributes; `runtime_commands` the ids the
/// plugin registered handlers under and `runtime_slots` the slots it
/// registered panes on.
pub fn plan_install(
    declared: &Engines,
    host: &Engines,
    caps: &Capabilities,
    decl_commands: &[String],
    has_keymaps: bool,
    decl_panes: &[ManifestPane],
    runtime_commands: &[String],
    runtime_slots: &[SidebarSlot],
) -> (p: InstallPlan)
    ensures
        ({
            let engines_ok = mismatches(*declared, *host).len() == 0;
            let uses = (decl_commands@.len() > 0, has_keymaps, decl_panes@.len() > 0);
            let allow_commands = caps.contribute_commands || !uses.0;
            let allow_keymaps = caps.contribute_keymaps || !uses.1;
            let allow_panes = caps.contribute_sidebar_pane || !uses.2;
            let go = engines_ok && allow_commands;
            &&& texts(p.setup_errors@) == (if engines_ok {
                capability_errors(*caps, uses)
            } else {
                mismatches(*declared, *host).map_values(
                    |m: (Seq<char>, ProtocolVersion, ProtocolVersion)| engine_error(m.0, m.1, m.2),
                )
            })
            &&& p.commands@.map_values(|s: CommandStep| step_view(s)) == (if go {
                command_steps(texts(decl_commands@), texts(runtime_commands@))
            } else {
                Seq::empty()
            })
            &&& p.keymaps == (go && allow_keymaps)
            &&& p.panes == (go && allow_panes)
            &&& texts(p.pane_errors@) == (if go && allow_panes {
                pane_errors(pane_views(decl_panes@), runtime_slots@)
            } else {
                Seq::empty()
            })
            &&& p.pane_addresses@.map_values(|i: usize| i as int) == (if go && allow_panes {
                pane_addresses(pane_views(decl_panes@), runtime_slots@)
            } else {
                Seq::empty()
            })
        }),
{
    let mut plan = InstallPlan {
        setup_errors: Vec::new(),
        commands: Vec::new(),
        keymaps: false,
        panes: false,
        pane_errors: Vec::new(),
        pane_addresses: Vec::new(),
    };
    let (ok, bad) = engines_compatible(declared, host);
    if !ok {
        let ghost ms = mismatches(*declared, *host);
        let mut i: usize = 0;
        while i < bad.len()
            invariant
                i <= bad@.len(),
                bad@.map_values(|m: EngineMismatch| (m.surface@, m.declared, m.host)) == ms,
                texts(plan.setup_errors@) == ms.take(i as int).map_values(
                    |m: (Seq<char>, ProtocolVersion, ProtocolVersion)| engine_error(m.0, m.1, m.2),
                ),
                plan.commands@.len() == 0,
                plan.pane_errors@.len() == 0,
                plan.pane_addresses@.len() == 0,
                !plan.keymaps,
                !plan.panes,
            decreases bad@.len() - i,
        {
            let e = engine_error_string(&bad[i]);
            let ghost prev = plan.setup_errors@;
            plan.setup_errors.push(e);
            proof {
                assert(ms[i as int] == (bad@[i as int].surface@, bad@[i as int].declared, bad@[i as int].host));
                assert(ms.take(i + 1) =~= ms.take(i as int).push(ms[i as int]));
                assert(texts(plan.setup_errors@) =~= texts(prev).push(e@));
                assert(texts(plan.setup_errors@) =~= ms.take(i + 1).map_values(
                    |m: (Seq<char>, ProtocolVersion, ProtocolVersion)| engine_error(m.0, m.1, m.2),
                ));
            }
            i = i + 1;
        }
        proof {
            assert(ms.take(i as int) =~= ms);
            assert(plan.commands@.map_values(|s: CommandStep| step_view(s)) =~= Seq::empty());
            assert(texts(plan.pane_errors@) =~= Seq::empty());
            assert(plan.pane_addresses@.map_values(|i: usize| i as int) =~= Seq::empty());
        }
        return plan;
    }
    let uses_commands = decl_commands.len() > 0;
    let uses_panes = decl_panes.len() > 0;
    let allow_commands = caps.contribute_commands || !uses_commands;
    let allow_keymaps = caps.contribute_keymaps || !has_keymaps;
    let allow_panes = caps.contribute_sidebar_pane || !uses_panes;
    if !allow_commands {
        plan.setup_errors.push(capability_error_string("ContributeCommands", "contributes.commands"));
    }
    if !allow_keymaps {
        plan.setup_errors.push(capability_error_string("ContributeKeymaps", "contributes.keymaps"));
    }
    if !allow_panes {
        plan.setup_errors.push(
            capability_error_string("ContributeSidebarPane", "contributes.panes"),
        );
    }
    proof {
        assert(texts(plan.setup_errors@) =~= capability_errors(
            *caps,
            (uses_commands, has_keymaps, uses_panes),
        ));
    }
    if !allow_commands {
        proof {
            assert(plan.commands@.map_values(|s: CommandStep| step_view(s)) =~= Seq::empty());
            assert(texts(plan.pane_errors@) =~= Seq::empty());
            assert(plan.pane_addresses@.map_values(|i: usize| i as int) =~= Seq::empty());
        }
        return plan;
    }
    let ghost dt = texts(decl_commands@);
    let ghost rt = texts(runtime_commands@);
    let ghost want = command_steps(dt, rt);
    let ghost setup = plan.setup_errors@;
    let mut i: usize = 0;
    while i < decl_commands.len()
        invariant
            i <= decl_commands@.len(),
            plan.setup_errors@ == setup,
            plan.pane_errors@.len() == 0,
            plan.pane_addresses@.len() == 0,
            !plan.keymaps,
            !plan.panes,
            dt == texts(decl_commands@),
            rt == texts(runtime_commands@),
            want == command_steps(dt, rt),
            plan.commands@.map_values(|s: CommandStep| step_view(s)) == want.take(i as int),
        decreases decl_commands@.len() - i,
    {
        let step = match find_first(runtime_commands, decl_commands[i].as_str()) {
            Some(r) => CommandStep::Register(i, r),
            None => {
                let mut m = owned("manifest declares command `");
                push_str(&mut m, decl_commands[i].as_str());
                push_str(
                    &mut m,
                    "` but the plugin's Lua entry never registered a handler with that id",
                );
                CommandStep::Missing(m)
            },
        };
        proof {
            assert(dt[i as int] == decl_commands@[i as int]@);
            assert(step_view(step) == want[i as int]);
        }
        let ghost prev = plan.commands@;
        plan.commands.push(step);
        proof {
            assert(want.take(i + 1) =~= want.take(i as int).push(want[i as int]));
            assert(plan.commands@.map_values(|s: CommandStep| step_view(s)) =~= prev.map_values(
                |s: CommandStep| step_view(s),
            ).push(step_view(step)));
            assert(plan.commands@.map_values(|s: CommandStep| step_view(s)) =~= want.take(i + 1));
        }
        i = i + 1;
    }
    proof {
        assert(want.take(i as int) =~= want);
    }
    plan.keymaps = allow_keymaps;
    if !allow_panes {
        proof {
            assert(texts(plan.pane_errors@) =~= Seq::empty());
            assert(plan.pane_addresses@.map_values(|i: usize| i as int) =~= Seq::empty());
        }
        return plan;
    }
    plan.panes = true;
    let ghost pv = pane_views(decl_panes@);
    let ghost setup2 = plan.setup_errors@;
    let ghost cmds = plan.commands@;
    let ghost km = plan.keymaps;
    proof {
        assert(pv.take(0) =~= Seq::<(Seq<char>, SidebarSlot)>::empty());
        assert(texts(plan.pane_errors@) =~= Seq::empty());
        assert(plan.pane_addresses@.map_values(|i: usize| i as int) =~= Seq::empty());
    }
    let mut j: usize = 0;
    while j < decl_panes.len()
        invariant
            j <= decl_panes@.len(),
            plan.setup_errors@ == setup2,
            plan.commands@ == cmds,
            plan.keymaps == km,
            plan.panes,
            pv == pane_views(decl_panes@),
            texts(plan.pane_errors@) == pane_errors(pv.take(j as int), runtime_slots@),
            plan.pane_addresses@.map_values(|i: usize| i as int) == pane_addresses(
                pv.take(j as int),
                runtime_slots@,
            ),
        decreases decl_panes@.len() - j,
    {
        proof {
            assert(pv.take(j + 1).drop_last() =~= pv.take(j as int));
            assert(pv.take(j + 1).last() == (decl_panes@[j as int].id@, decl_panes@[j as int].slot));
        }
        let slot = decl_panes[j].slot;
        if slot_present(runtime_slots, slot) {
            let ghost prev = plan.pane_addresses@;
            plan.pane_addresses.push(j);
            proof {
                assert(plan.pane_addresses@.map_values(|i: usize| i as int) =~= prev.map_values(
                    |i: usize| i as int,
                ).push(j as int));
                assert(plan.pane_addresses@.map_values(|i: usize| i as int) =~= pane_addresses(
                    pv.take(j as int),
                    runtime_slots@,
                ).push(j as int));
            }
        } else {
            let e = missing_pane_string(decl_panes[j].id.as_str(), slot);
            let ghost prev = plan.pane_errors@;
            plan.pane_errors.push(e);
            proof {
                assert(texts(plan.pane_errors@) =~= texts(prev).push(e@));
                assert(texts(plan.pane_errors@) =~= pane_errors(pv.take(j as int), runtime_slots@).push(
                    missing_pane_error(pv[j as int].0, slot),
                ));
            }
        }
        j = j + 1;
    }
    proof {
        assert(pv.take(j as int) =~= pv);
    }
    plan
}


/// The error of a plugin command whose chord is already bound.
pub open spec fn conflict_error(id: Seq<char>) -> Seq<char> {
    "chord conflict for command `"@ + id + "`: chord already bound by an earlier plugin or built-in"@
}

/// The `(declared, handler)` index pairs of the `Register` steps, in order.
pub open spec fn register_steps(steps: Seq<StepView>) -> Seq<(int, int)>
    decreases steps.len(),
{
    if steps.len() == 0 {
        Seq::empty()
    } else {
        let prev = register_steps(steps.drop_last());
        match steps.last() {
            StepView::Register(d, h) => prev.push((d, h)),
            StepView::Missing(_) => prev,
        }
    }
}

/// The index of the first `Register` step whose handler's chord is `c`.
pub open spec fn first_binder(steps: Seq<StepView>, chords: Seq<Option<Chord>>, c: Chord) -> Option<int>
    decreases steps.len(),
{
    if steps.len() == 0 {
        None
    } else {
        match first_binder(steps.drop_last(), chords, c) {
            Some(j) => Some(j),
            None => match steps.last() {
                StepView::Register(_, h) => if chords[h] == Some(c) {
                    Some(steps.len() - 1)
                } else {
                    None
                },
                StepView::Missing(_) => None,
            },
        }
    }
}

/// The first binder is a `Register` step of `steps` whose handler's
/// chord is `c`.
pub proof fn lemma_first_binder_in_range(steps: Seq<StepView>, chords: Seq<Option<Chord>>, c: Chord)
    ensures
        first_binder(steps, chords, c) matches Some(j) ==> 0 <= j < steps.len() && (steps[j] matches StepView::Register(
            _,
            h,
        ) && chords[h] == Some(c)),
    decreases steps.len(),
{
    if steps.len() > 0 {
        lemma_first_binder_in_range(steps.drop_last(), chords, c);
        if first_binder(steps.drop_last(), chords, c) is Some {
            let j = first_binder(steps.drop_last(), chords, c).unwrap();
            assert(steps.drop_last()[j] == steps[j]);
        }
    }
}

/// Whether chord `c` is bound once `steps` were taken, when `bound0`
/// says which chords were bound before: a `Register` step binds its
/// handler's chord when it is free, and a bound chord stays bound.
pub open spec fn chord_taken(
    steps: Seq<StepView>,
    chords: Seq<Option<Chord>>,
    bound0: spec_fn(Chord) -> bool,
    c: Chord,
) -> bool {
    bound0(c) || first_binder(steps, chords, c) is Some
}

/// The errors announced while taking `steps`, in order: each missing
/// handler's message, and a chord conflict for each `Register` step
/// whose handler's chord was already bound.
pub open spec fn install_errors(
    steps: Seq<StepView>,
    ids: Seq<Seq<char>>,
    chords: Seq<Option<Chord>>,
    bound0: spec_fn(Chord) -> bool,
) -> Seq<Seq<char>>
    decreases steps.len(),
{
    if steps.len() == 0 {
        Seq::empty()
    } else {
        let prev = install_errors(steps.drop_last(), ids, chords, bound0);
        match steps.last() {
            StepView::Missing(m) => prev.push(m),
            StepView::Register(d, h) => match chords[h] {
                Some(c) => if chord_taken(steps.drop_last(), chords, bound0, c) {
                    prev.push(conflict_error(ids[d]))
                } else {
                    prev
                },
                None => prev,
            },
        }
    }
}

/// What chord `c` is bound to (`now`, from `before`) after `steps`: a
/// chord that was free and that a `Register` step's handler uses is
/// bound to the first such step's command; any other keeps its binding.
pub open spec fn binds_plugin<A>(
    now: Option<Binding<A>>,
    before: Option<Binding<A>>,
    steps: Seq<StepView>,
    chords: Seq<Option<Chord>>,
    bound0: spec_fn(Chord) -> bool,
    c: Chord,
    plugin: Seq<char>,
    ids: Seq<Seq<char>>,
) -> bool {
    if !bound0(c) && first_binder(steps, chords, c) is Some {
        &&& now matches Some(Binding::Command(id))
        &&& steps[first_binder(steps, chords, c).unwrap()] matches StepView::Register(d, _)
        &&& id@ == (Some(plugin), ids[d])
    } else {
        now == before
    }
}

/// Whether step `s`, taken after `prefix`, binds a chord: a `Register`
/// step whose handler has a chord that is still free.
pub open spec fn binds_now(
    s: StepView,
    prefix: Seq<StepView>,
    chords: Seq<Option<Chord>>,
    bound0: spec_fn(Chord) -> bool,
) -> bool {
    s matches StepView::Register(_, h) && chords[h] matches Some(c) && !chord_taken(prefix, chords, bound0, c)
}

/// The hint chord of command `key` after `steps`, when it was `before`:
/// the first chord a step binds to it stays.
pub open spec fn plugin_hint(
    before: Option<Chord>,
    steps: Seq<StepView>,
    chords: Seq<Option<Chord>>,
    bound0: spec_fn(Chord) -> bool,
    plugin: Seq<char>,
    ids: Seq<Seq<char>>,
    key: (Option<Seq<char>>, Seq<char>),
) -> Option<Chord>
    decreases steps.len(),
{
    if steps.len() == 0 {
        before
    } else {
        let prev = plugin_hint(before, steps.drop_last(), chords, bound0, plugin, ids, key);
        match steps.last() {
            StepView::Register(d, h) => if binds_now(steps.last(), steps.drop_last(), chords, bound0)
                && (Some(plugin), ids[d]) == key && prev is None {
                chords[h]
            } else {
                prev
            },
            StepView::Missing(_) => prev,
        }
    }
}

/// The command behind keymap path segment `seg` after `steps`, when it
/// was `before`: the last step that binds a chord with that segment.
pub open spec fn plugin_path(
    before: Option<(Option<Seq<char>>, Seq<char>)>,
    steps: Seq<StepView>,
    chords: Seq<Option<Chord>>,
    bound0: spec_fn(Chord) -> bool,
    plugin: Seq<char>,
    ids: Seq<Seq<char>>,
    seg: Seq<char>,
) -> Option<(Option<Seq<char>>, Seq<char>)>
    decreases steps.len(),
{
    if steps.len() == 0 {
        before
    } else {
        match steps.last() {
            StepView::Register(d, h) => if binds_now(steps.last(), steps.drop_last(), chords, bound0)
                && chord_segment(chords[h].unwrap()) == Some(seg) {
                Some((Some(plugin), ids[d]))
            } else {
                plugin_path(before, steps.drop_last(), chords, bound0, plugin, ids, seg)
            },
            StepView::Missing(_) => plugin_path(before, steps.drop_last(), chords, bound0, plugin, ids, seg),
        }
    }
}

/// `cmd` is the command a `Register` step of declared command `d` with
/// handler `h` registers for plugin `plugin`.
pub open spec fn plugin_command<A, F: Fn(usize) -> Arc<A>>(
    cmd: Command<A>,
    plugin: Seq<char>,
    ids: Seq<Seq<char>>,
    labels: Seq<Seq<char>>,
    d: int,
    h: int,
    make_action: F,
) -> bool {
    &&& cmd.id@ == (Some(plugin), ids[d])
    &&& cmd.label@ == labels[d]
    &&& cmd.category == Some("Plugin")
    &&& make_action.ensures((h as usize,), cmd.action)
}

/// The step indices are in range of what they index.
pub open spec fn steps_in_range(steps: Seq<StepView>, n_decls: int, n_handlers: int) -> bool {
    forall|k: int|
        0 <= k < steps.len() ==> (#[trigger] steps[k] matches StepView::Register(d, h) ==> 0 <= d < n_decls
            && 0 <= h < n_handlers)
}

fn conflict_string(id: &str) -> (s: String)
    ensures
        s@ == conflict_error(id@),
{
    let mut s = owned("chord conflict for command `");
    push_str(&mut s, id);
    push_str(&mut s, "`: chord already bound by an earlier plugin or built-in");
    s
}

/// Carry out the command steps of an install plan for plugin
/// `plugin_name`: each `Register(d, h)` step registers declared command
/// `d` (id `decl_ids[d]` under the plugin, label `decl_labels[d]`,
/// category `Plugin`, the action `make_action` makes of handler `h`) and
/// binds handler `h`'s chord to it if the chord is free, first bound
/// wins; a bound chord is announced as a conflict. Returns how many
/// commands were registered and the errors to announce, in order.
pub fn install_commands<A, F: Fn(usize) -> Arc<A>>(
    steps: &[CommandStep],
    plugin_name: &'static str,
    decl_ids: &[String],
    decl_labels: &[String],
    handler_chords: &[Option<Chord>],
    make_action: F,
    commands: &mut CommandRegistry<A>,
    keymap: &mut Keymap<A>,
) -> (r: (usize, Vec<String>))
    requires
        old(commands).wf(),
        decl_labels@.len() == decl_ids@.len(),
        steps_in_range(
            steps@.map_values(|s: CommandStep| step_view(s)),
            decl_ids@.len() as int,
            handler_chords@.len() as int,
        ),
        forall|h: usize| make_action.requires((h,)),
    ensures
        ({
            let sv = steps@.map_values(|s: CommandStep| step_view(s));
            let bound0 = bound_chords(*old(keymap));
            let ids = texts(decl_ids@);
            let rs = register_steps(sv);
            &&& r.0 == rs.len()
            &&& texts(r.1@) == install_errors(sv, ids, handler_chords@, bound0)
            &&& final(commands).wf()
            &&& exists|cmds: Seq<Command<A>>|
                cmds.len() == rs.len() && #[trigger] registered_all(old(commands)@, cmds)
                    == final(commands)@ && forall|i: int|
                    0 <= i < cmds.len() ==> plugin_command(
                        #[trigger] cmds[i],
                        plugin_name@,
                        ids,
                        texts(decl_labels@),
                        rs[i].0,
                        rs[i].1,
                        make_action,
                    )
            &&& forall|c: Chord|
                binds_plugin(
                    #[trigger] lookup(final(keymap).binding_table(), c),
                    lookup(old(keymap).binding_table(), c),
                    sv,
                    handler_chords@,
                    bound0,
                    c,
                    plugin_name@,
                    ids,
                )
            &&& forall|key: (Option<Seq<char>>, Seq<char>)| #[trigger]
                lookup(final(keymap).hint_table(), key) == plugin_hint(
                    lookup(old(keymap).hint_table(), key),
                    sv,
                    handler_chords@,
                    bound0,
                    plugin_name@,
                    ids,
                    key,
                )
            &&& forall|seg: Seq<char>| #[trigger]
                lookup(final(keymap).path_table(), seg) == plugin_path(
                    lookup(old(keymap).path_table(), seg),
                    sv,
                    handler_chords@,
                    bound0,
                    plugin_name@,
                    ids,
                    seg,
                )
        }),
{
    let ghost sv = steps@.map_values(|s: CommandStep| step_view(s));
    let ghost km0 = *keymap;
    let ghost bound0 = bound_chords(km0);
    let ghost ids = texts(decl_ids@);
    let ghost labels = texts(decl_labels@);
    let ghost reg0 = commands@;
    let ghost mut cmds: Seq<Command<A>> = Seq::empty();
    let mut count: usize = 0;
    let mut errors: Vec<String> = Vec::new();
    let mut k: usize = 0;
    proof {
        assert(sv.take(0) =~= Seq::<StepView>::empty());
        assert(texts(errors@) =~= Seq::<Seq<char>>::empty());
    }
    while k < steps.len()
        invariant
            k <= steps@.len(),
            count <= k,
            sv == steps@.map_values(|s: CommandStep| step_view(s)),
            ids == texts(decl_ids@),
            labels == texts(decl_labels@),
            decl_labels@.len() == decl_ids@.len(),
            km0 == *old(keymap),
            bound0 == bound_chords(km0),
            reg0 == old(commands)@,
            steps_in_range(sv, decl_ids@.len() as int, handler_chords@.len() as int),
            forall|h: usize| make_action.requires((h,)),
            commands.wf(),
            count == register_steps(sv.take(k as int)).len(),
            texts(errors@) == install_errors(sv.take(k as int), ids, handler_chords@, bound0),
            cmds.len() == count,
            commands@ == registered_all(reg0, cmds),
            forall|i: int|
                0 <= i < cmds.len() ==> plugin_command(
                    #[trigger] cmds[i],
                    plugin_name@,
                    ids,
                    labels,
                    register_steps(sv.take(k as int))[i].0,
                    register_steps(sv.take(k as int))[i].1,
                    make_action,
                ),
            forall|c: Chord| #[trigger]
                (lookup(keymap.binding_table(), c) is Some) == chord_taken(
                    sv.take(k as int),
                    handler_chords@,
                    bound0,
                    c,
                ),
            forall|c: Chord|
                binds_plugin(
                    #[trigger] lookup(keymap.binding_table(), c),
                    lookup(km0.binding_table(), c),
                    sv.take(k as int),
                    handler_chords@,
                    bound0,
                    c,
                    plugin_name@,
                    ids,
                ),
            forall|key: (Option<Seq<char>>, Seq<char>)| #[trigger]
                lookup(keymap.hint_table(), key) == plugin_hint(
                    lookup(km0.hint_table(), key),
                    sv.take(k as int),
                    handler_chords@,
                    bound0,
                    plugin_name@,
                    ids,
                    key,
                ),
            forall|seg: Seq<char>| #[trigger]
                lookup(keymap.path_table(), seg) == plugin_path(
                    lookup(km0.path_table(), seg),
                    sv.take(k as int),
                    handler_chords@,
                    bound0,
                    plugin_name@,
                    ids,
                    seg,
                ),
        decreases steps@.len() - k,
    {
        let ghost prefix = sv.take(k as int);
        let ghost next = sv.take(k + 1);
        let ghost km_before = *keymap;
        let ghost errs_before = texts(errors@);
        proof {
            assert(next.drop_last() =~= prefix);
            assert(next.last() == sv[k as int]);
            assert(sv[k as int] == step_view(steps@[k as int]));
        }
        match &steps[k] {
            CommandStep::Missing(m) => {
                errors.push(owned(m.as_str()));
                proof {
                    assert(texts(errors@) =~= errs_before.push(m@));
                    assert(register_steps(next) == register_steps(prefix));
                    assert forall|c: Chord|
                        binds_plugin(
                            #[trigger] lookup(keymap.binding_table(), c),
                            lookup(km0.binding_table(), c),
                            next,
                            handler_chords@,
                            bound0,
                            c,
                            plugin_name@,
                            ids,
                        ) by {
                        lemma_first_binder_in_range(prefix, handler_chords@, c);
                        assert(first_binder(next, handler_chords@, c) == first_binder(prefix, handler_chords@, c));
                        if first_binder(prefix, handler_chords@, c) is Some {
                            let j = first_binder(prefix, handler_chords@, c).unwrap();
                            assert(next[j] == prefix[j]);
                        }
                    }
                    assert forall|c: Chord| #[trigger]
                        first_binder(next, handler_chords@, c) == first_binder(prefix, handler_chords@, c) by {}
                }
            },
            CommandStep::Register(d, h) => {
                let d: usize = *d;
                let h: usize = *h;
                proof {
                    assert(sv[k as int] matches StepView::Register(dd, hh) && dd == d && hh == h);
                    assert(d < decl_ids@.len() && h < handler_chords@.len());
                }
                let id_static = leak_str(decl_ids[d].as_str());
                let label_static = leak_str(decl_labels[d].as_str());
                let id = CommandId::plugin(plugin_name, id_static);
                let action = make_action(h);
                let ghost actionv = action;
                let cmd = Command { id, label: label_static, category: Some("Plugin"), action };
                let ghost cmdv = cmd;
                commands.register(cmd);
                proof {
                    let old_cmds = cmds;
                    cmds = cmds.push(cmdv);
                    assert(cmds.drop_last() =~= old_cmds);
                    assert(register_steps(next) == register_steps(prefix).push((d as int, h as int)));
                    assert(ids[d as int] == decl_ids@[d as int]@);
                    assert(labels[d as int] == decl_labels@[d as int]@);
                    assert(make_action.ensures((h,), actionv));
                    assert forall|j: int| 0 <= j < k implies next[j] == prefix[j] by {}
                }
                match handler_chords[h] {
                    Some(chord) => {
                        if !keymap.bind_command_if_free(chord, id) {
                            errors.push(conflict_string(decl_ids[d].as_str()));
                            proof {
                                assert(texts(errors@) =~= errs_before.push(conflict_error(ids[d as int])));
                            }
                        }
                        proof {
                            assert forall|c: Chord| c != chord implies #[trigger]
                                first_binder(next, handler_chords@, c) == first_binder(prefix, handler_chords@, c) by {}
                            assert forall|c: Chord|
                                binds_plugin(
                                    #[trigger] lookup(keymap.binding_table(), c),
                                    lookup(km0.binding_table(), c),
                                    next,
                                    handler_chords@,
                                    bound0,
                                    c,
                                    plugin_name@,
                                    ids,
                                ) by {
                                lemma_first_binder_in_range(prefix, handler_chords@, c);
                                if first_binder(prefix, handler_chords@, c) is Some {
                                    let j = first_binder(prefix, handler_chords@, c).unwrap();
                                    assert(next[j] == prefix[j]);
                                    assert(first_binder(next, handler_chords@, c) == Some(j));
                                }
                                if c != chord {
                                    assert(lookup(keymap.binding_table(), c) == lookup(km_before.binding_table(), c));
                                } else if lookup(km_before.binding_table(), c) is None {
                                    assert(!chord_taken(prefix, handler_chords@, bound0, c));
                                    assert(first_binder(next, handler_chords@, c) == Some(k as int));
                                    assert(next[k as int] == sv[k as int]);
                                } else {
                                    assert(lookup(keymap.binding_table(), c) == lookup(km_before.binding_table(), c));
                                }
                            }
                        }
                    },
                    None => {
                        proof {
                            assert forall|c: Chord|
                                binds_plugin(
                                    #[trigger] lookup(keymap.binding_table(), c),
                                    lookup(km0.binding_table(), c),
                                    next,
                                    handler_chords@,
                                    bound0,
                                    c,
                                    plugin_name@,
                                    ids,
                                ) by {
                                lemma_first_binder_in_range(prefix, handler_chords@, c);
                                assert(first_binder(next, handler_chords@, c) == first_binder(prefix, handler_chords@, c));
                                if first_binder(prefix, handler_chords@, c) is Some {
                                    let j = first_binder(prefix, handler_chords@, c).unwrap();
                                    assert(next[j] == prefix[j]);
                                }
                            }
                            assert forall|c: Chord| #[trigger]
                                first_binder(next, handler_chords@, c) == first_binder(prefix, handler_chords@, c) by {}
                        }
                    },
                }
                count = count + 1;
            },
        }
        k = k + 1;
    }
    proof {
        assert(sv.take(k as int) =~= sv);
    }
    (count, errors)
}

} // verus!
