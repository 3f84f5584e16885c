//! Command registry: a discoverable, id-keyed catalogue of editor
//! commands.
//!
//! Built-in commands live at `/cmd/<dotted-id>`, plugin-contributed
//! ones at `/plugin/<name>/cmd/<id>`. The registry keeps one entry per
//! id in first-registration order; registering an id again replaces the
//! entry in place.

use std::sync::Arc;

use vstd::prelude::*;

use crate::paths::{join_path, join_segments, owned, seg_chars, seg_is};

verus! {

/// String equality by contents: the same characters in the same order.
pub(crate) fn str_eq(a: &str, b: &str) -> (r: bool)
    ensures
        r == (a@ == b@),
{
    let n = a.unicode_len();
    if n != b.unicode_len() {
        return false;
    }
    let mut i: usize = 0;
    while i < n
        invariant
            n == a@.len(),
            n == b@.len(),
            i <= n,
            forall|j: int| 0 <= j < i ==> a@[j] == b@[j],
        decreases n - i,
    {
        if a.get_char(i) != b.get_char(i) {
            return false;
        }
        i = i + 1;
    }
    proof {
        assert(a@ =~= b@);
    }
    true
}

/// A new handle to the same shared value (`Arc::clone`).
#[verifier::external_body]
pub(crate) fn arc_clone<A>(a: &Arc<A>) -> (r: Arc<A>)
    ensures
        r == *a,
{
    Arc::clone(a)
}

/// A command id. `plugin` is `Some(<plugin-name>)` for plugin
/// contributions and `None` for built-ins; two ids are the same exactly
/// when both the plugin and the id text agree, so a plugin's `refresh`
/// and a built-in `refresh` coexist.
#[derive(Copy, Clone, Hash, Eq, PartialEq, Debug)]
pub struct CommandId {
    pub plugin: Option<&'static str>,
    pub id: &'static str,
}

/// The text content of an optional borrowed string.
pub open spec fn opt_str(o: Option<&str>) -> Option<Seq<char>> {
    match o {
        Some(s) => Some(s@),
        None => None,
    }
}

/// The text content of an optional string.
pub open spec fn opt_chars(o: Option<&'static str>) -> Option<Seq<char>> {
    match o {
        Some(s) => Some(s@),
        None => None,
    }
}

impl View for CommandId {
    type V = (Option<Seq<char>>, Seq<char>);

    open spec fn view(&self) -> (Option<Seq<char>>, Seq<char>) {
        (opt_chars(self.plugin), self.id@)
    }
}

impl CommandId {
    /// Built-in command id. Lives at `/cmd/<id>`.
    pub fn builtin(id: &'static str) -> (c: Self)
        ensures
            c.plugin is None,
            c.id == id,
    {
        Self { plugin: None, id }
    }

    /// Plugin-contributed command id. Lives at `/plugin/<plugin>/cmd/<id>`.
    pub fn plugin(plugin: &'static str, id: &'static str) -> (c: Self)
        ensures
            c.plugin == Some(plugin),
            c.id == id,
    {
        Self { plugin: Some(plugin), id }
    }

    /// Segments of the canonical path: `["cmd", id]` for a built-in,
    /// `["plugin", plugin, "cmd", id]` for a plugin contribution.
    pub fn to_segments(self) -> (segs: Vec<String>)
        ensures
            seg_chars(segs@) == command_segments(self@),
    {
        proof {
            reveal_strlit("cmd");
            reveal_strlit("plugin");
            assert("cmd"@ =~= seq!['c', 'm', 'd']);
            assert("plugin"@ =~= seq!['p', 'l', 'u', 'g', 'i', 'n']);
        }
        let mut segs: Vec<String> = Vec::new();
        match self.plugin {
            None => {
                segs.push(owned("cmd"));
                segs.push(owned(self.id));
            },
            Some(name) => {
                segs.push(owned("plugin"));
                segs.push(owned(name));
                segs.push(owned("cmd"));
                segs.push(owned(self.id));
            },
        }
        proof {
            assert(seg_chars(segs@) =~= command_segments(self@));
        }
        segs
    }

    /// The canonical path: `/cmd/<id>` or `/plugin/<plugin>/cmd/<id>`.
    pub fn to_path(self) -> (p: String)
        ensures
            p@ == join_path(command_segments(self@)),
    {
        let segs = self.to_segments();
        join_segments(segs.as_slice())
    }

    /// Decode `/cmd/<dotted-id>` (as its segments) into the id segment.
    /// Plugin paths are decoded by `plugin_segments_from_path`.
    pub fn segment_from_path(segs: &[String]) -> (r: Option<&str>)
        ensures
            match r {
                Some(id) => segs@.len() == 2 && segs@[0]@ == seq!['c', 'm', 'd'] && id@ == segs@[1]@,
                None => !(segs@.len() == 2 && segs@[0]@ == seq!['c', 'm', 'd']),
            },
    {
        proof {
            reveal_strlit("cmd");
            assert("cmd"@ =~= seq!['c', 'm', 'd']);
        }
        if segs.len() == 2 && seg_is(&segs[0], "cmd") {
            Some(segs[1].as_str())
        } else {
            None
        }
    }

    /// Decode `/plugin/<name>/cmd/<id>` (as its segments) into `(name, id)`.
    pub fn plugin_segments_from_path(segs: &[String]) -> (r: Option<(&str, &str)>)
        ensures
            match r {
                Some((name, id)) => segs@.len() == 4 && segs@[0]@ == seq!['p', 'l', 'u', 'g', 'i', 'n']
                    && segs@[2]@ == seq!['c', 'm', 'd'] && name@ == segs@[1]@ && id@ == segs@[3]@,
                None => !(segs@.len() == 4 && segs@[0]@ == seq!['p', 'l', 'u', 'g', 'i', 'n']
                    && segs@[2]@ == seq!['c', 'm', 'd']),
            },
    {
        proof {
            reveal_strlit("cmd");
            reveal_strlit("plugin");
            assert("cmd"@ =~= seq!['c', 'm', 'd']);
            assert("plugin"@ =~= seq!['p', 'l', 'u', 'g', 'i', 'n']);
        }
        if segs.len() == 4 && seg_is(&segs[0], "plugin") && seg_is(&segs[2], "cmd") {
            Some((segs[1].as_str(), segs[3].as_str()))
        } else {
            None
        }
    }

    /// Same id: same plugin (or both built-in) and same id text.
    pub fn same(&self, other: &CommandId) -> (r: bool)
        ensures
            r == (self@ == other@),
    {
        let plugins_match = match (self.plugin, other.plugin) {
            (None, None) => true,
            (Some(a), Some(b)) => str_eq(a, b),
            _ => false,
        };
        plugins_match && str_eq(self.id, other.id)
    }
}

/// The canonical path segments of an id (given by its view).
pub open spec fn command_segments(id: (Option<Seq<char>>, Seq<char>)) -> Seq<Seq<char>> {
    match id.0 {
        None => seq![seq!['c', 'm', 'd'], id.1],
        Some(p) => seq![seq!['p', 'l', 'u', 'g', 'i', 'n'], p, seq!['c', 'm', 'd'], id.1],
    }
}

/// The id a command path (as segment texts) names: `/cmd/<id>` for a
/// built-in, `/plugin/<name>/cmd/<id>` for a plugin contribution.
pub open spec fn path_command(segs: Seq<Seq<char>>) -> Option<(Option<Seq<char>>, Seq<char>)> {
    if segs.len() == 2 && segs[0] == seq!['c', 'm', 'd'] {
        Some((None, segs[1]))
    } else if segs.len() == 4 && segs[0] == seq!['p', 'l', 'u', 'g', 'i', 'n'] && segs[2] == seq![
        'c',
        'm',
        'd',
    ] {
        Some((Some(segs[1]), segs[3]))
    } else {
        None
    }
}

/// Encoding an id as a path and reading it back gives the id.
pub proof fn lemma_command_path_round_trip(id: (Option<Seq<char>>, Seq<char>))
    ensures
        path_command(command_segments(id)) == Some(id),
{
}

/// One registered command: its id, palette label, optional category and
/// the action invoked for it. Actions are shared (`Arc`) so callers can
/// clone one out and release the registry before invoking it.
pub struct Command<A> {
    pub id: CommandId,
    pub label: &'static str,
    pub category: Option<&'static str>,
    pub action: Arc<A>,
}

/// No two entries share an id.
pub open spec fn distinct_ids<A>(s: Seq<Command<A>>) -> bool {
    forall|i: int, j: int| 0 <= i < j < s.len() ==> s[i].id@ != s[j].id@
}

/// Position of the entry registered under `id`, if any.
pub open spec fn position_of<A>(s: Seq<Command<A>>, id: (Option<Seq<char>>, Seq<char>)) -> Option<
    int,
> {
    if exists|i: int| 0 <= i < s.len() && s[i].id@ == id {
        Some(choose|i: int| 0 <= i < s.len() && s[i].id@ == id)
    } else {
        None
    }
}

/// The entries after registering `cmd`: replaced in place when its id
/// is already present, appended otherwise.
pub open spec fn after_register<A>(s: Seq<Command<A>>, cmd: Command<A>) -> Seq<Command<A>> {
    match position_of(s, cmd.id@) {
        Some(i) => s.update(i, cmd),
        None => s.push(cmd),
    }
}

pub struct CommandRegistry<A> {
    entries: Vec<Command<A>>,
}

impl<A> View for CommandRegistry<A> {
    type V = Seq<Command<A>>;

    closed spec fn view(&self) -> Seq<Command<A>> {
        self.entries@
    }
}

impl<A> CommandRegistry<A> {
    /// Every id appears at most once.
    pub open spec fn wf(&self) -> bool {
        distinct_ids(self@)
    }

    pub fn new() -> (r: Self)
        ensures
            r@ == Seq::<Command<A>>::empty(),
            r.wf(),
    {
        Self { entries: Vec::new() }
    }

    fn find(&self, id: &CommandId) -> (r: Option<usize>)
        requires
            self.wf(),
        ensures
            r matches Some(i) ==> i < self@.len() && self@[i as int].id@ == id@,
            r is None ==> forall|i: int| 0 <= i < self@.len() ==> self@[i].id@ != id@,
            r == match position_of(self@, id@) {
                Some(i) => Some(i as usize),
                None => None::<usize>,
            },
    {
        let mut i: usize = 0;
        while i < self.entries.len()
            invariant
                i <= self@.len(),
                self@ == self.entries@,
                self.wf(),
                forall|k: int| 0 <= k < i ==> self@[k].id@ != id@,
            decreases self@.len() - i,
        {
            if self.entries[i].id.same(id) {
                proof {
                    let p = choose|k: int| 0 <= k < self@.len() && self@[k].id@ == id@;
                    assert(p == i as int);
                }
                return Some(i);
            }
            i = i + 1;
        }
        None
    }

    /// Register a command. Re-registering an id replaces the previous
    /// entry but keeps its position.
    pub fn register(&mut self, cmd: Command<A>)
        requires
            old(self).wf(),
        ensures
            final(self).wf(),
            final(self)@ == after_register(old(self)@, cmd),
    {
        let ghost old_s = self@;
        let ghost cmd_spec = cmd;
        match self.find(&cmd.id) {
            Some(i) => {
                self.entries.set(i, cmd);
                proof {
                    assert(distinct_ids(self@)) by {
                        assert forall|a: int, b: int|
                            0 <= a < b < self@.len() implies self@[a].id@ != self@[b].id@ by {
                            if a == i {
                                assert(old_s[b].id@ != old_s[i as int].id@);
                            } else if b == i {
                                assert(old_s[a].id@ != old_s[i as int].id@);
                            }
                        }
                    }
                }
            },
            None => {
                self.entries.push(cmd);
            },
        }
    }

    /// The entry registered under `id`.
    pub fn get(&self, id: CommandId) -> (r: Option<&Command<A>>)
        requires
            self.wf(),
        ensures
            r matches Some(c) ==> position_of(self@, id@) matches Some(i) && *c == self@[i],
            r is None ==> position_of(self@, id@) is None,
    {
        match self.find(&id) {
            Some(i) => Some(&self.entries[i]),
            None => None,
        }
    }

    /// The id of the built-in command registered under the bare id text
    /// `id`, if there is one.
    pub fn builtin_id(&self, id: &str) -> (r: Option<CommandId>)
        requires
            self.wf(),
        ensures
            r == match position_of(self@, (None, id@)) {
                Some(i) => Some(self@[i].id),
                None => None::<CommandId>,
            },
    {
        match self.find_text(None, id) {
            Some(i) => Some(self.entries[i].id),
            None => None,
        }
    }

    /// Registered commands in registration order.
    pub fn iter(&self) -> (it: std::slice::Iter<'_, Command<A>>)
        ensures
            vstd::std_specs::slice::into_iter_elts(it) == self@,
    {
        broadcast use vstd::std_specs::slice::axiom_spec_slice_iter;

        let it = self.entries.as_slice().iter();
        it
    }

    pub fn len(&self) -> (n: usize)
        ensures
            n == self@.len(),
    {
        self.entries.len()
    }

    pub fn is_empty(&self) -> (b: bool)
        ensures
            b == (self@.len() == 0),
    {
        self.entries.len() == 0
    }

    fn find_text(&self, plugin: Option<&str>, id: &str) -> (r: Option<usize>)
        requires
            self.wf(),
        ensures
            r matches Some(i) ==> i < self@.len() && self@[i as int].id@ == (opt_str(plugin), id@),
            r is None ==> forall|i: int| 0 <= i < self@.len() ==> self@[i].id@ != (opt_str(plugin), id@),
            r == match position_of(self@, (opt_str(plugin), id@)) {
                Some(i) => Some(i as usize),
                None => None::<usize>,
            },
    {
        let ghost key = (opt_str(plugin), id@);
        let mut i: usize = 0;
        while i < self.entries.len()
            invariant
                i <= self@.len(),
                self@ == self.entries@,
                self.wf(),
                key == (opt_str(plugin), id@),
                forall|k: int| 0 <= k < i ==> self@[k].id@ != key,
            decreases self@.len() - i,
        {
            let e = &self.entries[i].id;
            let plugin_match = match (e.plugin, plugin) {
                (None, None) => true,
                (Some(a), Some(b)) => str_eq(a, b),
                _ => false,
            };
            if plugin_match && str_eq(e.id, id) {
                proof {
                    assert(self@[i as int].id@ == key);
                    let p = choose|k: int| 0 <= k < self@.len() && self@[k].id@ == key;
                    assert(p == i as int);
                }
                return Some(i);
            }
            i = i + 1;
        }
        None
    }

    /// The action a command path (as segments) names:
    /// `/cmd/<id>` for built-ins, `/plugin/<name>/cmd/<id>` for plugin
    /// contributions; `None` for unknown commands and other shapes.
    pub fn lookup(&self, segs: &[String]) -> (r: Option<&Arc<A>>)
        requires
            self.wf(),
        ensures
            match path_command(segs@.map_values(|s: String| s@)) {
                Some(key) => match position_of(self@, key) {
                    Some(i) => r == Some(&self@[i].action),
                    None => r is None,
                },
                None => r is None,
            },
    {
        let ghost sc = segs@.map_values(|s: String| s@);
        proof {
            if segs@.len() == 2 || segs@.len() == 4 {
                assert(sc[0] == segs@[0]@);
                assert(sc[1] == segs@[1]@);
            }
            if segs@.len() == 4 {
                assert(sc[2] == segs@[2]@);
                assert(sc[3] == segs@[3]@);
            }
        }
        if let Some(seg) = CommandId::segment_from_path(segs) {
            return match self.find_text(None, seg) {
                Some(i) => {
                    proof {
                        let key = (None::<Seq<char>>, seg@);
                        let p = choose|k: int| 0 <= k < self@.len() && self@[k].id@ == key;
                        assert(p == i as int);
                    }
                    Some(&self.entries[i].action)
                },
                None => None,
            };
        }
        if let Some((plugin, seg)) = CommandId::plugin_segments_from_path(segs) {
            return match self.find_text(Some(plugin), seg) {
                Some(i) => {
                    proof {
                        let key = (Some(plugin@), seg@);
                        let p = choose|k: int| 0 <= k < self@.len() && self@[k].id@ == key;
                        assert(p == i as int);
                    }
                    Some(&self.entries[i].action)
                },
                None => None,
            };
        }
        None
    }

    /// The canonical path of every registered command, in registration
    /// order.
    pub fn paths(&self) -> (r: Vec<String>)
        ensures
            r@.map_values(|s: String| s@) == self@.map_values(
                |c: Command<A>| join_path(command_segments(c.id@)),
            ),
    {
        let mut out: Vec<String> = Vec::new();
        let mut i: usize = 0;
        while i < self.entries.len()
            invariant
                i <= self@.len(),
                self@ == self.entries@,
                out@.map_values(|s: String| s@) == self@.take(i as int).map_values(
                    |c: Command<A>| join_path(command_segments(c.id@)),
                ),
            decreases self@.len() - i,
        {
            let p = self.entries[i].id.to_path();
            let ghost before = out@;
            out.push(p);
            proof {
                assert(out@ == before.push(p));
                assert(out@.map_values(|s: String| s@) =~= before.map_values(|s: String| s@).push(p@));
                assert(self@.take(i + 1) =~= self@.take(i as int).push(self@[i as int]));
                assert(out@.map_values(|s: String| s@) =~= self@.take(i + 1).map_values(
                    |c: Command<A>| join_path(command_segments(c.id@)),
                ));
            }
            i = i + 1;
        }
        proof {
            assert(self@.take(i as int) =~= self@);
        }
        out
    }

    /// Resolve an id to its action. `None` for unknown ids — callers
    /// treat that as a no-op, since plugins or stale keymaps may refer to
    /// ids that no longer exist.
    pub fn resolve(&self, id: CommandId) -> (r: Option<Arc<A>>)
        requires
            self.wf(),
        ensures
            r matches Some(a) ==> position_of(self@, id@) matches Some(i) && a == self@[i].action,
            r is None ==> position_of(self@, id@) is None,
    {
        match self.find(&id) {
            Some(i) => Some(arc_clone(&self.entries[i].action)),
            None => None,
        }
    }
}

} // verus!

verus! {

/// After registering `cmd`, its id resolves to `cmd`; the catalogue grows
/// by one exactly when the id was new; every other id resolves to what it
/// resolved to before, at the same position.
pub proof fn lemma_register_then_lookup<A>(s: Seq<Command<A>>, cmd: Command<A>)
    requires
        distinct_ids(s),
    ensures
        ({
            let t = after_register(s, cmd);
            &&& distinct_ids(t)
            &&& position_of(t, cmd.id@) matches Some(i) && t[i] == cmd
            &&& t.len() == s.len() + (if position_of(s, cmd.id@) is Some {
                0int
            } else {
                1int
            })
            &&& forall|id: (Option<Seq<char>>, Seq<char>)|
                id != cmd.id@ ==> #[trigger] position_of(t, id) == position_of(s, id)
        }),
{
    let t = after_register(s, cmd);
    match position_of(s, cmd.id@) {
        Some(i) => {
            assert(t[i] == cmd);
            assert forall|a: int, b: int| 0 <= a < b < t.len() implies t[a].id@ != t[b].id@ by {
                if a == i {
                    assert(s[b].id@ != s[i].id@);
                } else if b == i {
                    assert(s[a].id@ != s[i].id@);
                }
            }
            let p = choose|k: int| 0 <= k < t.len() && t[k].id@ == cmd.id@;
            assert(p == i);
            assert forall|id: (Option<Seq<char>>, Seq<char>)|
                id != cmd.id@ implies #[trigger] position_of(t, id) == position_of(s, id) by {
                assert forall|k: int| 0 <= k < s.len() implies (t[k].id@ == id) == (s[k].id@
                    == id) by {}
            }
        },
        None => {
            assert(t[s.len() as int] == cmd);
            let p = choose|k: int| 0 <= k < t.len() && t[k].id@ == cmd.id@;
            assert(p == s.len());
            assert forall|id: (Option<Seq<char>>, Seq<char>)|
                id != cmd.id@ implies #[trigger] position_of(t, id) == position_of(s, id) by {
                assert forall|k: int| 0 <= k < s.len() implies t[k] == s[k] by {}
                if exists|k: int| 0 <= k < t.len() && t[k].id@ == id {
                    let k = choose|k: int| 0 <= k < t.len() && t[k].id@ == id;
                    assert(k < s.len());
                    assert(s[k].id@ == id);
                }
            }
        },
    }
}

/// The entries after registering `cmds` in order into `reg`.
pub open spec fn registered_all<A>(reg: Seq<Command<A>>, cmds: Seq<Command<A>>) -> Seq<Command<A>>
    decreases cmds.len(),
{
    if cmds.len() == 0 {
        reg
    } else {
        after_register(registered_all(reg, cmds.drop_last()), cmds.last())
    }
}

/// The ids of `cmds`, each at its first occurrence, in order.
pub open spec fn first_ids<A>(cmds: Seq<Command<A>>) -> Seq<(Option<Seq<char>>, Seq<char>)>
    decreases cmds.len(),
{
    if cmds.len() == 0 {
        Seq::empty()
    } else {
        let p = first_ids(cmds.drop_last());
        if p.contains(cmds.last().id@) {
            p
        } else {
            p.push(cmds.last().id@)
        }
    }
}

/// The last of `cmds` with the id `id`.
pub open spec fn latest<A>(cmds: Seq<Command<A>>, id: (Option<Seq<char>>, Seq<char>)) -> Option<Command<A>>
    decreases cmds.len(),
{
    if cmds.len() == 0 {
        None
    } else if cmds.last().id@ == id {
        Some(cmds.last())
    } else {
        latest(cmds.drop_last(), id)
    }
}

/// Registering `cmds` in order into an empty registry leaves each id
/// registered exactly once, in the order of its first registration
/// (so the count is the number of distinct ids), and an id resolves
/// exactly when some command was registered under it, to the one
/// registered last. Ids differing in the plugin part are different ids.
pub proof fn lemma_register_sequence<A>(cmds: Seq<Command<A>>)
    ensures
        ({
            let r = registered_all(Seq::<Command<A>>::empty(), cmds);
            &&& distinct_ids(r)
            &&& r.map_values(|c: Command<A>| c.id@) == first_ids(cmds)
            &&& first_ids(cmds).no_duplicates()
            &&& forall|id: (Option<Seq<char>>, Seq<char>)| #[trigger]
                first_ids(cmds).contains(id) == (latest(cmds, id) is Some)
            &&& forall|id: (Option<Seq<char>>, Seq<char>)|
                match latest(cmds, id) {
                    None => #[trigger] position_of(r, id) is None,
                    Some(c) => position_of(r, id) matches Some(i) && r[i] == c,
                }
        }),
    decreases cmds.len(),
{
    let r = registered_all(Seq::<Command<A>>::empty(), cmds);
    if cmds.len() == 0 {
        assert(r.map_values(|c: Command<A>| c.id@) =~= Seq::empty());
        assert forall|id: (Option<Seq<char>>, Seq<char>)| #[trigger] position_of(r, id) is None by {}
    } else {
        let prev = cmds.drop_last();
        let c = cmds.last();
        lemma_register_sequence(prev);
        let r0 = registered_all(Seq::<Command<A>>::empty(), prev);
        let f0 = first_ids(prev);
        lemma_register_then_lookup(r0, c);
        assert(r == after_register(r0, c));
        assert(f0.contains(c.id@) == (position_of(r0, c.id@) is Some));
        match position_of(r0, c.id@) {
            Some(i0) => {
                assert(r == r0.update(i0, c));
                assert(r.map_values(|x: Command<A>| x.id@) =~= r0.map_values(|x: Command<A>| x.id@));
                assert forall|id: (Option<Seq<char>>, Seq<char>)|
                    match latest(cmds, id) {
                        None => #[trigger] position_of(r, id) is None,
                        Some(x) => position_of(r, id) matches Some(i) && r[i] == x,
                    } by {
                    if id != c.id@ {
                        assert(position_of(r, id) == position_of(r0, id));
                        if let Some(i) = position_of(r0, id) {
                            assert(i != i0);
                            assert(r[i] == r0[i]);
                        }
                    }
                }
            },
            None => {
                assert(r == r0.push(c));
                assert(r.map_values(|x: Command<A>| x.id@) =~= r0.map_values(|x: Command<A>| x.id@).push(c.id@));
                assert forall|id: (Option<Seq<char>>, Seq<char>)|
                    match latest(cmds, id) {
                        None => #[trigger] position_of(r, id) is None,
                        Some(x) => position_of(r, id) matches Some(i) && r[i] == x,
                    } by {
                    if id != c.id@ {
                        assert(position_of(r, id) == position_of(r0, id));
                        if let Some(i) = position_of(r0, id) {
                            assert(r[i] == r0[i]);
                        }
                    }
                }
                let f = first_ids(cmds);
                assert(f == f0.push(c.id@));
                assert forall|a: int, b: int| 0 <= a < b < f.len() implies f[a] != f[b] by {
                    if b == f0.len() {
                        assert(f0.contains(f0[a]));
                    }
                }
            },
        }
        assert forall|id: (Option<Seq<char>>, Seq<char>)| #[trigger]
            first_ids(cmds).contains(id) == (latest(cmds, id) is Some) by {
            if id == c.id@ && !f0.contains(id) {
                assert(first_ids(cmds)[f0.len() as int] == id);
            }
            if id != c.id@ && first_ids(cmds).contains(id) && !f0.contains(c.id@) {
                let k = choose|k: int| 0 <= k < first_ids(cmds).len() && first_ids(cmds)[k] == id;
                assert(k < f0.len());
            }
            if f0.contains(id) && !f0.contains(c.id@) {
                let k = choose|k: int| 0 <= k < f0.len() && f0[k] == id;
                assert(first_ids(cmds)[k] == id);
            }
        }
    }
}

} // verus!
