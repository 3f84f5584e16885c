//! Plugin-facing pieces of the editor that are pure data and decisions:
//! the path encoding of plugin callbacks (`/plugin/<name>/cb/<u64>`),
//! plugin-name sanitising, manifest engine-version checks, the messages
//! a plugin sends, and how a plugin sidebar pane paints, scrolls and
//! answers events.

use vstd::prelude::*;

pub mod install;

use crate::geom::SidebarSlot;
use crate::commands::registry::str_eq;
use crate::pane::Outcome;
use crate::paths::{decimal_string, join_path, join_segments, owned, seg_chars, seg_is};
use crate::text::{decimal, parse_u64, push_char, spec_parse_u64};

verus! {

/// Characters a path segment may hold: ASCII letters and digits, `-`,
/// `_` and `.`.
pub open spec fn is_segment_char(c: char) -> bool {
    ||| ('a' <= c && c <= 'z')
    ||| ('A' <= c && c <= 'Z')
    ||| ('0' <= c && c <= '9')
    ||| c == '-'
    ||| c == '_'
    ||| c == '.'
}

fn segment_char(c: char) -> (b: bool)
    ensures
        b == is_segment_char(c),
{
    ('a' <= c && c <= 'z') || ('A' <= c && c <= 'Z') || ('0' <= c && c <= '9') || c == '-' || c
        == '_' || c == '.'
}

/// A non-empty run of segment characters.
pub open spec fn is_segment(s: Seq<char>) -> bool {
    s.len() > 0 && forall|i: int| 0 <= i < s.len() ==> is_segment_char(#[trigger] s[i])
}

/// Whether `s` is a valid path segment.
pub fn segment_valid(s: &str) -> (b: bool)
    ensures
        b == is_segment(s@),
{
    let n = s.unicode_len();
    if n == 0 {
        return false;
    }
    let mut i: usize = 0;
    while i < n
        invariant
            n == s@.len(),
            i <= n,
            forall|j: int| 0 <= j < i ==> is_segment_char(#[trigger] s@[j]),
        decreases n - i,
    {
        if !segment_char(s.get_char(i)) {
            return false;
        }
        i = i + 1;
    }
    true
}

/// `s` with every character that may not stand in a path segment
/// replaced by `_`.
pub open spec fn sanitized(s: Seq<char>) -> Seq<char> {
    s.map_values(|c: char| if is_segment_char(c) { c } else { '_' })
}

/// Turn a plugin name stem (a file name) into a valid path segment
/// character set by replacing reserved characters with `_`.
pub fn sanitize_plugin_segment(s: &str) -> (r: String)
    ensures
        r@ == sanitized(s@),
{
    let n = s.unicode_len();
    let mut out = String::new();
    let mut i: usize = 0;
    while i < n
        invariant
            n == s@.len(),
            i <= n,
            out@ == sanitized(s@.take(i as int)),
        decreases n - i,
    {
        let c = s.get_char(i);
        let d = if segment_char(c) {
            c
        } else {
            '_'
        };
        push_char(&mut out, d);
        proof {
            assert(sanitized(s@.take(i + 1)) =~= sanitized(s@.take(i as int)).push(d));
        }
        i = i + 1;
    }
    proof {
        assert(s@.take(n as int) =~= s@);
    }
    out
}

/// `["plugin", name, "cb", <handle>]`.
pub open spec fn callback_segments(name: Seq<char>, handle: u64) -> Seq<Seq<char>> {
    seq![seq!['p', 'l', 'u', 'g', 'i', 'n'], name, seq!['c', 'b'], decimal(handle as nat)]
}

/// The segments of a plugin callback's canonical path
/// `/plugin/<name>/cb/<handle>`; `None` when `plugin_name` isn't a valid
/// path segment.
pub fn plugin_callback_segments(plugin_name: &str, handle: u64) -> (r: Option<Vec<String>>)
    ensures
        match r {
            Some(v) => is_segment(plugin_name@) && seg_chars(v@) == callback_segments(
                plugin_name@,
                handle,
            ),
            None => !is_segment(plugin_name@),
        },
{
    if !segment_valid(plugin_name) {
        return None;
    }
    proof {
        reveal_strlit("plugin");
        reveal_strlit("cb");
        assert("plugin"@ =~= seq!['p', 'l', 'u', 'g', 'i', 'n']);
        assert("cb"@ =~= seq!['c', 'b']);
    }
    let mut v: Vec<String> = Vec::new();
    v.push(owned("plugin"));
    v.push(owned(plugin_name));
    v.push(owned("cb"));
    v.push(decimal_string(handle));
    proof {
        assert(seg_chars(v@) =~= callback_segments(plugin_name@, handle));
    }
    Some(v)
}

/// The canonical path `/plugin/<name>/cb/<handle>` of a plugin
/// callback; `None` when `plugin_name` isn't a valid path segment.
pub fn plugin_callback_path(plugin_name: &str, handle: u64) -> (r: Option<String>)
    ensures
        match r {
            Some(p) => is_segment(plugin_name@) && p@ == join_path(
                callback_segments(plugin_name@, handle),
            ),
            None => !is_segment(plugin_name@),
        },
{
    match plugin_callback_segments(plugin_name, handle) {
        Some(v) => Some(join_segments(v.as_slice())),
        None => None,
    }
}

/// Decode `/plugin/<name>/cb/<u64>` (as its segments) into the plugin
/// name and the callback handle.
pub fn handle_from_callback_path(segs: &[String]) -> (r: Option<(String, u64)>)
    ensures
        match r {
            Some((name, h)) => {
                &&& segs@.len() == 4
                &&& segs@[0]@ == seq!['p', 'l', 'u', 'g', 'i', 'n']
                &&& segs@[2]@ == seq!['c', 'b']
                &&& name@ == segs@[1]@
                &&& spec_parse_u64(segs@[3]@) == Some(h)
            },
            None => !(segs@.len() == 4 && segs@[0]@ == seq!['p', 'l', 'u', 'g', 'i', 'n']
                && segs@[2]@ == seq!['c', 'b'] && spec_parse_u64(segs@[3]@) is Some),
        },
{
    proof {
        reveal_strlit("plugin");
        reveal_strlit("cb");
        assert("plugin"@ =~= seq!['p', 'l', 'u', 'g', 'i', 'n']);
        assert("cb"@ =~= seq!['c', 'b']);
    }
    if segs.len() != 4 || !seg_is(&segs[0], "plugin") || !seg_is(&segs[2], "cb") {
        return None;
    }
    let name = owned(segs[1].as_str());
    match parse_u64(segs[3].as_str()) {
        Some(h) => Some((name, h)),
        None => None,
    }
}

/// A valid plugin name survives the trip through its callback path.
pub proof fn lemma_callback_path_round_trip(name: Seq<char>, handle: u64, segs: Seq<String>)
    requires
        is_segment(name),
        seg_chars(segs) == callback_segments(name, handle),
    ensures
        segs.len() == 4,
        segs[0]@ == seq!['p', 'l', 'u', 'g', 'i', 'n'],
        segs[2]@ == seq!['c', 'b'],
        segs[1]@ == name,
        spec_parse_u64(segs[3]@) == Some(handle),
{
    assert(seg_chars(segs).len() == 4);
    assert(seg_chars(segs)[0] == segs[0]@);
    assert(seg_chars(segs)[1] == segs[1]@);
    assert(seg_chars(segs)[2] == segs[2]@);
    assert(seg_chars(segs)[3] == segs[3]@);
    crate::paths::lemma_parse_decimal(handle);
}

/// The dotted key a `/setting/<key>` path names (given as its segments),
/// or the whole path text for any other shape.
pub fn setting_path_to_key(segs: &[String]) -> (r: String)
    ensures
        r@ == (if segs@.len() == 2 && segs@[0]@ == seq!['s', 'e', 't', 't', 'i', 'n', 'g'] {
            segs@[1]@
        } else {
            join_path(seg_chars(segs@))
        }),
{
    proof {
        reveal_strlit("setting");
        assert("setting"@ =~= seq!['s', 'e', 't', 't', 'i', 'n', 'g']);
    }
    if segs.len() == 2 && seg_is(&segs[0], "setting") {
        return owned(segs[1].as_str());
    }
    join_segments(segs)
}

/// A plugin-contributed sidebar pane, as the editor sees it on a tick:
/// the slot it fills, its id, the lines the plugin last set, the scroll
/// offset, the body height last painted, and whether the plugin handles
/// keys and clicks.
#[derive(Clone, Debug)]
pub struct PaneSpec {
    pub slot: SidebarSlot,
    pub pane_id: u64,
    pub lines: Vec<String>,
    pub scroll: u16,
    pub visible_rows: u16,
    pub has_on_key: bool,
    pub has_on_click: bool,
}

/// A message a plugin sends to the editor.
pub enum PluginMsg {
    /// Push a string onto the status line.
    Status(String),
    /// A pane's lines changed; redraw on the next tick.
    PaneChanged,
    /// Open the file at this path in the editor.
    OpenPath(String),
}

/// A wire-protocol version.
#[derive(Copy, Clone, Debug, PartialEq, Eq, Structural)]
pub struct ProtocolVersion {
    pub major: u32,
    pub minor: u32,
}

/// The surface versions a manifest declares (or a host supports).
#[derive(Copy, Clone, Debug, PartialEq, Eq, Structural)]
pub struct Engines {
    pub protocol_version: ProtocolVersion,
    pub pulse_bus: ProtocolVersion,
    pub manifest: ProtocolVersion,
}

/// A surface whose major version differs between plugin and host.
#[derive(Copy, Clone, Debug, PartialEq, Eq)]
pub struct EngineMismatch {
    /// `devix`, `pulse_bus` or `manifest`.
    pub surface: &'static str,
    pub declared: ProtocolVersion,
    pub host: ProtocolVersion,
}

/// The mismatching surfaces, in the order devix, pulse_bus, manifest.
pub open spec fn mismatches(declared: Engines, host: Engines) -> Seq<(Seq<char>, ProtocolVersion, ProtocolVersion)> {
    (if declared.protocol_version.major != host.protocol_version.major {
        seq![("devix"@, declared.protocol_version, host.protocol_version)]
    } else {
        Seq::empty()
    }) + (if declared.pulse_bus.major != host.pulse_bus.major {
        seq![("pulse_bus"@, declared.pulse_bus, host.pulse_bus)]
    } else {
        Seq::empty()
    }) + (if declared.manifest.major != host.manifest.major {
        seq![("manifest"@, declared.manifest, host.manifest)]
    } else {
        Seq::empty()
    })
}

/// Compare a manifest's `engines` block with the host's versions. The
/// plugin is compatible when every surface's major version matches;
/// minor differences are allowed. Each major mismatch is reported (the
/// caller announces one plugin error per entry).
pub fn engines_compatible(declared: &Engines, host: &Engines) -> (r: (bool, Vec<EngineMismatch>))
    ensures
        r.0 == (mismatches(*declared, *host).len() == 0),
        r.1@.map_values(|m: EngineMismatch| (m.surface@, m.declared, m.host)) == mismatches(
            *declared,
            *host,
        ),
{
    let mut out: Vec<EngineMismatch> = Vec::new();
    if declared.protocol_version.major != host.protocol_version.major {
        out.push(
            EngineMismatch {
                surface: "devix",
                declared: declared.protocol_version,
                host: host.protocol_version,
            },
        );
    }
    if declared.pulse_bus.major != host.pulse_bus.major {
        out.push(
            EngineMismatch { surface: "pulse_bus", declared: declared.pulse_bus, host: host.pulse_bus },
        );
    }
    if declared.manifest.major != host.manifest.major {
        out.push(
            EngineMismatch { surface: "manifest", declared: declared.manifest, host: host.manifest },
        );
    }
    proof {
        assert(out@.map_values(|m: EngineMismatch| (m.surface@, m.declared, m.host)) =~= mismatches(
            *declared,
            *host,
        ));
    }
    (out.len() == 0, out)
}

/// Top-line scroll of a plugin sidebar pane after scrolling by `delta`
/// rows: clamped to `[0, cap]`, where `cap` is the highest offset that
/// still shows a line (and fills the `height` rows when there are
/// enough lines).
pub open spec fn spec_pane_scroll(cur: int, delta: int, line_count: int, height: int) -> int {
    let max_top = if line_count >= 1 {
        line_count - 1
    } else {
        0
    };
    let h = if height >= 1 {
        height
    } else {
        1
    };
    let max_visible_top = if line_count >= h {
        line_count - h
    } else {
        0
    };
    let cap = if max_visible_top <= max_top {
        max_visible_top
    } else {
        max_top
    };
    let next = cur + delta;
    if next < 0 {
        0
    } else if next > cap {
        cap
    } else {
        next
    }
}

/// Scroll a plugin pane from `cur` by `delta` rows (negative scrolls
/// up) and return the new top line.
pub fn pane_scroll_by(cur: u16, delta: i32, line_count: u16, height: u16) -> (r: u16)
    requires
        cur + delta <= i32::MAX,
    ensures
        r == spec_pane_scroll(cur as int, delta as int, line_count as int, height as int),
{
    let max_top = line_count.saturating_sub(1);
    let h = if height > 1 {
        height
    } else {
        1
    };
    let max_visible_top = line_count.saturating_sub(h);
    let cap = if max_visible_top < max_top {
        max_visible_top
    } else {
        max_top
    };
    let next: i32 = cur as i32 + delta;
    if next < 0 {
        0
    } else if next > cap as i32 {
        cap
    } else {
        next as u16
    }
}

/// What painting a plugin pane into a `width` x `height` area comes to.
#[derive(Copy, Clone, Debug, PartialEq, Eq, Structural)]
pub enum PaneRenderPlan {
    /// The area is empty: nothing is painted and nothing changes.
    Skip,
    /// The plugin's view is painted; `visible_rows` is the height it got.
    View { visible_rows: u16 },
    /// The lines `first..end` are painted from row 0 down, with the
    /// scroll offset clamped to `scroll`; `visible_rows` is the height.
    Lines { scroll: u16, first: usize, end: usize, visible_rows: u16 },
}

/// The highest top line of a pane of `height` rows showing `line_count`
/// lines that still fills the rows (at least one row counts), capped at
/// `u16::MAX`.
pub open spec fn pane_max_top(line_count: int, height: int) -> int {
    let h = if height >= 1 { height } else { 1 };
    let m = if line_count >= h { line_count - h } else { 0 };
    if m <= u16::MAX { m } else { u16::MAX as int }
}

/// The plan for painting a plugin pane: an empty area paints nothing; a
/// pane with a view paints it; otherwise the stored scroll offset is
/// clamped to `pane_max_top` and the rows from it down are painted, as
/// many lines as fit and exist.
pub open spec fn spec_pane_render(has_view: bool, scroll: u16, line_count: usize, width: u16, height: u16) -> PaneRenderPlan {
    if width == 0 || height == 0 {
        PaneRenderPlan::Skip
    } else if has_view {
        PaneRenderPlan::View { visible_rows: height }
    } else {
        let top = if scroll <= pane_max_top(line_count as int, height as int) {
            scroll as int
        } else {
            pane_max_top(line_count as int, height as int)
        };
        let end = if top + height <= line_count { top + height } else { line_count as int };
        PaneRenderPlan::Lines { scroll: top as u16, first: top as usize, end: end as usize, visible_rows: height }
    }
}

/// Decide how a plugin pane paints (see `spec_pane_render`); the caller
/// stores the clamped scroll and the visible rows back on the pane.
pub fn pane_render_plan(has_view: bool, scroll: u16, line_count: usize, width: u16, height: u16) -> (p: PaneRenderPlan)
    ensures
        p == spec_pane_render(has_view, scroll, line_count, width, height),
{
    if width == 0 || height == 0 {
        return PaneRenderPlan::Skip;
    }
    if has_view {
        return PaneRenderPlan::View { visible_rows: height };
    }
    let h: usize = height as usize;
    let m: usize = line_count.saturating_sub(h);
    let max_top: u16 = if m <= 65535 { m as u16 } else { 65535 };
    let top: u16 = if scroll <= max_top { scroll } else { max_top };
    let first: usize = top as usize;
    let end: usize = if line_count >= first && line_count - first >= h { first + h } else { line_count };
    PaneRenderPlan::Lines { scroll: top, first, end, visible_rows: height }
}

/// An input event as a plugin pane tells them apart.
#[derive(Copy, Clone, Debug, PartialEq, Eq, Structural)]
pub enum PaneEvent {
    Key,
    MouseDown { x: u16, y: u16 },
    ScrollUp,
    ScrollDown,
    Other,
}

/// What a plugin pane does with an event besides answering it.
#[derive(Copy, Clone, Debug, PartialEq, Eq, Structural)]
pub enum PaneAction {
    /// Send the key to the plugin's `on_key` callback.
    ForwardKey,
    /// Send the click at this cell to the plugin's `on_click` callback.
    ForwardClick { x: u16, y: u16 },
    /// Store this scroll offset.
    Scroll(u16),
    Nothing,
}

/// What a plugin pane answers to `ev` and does: keys go to `on_key` and
/// button presses to `on_click` when the plugin has them; a wheel notch
/// scrolls two rows (clamped as `spec_pane_scroll` says, over at most
/// `u16::MAX` lines and the rows last painted); anything else is left
/// to the next responder.
pub open spec fn spec_pane_handle(
    ev: PaneEvent,
    has_on_key: bool,
    has_on_click: bool,
    scroll: u16,
    line_count: usize,
    visible_rows: u16,
) -> (bool, PaneAction) {
    let lc = if line_count <= u16::MAX { line_count as int } else { u16::MAX as int };
    match ev {
        PaneEvent::Key => if has_on_key { (true, PaneAction::ForwardKey) } else { (false, PaneAction::Nothing) },
        PaneEvent::MouseDown { x, y } => if has_on_click {
            (true, PaneAction::ForwardClick { x, y })
        } else {
            (false, PaneAction::Nothing)
        },
        PaneEvent::ScrollUp => (true, PaneAction::Scroll(spec_pane_scroll(scroll as int, -2, lc, visible_rows as int) as u16)),
        PaneEvent::ScrollDown => (true, PaneAction::Scroll(spec_pane_scroll(scroll as int, 2, lc, visible_rows as int) as u16)),
        PaneEvent::Other => (false, PaneAction::Nothing),
    }
}

/// One event through a plugin pane (see `spec_pane_handle`): the
/// outcome and the action for the caller to carry out.
pub fn pane_handle_step(
    ev: PaneEvent,
    has_on_key: bool,
    has_on_click: bool,
    scroll: u16,
    line_count: usize,
    visible_rows: u16,
) -> (r: (Outcome, PaneAction))
    ensures
        (r.0 == Outcome::Consumed, r.1) == spec_pane_handle(ev, has_on_key, has_on_click, scroll, line_count, visible_rows),
{
    let lc: u16 = if line_count <= 65535 { line_count as u16 } else { 65535 };
    match ev {
        PaneEvent::Key => if has_on_key {
            (Outcome::Consumed, PaneAction::ForwardKey)
        } else {
            (Outcome::Ignored, PaneAction::Nothing)
        },
        PaneEvent::MouseDown { x, y } => if has_on_click {
            (Outcome::Consumed, PaneAction::ForwardClick { x, y })
        } else {
            (Outcome::Ignored, PaneAction::Nothing)
        },
        PaneEvent::ScrollUp => (Outcome::Consumed, PaneAction::Scroll(pane_scroll_by(scroll, -2, lc, visible_rows))),
        PaneEvent::ScrollDown => (Outcome::Consumed, PaneAction::Scroll(pane_scroll_by(scroll, 2, lc, visible_rows))),
        PaneEvent::Other => (Outcome::Ignored, PaneAction::Nothing),
    }
}

/// The sidebar slot a plugin names when it registers a pane: `left` or
/// `right`; any other word is refused with `unknown sidebar slot: <word>`.
pub fn parse_slot(s: &str) -> (r: Result<SidebarSlot, String>)
    ensures
        match r {
            Ok(slot) => (slot == SidebarSlot::Left && s@ == "left"@) || (slot == SidebarSlot::Right && s@
                == "right"@),
            Err(msg) => s@ != "left"@ && s@ != "right"@ && msg@ == "unknown sidebar slot: "@ + s@,
        },
{
    if str_eq(s, "left") {
        Ok(SidebarSlot::Left)
    } else if str_eq(s, "right") {
        Ok(SidebarSlot::Right)
    } else {
        let mut msg = owned("unknown sidebar slot: ");
        crate::paths::push_str(&mut msg, s);
        Err(msg)
    }
}

} // verus!
