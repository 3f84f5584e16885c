//! The editor's structural state: the layout tree, the focus path, the
//! per-frame hit-test cache the last layout pass left behind and the
//! cursor store, plus the operations that rewrite them (tabs, splits,
//! sidebars, focus moves).
//!
//! A split mints its frame id and clones the active cursor into the
//! store; other tab operations take the cursor they show by id, and
//! documents live in their own store. Announcements the editor
//! makes (focus changed, frame split or closed, sidebar toggled) are
//! queued in `pulses`, in order, for the caller to deliver.

use vstd::prelude::*;

use crate::editor::cursor::Cursor;
use crate::editor::focus_chain::{FocusChain, FocusTransition};
use crate::editor::ids::{CursorId, FrameId};
use crate::editor::stores::{CursorStore, index_of};
use crate::editor::registry::PaneRegistry;
use crate::editor::tree::{FrameView, LayoutNode, LeafRef, NodeView};
use crate::geom::{Axis, Rect, SidebarSlot};

pub mod focus;
pub mod hittest;
pub mod ops;
pub mod pass;

verus! {

/// One clickable tab region produced by the tab-strip layout.
#[derive(Copy, Clone, Debug, PartialEq, Eq, Structural)]
pub struct TabHit {
    pub idx: usize,
    pub rect: Rect,
}

/// Hit-test layout of a frame's tab strip. `strip_rect` covers the whole
/// one-row strip, including empty space past the last tab, so a wheel
/// event anywhere on that row resolves to the frame.
#[derive(Clone, Debug)]
pub struct TabStripCache {
    pub strip_rect: Rect,
    pub content_width: u32,
    pub hits: Vec<TabHit>,
}

/// What a click on the tab-strip row hit.
#[derive(Copy, Clone, Debug, PartialEq, Eq, Structural)]
pub enum TabStripHit {
    Tab { frame: FrameId, idx: usize },
}

/// A rect that ends inside the `u16` coordinate space, as every rect
/// the layout pass hands out does.
pub open spec fn on_screen(r: Rect) -> bool {
    r.x + r.width <= u16::MAX && r.y + r.height <= u16::MAX
}

/// The value stored under `k` in an association list (the entry nearest
/// the end, which with distinct keys is the only one).
pub open spec fn lookup<K, V>(s: Seq<(K, V)>, k: K) -> Option<V>
    decreases s.len(),
{
    if s.len() == 0 {
        None
    } else if s.last().0 == k {
        Some(s.last().1)
    } else {
        lookup(s.drop_last(), k)
    }
}

/// No key occurs twice.
pub open spec fn keys_distinct<K, V>(s: Seq<(K, V)>) -> bool {
    forall|i: int, j: int| 0 <= i < j < s.len() ==> s[i].0 != s[j].0
}

/// Rect-per-leaf tables filled by the layout pass and read by
/// hit-testing and focus moves. Each table maps a key to one value.
pub struct RenderCache {
    frame_rects: Vec<(FrameId, Rect)>,
    sidebar_rects: Vec<(SidebarSlot, Rect)>,
    tab_strips: Vec<(FrameId, TabStripCache)>,
}

impl RenderCache {
    #[verifier::type_invariant]
    spec fn inv(self) -> bool {
        &&& keys_distinct(self.frame_rects@)
        &&& keys_distinct(self.sidebar_rects@)
        &&& keys_distinct(self.tab_strips@)
        &&& forall|i: int| 0 <= i < self.frame_rects@.len() ==> on_screen(#[trigger] self.frame_rects@[i].1)
        &&& forall|i: int| 0 <= i < self.sidebar_rects@.len() ==> on_screen(#[trigger] self.sidebar_rects@[i].1)
        &&& forall|i: int| 0 <= i < self.tab_strips@.len() ==> on_screen(#[trigger] self.tab_strips@[i].1.strip_rect)
    }

    /// The body rect of each frame, as an association list.
    pub closed spec fn frame_table(&self) -> Seq<(FrameId, Rect)> {
        self.frame_rects@
    }

    /// The rect of each sidebar, as an association list.
    pub closed spec fn sidebar_table(&self) -> Seq<(SidebarSlot, Rect)> {
        self.sidebar_rects@
    }

    /// The tab strip of each frame, as an association list.
    pub closed spec fn strip_table(&self) -> Seq<(FrameId, TabStripCache)> {
        self.tab_strips@
    }

    /// An empty cache.
    pub fn new() -> (c: Self)
        ensures
            c.frame_table() == Seq::<(FrameId, Rect)>::empty(),
            c.sidebar_table() == Seq::<(SidebarSlot, Rect)>::empty(),
            c.strip_table() == Seq::<(FrameId, TabStripCache)>::empty(),
    {
        RenderCache { frame_rects: Vec::new(), sidebar_rects: Vec::new(), tab_strips: Vec::new() }
    }

    /// Forget every table entry (start of a layout pass).
    pub fn clear(&mut self)
        ensures
            final(self).frame_table() == Seq::<(FrameId, Rect)>::empty(),
            final(self).sidebar_table() == Seq::<(SidebarSlot, Rect)>::empty(),
            final(self).strip_table() == Seq::<(FrameId, TabStripCache)>::empty(),
    {
        *self = RenderCache::new();
    }

    /// The body rect recorded for `fid`.
    pub fn frame_rect(&self, fid: FrameId) -> (r: Option<Rect>)
        ensures
            r == lookup(self.frame_table(), fid),
            r matches Some(rect) ==> on_screen(rect),
    {

        let mut i = self.frame_rects.len();
        proof {
            assert(self.frame_rects@.take(i as int) =~= self.frame_rects@);
        }
        while i > 0
            invariant
                i <= self.frame_rects@.len(),
                lookup(self.frame_rects@, fid) == lookup(self.frame_rects@.take(i as int), fid),
            decreases i,
        {
            proof {
                assert(self.frame_rects@.take(i as int).drop_last() =~= self.frame_rects@.take(i - 1));
            }
            if self.frame_rects[i - 1].0 == fid {
                proof {
                    use_type_invariant(self);
                }
                return Some(self.frame_rects[i - 1].1);
            }
            i = i - 1;
        }
        None
    }

    /// The rect recorded for the sidebar `slot`.
    pub fn sidebar_rect(&self, slot: SidebarSlot) -> (r: Option<Rect>)
        ensures
            r == lookup(self.sidebar_table(), slot),
            r matches Some(rect) ==> on_screen(rect),
    {

        let mut i = self.sidebar_rects.len();
        proof {
            assert(self.sidebar_rects@.take(i as int) =~= self.sidebar_rects@);
        }
        while i > 0
            invariant
                i <= self.sidebar_rects@.len(),
                lookup(self.sidebar_rects@, slot) == lookup(self.sidebar_rects@.take(i as int), slot),
            decreases i,
        {
            proof {
                assert(self.sidebar_rects@.take(i as int).drop_last() =~= self.sidebar_rects@.take(i - 1));
            }
            if self.sidebar_rects[i - 1].0 == slot {
                proof {
                    use_type_invariant(self);
                }
                return Some(self.sidebar_rects[i - 1].1);
            }
            i = i - 1;
        }
        None
    }

    /// The tab strip recorded for `fid`.
    pub fn tab_strip(&self, fid: FrameId) -> (r: Option<&TabStripCache>)
        ensures
            match r {
                Some(s) => lookup(self.strip_table(), fid) == Some(*s) && on_screen(s.strip_rect),
                None => lookup(self.strip_table(), fid) is None,
            },
    {

        let mut i = self.tab_strips.len();
        proof {
            assert(self.tab_strips@.take(i as int) =~= self.tab_strips@);
        }
        while i > 0
            invariant
                i <= self.tab_strips@.len(),
                lookup(self.tab_strips@, fid) == lookup(self.tab_strips@.take(i as int), fid),
            decreases i,
        {
            proof {
                assert(self.tab_strips@.take(i as int).drop_last() =~= self.tab_strips@.take(i - 1));
            }
            if self.tab_strips[i - 1].0 == fid {
                proof {
                    use_type_invariant(self);
                }
                return Some(&self.tab_strips[i - 1].1);
            }
            i = i - 1;
        }
        None
    }

    /// Number of tab strips recorded.
    pub fn tab_strip_count(&self) -> (n: usize)
        ensures
            n == self.strip_table().len(),
    {
        self.tab_strips.len()
    }

    /// The `i`-th recorded tab strip with its frame.
    pub fn tab_strip_at(&self, i: usize) -> (r: (FrameId, &TabStripCache))
        requires
            i < self.strip_table().len(),
        ensures
            r.0 == self.strip_table()[i as int].0,
            *r.1 == self.strip_table()[i as int].1,
            on_screen(r.1.strip_rect),
    {
        proof {
            use_type_invariant(self);
        }
        (self.tab_strips[i].0, &self.tab_strips[i].1)
    }

    /// Number of frame rects recorded.
    pub fn frame_rect_count(&self) -> (n: usize)
        ensures
            n == self.frame_table().len(),
    {
        self.frame_rects.len()
    }

    /// The `i`-th recorded frame rect.
    pub fn frame_rect_at(&self, i: usize) -> (r: (FrameId, Rect))
        requires
            i < self.frame_table().len(),
        ensures
            r == self.frame_table()[i as int],
            on_screen(r.1),
    {
        proof {
            use_type_invariant(self);
        }
        self.frame_rects[i]
    }

    /// Number of sidebar rects recorded.
    pub fn sidebar_rect_count(&self) -> (n: usize)
        ensures
            n == self.sidebar_table().len(),
    {
        self.sidebar_rects.len()
    }

    /// The `i`-th recorded sidebar rect.
    pub fn sidebar_rect_at(&self, i: usize) -> (r: (SidebarSlot, Rect))
        requires
            i < self.sidebar_table().len(),
        ensures
            r == self.sidebar_table()[i as int],
            on_screen(r.1),
    {
        proof {
            use_type_invariant(self);
        }
        self.sidebar_rects[i]
    }

    /// Record `rect` as the body rect of `fid`, replacing any earlier one.
    pub fn insert_frame_rect(&mut self, fid: FrameId, rect: Rect)
        requires
            on_screen(rect),
        ensures
            lookup(final(self).frame_table(), fid) == Some(rect),
            forall|k: FrameId| k != fid ==> lookup(final(self).frame_table(), k) == lookup(old(self).frame_table(), k),
            final(self).sidebar_table() == old(self).sidebar_table(),
            final(self).strip_table() == old(self).strip_table(),
    {
        proof {
            use_type_invariant(&*self);
        }
        let mut i: usize = 0;
        while i < self.frame_rects.len()
            invariant
                i <= self.frame_rects@.len(),
                forall|j: int| 0 <= j < i ==> self.frame_rects@[j].0 != fid,
            ensures
                i <= self.frame_rects@.len(),
                forall|j: int| 0 <= j < i ==> self.frame_rects@[j].0 != fid,
                i < self.frame_rects@.len() ==> self.frame_rects@[i as int].0 == fid,
            decreases self.frame_rects@.len() - i,
        {
            if self.frame_rects[i].0 == fid {
                break;
            }
            i = i + 1;
        }
        let ghost old_s = self.frame_rects@;
        if i < self.frame_rects.len() {
            let mut v = Vec::new();
            std::mem::swap(&mut v, &mut self.frame_rects);
            v.set(i, (fid, rect));
            proof {
                lemma_lookup_update(old_s, i as int, fid, rect);
            }
            self.frame_rects = v;
        } else {
            let mut v = Vec::new();
            std::mem::swap(&mut v, &mut self.frame_rects);
            v.push((fid, rect));
            proof {
                lemma_lookup_push(old_s, fid, rect);
            }
            self.frame_rects = v;
        }
    }

    /// Record `rect` as the rect of the sidebar `slot`, replacing any earlier one.
    pub fn insert_sidebar_rect(&mut self, slot: SidebarSlot, rect: Rect)
        requires
            on_screen(rect),
        ensures
            lookup(final(self).sidebar_table(), slot) == Some(rect),
            forall|k: SidebarSlot| k != slot ==> lookup(final(self).sidebar_table(), k) == lookup(old(self).sidebar_table(), k),
            final(self).frame_table() == old(self).frame_table(),
            final(self).strip_table() == old(self).strip_table(),
    {
        proof {
            use_type_invariant(&*self);
        }
        let mut i: usize = 0;
        while i < self.sidebar_rects.len()
            invariant
                i <= self.sidebar_rects@.len(),
                forall|j: int| 0 <= j < i ==> self.sidebar_rects@[j].0 != slot,
            ensures
                i <= self.sidebar_rects@.len(),
                forall|j: int| 0 <= j < i ==> self.sidebar_rects@[j].0 != slot,
                i < self.sidebar_rects@.len() ==> self.sidebar_rects@[i as int].0 == slot,
            decreases self.sidebar_rects@.len() - i,
        {
            if self.sidebar_rects[i].0 == slot {
                break;
            }
            i = i + 1;
        }
        let ghost old_s = self.sidebar_rects@;
        if i < self.sidebar_rects.len() {
            let mut v = Vec::new();
            std::mem::swap(&mut v, &mut self.sidebar_rects);
            v.set(i, (slot, rect));
            proof {
                lemma_lookup_update(old_s, i as int, slot, rect);
            }
            self.sidebar_rects = v;
        } else {
            let mut v = Vec::new();
            std::mem::swap(&mut v, &mut self.sidebar_rects);
            v.push((slot, rect));
            proof {
                lemma_lookup_push(old_s, slot, rect);
            }
            self.sidebar_rects = v;
        }
    }

    /// Record `strip` as the tab strip of `fid`, replacing any earlier one.
    pub fn insert_tab_strip(&mut self, fid: FrameId, strip: TabStripCache)
        requires
            on_screen(strip.strip_rect),
        ensures
            lookup(final(self).strip_table(), fid) == Some(strip),
            forall|k: FrameId| k != fid ==> lookup(final(self).strip_table(), k) == lookup(old(self).strip_table(), k),
            final(self).frame_table() == old(self).frame_table(),
            final(self).sidebar_table() == old(self).sidebar_table(),
    {
        proof {
            use_type_invariant(&*self);
        }
        let mut i: usize = 0;
        while i < self.tab_strips.len()
            invariant
                i <= self.tab_strips@.len(),
                forall|j: int| 0 <= j < i ==> self.tab_strips@[j].0 != fid,
            ensures
                i <= self.tab_strips@.len(),
                forall|j: int| 0 <= j < i ==> self.tab_strips@[j].0 != fid,
                i < self.tab_strips@.len() ==> self.tab_strips@[i as int].0 == fid,
            decreases self.tab_strips@.len() - i,
        {
            if self.tab_strips[i].0 == fid {
                break;
            }
            i = i + 1;
        }
        let ghost old_s = self.tab_strips@;
        if i < self.tab_strips.len() {
            let mut v = Vec::new();
            std::mem::swap(&mut v, &mut self.tab_strips);
            v.set(i, (fid, strip));
            proof {
                lemma_lookup_update(old_s, i as int, fid, strip);
            }
            self.tab_strips = v;
        } else {
            let mut v = Vec::new();
            std::mem::swap(&mut v, &mut self.tab_strips);
            v.push((fid, strip));
            proof {
                lemma_lookup_push(old_s, fid, strip);
            }
            self.tab_strips = v;
        }
    }
}

/// An announcement the editor makes about a change to its layout or
/// focus. Paths are `Split.children` index lists (`/pane(/<i>)*`).
pub enum EditorPulse {
    /// The focus path changed.
    FocusChanged { from: Vec<usize>, to: Vec<usize> },
    /// The frame at `source` was split; the new frame sits at `new`.
    FrameSplit { source: Vec<usize>, new: Vec<usize>, axis: Axis },
    /// The frame at `frame` was closed.
    FrameClosed { frame: Vec<usize> },
    /// The sidebar at `slot` was opened or closed.
    SidebarToggled { slot: Vec<usize>, open: bool },
}

/// What an [`EditorPulse`] says, with its paths as sequences.
pub enum PulseView {
    FocusChanged(Seq<usize>, Seq<usize>),
    FrameSplit(Seq<usize>, Seq<usize>, Axis),
    FrameClosed(Seq<usize>),
    SidebarToggled(Seq<usize>, bool),
}

impl View for EditorPulse {
    type V = PulseView;

    open spec fn view(&self) -> PulseView {
        match self {
            EditorPulse::FocusChanged { from, to } => PulseView::FocusChanged(from@, to@),
            EditorPulse::FrameSplit { source, new, axis } => PulseView::FrameSplit(source@, new@, *axis),
            EditorPulse::FrameClosed { frame } => PulseView::FrameClosed(frame@),
            EditorPulse::SidebarToggled { slot, open } => PulseView::SidebarToggled(slot@, *open),
        }
    }
}

/// The announcements of a queue, in order.
pub open spec fn pulses_view(q: Seq<EditorPulse>) -> Seq<PulseView> {
    q.map_values(|p: EditorPulse| p@)
}

/// The announcement a focus move owes: one `FocusChanged` when the path
/// changes, nothing otherwise.
pub open spec fn focus_pulse(from: Seq<usize>, to: Seq<usize>) -> Seq<PulseView> {
    if from == to {
        Seq::empty()
    } else {
        seq![PulseView::FocusChanged(from, to)]
    }
}

/// The frame the focus path lands on, if it lands on a frame leaf.
pub open spec fn spec_active_frame(t: NodeView, focus: Seq<usize>) -> Option<FrameId> {
    match t.at_path(focus) {
        Some(NodeView::Frame(f)) => Some(f.frame),
        _ => None,
    }
}

/// The frame leaf `path_to_leaf(Frame(fid))` leads to: the one the
/// frame-by-id operations act on.
pub open spec fn frame_of(t: NodeView, fid: FrameId) -> Option<FrameView> {
    match t.path_to_leaf(LeafRef::Frame(fid)) {
        Some(p) => match t.at_path(p) {
            Some(NodeView::Frame(f)) => Some(f),
            _ => None,
        },
        None => None,
    }
}

/// The tree with that frame leaf replaced by `f`.
pub open spec fn with_frame(t: NodeView, fid: FrameId, f: FrameView) -> NodeView {
    t.replaced(t.path_to_leaf(LeafRef::Frame(fid)).unwrap(), NodeView::Frame(f))
}

/// The editor's structural state.
pub struct Editor {
    /// Owner of the layout tree.
    pub panes: PaneRegistry,
    /// Owner of the focus path.
    pub focus: FocusChain,
    /// Rects the last layout pass recorded, for hit-testing.
    pub render_cache: RenderCache,
    /// Announcements not yet delivered, oldest first.
    pub pulses: Vec<EditorPulse>,
    /// The cursor of every tab, under the ids the store mints.
    pub cursors: CursorStore<Cursor>,
    /// No frame id this editor mints is below this number.
    pub next_frame: u64,
}

/// The largest frame id number in `s` (0 when there is none).
pub open spec fn max_frame(s: Seq<FrameId>) -> nat
    decreases s.len(),
{
    if s.len() == 0 {
        0
    } else {
        let m = max_frame(s.drop_last());
        if s.last().0 > m {
            s.last().0 as nat
        } else {
            m
        }
    }
}

impl Editor {
    /// The number the next frame this editor mints gets: above every
    /// frame of the tree and every frame id it minted before.
    pub open spec fn next_frame_number(&self) -> nat {
        let m = max_frame(self.panes@.frames()) + 1;
        if self.next_frame >= m {
            self.next_frame as nat
        } else {
            m
        }
    }

    /// The cursor of the focused frame's active tab, if any, is in the
    /// cursor store.
    pub open spec fn active_cursor_stored(&self) -> bool {
        match spec_active_frame(self.panes@, self.focus@) {
            Some(fid) => match self.panes@.find_frame(fid) {
                Some(fr) => fr.active_tab < fr.tabs.len() ==> index_of(
                    self.cursors.cursors.table(),
                    fr.tabs[fr.active_tab as int].0,
                ) is Some,
                None => true,
            },
            None => true,
        }
    }

    /// An editor showing one frame with one tab, the cursor `cursor`
    /// (stored under the first id the store mints), focused at the root.
    pub fn new(frame: FrameId, cursor: Cursor) -> (e: Self)
        ensures
            e.cursors.cursors.table() == seq![(1u64, cursor)],
            e.cursors.cursors.next_id() == 2,
            e.next_frame == 1,
            e.panes@ == NodeView::Frame(
                FrameView {
                    frame,
                    tabs: seq![CursorId(1)],
                    active_tab: 0,
                    tab_strip_scroll: (0u32, 0u32),
                    recenter_active: true,
                },
            ),
            e.focus@ == Seq::<usize>::empty(),
            e.render_cache.frame_table().len() == 0,
            e.render_cache.sidebar_table().len() == 0,
            e.render_cache.strip_table().len() == 0,
            e.pulses@.len() == 0,
    {
        let mut cursors: CursorStore<Cursor> = CursorStore::new();
        let first = cursors.insert(cursor);
        proof {
            assert(cursors.cursors.table() =~= seq![(1u64, cursor)]);
        }
        Editor {
            panes: PaneRegistry::new(LayoutNode::frame(frame, first)),
            focus: FocusChain::new(),
            render_cache: RenderCache::new(),
            pulses: Vec::new(),
            cursors,
            next_frame: 1,
        }
    }

    /// The frame under the focus path, if focus is on a frame.
    pub fn active_frame(&self) -> (r: Option<FrameId>)
        ensures
            r == spec_active_frame(self.panes@, self.focus@),
    {
        match self.panes.at_path(self.focus.active()) {
            Some(node) => match node.leaf_id() {
                Some(LeafRef::Frame(id)) => {
                    proof {
                        assert(node@ is Frame);
                    }
                    Some(id)
                },
                _ => None,
            },
            None => None,
        }
    }

    /// The active tab's cursor of the focused frame.
    pub fn active_cursor_id(&self) -> (r: Option<CursorId>)
        ensures
            r == (match spec_active_frame(self.panes@, self.focus@) {
                Some(fid) => match self.panes@.find_frame(fid) {
                    Some(f) => if f.active_tab < f.tabs.len() {
                        Some(f.tabs[f.active_tab as int])
                    } else {
                        None
                    },
                    None => None,
                },
                None => None,
            }),
    {
        let fid = self.active_frame()?;
        let f = self.panes.find_frame(fid)?;
        f.active_cursor()
    }

    /// Set the focus path, announcing `FocusChanged` iff it changes.
    pub fn set_focus(&mut self, new: Vec<usize>)
        ensures
            final(self).cursors == old(self).cursors,
            final(self).next_frame == old(self).next_frame,
            final(self).focus@ == new@,
            final(self).panes@ == old(self).panes@,
            final(self).render_cache == old(self).render_cache,
            pulses_view(final(self).pulses@) == pulses_view(old(self).pulses@) + focus_pulse(
                old(self).focus@,
                new@,
            ),
    {
        let ghost from = self.focus@;
        let ghost to = new@;
        match self.focus.replace(new) {
            Some(t) => {
                let FocusTransition { from: f, to: t2 } = t;
                self.pulses.push(EditorPulse::FocusChanged { from: f, to: t2 });
                proof {
                    assert(pulses_view(self.pulses@) =~= pulses_view(old(self).pulses@) + focus_pulse(from, to));
                }
            },
            None => {
                proof {
                    assert(pulses_view(self.pulses@) =~= pulses_view(old(self).pulses@) + focus_pulse(from, to));
                }
            },
        }
    }
}

/// A found value is the value of some entry.
pub proof fn lemma_lookup_in<K, V>(s: Seq<(K, V)>, k: K)
    ensures
        lookup(s, k) matches Some(v) ==> exists|i: int| 0 <= i < s.len() && #[trigger] s[i] == (k, v),
    decreases s.len(),
{
    if s.len() > 0 {
        lemma_lookup_in(s.drop_last(), k);
        if s.last().0 == k {
            assert(s[s.len() - 1] == (k, s.last().1));
        } else if lookup(s.drop_last(), k) is Some {
            let v = lookup(s.drop_last(), k).unwrap();
            let i = choose|i: int| 0 <= i < s.drop_last().len() && #[trigger] s.drop_last()[i] == (k, v);
            assert(s[i] == (k, v));
        }
    }
}

/// Looking up after overwriting the entry of a present key.
pub proof fn lemma_lookup_update<K, V>(s: Seq<(K, V)>, i: int, k: K, v: V)
    requires
        keys_distinct(s),
        0 <= i < s.len(),
        s[i].0 == k,
    ensures
        keys_distinct(s.update(i, (k, v))),
        lookup(s.update(i, (k, v)), k) == Some(v),
        forall|k2: K| k2 != k ==> lookup(s.update(i, (k, v)), k2) == lookup(s, k2),
    decreases s.len(),
{
    let t = s.update(i, (k, v));
    if i == s.len() - 1 {
        assert(t.drop_last() =~= s.drop_last());
    } else {
        lemma_lookup_update(s.drop_last(), i, k, v);
        assert(t.drop_last() =~= s.drop_last().update(i, (k, v)));
    }
    assert forall|k2: K| k2 != k implies lookup(t, k2) == lookup(s, k2) by {
        if i == s.len() - 1 {
            assert(t.last() == (k, v));
            assert(s.last().0 == k);
            assert(t.drop_last() =~= s.drop_last());
            assert(lookup(t, k2) == lookup(t.drop_last(), k2));
            assert(lookup(s, k2) == lookup(s.drop_last(), k2));
        } else {
            assert(t.last() == s.last());
            assert(t.drop_last() =~= s.drop_last().update(i, (k, v)));
        }
    }
}

/// Looking up after appending a fresh key.
pub proof fn lemma_lookup_push<K, V>(s: Seq<(K, V)>, k: K, v: V)
    requires
        keys_distinct(s),
        forall|j: int| 0 <= j < s.len() ==> s[j].0 != k,
    ensures
        keys_distinct(s.push((k, v))),
        lookup(s.push((k, v)), k) == Some(v),
        forall|k2: K| k2 != k ==> lookup(s.push((k, v)), k2) == lookup(s, k2),
{
    assert(s.push((k, v)).drop_last() =~= s);
}

} // verus!
