//! Mutating operations on the editor: tabs, frames and splits, sidebars.
//!
//! Layout mutations rewrite the tree through the pane registry; the tree
//! is the source of truth.

use vstd::prelude::*;

use crate::editor::cursor::split_copy_of;
use crate::editor::editor::{
    Editor, EditorPulse, PulseView, focus_pulse, frame_of, max_frame, pulses_view, spec_active_frame,
    with_frame,
};
use crate::editor::stores::index_of;
use crate::editor::ids::{CursorId, FrameId};
use crate::editor::tree::{
    LayoutFrame, LayoutNode, LayoutSplit, children_view, first_frame_path, lemma_children_view,
    lemma_children_view_insert, lemma_children_view_push, lemma_children_view_remove, node_view,
};
use crate::geom::{Axis, SidebarSlot};
use crate::editor::tree::laws::{
    lemma_find_frame_id, lemma_find_frame_is_path_frame, lemma_found_frame_listed, lemma_path_to_leaf_complete,
    lemma_replaced_same,
};
use crate::editor::tree::{FrameView, LeafRef, NodeView};

verus! {

/// The largest frame id number in `frames` (0 when there is none).
fn max_frame_number(frames: &Vec<FrameId>) -> (m: u64)
    ensures
        m == max_frame(frames@),
{
    let mut m: u64 = 0;
    let mut i: usize = 0;
    proof {
        assert(frames@.take(0) =~= Seq::<FrameId>::empty());
    }
    while i < frames.len()
        invariant
            i <= frames@.len(),
            m == max_frame(frames@.take(i as int)),
        decreases frames@.len() - i,
    {
        proof {
            assert(frames@.take(i + 1).drop_last() =~= frames@.take(i as int));
        }
        if frames[i].0 > m {
            m = frames[i].0;
        }
        i = i + 1;
    }
    proof {
        assert(frames@.take(i as int) =~= frames@);
    }
    m
}

/// No frame of `s` has a number above `max_frame(s)`.
pub proof fn lemma_max_frame_bounds(s: Seq<FrameId>, i: int)
    requires
        0 <= i < s.len(),
    ensures
        s[i].0 <= max_frame(s),
    decreases s.len(),
{
    if i < s.len() - 1 {
        assert(s.drop_last()[i] == s[i]);
        lemma_max_frame_bounds(s.drop_last(), i);
    }
}

/// `f` with `tabs` and `active_tab` replaced and a scroll-into-view
/// request raised.
pub open spec fn retabbed(f: FrameView, tabs: Seq<CursorId>, active: usize) -> FrameView {
    FrameView {
        frame: f.frame,
        tabs,
        active_tab: active,
        tab_strip_scroll: f.tab_strip_scroll,
        recenter_active: true,
    }
}

/// The frame after closing its active tab: the last tab is swapped for
/// `scratch`; otherwise the tab goes and its right neighbour (or the new
/// last tab) becomes active.
pub open spec fn tab_closed(f: FrameView, scratch: CursorId) -> FrameView {
    if f.tabs.len() == 1 {
        retabbed(f, seq![scratch], 0)
    } else {
        let tabs = f.tabs.remove(f.active_tab as int);
        retabbed(f, tabs, if f.active_tab < tabs.len() { f.active_tab } else { (tabs.len() - 1) as usize })
    }
}

/// The tab after `i` of `n`, wrapping around.
pub open spec fn next_index(i: int, n: int) -> int {
    (i + 1) % n
}

/// The tab before `i` of `n`, wrapping around.
pub open spec fn prev_index(i: int, n: int) -> int {
    (i + n - 1) % n
}

/// Cycling tabs: the next tab of `i` is `i + 1`, or the first after the
/// last; the previous is `i - 1`, or the last before the first; each
/// undoes the other, and both stay among the `n` tabs.
pub proof fn lemma_tab_cycle(i: int, n: int)
    requires
        0 <= i < n,
    ensures
        0 <= next_index(i, n) < n,
        0 <= prev_index(i, n) < n,
        next_index(i, n) == (if i + 1 < n {
            i + 1
        } else {
            0
        }),
        prev_index(i, n) == (if i > 0 {
            i - 1
        } else {
            n - 1
        }),
        prev_index(next_index(i, n), n) == i,
        next_index(prev_index(i, n), n) == i,
{
    if i + 1 < n {
        vstd::arithmetic::div_mod::lemma_small_mod((i + 1) as nat, n as nat);
    } else {
        vstd::arithmetic::div_mod::lemma_mod_self_0(n);
    }
    if i > 0 {
        vstd::arithmetic::div_mod::lemma_small_mod((i + n - 1 - n) as nat, n as nat);
        vstd::arithmetic::div_mod::lemma_mod_add_multiples_vanish(i - 1, n);
    } else {
        vstd::arithmetic::div_mod::lemma_small_mod((n - 1) as nat, n as nat);
    }
    let a = next_index(i, n);
    let b = prev_index(i, n);
    if a > 0 {
        vstd::arithmetic::div_mod::lemma_small_mod((a - 1) as nat, n as nat);
        vstd::arithmetic::div_mod::lemma_mod_add_multiples_vanish(a - 1, n);
    } else {
        vstd::arithmetic::div_mod::lemma_small_mod((n - 1) as nat, n as nat);
    }
    if b + 1 < n {
        vstd::arithmetic::div_mod::lemma_small_mod((b + 1) as nat, n as nat);
    } else {
        vstd::arithmetic::div_mod::lemma_mod_self_0(n);
    }
}

/// Closing the active tab `i` of a frame with more tabs drops exactly
/// that tab and activates its right neighbour, or the left one when it
/// was the last: the new active index is `min(i, count - 1)` over the
/// remaining tabs. Closing the only tab leaves the scratch tab alone.
pub proof fn lemma_tab_closed_activates_neighbour(f: FrameView, scratch: CursorId)
    requires
        f.active_tab < f.tabs.len(),
    ensures
        ({
            let g = tab_closed(f, scratch);
            let i = f.active_tab as int;
            &&& g.frame == f.frame
            &&& f.tabs.len() == 1 ==> g.tabs == seq![scratch] && g.active_tab == 0
            &&& f.tabs.len() > 1 ==> {
                &&& g.tabs.len() == f.tabs.len() - 1
                &&& forall|k: int| 0 <= k < i ==> g.tabs[k] == f.tabs[k]
                &&& forall|k: int| i <= k < g.tabs.len() ==> g.tabs[k] == f.tabs[k + 1]
                &&& g.active_tab == (if i <= g.tabs.len() - 1 {
                    i
                } else {
                    g.tabs.len() - 1
                })
                &&& i + 1 < f.tabs.len() ==> g.tabs[g.active_tab as int] == f.tabs[i + 1]
                &&& i + 1 == f.tabs.len() ==> g.tabs[g.active_tab as int] == f.tabs[i - 1]
            }
        }),
{
}

/// The active frame of an editor state, as the frame-by-id operations see
/// it.
pub open spec fn active_frame_view(t: NodeView, focus: Seq<usize>) -> Option<FrameView> {
    match spec_active_frame(t, focus) {
        Some(fid) => frame_of(t, fid),
        None => None,
    }
}

impl Editor {
    /// The focused frame is reachable by id: its path lookup succeeds.
    proof fn lemma_active_frame_found(&self)
        ensures
            spec_active_frame(self.panes@, self.focus@) matches Some(fid) ==> frame_of(
                self.panes@,
                fid,
            ) is Some,
    {
        if let Some(fid) = spec_active_frame(self.panes@, self.focus@) {
            self.panes.lemma_addressable();
            lemma_path_to_leaf_complete(self.panes@, self.focus@, LeafRef::Frame(fid));
            crate::editor::tree::laws::lemma_path_to_leaf_sound(self.panes@, LeafRef::Frame(fid));
        }
    }

    /// Open a fresh tab showing `cursor` on the active frame and make it
    /// active.
    pub fn new_tab(&mut self, cursor: CursorId)
        ensures
            final(self).cursors == old(self).cursors,
            final(self).next_frame == old(self).next_frame,
            final(self).focus@ == old(self).focus@,
            final(self).render_cache == old(self).render_cache,
            final(self).pulses@ == old(self).pulses@,
            final(self).panes@ == (match spec_active_frame(old(self).panes@, old(self).focus@) {
                Some(fid) => match frame_of(old(self).panes@, fid) {
                    Some(f) => with_frame(
                        old(self).panes@,
                        fid,
                        retabbed(f, f.tabs.push(cursor), f.tabs.len() as usize),
                    ),
                    None => old(self).panes@,
                },
                None => old(self).panes@,
            }),
    {
        let fid = match self.active_frame() {
            Some(f) => f,
            None => return ,
        };
        let frame = match self.panes.find_frame_mut(fid) {
            Some(f) => f,
            None => return ,
        };
        frame.tabs.push(cursor);
        let new_idx = frame.tabs.len() - 1;
        frame.set_active(new_idx);
    }

    /// Close the active tab of the active frame. Refused (returning
    /// `None`, nothing changed) when there is no active tab, or when its
    /// document is `dirty` and `force` is off. Closing the frame's last
    /// tab puts the scratch tab `scratch` in its place. Returns the
    /// cursor of the closed tab.
    pub fn close_active_tab(&mut self, force: bool, dirty: bool, scratch: CursorId) -> (r: Option<
        CursorId,
    >)
        ensures
            final(self).cursors == old(self).cursors,
            final(self).next_frame == old(self).next_frame,
            final(self).focus@ == old(self).focus@,
            final(self).render_cache == old(self).render_cache,
            final(self).pulses@ == old(self).pulses@,
            r == (match active_frame_view(old(self).panes@, old(self).focus@) {
                Some(f) => if f.active_tab < f.tabs.len() && (force || !dirty) {
                    Some(f.tabs[f.active_tab as int])
                } else {
                    None
                },
                None => None,
            }),
            r is None ==> final(self).panes@ == old(self).panes@,
            r is Some ==> final(self).panes@ == with_frame(
                old(self).panes@,
                spec_active_frame(old(self).panes@, old(self).focus@).unwrap(),
                tab_closed(active_frame_view(old(self).panes@, old(self).focus@).unwrap(), scratch),
            ),
    {
        proof {
            self.lemma_active_frame_found();
        }
        let fid = match self.active_frame() {
            Some(f) => f,
            None => return None,
        };
        proof {
            self.panes.lemma_addressable();
            lemma_find_frame_is_path_frame(self.panes@, fid);
        }
        let cid = match self.panes.find_frame(fid) {
            Some(frame) => match frame.active_cursor() {
                Some(c) => c,
                None => return None,
            },
            None => return None,
        };
        if !force && dirty {
            return None;
        }
        let frame = match self.panes.find_frame_mut(fid) {
            Some(f) => f,
            None => return None,
        };
        if frame.tabs.len() == 1 {
            frame.tabs.set(0, scratch);
            frame.set_active(0);
            proof {
                assert(frame.tabs@ =~= seq![scratch]);
            }
            return Some(cid);
        }
        let idx = frame.active_tab;
        frame.tabs.remove(idx);
        let last = frame.tabs.len() - 1;
        let next = if idx < last {
            idx
        } else {
            last
        };
        frame.set_active(next);
        Some(cid)
    }

    /// Put `cursor` in place of the active tab of the active frame: the
    /// tab keeps its position and stays active (opening a file over the
    /// current one). Returns the cursor it replaced; `None`, nothing
    /// changed, when focus isn't on a frame with an active tab.
    pub fn replace_active_tab(&mut self, cursor: CursorId) -> (r: Option<CursorId>)
        ensures
            final(self).cursors == old(self).cursors,
            final(self).next_frame == old(self).next_frame,
            final(self).focus@ == old(self).focus@,
            final(self).render_cache == old(self).render_cache,
            final(self).pulses@ == old(self).pulses@,
            r == (match active_frame_view(old(self).panes@, old(self).focus@) {
                Some(f) => if f.active_tab < f.tabs.len() {
                    Some(f.tabs[f.active_tab as int])
                } else {
                    None
                },
                None => None,
            }),
            r is None ==> final(self).panes@ == old(self).panes@,
            r is Some ==> ({
                let f = active_frame_view(old(self).panes@, old(self).focus@).unwrap();
                final(self).panes@ == with_frame(
                    old(self).panes@,
                    f.frame,
                    FrameView { tabs: f.tabs.update(f.active_tab as int, cursor), ..f },
                )
            }),
    {
        proof {
            self.lemma_active_frame_found();
        }
        let fid = match self.active_frame() {
            Some(f) => f,
            None => return None,
        };
        proof {
            self.panes.lemma_addressable();
            lemma_find_frame_is_path_frame(self.panes@, fid);
        }
        let old_cid = match self.panes.find_frame(fid) {
            Some(frame) => match frame.active_cursor() {
                Some(c) => c,
                None => return None,
            },
            None => return None,
        };
        let frame = match self.panes.find_frame_mut(fid) {
            Some(f) => f,
            None => return None,
        };
        let idx = frame.active_tab;
        frame.tabs.set(idx, cursor);
        Some(old_cid)
    }

    /// Activate the next tab of the active frame, wrapping around.
    pub fn next_tab(&mut self)
        requires
            active_frame_view(old(self).panes@, old(self).focus@) matches Some(f) ==> f.active_tab
                < usize::MAX,
        ensures
            final(self).cursors == old(self).cursors,
            final(self).next_frame == old(self).next_frame,
            final(self).focus@ == old(self).focus@,
            final(self).render_cache == old(self).render_cache,
            final(self).pulses@ == old(self).pulses@,
            final(self).panes@ == (match active_frame_view(old(self).panes@, old(self).focus@) {
                Some(f) => if f.tabs.len() > 0 {
                    with_frame(
                        old(self).panes@,
                        f.frame,
                        retabbed(f, f.tabs, next_index(f.active_tab as int, f.tabs.len() as int) as usize),
                    )
                } else {
                    old(self).panes@
                },
                None => old(self).panes@,
            }),
    {
        proof {
            self.lemma_active_frame_found();
        }
        let fid = match self.active_frame() {
            Some(f) => f,
            None => return ,
        };
        let frame = match self.panes.find_frame_mut(fid) {
            Some(f) => f,
            None => return ,
        };
        if frame.tabs.len() == 0 {
            proof {
                lemma_replaced_same(
                    old(self).panes@,
                    old(self).panes@.path_to_leaf(LeafRef::Frame(fid)).unwrap(),
                );
            }
            return ;
        }
        let next = (frame.active_tab + 1) % frame.tabs.len();
        frame.set_active(next);
    }

    /// Activate the previous tab of the active frame, wrapping around.
    pub fn prev_tab(&mut self)
        requires
            active_frame_view(old(self).panes@, old(self).focus@) matches Some(f) ==> f.active_tab
                + f.tabs.len() <= usize::MAX + 1,
        ensures
            final(self).cursors == old(self).cursors,
            final(self).next_frame == old(self).next_frame,
            final(self).focus@ == old(self).focus@,
            final(self).render_cache == old(self).render_cache,
            final(self).pulses@ == old(self).pulses@,
            final(self).panes@ == (match active_frame_view(old(self).panes@, old(self).focus@) {
                Some(f) => if f.tabs.len() > 0 {
                    with_frame(
                        old(self).panes@,
                        f.frame,
                        retabbed(
                            f,
                            f.tabs,
                            prev_index(f.active_tab as int, f.tabs.len() as int) as usize,
                        ),
                    )
                } else {
                    old(self).panes@
                },
                None => old(self).panes@,
            }),
    {
        proof {
            self.lemma_active_frame_found();
        }
        let fid = match self.active_frame() {
            Some(f) => f,
            None => return ,
        };
        let frame = match self.panes.find_frame_mut(fid) {
            Some(f) => f,
            None => return ,
        };
        if frame.tabs.len() == 0 {
            proof {
                lemma_replaced_same(
                    old(self).panes@,
                    old(self).panes@.path_to_leaf(LeafRef::Frame(fid)).unwrap(),
                );
            }
            return ;
        }
        let prev = (frame.active_tab + (frame.tabs.len() - 1)) % frame.tabs.len();
        frame.set_active(prev);
    }
}


/// The frame layout `split_active` puts in place of the focused frame:
/// the existing frame (re-asking for scroll-into-view) beside a new frame
/// showing `cursor`, with equal weights.
pub open spec fn split_of(axis: Axis, f: FrameView, frame: FrameId, cursor: CursorId) -> NodeView {
    NodeView::Split(
        axis,
        seq![
            (NodeView::Frame(retabbed(f, f.tabs, f.active_tab)), 1u16),
            (
                NodeView::Frame(
                    FrameView {
                        frame,
                        tabs: seq![cursor],
                        active_tab: 0,
                        tab_strip_scroll: (0u32, 0u32),
                        recenter_active: true,
                    },
                ),
                1u16,
            ),
        ],
    )
}

/// The index of the first child of `cs` that is the sidebar for `slot`.
pub open spec fn sidebar_index(cs: Seq<(NodeView, u16)>, slot: SidebarSlot) -> Option<int>
    decreases cs.len(),
{
    if cs.len() == 0 {
        None
    } else {
        match sidebar_index(cs.drop_last(), slot) {
            Some(i) => Some(i),
            None => if cs.last().0 matches NodeView::Sidebar(s, _) && s == slot {
                Some(cs.len() - 1)
            } else {
                None
            },
        }
    }
}

/// A focus path after the root child `i` was removed: a top index past
/// it moves down by one (index 0 stays).
pub open spec fn shift_down(p: Seq<usize>, i: int) -> Seq<usize> {
    if p.len() > 0 && p[0] >= i && p[0] > 0 {
        p.update(0, (p[0] - 1) as usize)
    } else {
        p
    }
}

/// A focus path after a root child was inserted at `at`: a top index at
/// or past it moves up by one.
pub open spec fn shift_up(p: Seq<usize>, at: int) -> Seq<usize> {
    if p.len() > 0 && p[0] >= at {
        p.update(0, (p[0] + 1) as usize)
    } else {
        p
    }
}

/// Tree, focus and announcement after toggling the sidebar `slot`: the
/// root is first lifted into a horizontal split if it isn't one (focus
/// gains a leading 0); then the root's sidebar child for `slot` is
/// removed if there is one, else an empty one (weight 20) is inserted,
/// first for the left slot and last for the right.
pub open spec fn toggle_result(t: NodeView, focus: Seq<usize>, slot: SidebarSlot) -> (
    NodeView,
    Seq<usize>,
    PulseView,
) {
    let lift = !(t matches NodeView::Split(a, _) && a == Axis::Horizontal);
    let t1 = if lift {
        t.lifted()
    } else {
        t
    };
    let f1 = if lift {
        seq![0usize] + focus
    } else {
        focus
    };
    match t1 {
        NodeView::Split(a, cs) => match sidebar_index(cs, slot) {
            Some(i) => (
                NodeView::Split(a, cs.remove(i)),
                shift_down(f1, i),
                PulseView::SidebarToggled(seq![i as usize], false),
            ),
            None => {
                let at: int = if slot == SidebarSlot::Left {
                    0
                } else {
                    cs.len() as int
                };
                (
                    NodeView::Split(a, cs.insert(at, (NodeView::Sidebar(slot, None), 20u16))),
                    shift_up(f1, at),
                    PulseView::SidebarToggled(seq![at as usize], true),
                )
            },
        },
        _ => (t1, f1, PulseView::SidebarToggled(Seq::empty(), false)),
    }
}

fn copy_ids(v: &Vec<CursorId>) -> (r: Vec<CursorId>)
    ensures
        r@ == v@,
{
    let mut r: Vec<CursorId> = Vec::new();
    let mut i: usize = 0;
    while i < v.len()
        invariant
            i <= v@.len(),
            r@ == v@.take(i as int),
        decreases v@.len() - i,
    {
        r.push(v[i]);
        proof {
            assert(v@.take(i + 1) =~= v@.take(i as int).push(v@[i as int]));
        }
        i = i + 1;
    }
    proof {
        assert(v@.take(i as int) =~= v@);
    }
    r
}

fn copy_path(v: &Vec<usize>) -> (r: Vec<usize>)
    ensures
        r@ == v@,
{
    let mut r: Vec<usize> = Vec::new();
    let mut i: usize = 0;
    while i < v.len()
        invariant
            i <= v@.len(),
            r@ == v@.take(i as int),
        decreases v@.len() - i,
    {
        r.push(v[i]);
        proof {
            assert(v@.take(i + 1) =~= v@.take(i as int).push(v@[i as int]));
        }
        i = i + 1;
    }
    proof {
        assert(v@.take(i as int) =~= v@);
    }
    r
}

fn prepend_zero(p: Vec<usize>) -> (r: Vec<usize>)
    ensures
        r@ == seq![0usize] + p@,
{
    let mut p = p;
    let ghost p0 = p@;
    p.insert(0, 0);
    proof {
        assert(p@ =~= seq![0usize] + p0);
    }
    p
}

fn shift_down_exec(p: Vec<usize>, i: usize) -> (r: Vec<usize>)
    ensures
        r@ == shift_down(p@, i as int),
{
    let mut p = p;
    if p.len() > 0 && p[0] >= i && p[0] > 0 {
        let v = p[0] - 1;
        p.set(0, v);
    }
    p
}

fn shift_up_exec(p: Vec<usize>, at: usize) -> (r: Vec<usize>)
    requires
        p@.len() > 0 ==> p@[0] < usize::MAX,
    ensures
        r@ == shift_up(p@, at as int),
{
    let mut p = p;
    if p.len() > 0 && p[0] >= at {
        let v = p[0] + 1;
        p.set(0, v);
    }
    p
}

impl Editor {
    /// Close the active frame if the tree holds two or more frames: drop
    /// its leaf, collapse single-child splits, announce `FrameClosed` for
    /// its path, and move focus to the first remaining frame. Returns the
    /// tabs (cursors) of the closed frame, or `None` when nothing closed.
    pub fn close_active_frame(&mut self) -> (r: Option<Vec<CursorId>>)
        ensures
            final(self).cursors == old(self).cursors,
            final(self).next_frame == old(self).next_frame,
            ({
                let t = old(self).panes@;
                let f = old(self).focus@;
                let closes = t.frames().len() > 1 && spec_active_frame(t, f) is Some && f.len() > 0;
                let t2 = t.removed(f).collapsed();
                let nf = match t2.first_frame() {
                    Some(q) => q,
                    None => Seq::empty(),
                };
                &&& r is Some == closes
                &&& closes ==> {
                    &&& r.unwrap()@ == (match t.find_frame(spec_active_frame(t, f).unwrap()) {
                        Some(fr) => fr.tabs,
                        None => Seq::empty(),
                    })
                    &&& final(self).panes@ == t2
                    &&& final(self).focus@ == nf
                    &&& pulses_view(final(self).pulses@) == pulses_view(old(self).pulses@) + seq![
                        PulseView::FrameClosed(f),
                    ] + focus_pulse(f, nf)
                }
                &&& !closes ==> {
                    &&& final(self).panes@ == t
                    &&& final(self).focus@ == f
                    &&& final(self).pulses@ == old(self).pulses@
                }
            }),
            final(self).render_cache == old(self).render_cache,
    {
        if self.panes.frames().len() <= 1 {
            return None;
        }
        let fid = match self.active_frame() {
            Some(f) => f,
            None => return None,
        };
        let path = self.focus.as_vec();
        if path.len() == 0 {
            return None;
        }
        let dying: Vec<CursorId> = match self.panes.find_frame(fid) {
            Some(f) => copy_ids(&f.tabs),
            None => Vec::new(),
        };
        let ok = self.panes.remove_at(path.as_slice());
        if !ok {
            return None;
        }
        self.panes.collapse_singletons();
        let ghost before = pulses_view(self.pulses@);
        self.pulses.push(EditorPulse::FrameClosed { frame: path });
        proof {
            assert(pulses_view(self.pulses@) =~= before + seq![PulseView::FrameClosed(old(self).focus@)]);
        }
        let nf = first_frame_path(self.panes.root());
        self.set_focus(nf);
        Some(dying)
    }

    /// Split the focused frame along `axis`: its leaf becomes a split of
    /// the existing frame and a new frame whose only tab is a new cursor,
    /// a copy of the active tab's cursor on the same document (anchored),
    /// then focus moves to the new frame. The new frame's id is minted
    /// above every frame id of the tree and every one minted before; the
    /// new cursor gets the next id of the cursor store. Announces
    /// `FrameSplit` and then `FocusChanged`. Nothing happens when focus
    /// isn't on a frame with an active tab, or when either id space is
    /// used up.
    pub fn split_active(&mut self, axis: Axis)
        requires
            old(self).active_cursor_stored(),
        ensures
            final(self).render_cache == old(self).render_cache,
            ({
                let t = old(self).panes@;
                let f = old(self).focus@;
                let table = old(self).cursors.cursors.table();
                let unchanged = {
                    &&& final(self).panes@ == t
                    &&& final(self).focus@ == f
                    &&& final(self).pulses@ == old(self).pulses@
                    &&& final(self).cursors == old(self).cursors
                    &&& final(self).next_frame == old(self).next_frame
                };
                match spec_active_frame(t, f) {
                    Some(fid) => match t.find_frame(fid) {
                        Some(fr) => if fr.active_tab < fr.tabs.len() && old(self).next_frame_number()
                            <= u64::MAX && old(self).cursors.cursors.next_id() < u64::MAX {
                            let nf = FrameId(old(self).next_frame_number() as u64);
                            let nc = CursorId(old(self).cursors.cursors.next_id());
                            let active = fr.tabs[fr.active_tab as int];
                            &&& t.find_frame(nf) is None
                            &&& index_of(table, nc.0) is None
                            &&& final(self).panes@ == t.replaced(f, split_of(axis, fr, nf, nc))
                            &&& final(self).focus@ == f.push(1)
                            &&& pulses_view(final(self).pulses@) == pulses_view(old(self).pulses@)
                                + seq![
                                PulseView::FrameSplit(f, f.push(1), axis),
                                PulseView::FocusChanged(f, f.push(1)),
                            ]
                            &&& final(self).cursors.cursors.next_id() == nc.0 + 1
                            &&& final(self).cursors.cursors.table().drop_last() == table
                            &&& final(self).cursors.cursors.table().last().0 == nc.0
                            &&& split_copy_of(
                                final(self).cursors.cursors.table().last().1,
                                table[index_of(table, active.0).unwrap()].1,
                            )
                            &&& final(self).next_frame == (if nf.0 < u64::MAX {
                                (nf.0 + 1) as u64
                            } else {
                                nf.0
                            })
                        } else {
                            unchanged
                        },
                        None => unchanged,
                    },
                    None => unchanged,
                }
            }),
    {
        let active_fid = match self.active_frame() {
            Some(f) => f,
            None => return ,
        };
        let focus_path = self.focus.as_vec();
        let (kept_tabs, kept_active_tab, kept_scroll, active_cid) = match self.panes.find_frame(
            active_fid,
        ) {
            Some(f) => match f.active_cursor() {
                Some(c) => (copy_ids(&f.tabs), f.active_tab, f.tab_strip_scroll, c),
                None => return ,
            },
            None => return ,
        };
        let m = max_frame_number(&self.panes.frames());
        if m == u64::MAX {
            return ;
        }
        let number: u64 = if self.next_frame >= m + 1 {
            self.next_frame
        } else {
            m + 1
        };
        if self.cursors.cursors.peek_next() == u64::MAX {
            return ;
        }
        let ghost table = self.cursors.cursors.table();
        let copy = match self.cursors.get(active_cid) {
            Some(c) => c.split_copy(),
            None => return ,
        };
        let cursor = self.cursors.insert(copy);
        let frame = FrameId(number);
        proof {
            lemma_found_frame_listed(old(self).panes@, frame);
            if old(self).panes@.find_frame(frame) is Some {
                let j = choose|j: int|
                    0 <= j < old(self).panes@.frames().len() && old(self).panes@.frames()[j] == frame;
                lemma_max_frame_bounds(old(self).panes@.frames(), j);
            }
            assert(self.cursors.cursors.table().drop_last() =~= table);
        }
        let kept = LayoutNode::Frame(
            LayoutFrame {
                frame: active_fid,
                tabs: kept_tabs,
                active_tab: kept_active_tab,
                tab_strip_scroll: kept_scroll,
                recenter_active: true,
            },
        );
        let fresh = LayoutNode::frame(frame, cursor);
        let mut children: Vec<(LayoutNode, u16)> = Vec::new();
        let ghost e = Seq::<(LayoutNode, u16)>::empty();
        proof {
            assert(children@ == e);
        }
        children.push((kept, 1));
        let ghost c1 = children@;
        children.push((fresh, 1));
        proof {
            lemma_children_view_push(e, (kept, 1u16));
            assert(e.push((kept, 1u16)) == c1);
            lemma_children_view_push(c1, (fresh, 1u16));
            assert(c1.push((fresh, 1u16)) == children@);
            assert(children_view(e) =~= Seq::<(NodeView, u16)>::empty());
            assert(children_view(children@) =~= seq![
                (kept@, 1u16),
                (fresh@, 1u16),
            ]);
        }
        let split = LayoutNode::Split(LayoutSplit { axis, children });
        proof {
            lemma_find_frame_id(old(self).panes@, active_fid);
            assert(split@ == NodeView::Split(axis, children_view(children@)));
        }
        let ok = self.panes.replace_at(focus_path.as_slice(), split);
        if !ok {
            return ;
        }
        let mut new_focus = copy_path(&focus_path);
        new_focus.push(1);
        let announced = copy_path(&new_focus);
        let ghost before = pulses_view(self.pulses@);
        self.pulses.push(EditorPulse::FrameSplit { source: focus_path, new: announced, axis });
        proof {
            assert(pulses_view(self.pulses@) =~= before + seq![
                PulseView::FrameSplit(old(self).focus@, old(self).focus@.push(1), axis),
            ]);
            assert(old(self).focus@ != old(self).focus@.push(1));
        }
        self.next_frame = if number < u64::MAX {
            number + 1
        } else {
            number
        };
        self.set_focus(new_focus);
        proof {
            assert(pulses_view(self.pulses@) =~= pulses_view(old(self).pulses@) + seq![
                PulseView::FrameSplit(old(self).focus@, old(self).focus@.push(1), axis),
                PulseView::FocusChanged(old(self).focus@, old(self).focus@.push(1)),
            ]);
        }
    }
}


impl Editor {
    /// Open the sidebar `slot` if the root split holds none for it, close
    /// it if it does, and announce `SidebarToggled` with its root index.
    /// A root that isn't a horizontal split is first lifted into one
    /// (the editor body becomes child 0). Focus follows the user's leaf
    /// across the index shifts without a `FocusChanged`; when the focused
    /// sidebar closes, focus lands on its left neighbour (or child 0).
    pub fn toggle_sidebar(&mut self, slot: SidebarSlot)
        requires
            old(self).focus@.len() > 0 ==> old(self).focus@[0] < usize::MAX,
        ensures
            final(self).cursors == old(self).cursors,
            final(self).next_frame == old(self).next_frame,
            ({
                let r = toggle_result(old(self).panes@, old(self).focus@, slot);
                &&& final(self).panes@ == r.0
                &&& final(self).focus@ == r.1
                &&& pulses_view(final(self).pulses@) == pulses_view(old(self).pulses@).push(r.2)
            }),
            final(self).render_cache == old(self).render_cache,
    {
        proof {
            self.focus.lemma_view_is_active();
        }
        if !self.panes.root_is_horizontal_split() {
            self.panes.lift_into_horizontal_split();
            self.focus.transform(prepend_zero);
            proof {
                self.focus.lemma_view_is_active();
            }
        }
        let ghost f1 = self.focus@;
        let ghost t1 = self.panes@;
        proof {
            assert(f1.len() > 0 ==> f1[0] < usize::MAX);
        }
        let split = match self.panes.root_split_mut() {
            Some(s) => s,
            None => {
                proof {
                    assert(false);
                }
                return ;
            },
        };
        let ghost cs = split.children@;
        let ghost cv = children_view(cs);
        proof {
            lemma_children_view(cs);
        }
        let n = split.children.len();
        let mut i: usize = 0;
        let mut found: bool = false;
        proof {
            assert(cv.take(0) =~= Seq::<(NodeView, u16)>::empty());
        }
        while i < n
            invariant_except_break
                !found,
            invariant
                n == cs.len(),
                split.children@ == cs,
                cv == children_view(cs),
                cv.len() == cs.len(),
                forall|j: int| 0 <= j < cs.len() ==> #[trigger] cv[j] == (node_view(cs[j].0), cs[j].1),
                i <= n,
                sidebar_index(cv.take(i as int), slot) is None,
            ensures
                !found ==> i == n && sidebar_index(cv.take(i as int), slot) is None,
                found ==> i < n && sidebar_index(cv, slot) == Some(i as int),
            decreases n - i,
        {
            let hit = match &split.children[i].0 {
                LayoutNode::Sidebar(sb) => sb.slot == slot,
                _ => false,
            };
            proof {
                assert(cv.take(i + 1).drop_last() =~= cv.take(i as int));
            }
            if hit {
                proof {
                    lemma_sidebar_index_prefix(cv, i + 1, slot);
                }
                found = true;
                break;
            }
            i = i + 1;
        }
        proof {
            if !found {
                assert(cv.take(i as int) =~= cv);
            }
        }
        let (idx, opened) = if found {
            split.children.remove(i);
            proof {
                lemma_children_view_remove(cs, i as int);
            }
            (i, false)
        } else {
            let at: usize = match slot {
                SidebarSlot::Left => 0,
                SidebarSlot::Right => n,
            };
            let leaf = LayoutNode::sidebar(slot);
            split.children.insert(at, (leaf, 20));
            proof {
                lemma_children_view_insert(cs, at as int, (leaf, 20u16));
            }
            (at, true)
        };
        if opened {
            let shift = move|p: Vec<usize>| -> (r: Vec<usize>)
                requires
                    p@.len() > 0 ==> p@[0] < usize::MAX,
                ensures
                    r@ == shift_up(p@, idx as int),
                { shift_up_exec(p, idx) };
            self.focus.transform(shift);
        } else {
            let shift = move|p: Vec<usize>| -> (r: Vec<usize>)
                ensures
                    r@ == shift_down(p@, idx as int),
                { shift_down_exec(p, idx) };
            self.focus.transform(shift);
        }
        proof {
            self.focus.lemma_view_is_active();
        }
        let mut at_path: Vec<usize> = Vec::new();
        at_path.push(idx);
        let ghost before = pulses_view(self.pulses@);
        self.pulses.push(EditorPulse::SidebarToggled { slot: at_path, open: opened });
        proof {
            assert(pulses_view(self.pulses@) =~= before.push(
                PulseView::SidebarToggled(seq![idx], opened),
            ));
        }
    }

    /// Install `content` as the content of the sidebar `slot`, opening the
    /// slot first (as `toggle_sidebar` does) when no sidebar for it is
    /// anywhere in the tree. Any previous content is replaced.
    pub fn install_sidebar_pane(&mut self, slot: SidebarSlot, content: u64)
        requires
            old(self).focus@.len() > 0 ==> old(self).focus@[0] < usize::MAX,
        ensures
            final(self).cursors == old(self).cursors,
            final(self).next_frame == old(self).next_frame,
            ({
                let t = old(self).panes@;
                let f = old(self).focus@;
                let present = t.sidebar_present(slot);
                let r = toggle_result(t, f, slot);
                let t1 = if present {
                    t
                } else {
                    r.0
                };
                &&& final(self).focus@ == (if present {
                    f
                } else {
                    r.1
                })
                &&& pulses_view(final(self).pulses@) == (if present {
                    pulses_view(old(self).pulses@)
                } else {
                    pulses_view(old(self).pulses@).push(r.2)
                })
                &&& final(self).panes@ == (match t1.path_to_leaf(LeafRef::Sidebar(slot)) {
                    Some(p) => t1.replaced(p, NodeView::Sidebar(slot, Some(content))),
                    None => t1,
                })
            }),
            final(self).render_cache == old(self).render_cache,
    {
        if !self.panes.sidebar_present(slot) {
            self.toggle_sidebar(slot);
        }
        match self.panes.find_sidebar_mut(slot) {
            Some(leaf) => {
                leaf.content = Some(content);
            },
            None => {},
        }
    }
}

/// Once a prefix of `cs` holds the sidebar, the whole list reports the
/// same (first) index.
proof fn lemma_sidebar_index_prefix(cs: Seq<(NodeView, u16)>, n: int, slot: SidebarSlot)
    requires
        0 < n <= cs.len(),
        sidebar_index(cs.take(n), slot) is Some,
    ensures
        sidebar_index(cs, slot) == sidebar_index(cs.take(n), slot),
    decreases cs.len() - n,
{
    if n < cs.len() {
        assert(cs.take(n + 1).drop_last() =~= cs.take(n));
        lemma_sidebar_index_prefix(cs, n + 1, slot);
    } else {
        assert(cs.take(n) =~= cs);
    }
}

} // verus!
