//! The layout pass: given every leaf of the layout tree with the rect
//! the split geometry gave it, record the rects and tab strips
//! hit-testing reads and settle each active cursor's scroll offset for
//! the body it is shown in.

use vstd::prelude::*;

use crate::editor::cursor::ScrollMode;
use crate::editor::cursor::{Cursor, same_but_scroll};
use crate::editor::editor::{Editor, TabHit, TabStripCache, lookup, on_screen};
use crate::editor::stores::index_of;
use crate::editor::ids::{CursorId, FrameId};
use crate::editor::tree::{LeafRef, NodeView};
use crate::geom::{Rect, SidebarSlot, sat_sub};
use crate::widgets::layout::{VRect, ensure_visible, max_scroll, min_int, set_scroll, sticky_axis};

verus! {

/// The top row of a frame leaf's rect: its tab strip.
pub open spec fn strip_area(r: Rect) -> Rect {
    Rect { x: r.x, y: r.y, width: r.width, height: 1 }
}

/// The rest of a frame leaf's rect: its document body.
pub open spec fn body_area(r: Rect) -> Rect {
    Rect { x: r.x, y: (r.y + 1) as u16, width: r.width, height: sat_sub(r.height as int, 1) as u16 }
}

/// The rect recorded for sidebar `slot`: that of its last leaf.
pub open spec fn leaves_sidebar_rect(leaves: Seq<(LeafRef, Rect)>, slot: SidebarSlot) -> Option<Rect>
    decreases leaves.len(),
{
    if leaves.len() == 0 {
        None
    } else if leaves.last().0 == LeafRef::Sidebar(slot) {
        Some(leaves.last().1)
    } else {
        leaves_sidebar_rect(leaves.drop_last(), slot)
    }
}

/// The rect of the last leaf of frame `fid`, when the tree holds that
/// frame.
pub open spec fn leaves_frame_rect(leaves: Seq<(LeafRef, Rect)>, fid: FrameId, tree: NodeView) -> Option<Rect>
    decreases leaves.len(),
{
    if leaves.len() == 0 || tree.find_frame(fid) is None {
        None
    } else if leaves.last().0 == LeafRef::Frame(fid) {
        Some(leaves.last().1)
    } else {
        leaves_frame_rect(leaves.drop_last(), fid, tree)
    }
}

/// The body rect recorded for frame `fid`: the body of its last leaf,
/// when the tree holds that frame.
pub open spec fn leaves_frame_body(leaves: Seq<(LeafRef, Rect)>, fid: FrameId, tree: NodeView) -> Option<Rect> {
    match leaves_frame_rect(leaves, fid, tree) {
        Some(r) => Some(body_area(r)),
        None => None,
    }
}

/// What a caller reports of a cursor's document for the scroll step: the
/// line the cursor's caret is on and the number of lines.
pub type CaretView = (usize, usize);

/// The scroll offset cursor `cid` has once the offsets `applied` were
/// stored in order over the offset `before` it had: the last one stored
/// for it, else `before`.
pub open spec fn scroll_now(applied: Seq<(CursorId, (u32, u32))>, cid: CursorId, before: (u32, u32)) -> (u32, u32)
    decreases applied.len(),
{
    if applied.len() == 0 {
        before
    } else if applied.last().0 == cid {
        applied.last().1
    } else {
        scroll_now(applied.drop_last(), cid, before)
    }
}

/// The tab strip `entry` recorded for frame `fid` is the one the pass
/// owes: none when the leaves show no frame `fid` of the tree; else the
/// top row of its last leaf, with the width and hits `strip_layout`
/// gave for that frame's active tab, strip scroll and row.
pub open spec fn strip_recorded<F: Fn(FrameId, usize, (u32, u32), Rect) -> (u32, Vec<TabHit>)>(
    entry: Option<TabStripCache>,
    leaves: Seq<(LeafRef, Rect)>,
    fid: FrameId,
    tree: NodeView,
    strip_layout: F,
) -> bool {
    match leaves_frame_rect(leaves, fid, tree) {
        None => entry is None,
        Some(r) => {
            let f = tree.find_frame(fid).unwrap();
            &&& entry is Some
            &&& entry.unwrap().strip_rect == strip_area(r)
            &&& strip_layout.ensures(
                (fid, f.active_tab, f.tab_strip_scroll, strip_area(r)),
                (entry.unwrap().content_width, entry.unwrap().hits),
            )
        },
    }
}

/// The active cursor of each frame leaf the tree holds, with the body
/// rect it is shown in, in leaf order.
pub open spec fn active_bodies(leaves: Seq<(LeafRef, Rect)>, tree: NodeView) -> Seq<(CursorId, Rect)>
    decreases leaves.len(),
{
    if leaves.len() == 0 {
        Seq::empty()
    } else {
        let prev = active_bodies(leaves.drop_last(), tree);
        match leaves.last().0 {
            LeafRef::Frame(fid) => match tree.find_frame(fid) {
                Some(f) => if f.active_tab < f.tabs.len() {
                    prev.push((f.tabs[f.active_tab as int], body_area(leaves.last().1)))
                } else {
                    prev
                },
                None => prev,
            },
            LeafRef::Sidebar(_) => prev,
        }
    }
}

/// The active bodies of a prefix of the leaves are a prefix of theirs.
pub proof fn lemma_active_bodies_prefix(leaves: Seq<(LeafRef, Rect)>, i: int, tree: NodeView)
    requires
        0 <= i <= leaves.len(),
    ensures
        active_bodies(leaves.take(i), tree).len() <= active_bodies(leaves, tree).len(),
        forall|j: int|
            0 <= j < active_bodies(leaves.take(i), tree).len() ==> #[trigger] active_bodies(leaves.take(i), tree)[j]
                == active_bodies(leaves, tree)[j],
    decreases leaves.len() - i,
{
    if i < leaves.len() {
        let a = leaves.take(i);
        let b = leaves.take(i + 1);
        assert(b.drop_last() =~= a);
        lemma_active_bodies_prefix(leaves, i + 1, tree);
        assert forall|j: int| 0 <= j < active_bodies(a, tree).len() implies #[trigger] active_bodies(a, tree)[j]
            == active_bodies(b, tree)[j] by {}
    } else {
        assert(leaves.take(i) =~= leaves);
    }
}

/// `entry` is the settled scroll offset of the cursor of `body`: the
/// offset `spec_body_scroll` gives for the cursor as the store `table`
/// held it, with the offsets `applied` before it stored over it, and for
/// what `caret` reported of its document.
pub open spec fn scroll_settled<G: Fn(CursorId) -> CaretView>(
    entry: (CursorId, (u32, u32)),
    body: (CursorId, Rect),
    table: Seq<(u64, Cursor)>,
    applied: Seq<(CursorId, (u32, u32))>,
    caret: G,
) -> bool {
    &&& entry.0 == body.0
    &&& exists|k: int, v: CaretView|
        #![trigger table[k], caret.ensures((body.0,), v)]
        0 <= k < table.len() && table[k].0 == body.0.0 && caret.ensures((body.0,), v) && (
            entry.1.0 as int,
            entry.1.1 as int,
        ) == spec_body_scroll(
            scroll_now(applied, body.0, table[k].1.scroll),
            table[k].1.scroll_mode,
            v.0,
            v.1,
            body.1,
        )
}

/// `after` is the store `before` with the offsets `applied` stored in
/// order: the same cursors under the same ids, each scrolled to
/// `scroll_now`.
pub open spec fn scrolls_stored(
    before: Seq<(u64, Cursor)>,
    after: Seq<(u64, Cursor)>,
    applied: Seq<(CursorId, (u32, u32))>,
) -> bool {
    &&& after.len() == before.len()
    &&& forall|k: int|
        0 <= k < before.len() ==> {
            &&& (#[trigger] after[k]).0 == before[k].0
            &&& same_but_scroll(after[k].1, before[k].1)
            &&& after[k].1.scroll == scroll_now(applied, CursorId(before[k].0), before[k].1.scroll)
        }
}

/// A leaf rect the pass can record: on screen, and with room for the
/// body below the strip row.
pub open spec fn leaf_rect_ok(r: Rect) -> bool {
    on_screen(r) && r.y < u16::MAX
}

impl Editor {
    /// Record the rects of one layout pass. `leaves` are the tree's
    /// leaves with their rects, in tree order. The render cache is
    /// reset; each sidebar's rect is recorded, and for each frame of the
    /// tree its body rect (all but the top row) and its tab strip: the
    /// top row, with the content width and tab hits `strip_layout`
    /// computes from the frame, its active tab, its strip scroll and
    /// that row. Each frame's active cursor then has its scroll offset
    /// settled for its body (`body_scroll`), from its offset and scroll
    /// mode in the cursor store and what `caret` reports of its document,
    /// and stored back on it; the new offsets are also returned, in leaf
    /// order.
    pub fn layout<F, G>(&mut self, leaves: &[(LeafRef, Rect)], strip_layout: F, caret: G) -> (scrolls: Vec<
        (CursorId, (u32, u32)),
    >) where
        F: Fn(FrameId, usize, (u32, u32), Rect) -> (u32, Vec<TabHit>),
        G: Fn(CursorId) -> CaretView,

        requires
            forall|i: int| 0 <= i < leaves@.len() ==> leaf_rect_ok(#[trigger] leaves@[i].1),
            forall|fid: FrameId, a: usize, s: (u32, u32), r: Rect| strip_layout.requires((fid, a, s, r)),
            forall|c: CursorId| caret.requires((c,)),
            forall|j: int|
                0 <= j < active_bodies(leaves@, old(self).panes@).len() ==> index_of(
                    old(self).cursors.cursors.table(),
                    (#[trigger] active_bodies(leaves@, old(self).panes@)[j]).0.0,
                ) is Some,
        ensures
            final(self).cursors.cursors.next_id() == old(self).cursors.cursors.next_id(),
            scrolls_stored(old(self).cursors.cursors.table(), final(self).cursors.cursors.table(), scrolls@),
            final(self).next_frame == old(self).next_frame,
            final(self).panes@ == old(self).panes@,
            final(self).focus@ == old(self).focus@,
            final(self).pulses@ == old(self).pulses@,
            forall|slot: SidebarSlot| #[trigger]
                lookup(final(self).render_cache.sidebar_table(), slot) == leaves_sidebar_rect(
                    leaves@,
                    slot,
                ),
            forall|fid: FrameId| #[trigger]
                lookup(final(self).render_cache.frame_table(), fid) == leaves_frame_body(
                    leaves@,
                    fid,
                    old(self).panes@,
                ),
            forall|fid: FrameId|
                strip_recorded(
                    #[trigger] lookup(final(self).render_cache.strip_table(), fid),
                    leaves@,
                    fid,
                    old(self).panes@,
                    strip_layout,
                ),
            scrolls@.len() == active_bodies(leaves@, old(self).panes@).len(),
            forall|j: int|
                0 <= j < scrolls@.len() ==> scroll_settled(
                    #[trigger] scrolls@[j],
                    active_bodies(leaves@, old(self).panes@)[j],
                    old(self).cursors.cursors.table(),
                    scrolls@.take(j),
                    caret,
                ),
    {
        self.render_cache.clear();
        let ghost tree = self.panes@;
        let ghost table0 = self.cursors.cursors.table();
        let mut scrolls: Vec<(CursorId, (u32, u32))> = Vec::new();
        let mut i: usize = 0;
        proof {
            assert(leaves@.take(0) =~= Seq::<(LeafRef, Rect)>::empty());
        }
        while i < leaves.len()
            invariant
                i <= leaves@.len(),
                tree == self.panes@,
                tree == old(self).panes@,
                self.focus@ == old(self).focus@,
                self.pulses@ == old(self).pulses@,
                table0 == old(self).cursors.cursors.table(),
                self.cursors.cursors.next_id() == old(self).cursors.cursors.next_id(),
                scrolls_stored(table0, self.cursors.cursors.table(), scrolls@),
                forall|j: int|
                    0 <= j < active_bodies(leaves@, tree).len() ==> index_of(
                        table0,
                        (#[trigger] active_bodies(leaves@, tree)[j]).0.0,
                    ) is Some,
                self.next_frame == old(self).next_frame,
                forall|j: int| 0 <= j < leaves@.len() ==> leaf_rect_ok(#[trigger] leaves@[j].1),
                forall|fid: FrameId, a: usize, s: (u32, u32), r: Rect| strip_layout.requires((fid, a, s, r)),
                forall|c: CursorId| caret.requires((c,)),
                forall|slot: SidebarSlot| #[trigger]
                    lookup(self.render_cache.sidebar_table(), slot) == leaves_sidebar_rect(
                        leaves@.take(i as int),
                        slot,
                    ),
                forall|fid: FrameId| #[trigger]
                    lookup(self.render_cache.frame_table(), fid) == leaves_frame_body(
                        leaves@.take(i as int),
                        fid,
                        tree,
                    ),
                forall|fid: FrameId|
                    strip_recorded(
                        #[trigger] lookup(self.render_cache.strip_table(), fid),
                        leaves@.take(i as int),
                        fid,
                        tree,
                        strip_layout,
                    ),
                scrolls@.len() == active_bodies(leaves@.take(i as int), tree).len(),
                forall|j: int|
                    0 <= j < scrolls@.len() ==> scroll_settled(
                        #[trigger] scrolls@[j],
                        active_bodies(leaves@.take(i as int), tree)[j],
                        table0,
                        scrolls@.take(j),
                        caret,
                    ),
            decreases leaves@.len() - i,
        {
            let ghost prefix = leaves@.take(i as int);
            let ghost next = leaves@.take(i + 1);
            proof {
                assert(next.drop_last() =~= prefix);
                assert(next.last() == leaves@[i as int]);
                assert(leaf_rect_ok(leaves@[i as int].1));
            }
            let (leaf, rect) = leaves[i];
            match leaf {
                LeafRef::Sidebar(slot) => {
                    self.render_cache.insert_sidebar_rect(slot, rect);
                    proof {
                        assert forall|fid: FrameId| #[trigger]
                            leaves_frame_rect(next, fid, tree) == leaves_frame_rect(prefix, fid, tree) by {}
                        assert(active_bodies(next, tree) == active_bodies(prefix, tree));
                    }
                },
                LeafRef::Frame(fid) => {
                    let found = match self.panes.find_frame(fid) {
                        Some(f) => Some((f.active_tab, f.tab_strip_scroll, f.active_cursor())),
                        None => None,
                    };
                    match found {
                        Some((active_tab, strip_scroll, active)) => {
                            let strip = Rect { x: rect.x, y: rect.y, width: rect.width, height: 1 };
                            let body = Rect {
                                x: rect.x,
                                y: rect.y + 1,
                                width: rect.width,
                                height: rect.height.saturating_sub(1),
                            };
                            let (content_width, hits) = strip_layout(fid, active_tab, strip_scroll, strip);
                            let ghost hits_made = hits;
                            self.render_cache.insert_tab_strip(
                                fid,
                                TabStripCache { strip_rect: strip, content_width, hits },
                            );
                            self.render_cache.insert_frame_rect(fid, body);
                            proof {
                                assert forall|k: FrameId| k != fid implies #[trigger]
                                    leaves_frame_rect(next, k, tree) == leaves_frame_rect(prefix, k, tree) by {}
                                assert(leaves_frame_rect(next, fid, tree) == Some(rect));
                                assert(strip_layout.ensures(
                                    (fid, active_tab, strip_scroll, strip),
                                    (content_width, hits_made),
                                ));
                            }
                            match active {
                                Some(cid) => {
                                    proof {
                                        assert(active_bodies(next, tree) == active_bodies(prefix, tree).push(
                                            (cid, body),
                                        ));
                                        lemma_active_bodies_prefix(leaves@, i + 1, tree);
                                        let n0 = active_bodies(prefix, tree).len() as int;
                                        assert(active_bodies(next, tree)[n0] == (cid, body));
                                        assert(active_bodies(next, tree).len() == n0 + 1);
                                        assert(active_bodies(next, tree)[n0] == active_bodies(leaves@, tree)[n0]);
                                        assert(active_bodies(leaves@, tree)[n0] == (cid, body));
                                        let k0 = index_of(table0, cid.0).unwrap();
                                        assert(self.cursors.cursors.table()[k0].0 == cid.0);
                                    }
                                    let (cur_line, line_count) = caret(cid);
                                    let ghost applied = scrolls@;
                                    let ghost cur = self.cursors.cursors.table();
                                    let c = match self.cursors.get(cid) {
                                        Some(c) => c,
                                        None => {
                                            proof {
                                                assert(false);
                                            }
                                            return scrolls;
                                        },
                                    };
                                    let ghost ci = index_of(cur, cid.0).unwrap();
                                    let settled = body_scroll(c.scroll, c.scroll_mode, cur_line, line_count, body);
                                    let moved = c.with_scroll(settled);
                                    self.cursors.replace(cid, moved);
                                    scrolls.push((cid, settled));
                                    proof {
                                        let v: CaretView = (cur_line, line_count);
                                        assert(caret.ensures((cid,), v));
                                        assert(cur[ci].0 == cid.0);
                                        assert(table0[ci].0 == cid.0);
                                        assert(scrolls@.take(applied.len() as int) =~= applied);
                                        assert(scrolls@.drop_last() =~= applied);
                                        let n = scrolls@.len() - 1;
                                        assert(scroll_settled(
                                            scrolls@[n],
                                            active_bodies(next, tree)[n],
                                            table0,
                                            scrolls@.take(n),
                                            caret,
                                        ));
                                        assert forall|j: int| 0 <= j < n implies #[trigger] scrolls@.take(j)
                                            == applied.take(j) by {
                                            assert(scrolls@.take(j) =~= applied.take(j));
                                        }
                                        let after = self.cursors.cursors.table();
                                        assert forall|k: int| 0 <= k < table0.len() implies {
                                            &&& (#[trigger] after[k]).0 == table0[k].0
                                            &&& same_but_scroll(after[k].1, table0[k].1)
                                            &&& after[k].1.scroll == scroll_now(
                                                scrolls@,
                                                CursorId(table0[k].0),
                                                table0[k].1.scroll,
                                            )
                                        } by {
                                            if cur[k].0 == cid.0 {
                                                if k < ci {
                                                    assert(cur[k].0 < cur[ci].0);
                                                } else if k > ci {
                                                    assert(cur[ci].0 < cur[k].0);
                                                }
                                            }
                                        }
                                    }
                                },
                                None => {
                                    proof {
                                        assert(active_bodies(next, tree) == active_bodies(prefix, tree));
                                    }
                                },
                            }
                        },
                        None => {
                            proof {
                                assert forall|k: FrameId| #[trigger]
                                    leaves_frame_rect(next, k, tree) == leaves_frame_rect(prefix, k, tree) by {}
                                assert(active_bodies(next, tree) == active_bodies(prefix, tree));
                            }
                        },
                    }
                },
            }
            i = i + 1;
        }
        proof {
            assert(leaves@.take(i as int) =~= leaves@);
        }
        scrolls
    }
}

/// Scroll offset a cursor is left with after the layout pass shows its
/// document (`line_count` lines, caret on `cur_line`) in `body`.
pub open spec fn spec_body_scroll(
    scroll: (u32, u32),
    mode: ScrollMode,
    cur_line: usize,
    line_count: usize,
    body: Rect,
) -> (int, int) {
    let w = body.width as u32;
    let h = body.height as u32;
    let lines = (if line_count >= 1 { line_count } else { 1 }) as u32;
    if h == 0 {
        (scroll.0 as int, scroll.1 as int)
    } else {
        match mode {
            ScrollMode::Anchored => {
                let target = VRect { x: 0, y: cur_line as u32, w, h: 1 };
                (
                    sticky_axis(scroll.0, 0, target.spec_end_x(), w, max_scroll(w, w)),
                    sticky_axis(scroll.1, target.y, target.spec_end_y(), h, max_scroll(lines, h)),
                )
            },
            ScrollMode::Free => (
                min_int(scroll.0 as int, max_scroll(w, w)),
                min_int(scroll.1 as int, max_scroll(lines, h)),
            ),
        }
    }
}

/// An anchored cursor whose caret is on a line of its document ends up
/// with that line in view: the settled top line is at or above the
/// caret's line, and the caret's line is above the body's bottom row.
/// Horizontally the view returns to the left edge.
pub proof fn lemma_anchored_caret_in_view(
    scroll: (u32, u32),
    cur_line: usize,
    line_count: usize,
    body: Rect,
)
    requires
        body.height >= 1,
        cur_line < line_count,
        line_count <= u32::MAX,
    ensures
        ({
            let r = spec_body_scroll(scroll, ScrollMode::Anchored, cur_line, line_count, body);
            &&& r.1 <= cur_line < r.1 + body.height
            &&& r.0 == 0
        }),
{
}

/// A free cursor keeps its offset when the content reaches that far;
/// otherwise it is pulled back to the last full page.
pub proof fn lemma_free_scroll_kept_or_clamped(
    scroll: (u32, u32),
    cur_line: usize,
    line_count: usize,
    body: Rect,
)
    requires
        body.height >= 1,
        1 <= line_count <= u32::MAX,
    ensures
        ({
            let r = spec_body_scroll(scroll, ScrollMode::Free, cur_line, line_count, body);
            &&& scroll.1 + body.height <= line_count ==> r.1 == scroll.1
            &&& scroll.1 + body.height > line_count ==> r.1 == (if line_count >= body.height {
                line_count - body.height
            } else {
                0
            })
        }),
{
}

/// Settle a cursor's scroll offset for its body: an anchored cursor
/// scrolls the least amount that keeps the caret's line in view; a free
/// one keeps its offset, clamped to the content. A body with no rows
/// leaves the offset alone.
pub fn body_scroll(scroll: (u32, u32), mode: ScrollMode, cur_line: usize, line_count: usize, body: Rect) -> (r: (
    u32,
    u32,
))
    ensures
        (r.0 as int, r.1 as int) == spec_body_scroll(scroll, mode, cur_line, line_count, body),
{
    let w = body.width as u32;
    let h = body.height as u32;
    if h == 0 {
        return scroll;
    }
    let lines = (if line_count >= 1 {
        line_count
    } else {
        1
    }) as u32;
    let content = (w, lines);
    let viewport = (w, h);
    let mut s = scroll;
    match mode {
        ScrollMode::Anchored => {
            let target = VRect { x: 0, y: cur_line as u32, w, h: 1 };
            ensure_visible(&mut s, target, content, viewport);
        },
        ScrollMode::Free => {
            let (sx, sy) = scroll;
            set_scroll(&mut s, sx, sy, content, viewport);
        },
    }
    s
}

} // verus!
