//! Hit-testing: screen cells to tab-strip elements and frames, plus
//! mouse-driven tab activation and tab-strip scrolling. All of it reads
//! the rects the last layout pass recorded in the render cache.

use vstd::prelude::*;

use crate::editor::editor::{
    Editor, RenderCache, TabHit, TabStripCache, TabStripHit, frame_of, lookup, on_screen,
    with_frame,
};
use crate::editor::ids::FrameId;
use crate::editor::tree::laws::lemma_replaced_same;
use crate::editor::tree::{FrameView, LeafRef};
use crate::geom::{Rect, rect_contains, spec_rect_contains};

verus! {

/// The index of the first hit (in strip order) whose rect contains the
/// cell.
pub open spec fn hit_in(hits: Seq<TabHit>, col: int, row: int) -> Option<usize>
    decreases hits.len(),
{
    if hits.len() == 0 {
        None
    } else if spec_rect_contains(hits[0].rect, col, row) {
        Some(hits[0].idx)
    } else {
        hit_in(hits.drop_first(), col, row)
    }
}

/// The first tab (in cache order) whose rect contains the cell.
pub open spec fn strip_hit(table: Seq<(FrameId, TabStripCache)>, col: int, row: int) -> Option<
    TabStripHit,
>
    decreases table.len(),
{
    if table.len() == 0 {
        None
    } else {
        match hit_in(table[0].1.hits@, col, row) {
            Some(i) => Some(TabStripHit::Tab { frame: table[0].0, idx: i }),
            None => strip_hit(table.drop_first(), col, row),
        }
    }
}

/// The first frame (in cache order) whose strip row contains the cell.
pub open spec fn strip_frame(table: Seq<(FrameId, TabStripCache)>, col: int, row: int) -> Option<
    FrameId,
>
    decreases table.len(),
{
    if table.len() == 0 {
        None
    } else if spec_rect_contains(table[0].1.strip_rect, col, row) {
        Some(table[0].0)
    } else {
        strip_frame(table.drop_first(), col, row)
    }
}

/// `v` clamped into `[lo, hi]`.
pub open spec fn clamp(v: int, lo: int, hi: int) -> int {
    if v < lo {
        lo
    } else if v > hi {
        hi
    } else {
        v
    }
}

/// A hit names the first tab (in strip order) whose rect holds the
/// cell; no hit means no tab rect holds it.
pub proof fn lemma_hit_in_first_containing(hits: Seq<TabHit>, col: int, row: int)
    ensures
        match hit_in(hits, col, row) {
            Some(idx) => exists|k: int|
                0 <= k < hits.len() && hits[k].idx == idx && spec_rect_contains(hits[k].rect, col, row)
                    && forall|j: int| 0 <= j < k ==> !spec_rect_contains(#[trigger] hits[j].rect, col, row),
            None => forall|k: int| 0 <= k < hits.len() ==> !spec_rect_contains(#[trigger] hits[k].rect, col, row),
        },
    decreases hits.len(),
{
    if hits.len() > 0 {
        let rest = hits.drop_first();
        lemma_hit_in_first_containing(rest, col, row);
        if !spec_rect_contains(hits[0].rect, col, row) {
            match hit_in(rest, col, row) {
                Some(idx) => {
                    let k = choose|k: int|
                        0 <= k < rest.len() && rest[k].idx == idx && spec_rect_contains(rest[k].rect, col, row)
                            && forall|j: int| 0 <= j < k ==> !spec_rect_contains(#[trigger] rest[j].rect, col, row);
                    assert(hits[k + 1] == rest[k]);
                    assert forall|j: int| 0 <= j < k + 1 implies !spec_rect_contains(#[trigger] hits[j].rect, col, row) by {
                        if j > 0 {
                            assert(hits[j] == rest[j - 1]);
                        }
                    }
                },
                None => {
                    assert forall|k: int| 0 <= k < hits.len() implies !spec_rect_contains(#[trigger] hits[k].rect, col, row) by {
                        if k > 0 {
                            assert(hits[k] == rest[k - 1]);
                        }
                    }
                },
            }
        }
    }
}

/// A clamp into a non-empty range lands in it, and leaves a value
/// already inside alone.
pub proof fn lemma_clamp_in_range(v: int, lo: int, hi: int)
    requires
        lo <= hi,
    ensures
        lo <= clamp(v, lo, hi) <= hi,
        lo <= v <= hi ==> clamp(v, lo, hi) == v,
        v < lo ==> clamp(v, lo, hi) == lo,
        v > hi ==> clamp(v, lo, hi) == hi,
{
}

fn first_hit(hits: &Vec<TabHit>, col: u16, row: u16) -> (r: Option<usize>)
    ensures
        r == hit_in(hits@, col as int, row as int),
{
    let mut i: usize = 0;
    proof {
        assert(hits@.skip(0) =~= hits@);
    }
    while i < hits.len()
        invariant
            i <= hits@.len(),
            hit_in(hits@, col as int, row as int) == hit_in(hits@.skip(i as int), col as int, row as int),
        decreases hits@.len() - i,
    {
        proof {
            assert(hits@.skip(i as int).drop_first() =~= hits@.skip(i + 1));
        }
        if rect_contains(hits[i].rect, col, row) {
            return Some(hits[i].idx);
        }
        i = i + 1;
    }
    None
}

impl Editor {
    /// The tab under `(col, row)`, if any (the first match in cache order).
    pub fn tab_strip_hit(&self, col: u16, row: u16) -> (r: Option<TabStripHit>)
        ensures
            r == strip_hit(self.render_cache.strip_table(), col as int, row as int),
    {
        let n = self.render_cache.tab_strip_count();
        let ghost table = self.render_cache.strip_table();
        let mut i: usize = 0;
        proof {
            assert(table.skip(0) =~= table);
        }
        while i < n
            invariant
                n == table.len(),
                table == self.render_cache.strip_table(),
                i <= n,
                strip_hit(table, col as int, row as int) == strip_hit(table.skip(i as int), col as int, row as int),
            decreases n - i,
        {
            let (fid, strip) = self.render_cache.tab_strip_at(i);
            proof {
                assert(table.skip(i as int).drop_first() =~= table.skip(i + 1));
                assert(table.skip(i as int)[0] == table[i as int]);
            }
            match first_hit(&strip.hits, col, row) {
                Some(idx) => {
                    return Some(TabStripHit::Tab { frame: fid, idx });
                },
                None => {},
            }
            i = i + 1;
        }
        None
    }

    /// Frame whose tab-strip row contains `(col, row)`, wherever in the
    /// row the point lands (empty space past the last tab included).
    pub fn frame_at_strip(&self, col: u16, row: u16) -> (r: Option<FrameId>)
        ensures
            r == strip_frame(self.render_cache.strip_table(), col as int, row as int),
    {
        let n = self.render_cache.tab_strip_count();
        let ghost table = self.render_cache.strip_table();
        let mut i: usize = 0;
        proof {
            assert(table.skip(0) =~= table);
        }
        while i < n
            invariant
                n == table.len(),
                table == self.render_cache.strip_table(),
                i <= n,
                strip_frame(table, col as int, row as int) == strip_frame(table.skip(i as int), col as int, row as int),
            decreases n - i,
        {
            let (fid, strip) = self.render_cache.tab_strip_at(i);
            proof {
                assert(table.skip(i as int).drop_first() =~= table.skip(i + 1));
                assert(table.skip(i as int)[0] == table[i as int]);
            }
            if rect_contains(strip.strip_rect, col, row) {
                return Some(fid);
            }
            i = i + 1;
        }
        None
    }

    /// Whether `frame`'s tab strip overflows its row, so scrolling it
    /// shows something new.
    pub fn tab_strip_can_scroll(&self, frame: FrameId) -> (b: bool)
        ensures
            b == (match lookup(self.render_cache.strip_table(), frame) {
                Some(s) => s.content_width > s.strip_rect.width,
                None => false,
            }),
    {
        match self.render_cache.tab_strip(frame) {
            Some(strip) => strip.content_width > strip.strip_rect.width as u32,
            None => false,
        }
    }

    /// Scroll `frame`'s tab strip horizontally by `delta` cells, clamped
    /// to `[0, content_width - strip width]`.
    pub fn scroll_tab_strip(&mut self, frame: FrameId, delta: isize)
        requires
            frame_of(old(self).panes@, frame) matches Some(f) ==> f.tab_strip_scroll.0 + delta
                <= i64::MAX,
        ensures
            final(self).cursors == old(self).cursors,
            final(self).next_frame == old(self).next_frame,
            final(self).focus@ == old(self).focus@,
            final(self).render_cache == old(self).render_cache,
            final(self).pulses@ == old(self).pulses@,
            final(self).panes@ == (match (
                lookup(old(self).render_cache.strip_table(), frame),
                frame_of(old(self).panes@, frame),
            ) {
                (Some(s), Some(f)) => with_frame(
                    old(self).panes@,
                    frame,
                    FrameView {
                        tab_strip_scroll: (
                            clamp(
                                f.tab_strip_scroll.0 + delta,
                                0,
                                if s.content_width >= s.strip_rect.width {
                                    s.content_width - s.strip_rect.width
                                } else {
                                    0
                                },
                            ) as u32,
                            f.tab_strip_scroll.1,
                        ),
                        ..f
                    },
                ),
                _ => old(self).panes@,
            }),
    {
        let max_x: i64 = match self.render_cache.tab_strip(frame) {
            Some(strip) => strip.content_width.saturating_sub(strip.strip_rect.width as u32) as i64,
            None => return ,
        };
        let f = match self.panes.find_frame_mut(frame) {
            Some(f) => f,
            None => return ,
        };
        let v = f.tab_strip_scroll.0 as i64 + delta as i64;
        let nx = if v < 0 {
            0
        } else if v > max_x {
            max_x
        } else {
            v
        };
        f.tab_strip_scroll.0 = nx as u32;
    }

    /// Activate tab `idx` of `frame` from a click (indices past the end
    /// pick the last tab). The tab-strip scroll stays where it is: the
    /// user clicked a tab they could see.
    pub fn activate_tab(&mut self, frame: FrameId, idx: usize)
        ensures
            final(self).cursors == old(self).cursors,
            final(self).next_frame == old(self).next_frame,
            final(self).focus@ == old(self).focus@,
            final(self).render_cache == old(self).render_cache,
            final(self).pulses@ == old(self).pulses@,
            final(self).panes@ == (match frame_of(old(self).panes@, frame) {
                Some(f) => if f.tabs.len() > 0 {
                    with_frame(
                        old(self).panes@,
                        frame,
                        FrameView {
                            active_tab: if idx < f.tabs.len() {
                                idx
                            } else {
                                (f.tabs.len() - 1) as usize
                            },
                            ..f
                        },
                    )
                } else {
                    old(self).panes@
                },
                None => old(self).panes@,
            }),
    {
        let f = match self.panes.find_frame_mut(frame) {
            Some(f) => f,
            None => return ,
        };
        if f.tabs.len() == 0 {
            proof {
                lemma_replaced_same(
                    old(self).panes@,
                    old(self).panes@.path_to_leaf(LeafRef::Frame(frame)).unwrap(),
                );
            }
            return ;
        }
        let last = f.tabs.len() - 1;
        let pick = if idx < last {
            idx
        } else {
            last
        };
        f.select_visible(pick);
    }
}

} // verus!
