//! Per-tab editing state: the document a tab shows, its selection, its
//! sticky column and its scroll offset.

use vstd::prelude::*;

use crate::editor::ids::DocId;

verus! {

/// What the next render pass does with a cursor's scroll offset.
///
/// * `Anchored` — scroll the least amount that keeps the caret visible
///   (the view follows the cursor); the mode for keyboard motion and
///   edits.
/// * `Free` — leave the scroll offset alone, so a wheel scroll past the
///   caret doesn't snap back on the next frame.
#[derive(Copy, Clone, Debug, PartialEq, Eq, Structural)]
pub enum ScrollMode {
    Anchored,
    Free,
}

/// One tab's editing state.
pub struct Cursor {
    /// The document the tab shows.
    pub doc: DocId,
    /// The selection's ranges as `(anchor, head)` character offsets.
    pub ranges: Vec<(usize, usize)>,
    /// Which of `ranges` is the primary one.
    pub primary: usize,
    /// Sticky column for vertical motion.
    pub target_col: Option<usize>,
    /// Scroll offset in cells: `.1` is the top visible line, `.0` the
    /// horizontal offset.
    pub scroll: (u32, u32),
    pub scroll_mode: ScrollMode,
}

/// `copy` is what splitting a frame makes of the cursor `c`: the same
/// document, selection, sticky column and scroll, anchored.
pub open spec fn split_copy_of(copy: Cursor, c: Cursor) -> bool {
    &&& copy.doc == c.doc
    &&& copy.ranges@ == c.ranges@
    &&& copy.primary == c.primary
    &&& copy.target_col == c.target_col
    &&& copy.scroll == c.scroll
    &&& copy.scroll_mode == ScrollMode::Anchored
}

/// `a` and `b` agree on everything but the scroll offset.
pub open spec fn same_but_scroll(a: Cursor, b: Cursor) -> bool {
    &&& a.doc == b.doc
    &&& a.ranges@ == b.ranges@
    &&& a.primary == b.primary
    &&& a.target_col == b.target_col
    &&& a.scroll_mode == b.scroll_mode
}

fn copy_ranges(v: &Vec<(usize, usize)>) -> (r: Vec<(usize, usize)>)
    ensures
        r@ == v@,
{
    let mut r: Vec<(usize, usize)> = Vec::new();
    let mut i: usize = 0;
    while i < v.len()
        invariant
            i <= v@.len(),
            r@ == v@.take(i as int),
        decreases v@.len() - i,
    {
        r.push(v[i]);
        proof {
            assert(v@.take(i + 1) =~= v@.take(i as int).push(v@[i as int]));
        }
        i = i + 1;
    }
    proof {
        assert(v@.take(i as int) =~= v@);
    }
    r
}

impl Cursor {
    /// A cursor at the start of `doc`, anchored, unscrolled.
    pub fn new(doc: DocId) -> (c: Self)
        ensures
            c.doc == doc,
            c.ranges@ == seq![(0usize, 0usize)],
            c.primary == 0,
            c.target_col is None,
            c.scroll == (0u32, 0u32),
            c.scroll_mode == ScrollMode::Anchored,
    {
        let mut ranges: Vec<(usize, usize)> = Vec::new();
        ranges.push((0, 0));
        proof {
            assert(ranges@ =~= seq![(0usize, 0usize)]);
        }
        Cursor { doc, ranges, primary: 0, target_col: None, scroll: (0, 0), scroll_mode: ScrollMode::Anchored }
    }

    /// The cursor a split gives the new frame (see `split_copy_of`).
    pub fn split_copy(&self) -> (c: Self)
        ensures
            split_copy_of(c, *self),
    {
        Cursor {
            doc: self.doc,
            ranges: copy_ranges(&self.ranges),
            primary: self.primary,
            target_col: self.target_col,
            scroll: self.scroll,
            scroll_mode: ScrollMode::Anchored,
        }
    }

    /// This cursor with the scroll offset `scroll`.
    pub fn with_scroll(&self, scroll: (u32, u32)) -> (c: Self)
        ensures
            same_but_scroll(c, *self),
            c.scroll == scroll,
    {
        Cursor {
            doc: self.doc,
            ranges: copy_ranges(&self.ranges),
            primary: self.primary,
            target_col: self.target_col,
            scroll,
            scroll_mode: self.scroll_mode,
        }
    }
}

} // verus!
