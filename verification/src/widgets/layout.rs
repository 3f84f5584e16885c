//! Layout and virtualization primitives for scrollable collections.
//!
//! Three orthogonal concerns:
//!
//! * **Layout** ([`CollectionLayout`]) — a pure mapping from item index
//!   to a rect in virtual content space ([`LinearLayout`] for a 1D flow
//!   of differently sized items, [`UniformLayout`] for huge
//!   constant-stride collections).
//! * **Projection** ([`project_to_screen`], [`CollectionPass`]) — given
//!   a layout, a scroll offset and a screen area, computes where each
//!   visible item lands on screen and how much of it is clipped.
//! * **Scroll math** ([`set_scroll`], [`scroll_by`], [`ensure_visible`])
//!   — free functions that move a raw `(u32, u32)` scroll offset against
//!   a `(content, viewport)` pair.
//!
//! Virtual coordinates are `u32`, so a layout can address far more
//! content than fits on screen; screen rects stay `u16`.

use vstd::prelude::*;

use crate::geom::{Axis, Rect};

verus! {

// -- Arithmetic helpers --------------------------------------------------

/// `a + b` clamped to `u32::MAX` (`u32::saturating_add`).
pub open spec fn sat_add32(a: int, b: int) -> int {
    if a + b > u32::MAX { u32::MAX as int } else { a + b }
}

/// `a - b` clamped at zero (unsigned `saturating_sub`).
pub open spec fn sat_sub32(a: int, b: int) -> int {
    if a >= b { a - b } else { 0 }
}

pub open spec fn min_int(a: int, b: int) -> int {
    if a <= b { a } else { b }
}

pub open spec fn max_int(a: int, b: int) -> int {
    if a >= b { a } else { b }
}

/// `v` clamped into `[lo, hi]` (requires `lo <= hi`, as `Ord::clamp`).
pub open spec fn clamp_int(v: int, lo: int, hi: int) -> int {
    if v < lo { lo } else if v > hi { hi } else { v }
}

// -- Geometry ------------------------------------------------------------

/// Rect in a layout's virtual content space (cells, top-left origin).
#[derive(Copy, Clone, Debug, Default, PartialEq, Eq, Structural)]
pub struct VRect {
    pub x: u32,
    pub y: u32,
    pub w: u32,
    pub h: u32,
}

impl VRect {
    /// Right edge (exclusive), saturating at `u32::MAX`.
    pub open spec fn spec_end_x(self) -> int {
        sat_add32(self.x as int, self.w as int)
    }

    /// Bottom edge (exclusive), saturating at `u32::MAX`.
    pub open spec fn spec_end_y(self) -> int {
        sat_add32(self.y as int, self.h as int)
    }

    /// The cell `(x, y)` lies inside the rect.
    pub open spec fn spec_contains(self, x: int, y: int) -> bool {
        x >= self.x && x < self.spec_end_x() && y >= self.y && y < self.spec_end_y()
    }

    /// The two rects overlap: each one starts before the other ends, on
    /// both axes. Rects that merely touch at an edge do not intersect.
    pub open spec fn spec_intersects(self, other: VRect) -> bool {
        &&& self.x < other.spec_end_x()
        &&& other.x < self.spec_end_x()
        &&& self.y < other.spec_end_y()
        &&& other.y < self.spec_end_y()
    }

    pub fn end_x(&self) -> (r: u32)
        ensures
            r == self.spec_end_x(),
    {
        self.x.saturating_add(self.w)
    }

    pub fn end_y(&self) -> (r: u32)
        ensures
            r == self.spec_end_y(),
    {
        self.y.saturating_add(self.h)
    }

    pub fn contains(&self, x: u32, y: u32) -> (b: bool)
        ensures
            b == self.spec_contains(x as int, y as int),
    {
        x >= self.x && x < self.end_x() && y >= self.y && y < self.end_y()
    }

    pub fn intersects(&self, other: VRect) -> (b: bool)
        ensures
            b == self.spec_intersects(other),
    {
        self.x < other.end_x() && other.x < self.end_x() && self.y < other.end_y() && other.y
            < self.end_y()
    }
}

/// Intersection is symmetric.
pub proof fn lemma_intersects_symmetric(a: VRect, b: VRect)
    ensures
        a.spec_intersects(b) == b.spec_intersects(a),
{
}

// -- Scroll math ---------------------------------------------------------

/// Largest scroll offset on one axis that keeps the viewport inside the
/// content: `content - viewport`, or zero when the content fits.
pub open spec fn max_scroll(content: u32, viewport: u32) -> int {
    sat_sub32(content as int, viewport as int)
}

/// Clamp a scroll offset so the viewport stays inside the content.
pub fn set_scroll(scroll: &mut (u32, u32), x: u32, y: u32, content: (u32, u32), viewport: (
    u32,
    u32,
))
    ensures
        final(scroll).0 == min_int(x as int, max_scroll(content.0, viewport.0)),
        final(scroll).1 == min_int(y as int, max_scroll(content.1, viewport.1)),
{
    let max_x = content.0.saturating_sub(viewport.0);
    let max_y = content.1.saturating_sub(viewport.1);
    scroll.0 = if x <= max_x { x } else { max_x };
    scroll.1 = if y <= max_y { y } else { max_y };
}

/// Move a scroll offset by signed deltas, clamped to `[0, content - viewport]`
/// on each axis.
pub fn scroll_by(scroll: &mut (u32, u32), dx: isize, dy: isize, content: (u32, u32), viewport: (
    u32,
    u32,
))
    requires
        i64::MIN <= old(scroll).0 + dx <= i64::MAX,
        i64::MIN <= old(scroll).1 + dy <= i64::MAX,
    ensures
        final(scroll).0 == clamp_int(
            old(scroll).0 + dx,
            0,
            max_scroll(content.0, viewport.0),
        ),
        final(scroll).1 == clamp_int(
            old(scroll).1 + dy,
            0,
            max_scroll(content.1, viewport.1),
        ),
{
    let max_x = content.0.saturating_sub(viewport.0) as i64;
    let max_y = content.1.saturating_sub(viewport.1) as i64;
    let sx = scroll.0 as i64 + dx as i64;
    let sy = scroll.1 as i64 + dy as i64;
    let nx: i64 = if sx < 0 {
        0
    } else if sx > max_x {
        max_x
    } else {
        sx
    };
    let ny: i64 = if sy < 0 {
        0
    } else if sy > max_y {
        max_y
    } else {
        sy
    };
    scroll.0 = nx as u32;
    scroll.1 = ny as u32;
}

/// The sticky-scroll rule on one axis: move the offset the least amount
/// that brings `[start, end)` inside `[offset, offset + len)` — back to
/// `start` when the target begins before the view, forward so the target
/// ends at the view's edge when it ends past it — then clamp to the
/// largest offset the content allows.
pub open spec fn sticky_axis(offset: u32, start: u32, end: int, len: u32, max: int) -> int {
    let moved = if start < offset {
        start as int
    } else if end > sat_add32(offset as int, len as int) {
        sat_sub32(end, len as int)
    } else {
        offset as int
    };
    min_int(moved, max)
}

/// Sticky scroll: bump the smallest amount needed to bring `target`
/// fully inside the viewport. No-op if it is already in view.
pub fn ensure_visible(scroll: &mut (u32, u32), target: VRect, content: (u32, u32), viewport: (
    u32,
    u32,
))
    ensures
        final(scroll).0 == sticky_axis(
            old(scroll).0,
            target.x,
            target.spec_end_x(),
            viewport.0,
            max_scroll(content.0, viewport.0),
        ),
        final(scroll).1 == sticky_axis(
            old(scroll).1,
            target.y,
            target.spec_end_y(),
            viewport.1,
            max_scroll(content.1, viewport.1),
        ),
{
    let mut sx = scroll.0;
    let mut sy = scroll.1;
    if target.x < sx {
        sx = target.x;
    } else if target.end_x() > sx.saturating_add(viewport.0) {
        sx = target.end_x().saturating_sub(viewport.0);
    }
    if target.y < sy {
        sy = target.y;
    } else if target.end_y() > sy.saturating_add(viewport.1) {
        sy = target.end_y().saturating_sub(viewport.1);
    }
    let max_x = content.0.saturating_sub(viewport.0);
    let max_y = content.1.saturating_sub(viewport.1);
    scroll.0 = if sx <= max_x { sx } else { max_x };
    scroll.1 = if sy <= max_y { sy } else { max_y };
}

/// Sticky scroll does not move an offset whose view already shows the
/// whole target, as long as that offset is itself a legal one.
pub proof fn lemma_sticky_noop_when_in_view(offset: u32, start: u32, end: int, len: u32, max: int)
    requires
        offset <= start,
        end <= sat_add32(offset as int, len as int),
        offset <= max,
    ensures
        sticky_axis(offset, start, end, len, max) == offset,
{
}

/// After a sticky scroll the target is fully visible, whenever it fits in
/// the viewport and the content allows scrolling that far.
pub proof fn lemma_sticky_shows_target(offset: u32, start: u32, end: int, len: u32, max: int)
    requires
        start <= end <= u32::MAX,
        end - start <= len,
        sat_sub32(end, len as int) <= max,
        start <= max,
    ensures
        ({
            let r = sticky_axis(offset, start, end, len, max);
            r <= start && end <= r + len
        }),
{
}

} // verus!

verus! {

// -- Layout --------------------------------------------------------------

/// `r` lists, in strictly increasing order, exactly the indices below `n`
/// that satisfy `keep`.
pub open spec fn selects(r: Seq<usize>, n: int, keep: spec_fn(int) -> bool) -> bool {
    &&& forall|a: int, b: int| 0 <= a < b < r.len() ==> r[a] < r[b]
    &&& forall|a: int| 0 <= a < r.len() ==> (r[a] < n && keep(r[a] as int))
    &&& forall|k: int|
        0 <= k < n && #[trigger] keep(k) ==> exists|a: int| 0 <= a < r.len() && r[a] == k
}

/// Extending a listing by one more candidate index `n`: it is appended
/// exactly when it is kept.
pub proof fn lemma_selects_step(r: Seq<usize>, n: int, keep: spec_fn(int) -> bool)
    requires
        selects(r, n, keep),
        0 <= n <= usize::MAX,
    ensures
        keep(n) ==> selects(r.push(n as usize), n + 1, keep),
        !keep(n) ==> selects(r, n + 1, keep),
{
    if keep(n) {
        let r2 = r.push(n as usize);
        assert forall|k: int| 0 <= k < n + 1 && #[trigger] keep(k) implies exists|a: int|
            0 <= a < r2.len() && r2[a] == k by {
            if k == n {
                assert(r2[r.len() as int] == k);
            } else {
                let a = choose|a: int| 0 <= a < r.len() && r[a] == k;
                assert(r2[a] == k);
            }
        }
    } else {
        assert forall|k: int| 0 <= k < n + 1 && #[trigger] keep(k) implies exists|a: int|
            0 <= a < r.len() && r[a] == k by {
            assert(k < n);
        }
    }
}

/// A listing under one predicate is a listing under any predicate that
/// agrees with it.
pub proof fn lemma_selects_ext(
    r: Seq<usize>,
    n: int,
    f: spec_fn(int) -> bool,
    g: spec_fn(int) -> bool,
)
    requires
        selects(r, n, f),
        forall|k: int| #[trigger] f(k) == g(k),
    ensures
        selects(r, n, g),
{
    assert forall|k: int| 0 <= k < n && #[trigger] g(k) implies exists|a: int|
        0 <= a < r.len() && r[a] == k by {
        assert(f(k));
    }
}

/// A listing extends over a range of candidates none of which is kept.
pub proof fn lemma_selects_jump(r: Seq<usize>, lo: int, hi: int, keep: spec_fn(int) -> bool)
    requires
        selects(r, lo, keep),
        lo <= hi,
        forall|k: int| lo <= k < hi ==> !#[trigger] keep(k),
    ensures
        selects(r, hi, keep),
{
    assert forall|k: int| 0 <= k < hi && #[trigger] keep(k) implies exists|a: int|
        0 <= a < r.len() && r[a] == k by {
        assert(k < lo);
    }
}

/// A kept candidate appears in the listing; returns its position.
pub proof fn lemma_selects_member(r: Seq<usize>, n: int, keep: spec_fn(int) -> bool, k: int) -> (a:
    int)
    requires
        selects(r, n, keep),
        0 <= k < n,
        keep(k),
    ensures
        0 <= a < r.len(),
        r[a] == k,
{
    choose|a: int| 0 <= a < r.len() && r[a] == k
}

/// Every listed index is a kept candidate, and the listing is sorted.
pub proof fn lemma_selects_elem(r: Seq<usize>, n: int, keep: spec_fn(int) -> bool, a: int)
    requires
        selects(r, n, keep),
        0 <= a < r.len(),
    ensures
        r[a] < n,
        keep(r[a] as int),
        forall|b: int| a < b < r.len() ==> r[a] < r[b],
        forall|b: int| 0 <= b < a ==> r[b] < r[a],
{
}

/// The ids of `r` in order, dropping the rects.
pub open spec fn ids_of(r: Seq<(usize, VRect)>) -> Seq<usize> {
    r.map_values(|e: (usize, VRect)| e.0)
}

/// Maps item indices to virtual rects. Implementations may override
/// [`Self::items_in`] / [`Self::decorations_in`] for cheap
/// virtualization when item counts are large.
pub trait CollectionLayout {
    /// What the layout needs of its own state for its methods to be
    /// meaningful (internal caches consistent, arithmetic in range).
    spec fn layout_inv(&self) -> bool;

    /// Total virtual content size (cells).
    spec fn spec_content_size(&self) -> (u32, u32);

    /// Total number of items.
    spec fn spec_item_count(&self) -> nat;

    /// Virtual rect of item `idx`, for `idx < spec_item_count()`.
    spec fn spec_rect_for(&self, idx: int) -> VRect;

    /// Number of decorations (separators, gutters). Decoration `k` has
    /// the layout-defined id `k`.
    spec fn spec_decoration_count(&self) -> nat;

    /// Virtual rect of decoration `k`.
    spec fn spec_decoration_rect(&self, k: int) -> VRect;

    /// Total virtual content size (cells).
    fn content_size(&self) -> (r: (u32, u32))
        requires
            self.layout_inv(),
        ensures
            r == self.spec_content_size(),
    ;

    /// Total number of items.
    fn item_count(&self) -> (n: usize)
        requires
            self.layout_inv(),
        ensures
            n == self.spec_item_count(),
    ;

    /// Virtual rect for a single item.
    fn rect_for(&self, idx: usize) -> (r: VRect)
        requires
            self.layout_inv(),
            idx < self.spec_item_count(),
        ensures
            r == self.spec_rect_for(idx as int),
    ;

    /// Items intersecting `viewport`, in index (z-) order. The default
    /// scans every item.
    fn items_in(&self, viewport: VRect) -> (r: Vec<usize>)
        requires
            self.layout_inv(),
        ensures
            selects(
                r@,
                self.spec_item_count() as int,
                |i: int| self.spec_rect_for(i).spec_intersects(viewport),
            ),
    {
        let n = self.item_count();
        let mut out: Vec<usize> = Vec::new();
        let mut i: usize = 0;
        while i < n
            invariant
                self.layout_inv(),
                n == self.spec_item_count(),
                i <= n,
                selects(out@, i as int, |k: int| self.spec_rect_for(k).spec_intersects(viewport)),
            decreases n - i,
        {
            let r = self.rect_for(i);
            proof {
                lemma_selects_step(
                    out@,
                    i as int,
                    |k: int| self.spec_rect_for(k).spec_intersects(viewport),
                );
            }
            if r.intersects(viewport) {
                out.push(i);
            }
            i = i + 1;
        }
        out
    }

    /// Decorations intersecting `viewport`, as `(id, rect)` pairs in id
    /// order.
    fn decorations_in(&self, viewport: VRect) -> (r: Vec<(usize, VRect)>)
        requires
            self.layout_inv(),
        ensures
            selects(
                ids_of(r@),
                self.spec_decoration_count() as int,
                |k: int| self.spec_decoration_rect(k).spec_intersects(viewport),
            ),
            forall|a: int| 0 <= a < r@.len() ==> r@[a].1 == self.spec_decoration_rect(r@[a].0 as int),
    ;
}

/// Start of item `i` along the axis in a [`LinearLayout`]: the sizes of
/// the items before it plus one gap after each, accumulated with
/// saturation at `u32::MAX`. `offset_at(n)` is the total extent, which
/// has no gap after the last item.
pub open spec fn offset_at(sizes: Seq<u32>, spacing: u32, i: int) -> int
    decreases i,
{
    if i <= 0 || i > sizes.len() {
        0
    } else {
        let a = sat_add32(offset_at(sizes, spacing, i - 1), sizes[i - 1] as int);
        if i < sizes.len() {
            sat_add32(a, spacing as int)
        } else {
            a
        }
    }
}

/// Offsets are valid `u32` values.
pub proof fn lemma_offset_in_range(sizes: Seq<u32>, spacing: u32, i: int)
    ensures
        0 <= offset_at(sizes, spacing, i) <= u32::MAX,
    decreases i,
{
    if i > 0 && i <= sizes.len() {
        lemma_offset_in_range(sizes, spacing, i - 1);
    }
}

/// Offsets never decrease along the layout.
pub proof fn lemma_offset_monotone(sizes: Seq<u32>, spacing: u32, i: int, j: int)
    requires
        0 <= i <= j <= sizes.len(),
    ensures
        offset_at(sizes, spacing, i) <= offset_at(sizes, spacing, j),
    decreases j - i,
{
    if i < j {
        lemma_offset_monotone(sizes, spacing, i, j - 1);
        lemma_offset_in_range(sizes, spacing, j - 1);
    }
}

/// Sum of the first `i` sizes.
pub open spec fn size_sum(sizes: Seq<u32>, i: int) -> int
    decreases i,
{
    if i <= 0 || i > sizes.len() {
        0
    } else {
        size_sum(sizes, i - 1) + sizes[i - 1]
    }
}

proof fn lemma_size_sum_nonneg(sizes: Seq<u32>, i: int)
    ensures
        size_sum(sizes, i) >= 0,
    decreases i,
{
    if i > 0 && i <= sizes.len() {
        lemma_size_sum_nonneg(sizes, i - 1);
    }
}

proof fn lemma_size_sum_monotone(sizes: Seq<u32>, i: int, j: int)
    requires
        0 <= i <= j <= sizes.len(),
    ensures
        0 <= size_sum(sizes, i) <= size_sum(sizes, j),
    decreases j - i,
{
    lemma_size_sum_nonneg(sizes, i);
    if i < j {
        lemma_size_sum_monotone(sizes, i, j - 1);
    }
}

/// When the whole extent fits in `u32`, the offsets are plain prefix
/// sums: item `i` starts at `sum(sizes[..i]) + spacing * i`, and the total
/// extent is `sum(sizes) + spacing * (n - 1)`.
pub proof fn lemma_offsets_are_prefix_sums(sizes: Seq<u32>, spacing: u32, i: int)
    requires
        sizes.len() > 0,
        size_sum(sizes, sizes.len() as int) + spacing * (sizes.len() - 1) <= u32::MAX,
        0 <= i <= sizes.len(),
    ensures
        i < sizes.len() ==> offset_at(sizes, spacing, i) == size_sum(sizes, i) + spacing * i,
        i == sizes.len() ==> offset_at(sizes, spacing, i) == size_sum(sizes, i) + spacing * (i
            - 1),
    decreases i,
{
    let n = sizes.len() as int;
    if i > 0 {
        lemma_offsets_are_prefix_sums(sizes, spacing, i - 1);
        lemma_size_sum_monotone(sizes, i, n);
        assert(spacing * (i - 1) + spacing == spacing * i) by (nonlinear_arith);
        if i < n {
            assert(spacing * i <= spacing * (n - 1)) by (nonlinear_arith)
                requires
                    i <= n - 1,
                    spacing >= 0,
            ;
        } else {
            assert(spacing * (i - 1) <= spacing * (n - 1)) by (nonlinear_arith)
                requires
                    i - 1 <= n - 1,
                    spacing >= 0,
            ;
        }
        assert(spacing * (i - 1) >= 0) by (nonlinear_arith)
            requires
                i >= 1,
                spacing >= 0,
        ;
    } else {
        assert(spacing * i == 0) by (nonlinear_arith)
            requires
                i == 0,
        ;
    }
}

/// Build the prefix-offset cache: `out[i]` is where item `i` starts and
/// `out[n]` is the total extent (see [`offset_at`]).
fn compute_offsets(sizes: &[u32], spacing: u32) -> (out: Vec<u32>)
    ensures
        out@.len() == sizes@.len() + 1,
        forall|k: int| 0 <= k <= sizes@.len() ==> out@[k] == offset_at(sizes@, spacing, k),
{
    let n = sizes.len();
    let mut out: Vec<u32> = Vec::new();
    let mut acc: u32 = 0;
    out.push(0);
    let mut i: usize = 0;
    while i < n
        invariant
            n == sizes@.len(),
            i <= n,
            out@.len() == i + 1,
            acc == offset_at(sizes@, spacing, i as int),
            forall|k: int| 0 <= k <= i ==> out@[k] == offset_at(sizes@, spacing, k),
        decreases n - i,
    {
        acc = acc.saturating_add(sizes[i]);
        if i + 1 < n {
            acc = acc.saturating_add(spacing);
        }
        out.push(acc);
        i = i + 1;
    }
    out
}

/// 1D flow layout — items along an axis with optional spacing between
/// them. Spacing is reported as decorations (id = index of the item
/// *before* the gap), so renderers can paint separators inside it.
/// `rect_for` is O(1) through a precomputed prefix-offset cache.
pub struct LinearLayout {
    pub axis: Axis,
    sizes: Vec<u32>,
    pub cross: u32,
    spacing: u32,
    offsets: Vec<u32>,
}

impl LinearLayout {
    /// The offset cache matches the item sizes and the spacing.
    pub closed spec fn wf(&self) -> bool {
        &&& self.offsets@.len() == self.sizes@.len() + 1
        &&& forall|k: int|
            0 <= k <= self.sizes@.len() ==> self.offsets@[k] == offset_at(
                self.sizes@,
                self.spacing,
                k,
            )
    }

    pub closed spec fn spec_sizes(&self) -> Seq<u32> {
        self.sizes@
    }

    pub closed spec fn spec_spacing(&self) -> u32 {
        self.spacing
    }

    pub closed spec fn spec_axis(&self) -> Axis {
        self.axis
    }

    pub closed spec fn spec_cross(&self) -> u32 {
        self.cross
    }

    pub fn horizontal(sizes: Vec<u32>, cross: u32) -> (l: Self)
        ensures
            l.wf(),
            l.spec_axis() == Axis::Horizontal,
            l.spec_sizes() == sizes@,
            l.spec_cross() == cross,
            l.spec_spacing() == 0,
    {
        Self::new(Axis::Horizontal, sizes, cross, 0)
    }

    pub fn vertical(sizes: Vec<u32>, cross: u32) -> (l: Self)
        ensures
            l.wf(),
            l.spec_axis() == Axis::Vertical,
            l.spec_sizes() == sizes@,
            l.spec_cross() == cross,
            l.spec_spacing() == 0,
    {
        Self::new(Axis::Vertical, sizes, cross, 0)
    }

    /// The same layout with `spacing` cells between consecutive items.
    pub fn with_spacing(self, spacing: u32) -> (l: Self)
        ensures
            l.wf(),
            l.spec_axis() == self.spec_axis(),
            l.spec_sizes() == self.spec_sizes(),
            l.spec_cross() == self.spec_cross(),
            l.spec_spacing() == spacing,
    {
        Self::new(self.axis, self.sizes, self.cross, spacing)
    }

    fn new(axis: Axis, sizes: Vec<u32>, cross: u32, spacing: u32) -> (l: Self)
        ensures
            l.wf(),
            l.spec_axis() == axis,
            l.spec_sizes() == sizes@,
            l.spec_cross() == cross,
            l.spec_spacing() == spacing,
    {
        let offsets = compute_offsets(sizes.as_slice(), spacing);
        Self { axis, sizes, cross, spacing, offsets }
    }

    pub fn sizes(&self) -> (s: &[u32])
        ensures
            s@ == self.spec_sizes(),
    {
        self.sizes.as_slice()
    }

    pub fn spacing(&self) -> (s: u32)
        ensures
            s == self.spec_spacing(),
    {
        self.spacing
    }

    fn axis_offset(&self, idx: usize) -> (off: u32)
        requires
            self.wf(),
            idx <= self.spec_sizes().len(),
        ensures
            off == offset_at(self.spec_sizes(), self.spec_spacing(), idx as int),
    {
        self.offsets[idx]
    }

    /// Start of decoration (gap) `k`: right after item `k`.
    pub closed spec fn gap_start(&self, k: int) -> int {
        sat_add32(offset_at(self.sizes@, self.spacing, k), self.sizes@[k] as int)
    }
}

impl CollectionLayout for LinearLayout {
    open spec fn layout_inv(&self) -> bool {
        self.wf()
    }

    open spec fn spec_content_size(&self) -> (u32, u32) {
        if self.spec_sizes().len() == 0 {
            (0, 0)
        } else {
            let total = offset_at(
                self.spec_sizes(),
                self.spec_spacing(),
                self.spec_sizes().len() as int,
            ) as u32;
            match self.spec_axis() {
                Axis::Horizontal => (total, self.spec_cross()),
                Axis::Vertical => (self.spec_cross(), total),
            }
        }
    }

    open spec fn spec_item_count(&self) -> nat {
        self.spec_sizes().len()
    }

    open spec fn spec_rect_for(&self, idx: int) -> VRect {
        let off = offset_at(self.spec_sizes(), self.spec_spacing(), idx) as u32;
        let size = self.spec_sizes()[idx];
        match self.spec_axis() {
            Axis::Horizontal => VRect { x: off, y: 0, w: size, h: self.spec_cross() },
            Axis::Vertical => VRect { x: 0, y: off, w: self.spec_cross(), h: size },
        }
    }

    open spec fn spec_decoration_count(&self) -> nat {
        if self.spec_spacing() == 0 || self.spec_sizes().len() < 2 {
            0
        } else {
            (self.spec_sizes().len() - 1) as nat
        }
    }

    open spec fn spec_decoration_rect(&self, k: int) -> VRect {
        let off = self.gap_start(k) as u32;
        match self.spec_axis() {
            Axis::Horizontal => VRect { x: off, y: 0, w: self.spec_spacing(), h: self.spec_cross() },
            Axis::Vertical => VRect { x: 0, y: off, w: self.spec_cross(), h: self.spec_spacing() },
        }
    }

    fn content_size(&self) -> (r: (u32, u32)) {
        if self.sizes.len() == 0 {
            return (0, 0);
        }
        let total = self.offsets[self.sizes.len()];
        match self.axis {
            Axis::Horizontal => (total, self.cross),
            Axis::Vertical => (self.cross, total),
        }
    }

    fn item_count(&self) -> (n: usize) {
        self.sizes.len()
    }

    fn rect_for(&self, idx: usize) -> (r: VRect) {
        let off = self.axis_offset(idx);
        let size = self.sizes[idx];
        match self.axis {
            Axis::Horizontal => VRect { x: off, y: 0, w: size, h: self.cross },
            Axis::Vertical => VRect { x: 0, y: off, w: self.cross, h: size },
        }
    }

    /// Walks items in order and stops at the first item whose successor
    /// starts at or past the viewport's far edge, so only O(visible)
    /// items past the viewport start are examined.
    fn items_in(&self, viewport: VRect) -> (r: Vec<usize>) {
        let viewport_end = match self.axis {
            Axis::Horizontal => viewport.end_x(),
            Axis::Vertical => viewport.end_y(),
        };
        let n = self.sizes.len();
        let mut out: Vec<usize> = Vec::new();
        let mut i: usize = 0;
        let mut stop = false;
        while i < n && !stop
            invariant
                self.wf(),
                n == self.spec_sizes().len(),
                i <= n,
                viewport_end == (match self.spec_axis() {
                    Axis::Horizontal => viewport.spec_end_x(),
                    Axis::Vertical => viewport.spec_end_y(),
                }),
                selects(out@, i as int, |k: int| self.spec_rect_for(k).spec_intersects(viewport)),
                stop ==> i >= 1 && offset_at(self.spec_sizes(), self.spec_spacing(), i as int)
                    >= viewport_end,
            decreases n - i,
        {
            let rect = self.rect_for(i);
            proof {
                lemma_selects_step(
                    out@,
                    i as int,
                    |k: int| self.spec_rect_for(k).spec_intersects(viewport),
                );
            }
            if rect.intersects(viewport) {
                out.push(i);
            }
            if self.offsets[i + 1] >= viewport_end {
                stop = true;
            }
            i = i + 1;
        }
        proof {
            if stop {
                assert forall|k: int|
                    i <= k < n implies !self.spec_rect_for(k).spec_intersects(viewport) by {
                    lemma_offset_monotone(self.spec_sizes(), self.spec_spacing(), i as int, k);
                    lemma_offset_in_range(self.spec_sizes(), self.spec_spacing(), k);
                }
                let keep = |k: int| self.spec_rect_for(k).spec_intersects(viewport);
                assert forall|k: int| 0 <= k < n && #[trigger] keep(k) implies exists|a: int|
                    0 <= a < out@.len() && out@[a] == k by {
                    assert(k < i);
                }
            }
        }
        out
    }

    fn decorations_in(&self, viewport: VRect) -> (r: Vec<(usize, VRect)>) {
        let n = self.sizes.len();
        if self.spacing == 0 || n < 2 {
            let out: Vec<(usize, VRect)> = Vec::new();
            assert(ids_of(out@) =~= Seq::<usize>::empty());
            return out;
        }
        let mut out: Vec<(usize, VRect)> = Vec::new();
        let mut i: usize = 0;
        while i < n - 1
            invariant
                self.wf(),
                n == self.spec_sizes().len(),
                n >= 2,
                self.spec_spacing() != 0,
                i <= n - 1,
                selects(
                    ids_of(out@),
                    i as int,
                    |k: int| self.spec_decoration_rect(k).spec_intersects(viewport),
                ),
                forall|a: int|
                    0 <= a < out@.len() ==> out@[a].1 == self.spec_decoration_rect(
                        out@[a].0 as int,
                    ),
            decreases n - 1 - i,
        {
            let off = self.offsets[i].saturating_add(self.sizes[i]);
            let rect = match self.axis {
                Axis::Horizontal => VRect { x: off, y: 0, w: self.spacing, h: self.cross },
                Axis::Vertical => VRect { x: 0, y: off, w: self.cross, h: self.spacing },
            };
            let ghost before = out@;
            proof {
                lemma_selects_step(
                    ids_of(out@),
                    i as int,
                    |k: int| self.spec_decoration_rect(k).spec_intersects(viewport),
                );
            }
            if rect.intersects(viewport) {
                out.push((i, rect));
                assert(ids_of(out@) =~= ids_of(before).push(i));
            }
            i = i + 1;
        }
        out
    }
}

} // verus!

verus! {

/// Items at or past `(hi - 1) / stride + 1` start at or after `hi`.
proof fn lemma_past_last_starts_late(k: int, s: int, hi: int)
    requires
        s > 0,
        hi >= 1,
        k > (hi - 1) / s,
    ensures
        k * s >= hi,
{
    let q = (hi - 1) / s;
    vstd::arithmetic::div_mod::lemma_fundamental_div_mod(hi - 1, s);
    vstd::arithmetic::div_mod::lemma_mod_bound(hi - 1, s);
    assert(k * s >= (q + 1) * s) by (nonlinear_arith)
        requires
            k >= q + 1,
            s > 0,
    ;
    assert((q + 1) * s == s * q + s) by (nonlinear_arith);
}

/// Items before `ceil(n / stride)` start before `n`.
proof fn lemma_before_first_starts_early(k: int, s: int, n: int)
    requires
        s > 0,
        n >= 1,
        0 <= k < (n + s - 1) / s,
    ensures
        k * s < n,
{
    let q = (n + s - 1) / s;
    vstd::arithmetic::div_mod::lemma_fundamental_div_mod(n + s - 1, s);
    vstd::arithmetic::div_mod::lemma_mod_bound(n + s - 1, s);
    assert(k * s <= (q - 1) * s) by (nonlinear_arith)
        requires
            k <= q - 1,
            s > 0,
    ;
    assert((q - 1) * s == s * q - s) by (nonlinear_arith);
}

/// Constant-stride 1D layout — every item has the same size along the
/// major axis. Designed for huge collections (editor lines, log
/// entries): `rect_for` is O(1) and `items_in` walks only the window of
/// candidate items the viewport can reach.
pub struct UniformLayout {
    pub axis: Axis,
    pub count: usize,
    pub item_size: u32,
    pub cross: u32,
    pub spacing: u32,
}

impl UniformLayout {
    /// Distance between the starts of consecutive items.
    pub open spec fn spec_stride(&self) -> int {
        self.item_size + self.spacing
    }

    pub fn horizontal(count: usize, item_size: u32, cross: u32) -> (l: Self)
        ensures
            l == (UniformLayout { axis: Axis::Horizontal, count, item_size, cross, spacing: 0 }),
    {
        Self { axis: Axis::Horizontal, count, item_size, cross, spacing: 0 }
    }

    pub fn vertical(count: usize, item_size: u32, cross: u32) -> (l: Self)
        ensures
            l == (UniformLayout { axis: Axis::Vertical, count, item_size, cross, spacing: 0 }),
    {
        Self { axis: Axis::Vertical, count, item_size, cross, spacing: 0 }
    }

    pub fn with_spacing(self, spacing: u32) -> (l: Self)
        ensures
            l == (UniformLayout { spacing, ..self }),
    {
        let mut s = self;
        s.spacing = spacing;
        s
    }

    fn stride(&self) -> (s: u64)
        ensures
            s == self.spec_stride(),
    {
        self.item_size as u64 + self.spacing as u64
    }
}

impl CollectionLayout for UniformLayout {
    /// Every item's start offset (`index * stride`) is computable in `u64`.
    open spec fn layout_inv(&self) -> bool {
        self.count * self.spec_stride() <= u64::MAX
    }

    open spec fn spec_content_size(&self) -> (u32, u32) {
        if self.count == 0 {
            (0, 0)
        } else {
            let total = min_int(
                self.item_size * self.count + self.spacing * (self.count - 1),
                u32::MAX as int,
            ) as u32;
            match self.axis {
                Axis::Horizontal => (total, self.cross),
                Axis::Vertical => (self.cross, total),
            }
        }
    }

    open spec fn spec_item_count(&self) -> nat {
        self.count as nat
    }

    open spec fn spec_rect_for(&self, idx: int) -> VRect {
        let off = min_int(idx * self.spec_stride(), u32::MAX as int) as u32;
        match self.axis {
            Axis::Horizontal => VRect { x: off, y: 0, w: self.item_size, h: self.cross },
            Axis::Vertical => VRect { x: 0, y: off, w: self.cross, h: self.item_size },
        }
    }

    open spec fn spec_decoration_count(&self) -> nat {
        0
    }

    open spec fn spec_decoration_rect(&self, k: int) -> VRect {
        VRect { x: 0, y: 0, w: 0, h: 0 }
    }

    fn content_size(&self) -> (r: (u32, u32)) {
        if self.count == 0 {
            return (0, 0);
        }
        let c = self.count as u64;
        proof {
            let n = self.count as int;
            let sz = self.item_size as int;
            let sp = self.spacing as int;
            assert(sz * n + sp * (n - 1) <= n * (sz + sp)) by (nonlinear_arith)
                requires
                    n >= 1,
                    sz >= 0,
                    sp >= 0,
            ;
            assert(sz * n >= 0 && sp * (n - 1) >= 0) by (nonlinear_arith)
                requires
                    n >= 1,
                    sz >= 0,
                    sp >= 0,
            ;
        }
        let raw = self.item_size as u64 * c + self.spacing as u64 * (c - 1);
        let total: u32 = if raw <= u32::MAX as u64 {
            raw as u32
        } else {
            u32::MAX
        };
        match self.axis {
            Axis::Horizontal => (total, self.cross),
            Axis::Vertical => (self.cross, total),
        }
    }

    fn item_count(&self) -> (n: usize) {
        self.count
    }

    fn rect_for(&self, idx: usize) -> (r: VRect) {
        proof {
            assert(idx * self.spec_stride() <= self.count * self.spec_stride()) by (
            nonlinear_arith)
                requires
                    idx < self.count,
                    self.spec_stride() >= 0,
            ;
        }
        let raw = idx as u64 * self.stride();
        let off: u32 = if raw <= u32::MAX as u64 {
            raw as u32
        } else {
            u32::MAX
        };
        match self.axis {
            Axis::Horizontal => VRect { x: off, y: 0, w: self.item_size, h: self.cross },
            Axis::Vertical => VRect { x: 0, y: off, w: self.cross, h: self.item_size },
        }
    }

    /// Computes the window `[first, last]` of items whose major-axis span
    /// can reach the viewport's, then keeps the ones that intersect it.
    fn items_in(&self, viewport: VRect) -> (r: Vec<usize>) {
        let ghost keep = |k: int| self.spec_rect_for(k).spec_intersects(viewport);
        let mut out: Vec<usize> = Vec::new();
        let stride = self.stride();
        if self.count == 0 || stride == 0 {
            proof {
                assert forall|k: int| 0 <= k < self.count && #[trigger] keep(k) implies false by {
                    assert(k * self.spec_stride() == 0) by (nonlinear_arith)
                        requires
                            self.spec_stride() == 0,
                    ;
                }
            }
            return out;
        }
        let item_size = self.item_size as u64;
        let (lo, hi) = match self.axis {
            Axis::Horizontal => (viewport.x as u64, viewport.end_x() as u64),
            Axis::Vertical => (viewport.y as u64, viewport.end_y() as u64),
        };
        // Any kept item starts before `hi` and ends after `lo`.
        proof {
            assert forall|k: int| 0 <= k < self.count && #[trigger] keep(k) implies k * stride
                < hi && lo < k * stride + item_size by {
                assert(k * stride >= 0) by (nonlinear_arith)
                    requires
                        k >= 0,
                        stride >= 0,
                ;
            }
        }
        if hi == 0 {
            return out;
        }
        let first: u64 = if lo < item_size {
            0
        } else {
            let n = lo - item_size + 1;
            (n + stride - 1) / stride
        };
        let last_raw = (hi - 1) / stride;
        let c = self.count as u64;
        if first >= c {
            proof {
                assert forall|k: int| 0 <= k < self.count && #[trigger] keep(k) implies false by {
                    if lo >= item_size {
                        lemma_before_first_starts_early(k, stride as int, lo - item_size + 1);
                    }
                }
            }
            return out;
        }
        let last = if last_raw < c - 1 {
            last_raw
        } else {
            c - 1
        };
        proof {
            assert forall|k: int| 0 <= k < first && #[trigger] keep(k) implies false by {
                if lo >= item_size {
                    lemma_before_first_starts_early(k, stride as int, lo - item_size + 1);
                }
            }
        }
        if first > last {
            proof {
                assert forall|k: int| 0 <= k < self.count && #[trigger] keep(k) implies false by {
                    if k > last_raw {
                        lemma_past_last_starts_late(k, stride as int, hi as int);
                    }
                }
            }
            return out;
        }
        let mut i: u64 = first;
        while i <= last
            invariant
                self.layout_inv(),
                stride == self.spec_stride(),
                stride > 0,
                first <= i <= last + 1,
                last < c,
                c == self.count,
                hi >= 1,
                last_raw == (hi - 1) / (stride as int),
                last == min_int(last_raw as int, c - 1),
                forall|k: int| 0 <= k < self.count && #[trigger] keep(k) ==> k * stride < hi,
                keep == (|k: int| self.spec_rect_for(k).spec_intersects(viewport)),
                selects(out@, i as int, keep),
            decreases last + 1 - i,
        {
            let rect = self.rect_for(i as usize);
            proof {
                lemma_selects_step(out@, i as int, keep);
            }
            if rect.intersects(viewport) {
                out.push(i as usize);
            }
            i = i + 1;
        }
        proof {
            assert forall|k: int| i <= k < self.count && #[trigger] keep(k) implies false by {
                lemma_past_last_starts_late(k, stride as int, hi as int);
            }
            assert forall|k: int| 0 <= k < self.count && #[trigger] keep(k) implies exists|a: int|
                0 <= a < out@.len() && out@[a] == k by {
                assert(k < i);
            }
        }
        out
    }

    fn decorations_in(&self, viewport: VRect) -> (r: Vec<(usize, VRect)>) {
        let out: Vec<(usize, VRect)> = Vec::new();
        assert(ids_of(out@) =~= Seq::<usize>::empty());
        out
    }
}

} // verus!

verus! {

// -- Projection ----------------------------------------------------------

/// Where a virtual cell ends up on screen, plus how many cells of it are
/// hidden on each side. `clip_*` is non-zero only for partially visible
/// cells at the edges of the viewport.
#[derive(Copy, Clone, Debug, PartialEq, Eq, Structural)]
pub struct CellGeometry {
    pub virt: VRect,
    pub screen: Rect,
    pub clip_left: u16,
    pub clip_top: u16,
    pub clip_right: u16,
    pub clip_bottom: u16,
}

/// The visible window of `virt` under `scroll` in an `area`-sized
/// viewport, in virtual coordinates: `(x, y, x_end, y_end)`.
pub open spec fn visible_window(virt: VRect, scroll: (u32, u32), area: Rect) -> (
    int,
    int,
    int,
    int,
) {
    let view_x_end = sat_add32(scroll.0 as int, area.width as int);
    let view_y_end = sat_add32(scroll.1 as int, area.height as int);
    (
        max_int(virt.x as int, scroll.0 as int),
        max_int(virt.y as int, scroll.1 as int),
        min_int(virt.spec_end_x(), view_x_end),
        min_int(virt.spec_end_y(), view_y_end),
    )
}

/// Some part of `virt` is inside the viewport.
pub open spec fn is_visible(virt: VRect, scroll: (u32, u32), area: Rect) -> bool {
    let (vx, vy, vx_end, vy_end) = visible_window(virt, scroll, area);
    vx < vx_end && vy < vy_end
}

/// Placing the visible window on screen stays inside `u16` coordinates.
pub open spec fn fits_on_screen(virt: VRect, scroll: (u32, u32), area: Rect) -> bool {
    let (vx, vy, vx_end, vy_end) = visible_window(virt, scroll, area);
    is_visible(virt, scroll, area) ==> (area.x + (vx - scroll.0) <= u16::MAX && area.y + (vy
        - scroll.1) <= u16::MAX)
}

/// The projection of `virt`: `None` when fully outside the viewport;
/// otherwise its screen rect, offset from `area`'s origin by its
/// distance from the scroll origin, and its clipped amount on each side.
pub open spec fn spec_project(virt: VRect, scroll: (u32, u32), area: Rect) -> Option<
    CellGeometry,
> {
    let (vx, vy, vx_end, vy_end) = visible_window(virt, scroll, area);
    if !is_visible(virt, scroll, area) {
        None
    } else {
        Some(
            CellGeometry {
                virt,
                screen: Rect {
                    x: (area.x + (vx - scroll.0)) as u16,
                    y: (area.y + (vy - scroll.1)) as u16,
                    width: (vx_end - vx) as u16,
                    height: (vy_end - vy) as u16,
                },
                clip_left: (vx - virt.x) as u16,
                clip_top: (vy - virt.y) as u16,
                clip_right: (virt.spec_end_x() - vx_end) as u16,
                clip_bottom: (virt.spec_end_y() - vy_end) as u16,
            },
        )
    }
}

/// Project a virtual rect into screen space given the current scroll and
/// area. Returns `None` if the rect is fully outside the viewport.
pub fn project_to_screen(virt: VRect, scroll: (u32, u32), area: Rect) -> (g: Option<
    CellGeometry,
>)
    requires
        fits_on_screen(virt, scroll, area),
    ensures
        g == spec_project(virt, scroll, area),
{
    let view_x = scroll.0;
    let view_y = scroll.1;
    let view_x_end = view_x.saturating_add(area.width as u32);
    let view_y_end = view_y.saturating_add(area.height as u32);

    let visible_x = if virt.x >= view_x {
        virt.x
    } else {
        view_x
    };
    let visible_y = if virt.y >= view_y {
        virt.y
    } else {
        view_y
    };
    let visible_x_end = if virt.end_x() <= view_x_end {
        virt.end_x()
    } else {
        view_x_end
    };
    let visible_y_end = if virt.end_y() <= view_y_end {
        virt.end_y()
    } else {
        view_y_end
    };
    if visible_x_end <= visible_x || visible_y_end <= visible_y {
        return None;
    }
    Some(
        CellGeometry {
            virt,
            screen: Rect {
                x: area.x + (visible_x - view_x) as u16,
                y: area.y + (visible_y - view_y) as u16,
                width: (visible_x_end - visible_x) as u16,
                height: (visible_y_end - visible_y) as u16,
            },
            clip_left: (visible_x - virt.x) as u16,
            clip_top: (visible_y - virt.y) as u16,
            clip_right: (virt.end_x() - visible_x_end) as u16,
            clip_bottom: (virt.end_y() - visible_y_end) as u16,
        },
    )
}

/// A projected cell lands inside the screen area, and — when nothing
/// saturates — its clipped and visible parts add back up to the full
/// virtual size.
pub proof fn lemma_projection_inside_area(virt: VRect, scroll: (u32, u32), area: Rect)
    requires
        fits_on_screen(virt, scroll, area),
        is_visible(virt, scroll, area),
        virt.x + virt.w <= u32::MAX,
        virt.y + virt.h <= u32::MAX,
        scroll.0 + area.width <= u32::MAX,
        scroll.1 + area.height <= u32::MAX,
        virt.w <= u16::MAX,
        virt.h <= u16::MAX,
    ensures
        ({
            let g = spec_project(virt, scroll, area).unwrap();
            &&& area.x <= g.screen.x
            &&& g.screen.x + g.screen.width <= area.x + area.width
            &&& area.y <= g.screen.y
            &&& g.screen.y + g.screen.height <= area.y + area.height
            &&& g.clip_left + g.screen.width + g.clip_right == virt.w
            &&& g.clip_top + g.screen.height + g.clip_bottom == virt.h
        }),
{
}

// -- Pass (one render iteration) ----------------------------------------

/// One render pass over a layout: borrows the layout, carries the scroll
/// offset and the screen area, and answers visibility and hit-test
/// questions.
pub struct CollectionPass<'a, L: CollectionLayout> {
    pub layout: &'a L,
    pub scroll: (u32, u32),
    pub area: Rect,
}

/// The screen area fits in `u16` coordinates, so every cell inside it
/// can be addressed.
pub open spec fn area_addressable(area: Rect) -> bool {
    area.x + area.width <= u16::MAX + 1 && area.y + area.height <= u16::MAX + 1
}

impl<'a, L: CollectionLayout> CollectionPass<'a, L> {
    pub fn new(layout: &'a L, scroll: (u32, u32), area: Rect) -> (p: Self)
        ensures
            p.layout == layout,
            p.scroll == scroll,
            p.area == area,
    {
        Self { layout, scroll, area }
    }

    /// The viewport in virtual coordinates: scroll origin, area size.
    pub open spec fn spec_viewport(&self) -> VRect {
        VRect {
            x: self.scroll.0,
            y: self.scroll.1,
            w: self.area.width as u32,
            h: self.area.height as u32,
        }
    }

    pub fn viewport(&self) -> (v: VRect)
        ensures
            v == self.spec_viewport(),
    {
        VRect {
            x: self.scroll.0,
            y: self.scroll.1,
            w: self.area.width as u32,
            h: self.area.height as u32,
        }
    }

    /// Item `k` intersects the viewport.
    pub open spec fn vis(&self, k: int) -> bool {
        self.layout.spec_rect_for(k).spec_intersects(self.spec_viewport())
    }

    /// Item `k` intersects the viewport and projects onto the screen.
    pub open spec fn shown(&self, k: int) -> bool {
        self.vis(k) && spec_project(self.layout.spec_rect_for(k), self.scroll, self.area) is Some
    }

    /// Item `k` intersects the viewport and contains the virtual cell
    /// `(vx, vy)`.
    pub open spec fn hit(&self, k: int, vx: int, vy: int) -> bool {
        self.vis(k) && self.layout.spec_rect_for(k).spec_contains(vx, vy)
    }

    /// The items intersecting the viewport, from the layout.
    fn visible_indices(&self) -> (r: Vec<usize>)
        requires
            self.layout.layout_inv(),
        ensures
            selects(r@, self.layout.spec_item_count() as int, |k: int| self.vis(k)),
    {
        let vp = self.viewport();
        let r = self.layout.items_in(vp);
        proof {
            lemma_selects_ext(
                r@,
                self.layout.spec_item_count() as int,
                |k: int| self.layout.spec_rect_for(k).spec_intersects(vp),
                |k: int| self.vis(k),
            );
        }
        r
    }

    /// Visible items projected to screen geometry, in index order: every
    /// item that intersects the viewport and projects to a non-empty
    /// screen rect.
    pub fn visible_items(&self) -> (r: Vec<(usize, CellGeometry)>)
        requires
            self.layout.layout_inv(),
            area_addressable(self.area),
        ensures
            selects(
                r@.map_values(|e: (usize, CellGeometry)| e.0),
                self.layout.spec_item_count() as int,
                |k: int| self.shown(k),
            ),
            forall|a: int|
                0 <= a < r@.len() ==> Some(r@[a].1) == spec_project(
                    self.layout.spec_rect_for(r@[a].0 as int),
                    self.scroll,
                    self.area,
                ),
    {
        let idxs = self.visible_indices();
        let ghost n = self.layout.spec_item_count() as int;
        let mut out: Vec<(usize, CellGeometry)> = Vec::new();
        let mut j: usize = 0;
        while j < idxs.len()
            invariant
                self.layout.layout_inv(),
                area_addressable(self.area),
                selects(idxs@, n, |k: int| self.vis(k)),
                n == self.layout.spec_item_count() as int,
                j <= idxs@.len(),
                selects(
                    out@.map_values(|e: (usize, CellGeometry)| e.0),
                    if j == 0 {
                        0
                    } else {
                        idxs@[j - 1] + 1
                    },
                    |k: int| self.shown(k),
                ),
                forall|a: int|
                    0 <= a < out@.len() ==> Some(out@[a].1) == spec_project(
                        self.layout.spec_rect_for(out@[a].0 as int),
                        self.scroll,
                        self.area,
                    ),
            decreases idxs@.len() - j,
        {
            let idx = idxs[j];
            let ghost lim = if j == 0 {
                0
            } else {
                idxs@[j - 1] + 1
            };
            proof {
                lemma_selects_elem(idxs@, n, |k: int| self.vis(k), j as int);
                assert forall|k: int| lim <= k < idx implies !self.shown(k) by {
                    if self.shown(k) {
                        let b = lemma_selects_member(idxs@, n, |k: int| self.vis(k), k);
                        lemma_selects_elem(idxs@, n, |k: int| self.vis(k), b);
                        if j > 0 {
                            lemma_selects_elem(idxs@, n, |k: int| self.vis(k), j - 1);
                        }
                    }
                }
                lemma_selects_jump(
                    out@.map_values(|e: (usize, CellGeometry)| e.0),
                    lim,
                    idx as int,
                    |k: int| self.shown(k),
                );
                lemma_selects_step(
                    out@.map_values(|e: (usize, CellGeometry)| e.0),
                    idx as int,
                    |k: int| self.shown(k),
                );
            }
            let rect = self.layout.rect_for(idx);
            let ghost before = out@;
            if let Some(g) = project_to_screen(rect, self.scroll, self.area) {
                out.push((idx, g));
                assert(out@.map_values(|e: (usize, CellGeometry)| e.0) =~= before.map_values(
                    |e: (usize, CellGeometry)| e.0,
                ).push(idx));
            }
            j = j + 1;
        }
        proof {
            let lim = if j == 0 {
                0
            } else {
                idxs@[j - 1] + 1
            };
            assert forall|k: int| lim <= k < n implies !self.shown(k) by {
                if self.shown(k) {
                    let b = lemma_selects_member(idxs@, n, |k: int| self.vis(k), k);
                    if j > 0 {
                        lemma_selects_elem(idxs@, n, |k: int| self.vis(k), j - 1);
                    }
                }
            }
            lemma_selects_jump(
                out@.map_values(|e: (usize, CellGeometry)| e.0),
                lim,
                n,
                |k: int| self.shown(k),
            );
        }
        out
    }

    /// Item under the screen cell `(col, row)`, if any: the first item
    /// in index order that intersects the viewport and contains the
    /// corresponding virtual cell.
    pub fn item_at_screen(&self, col: u16, row: u16) -> (r: Option<usize>)
        requires
            self.layout.layout_inv(),
            crate::geom::spec_rect_contains(self.area, col as int, row as int) ==> (col
                - self.area.x + self.scroll.0 <= u32::MAX && row - self.area.y + self.scroll.1
                <= u32::MAX),
        ensures
            !crate::geom::spec_rect_contains(self.area, col as int, row as int) ==> r is None,
            crate::geom::spec_rect_contains(self.area, col as int, row as int) ==> ({
                let vx = col - self.area.x + self.scroll.0;
                let vy = row - self.area.y + self.scroll.1;
                match r {
                    Some(k) => k < self.layout.spec_item_count() && self.hit(k as int, vx, vy)
                        && forall|j: int| 0 <= j < k ==> !#[trigger] self.hit(j, vx, vy),
                    None => forall|j: int|
                        0 <= j < self.layout.spec_item_count() ==> !#[trigger] self.hit(
                            j,
                            vx,
                            vy,
                        ),
                }
            }),
    {
        if !crate::geom::rect_contains(self.area, col, row) {
            return None;
        }
        let vx = (col - self.area.x) as u32 + self.scroll.0;
        let vy = (row - self.area.y) as u32 + self.scroll.1;
        let idxs = self.visible_indices();
        let ghost n = self.layout.spec_item_count() as int;
        let mut j: usize = 0;
        while j < idxs.len()
            invariant
                self.layout.layout_inv(),
                selects(idxs@, n, |k: int| self.vis(k)),
                n == self.layout.spec_item_count() as int,
                crate::geom::spec_rect_contains(self.area, col as int, row as int),
                vx == col - self.area.x + self.scroll.0,
                vy == row - self.area.y + self.scroll.1,
                j <= idxs@.len(),
                forall|b: int| 0 <= b < j ==> !#[trigger] self.hit(idxs@[b] as int, vx as int, vy as int),
            decreases idxs@.len() - j,
        {
            let idx = idxs[j];
            proof {
                lemma_selects_elem(idxs@, n, |k: int| self.vis(k), j as int);
            }
            if self.layout.rect_for(idx).contains(vx, vy) {
                proof {
                    assert forall|k: int| 0 <= k < idx implies !#[trigger] self.hit(k, vx as int, vy as int) by {
                        if self.hit(k, vx as int, vy as int) {
                            let b = lemma_selects_member(idxs@, n, |k: int| self.vis(k), k);
                            lemma_selects_elem(idxs@, n, |k: int| self.vis(k), b);
                        }
                    }
                }
                return Some(idx);
            }
            j = j + 1;
        }
        proof {
            assert forall|k: int| 0 <= k < n implies !#[trigger] self.hit(k, vx as int, vy as int) by {
                if self.hit(k, vx as int, vy as int) {
                    let b = lemma_selects_member(idxs@, n, |k: int| self.vis(k), k);
                }
            }
        }
        None
    }
}

} // verus!
