//! Focus traversal: directional moves across the layout tree, plus the
//! geometry-aware pick of the closest child that makes a move into an
//! unevenly split neighbour land where the eye expects. Geometry comes
//! from the rects the last layout pass cached.

use vstd::prelude::*;

use crate::editor::editor::{
    Editor, RenderCache, TabStripCache, focus_pulse, lookup, on_screen, pulses_view,
};
use crate::editor::ids::FrameId;
use crate::editor::registry::PaneRegistry;
use crate::editor::tree::laws::{
    addressable, depth_below, lemma_at_path_push, lemma_depth_below_push, lemma_path_to_leaf_complete,
    lemma_path_to_leaf_sound,
};
use crate::editor::tree::{LayoutNode, LeafRef, NodeView};
use crate::geom::{Axis, Direction, Rect, SidebarSlot};

verus! {

/// The rect the cache holds for a leaf.
pub open spec fn spec_leaf_rect(c: RenderCache, leaf: LeafRef) -> Option<Rect> {
    match leaf {
        LeafRef::Frame(id) => lookup(c.frame_table(), id),
        LeafRef::Sidebar(slot) => lookup(c.sidebar_table(), slot),
    }
}

/// The cached rect of the leaf at `path`.
pub open spec fn leaf_rect_at(t: NodeView, path: Seq<usize>, c: RenderCache) -> Option<Rect> {
    match t.at_path(path) {
        Some(n) => match n.leaf_id() {
            Some(l) => spec_leaf_rect(c, l),
            None => None,
        },
        None => None,
    }
}

/// The leaf reached from `path` by always descending into child 0.
pub open spec fn first_leaf_path(t: NodeView, path: Seq<usize>) -> Option<Seq<usize>>
    decreases depth_below(t, path),
{
    match t.at_path(path) {
        Some(NodeView::Split(..)) => {
            proof {
                lemma_depth_below_push(t, path, 0);
            }
            first_leaf_path(t, path.push(0))
        },
        Some(_) => Some(path),
        None => None,
    }
}

/// The cached rect of the leftmost-deepest leaf below `path`.
pub open spec fn first_leaf_rect_at(t: NodeView, path: Seq<usize>, c: RenderCache) -> Option<Rect> {
    match first_leaf_path(t, path) {
        Some(q) => leaf_rect_at(t, q, c),
        None => None,
    }
}

pub open spec fn abs(v: int) -> int {
    if v < 0 {
        -v
    } else {
        v
    }
}

/// Distance, across the split axis, between the centre of child `i`'s
/// first leaf and the centre of `src`; `None` when that leaf has no
/// cached rect.
pub open spec fn child_distance(
    t: NodeView,
    parent: Seq<usize>,
    i: int,
    axis: Axis,
    src: Rect,
    c: RenderCache,
) -> Option<int> {
    match first_leaf_rect_at(t, parent.push(i as usize), c) {
        Some(r) => Some(
            match axis {
                Axis::Horizontal => abs(
                    (r.y + r.height / 2) - (src.y + src.height / 2),
                ),
                Axis::Vertical => abs((r.x + r.width / 2) - (src.x + src.width / 2)),
            },
        ),
        None => None,
    }
}

/// `r` is the child closest to `src` (ties to the lowest index) among
/// the first `n` children that have a cached rect; 0 when none has one.
pub open spec fn is_closest(
    t: NodeView,
    parent: Seq<usize>,
    n: int,
    axis: Axis,
    src: Rect,
    c: RenderCache,
    r: int,
) -> bool {
    if exists|j: int| 0 <= j < n && #[trigger] child_distance(t, parent, j, axis, src, c) is Some {
        &&& 0 <= r < n
        &&& child_distance(t, parent, r, axis, src, c) is Some
        &&& forall|j: int|
            0 <= j < n && #[trigger] child_distance(t, parent, j, axis, src, c) is Some ==> child_distance(
                t,
                parent,
                r,
                axis,
                src,
                c,
            ).unwrap() <= child_distance(t, parent, j, axis, src, c).unwrap()
        &&& forall|j: int|
            0 <= j < r && #[trigger] child_distance(t, parent, j, axis, src, c) is Some ==> child_distance(
                t,
                parent,
                r,
                axis,
                src,
                c,
            ).unwrap() < child_distance(t, parent, j, axis, src, c).unwrap()
    } else {
        r == 0
    }
}

/// The child of the split at `parent` (with `n` children) a move in `dir`
/// enters: the one closest to the source leaf's rect, or, when the
/// source has no cached rect, the child adjacent to the move.
pub open spec fn pick_child(
    t: NodeView,
    parent: Seq<usize>,
    n: int,
    axis: Axis,
    dir: Direction,
    source: Seq<usize>,
    c: RenderCache,
) -> int {
    if n == 0 {
        0
    } else {
        match leaf_rect_at(t, source, c) {
            None => match (axis, dir) {
                (Axis::Horizontal, Direction::Left) => n - 1,
                (Axis::Vertical, Direction::Up) => n - 1,
                _ => 0,
            },
            Some(src) => choose|r: int| is_closest(t, parent, n, axis, src, c, r),
        }
    }
}

/// Descend from `path` through splits, entering the picked child each
/// time, until the path no longer lands on a split.
pub open spec fn walk_into(
    t: NodeView,
    path: Seq<usize>,
    dir: Direction,
    source: Seq<usize>,
    c: RenderCache,
) -> Seq<usize>
    decreases depth_below(t, path),
{
    match t.at_path(path) {
        Some(NodeView::Split(axis, cs)) => {
            let pick = pick_child(t, path, cs.len() as int, axis, dir, source, c);
            proof {
                lemma_depth_below_push(t, path, pick as usize);
            }
            walk_into(t, path.push(pick as usize), dir, source, c)
        },
        _ => path,
    }
}

/// The split axis a move in `dir` travels along.
pub open spec fn move_axis(dir: Direction) -> Axis {
    match dir {
        Direction::Left | Direction::Right => Axis::Horizontal,
        Direction::Up | Direction::Down => Axis::Vertical,
    }
}

/// `-1` for left/up, `+1` for right/down.
pub open spec fn move_step(dir: Direction) -> int {
    match dir {
        Direction::Left | Direction::Up => -1,
        Direction::Right | Direction::Down => 1,
    }
}

/// Where a move in `dir` from the leaf at `source` lands: walk up from
/// `path` to the nearest split along the move's axis that has a
/// neighbour on that side, then walk into the neighbour. `None` when no
/// ancestor has one (or an ancestor path does not resolve).
pub open spec fn focus_target(
    t: NodeView,
    path: Seq<usize>,
    dir: Direction,
    source: Seq<usize>,
    c: RenderCache,
) -> Option<Seq<usize>>
    decreases path.len(),
{
    if path.len() == 0 {
        None
    } else {
        let parent = path.drop_last();
        let next = path.last() + move_step(dir);
        match t.at_path(parent) {
            None => None,
            Some(NodeView::Split(axis, cs)) => if axis == move_axis(dir) && 0 <= next < cs.len() {
                Some(walk_into(t, parent.push(next as usize), dir, source, c))
            } else {
                focus_target(t, parent, dir, source, c)
            },
            Some(_) => focus_target(t, parent, dir, source, c),
        }
    }
}

/// Focus path after a move in `dir`: the focus target, or else (at the
/// edge, moving left or right) the sidebar on that side, or else the
/// old path.
pub open spec fn focus_after_move(t: NodeView, focus: Seq<usize>, dir: Direction, c: RenderCache) -> Seq<
    usize,
> {
    match focus_target(t, focus, dir, focus, c) {
        Some(p) => p,
        None => {
            let slot = match dir {
                Direction::Left => Some(SidebarSlot::Left),
                Direction::Right => Some(SidebarSlot::Right),
                _ => None,
            };
            match slot {
                Some(s) => match t.path_to_leaf(LeafRef::Sidebar(s)) {
                    Some(p) => p,
                    None => focus,
                },
                None => focus,
            }
        },
    }
}

/// At the edge of the splits, moving left or right enters the sidebar
/// on that side when the tree has one: focus lands on that sidebar's
/// leaf. Moving up or down at the edge leaves focus where it was.
pub proof fn lemma_focus_edge_enters_sidebar(
    t: NodeView,
    focus: Seq<usize>,
    dir: Direction,
    c: RenderCache,
    sidebar_path: Seq<usize>,
)
    requires
        addressable(t),
        focus_target(t, focus, dir, focus, c) is None,
    ensures
        (dir == Direction::Left || dir == Direction::Right) && (t.at_path(sidebar_path) matches Some(n)
            && n.leaf_id() == Some(LeafRef::Sidebar(
            if dir == Direction::Left {
                SidebarSlot::Left
            } else {
                SidebarSlot::Right
            },
        ))) ==> (t.at_path(focus_after_move(t, focus, dir, c)) matches Some(m) && m.leaf_id() == Some(
            LeafRef::Sidebar(
                if dir == Direction::Left {
                    SidebarSlot::Left
                } else {
                    SidebarSlot::Right
                },
            ),
        )),
        (dir == Direction::Up || dir == Direction::Down) ==> focus_after_move(t, focus, dir, c) == focus,
{
    if dir == Direction::Left || dir == Direction::Right {
        let slot = if dir == Direction::Left {
            SidebarSlot::Left
        } else {
            SidebarSlot::Right
        };
        if t.at_path(sidebar_path) matches Some(n) && n.leaf_id() == Some(LeafRef::Sidebar(slot)) {
            lemma_path_to_leaf_complete(t, sidebar_path, LeafRef::Sidebar(slot));
            lemma_path_to_leaf_sound(t, LeafRef::Sidebar(slot));
        }
    }
}

/// The cached rect of `leaf`.
pub fn leaf_rect(leaf: LeafRef, cache: &RenderCache) -> (r: Option<Rect>)
    ensures
        r == spec_leaf_rect(*cache, leaf),
        r matches Some(rect) ==> on_screen(rect),
{
    match leaf {
        LeafRef::Frame(id) => cache.frame_rect(id),
        LeafRef::Sidebar(slot) => cache.sidebar_rect(slot),
    }
}

fn leaf_rect_for(panes: &PaneRegistry, path: &[usize], cache: &RenderCache) -> (r: Option<Rect>)
    ensures
        r == leaf_rect_at(panes@, path@, *cache),
        r matches Some(rect) ==> on_screen(rect),
{
    let node = panes.at_path(path)?;
    let leaf = node.leaf_id()?;
    leaf_rect(leaf, cache)
}

fn copy_path(v: &[usize]) -> (r: Vec<usize>)
    ensures
        r@ == v@,
{
    let mut r: Vec<usize> = Vec::new();
    let mut i: usize = 0;
    while i < v.len()
        invariant
            i <= v@.len(),
            r@ == v@.take(i as int),
        decreases v@.len() - i,
    {
        r.push(v[i]);
        proof {
            assert(v@.take(i + 1) =~= v@.take(i as int).push(v@[i as int]));
        }
        i = i + 1;
    }
    proof {
        assert(v@.take(i as int) =~= v@);
    }
    r
}

fn first_leaf_rect(panes: &PaneRegistry, path: &[usize], cache: &RenderCache) -> (r: Option<Rect>)
    ensures
        r == first_leaf_rect_at(panes@, path@, *cache),
        r matches Some(rect) ==> on_screen(rect),
{
    let mut p = copy_path(path);
    loop
        invariant
            first_leaf_path(panes@, p@) == first_leaf_path(panes@, path@),
        decreases depth_below(panes@, p@),
    {
        let node = match panes.at_path(p.as_slice()) {
            Some(n) => n,
            None => return None,
        };
        match node {
            LayoutNode::Split(_) => {
                proof {
                    lemma_depth_below_push(panes@, p@, 0);
                }
                p.push(0);
            },
            _ => {
                return leaf_rect_for(panes, p.as_slice(), cache);
            },
        }
    }
}

fn centre_offset(pos: u16, size: u16, centre: u16) -> (d: i32)
    ensures
        d == abs((pos + size / 2) - centre),
{
    let v: i32 = pos as i32 + size as i32 / 2 - centre as i32;
    if v < 0 {
        -v
    } else {
        v
    }
}

/// Two answers to `is_closest` agree.
proof fn lemma_closest_unique(
    t: NodeView,
    parent: Seq<usize>,
    n: int,
    axis: Axis,
    src: Rect,
    c: RenderCache,
    r1: int,
    r2: int,
)
    requires
        is_closest(t, parent, n, axis, src, c, r1),
        is_closest(t, parent, n, axis, src, c, r2),
    ensures
        r1 == r2,
{
    if exists|j: int| 0 <= j < n && #[trigger] child_distance(t, parent, j, axis, src, c) is Some {
        if r1 < r2 {
            assert(child_distance(t, parent, r1, axis, src, c) is Some);
        } else if r2 < r1 {
            assert(child_distance(t, parent, r2, axis, src, c) is Some);
        }
    }
}

fn pick_closest_child(
    panes: &PaneRegistry,
    parent_path: &[usize],
    axis: Axis,
    n_children: usize,
    dir: Direction,
    source_path: &[usize],
    cache: &RenderCache,
) -> (r: usize)
    ensures
        r == pick_child(panes@, parent_path@, n_children as int, axis, dir, source_path@, *cache),
{
    if n_children == 0 {
        return 0;
    }
    let src = match leaf_rect_for(panes, source_path, cache) {
        Some(s) => s,
        None => {
            return match (axis, dir) {
                (Axis::Horizontal, Direction::Left) => n_children - 1,
                (Axis::Horizontal, Direction::Right) => 0,
                (Axis::Vertical, Direction::Up) => n_children - 1,
                (Axis::Vertical, Direction::Down) => 0,
                _ => 0,
            };
        },
    };
    let ghost t = panes@;
    let ghost pp = parent_path@;
    let ghost c = *cache;
    let centre_y: u16 = src.y + src.height / 2;
    let centre_x: u16 = src.x + src.width / 2;
    let mut best: usize = 0;
    let mut best_d: i32 = i32::MAX;
    let mut i: usize = 0;
    while i < n_children
        invariant
            t == panes@,
            pp == parent_path@,
            c == *cache,
            on_screen(src),
            centre_y == src.y + src.height / 2,
            centre_x == src.x + src.width / 2,
            i <= n_children,
            (forall|j: int| 0 <= j < i ==> #[trigger] child_distance(t, pp, j, axis, src, c) is None) ==> (
            best == 0 && best_d == i32::MAX),
            (exists|j: int| 0 <= j < i && #[trigger] child_distance(t, pp, j, axis, src, c) is Some) ==> {
                &&& best < i
                &&& child_distance(t, pp, best as int, axis, src, c) == Some(best_d as int)
                &&& forall|j: int|
                    0 <= j < i && #[trigger] child_distance(t, pp, j, axis, src, c) is Some ==> best_d
                        <= child_distance(t, pp, j, axis, src, c).unwrap()
                &&& forall|j: int|
                    0 <= j < best && #[trigger] child_distance(t, pp, j, axis, src, c) is Some ==> best_d
                        < child_distance(t, pp, j, axis, src, c).unwrap()
            },
        decreases n_children - i,
    {
        let mut child_path = copy_path(parent_path);
        child_path.push(i);
        match first_leaf_rect(panes, child_path.as_slice(), cache) {
            Some(rect) => {
                let d = match axis {
                    Axis::Horizontal => centre_offset(rect.y, rect.height, centre_y),
                    Axis::Vertical => centre_offset(rect.x, rect.width, centre_x),
                };
                proof {
                    assert(child_distance(t, pp, i as int, axis, src, c) == Some(d as int));
                }
                if d < best_d {
                    best_d = d;
                    best = i;
                }
            },
            None => {
                proof {
                    assert(child_distance(t, pp, i as int, axis, src, c) is None);
                }
            },
        }
        proof {
            assert forall|j: int| 0 <= j < i + 1 implies #[trigger] child_distance(t, pp, j, axis, src, c) is None
                || exists|k: int| 0 <= k < i + 1 && #[trigger] child_distance(t, pp, k, axis, src, c) is Some by {
            }
        }
        i = i + 1;
    }
    proof {
        assert(is_closest(t, pp, n_children as int, axis, src, c, best as int));
        let r = choose|r: int| is_closest(t, pp, n_children as int, axis, src, c, r);
        lemma_closest_unique(t, pp, n_children as int, axis, src, c, best as int, r);
    }
    best
}


fn split_axis_and_children(node: &LayoutNode) -> (r: Option<(Axis, usize)>)
    ensures
        match node@ {
            NodeView::Split(a, cs) => r matches Some((a2, n)) && a2 == a && n == cs.len(),
            _ => r is None,
        },
{
    match node {
        LayoutNode::Split(s) => {
            proof {
                crate::editor::tree::lemma_children_view(s.children@);
            }
            Some((s.axis, s.children.len()))
        },
        _ => None,
    }
}

fn walk_into_exec(
    panes: &PaneRegistry,
    from: Vec<usize>,
    dir: Direction,
    source_path: &[usize],
    cache: &RenderCache,
) -> (r: Vec<usize>)
    ensures
        r@ == walk_into(panes@, from@, dir, source_path@, *cache),
{
    let mut path = from;
    let ghost start = path@;
    loop
        invariant
            start == from@,
            walk_into(panes@, path@, dir, source_path@, *cache) == walk_into(
                panes@,
                start,
                dir,
                source_path@,
                *cache,
            ),
        decreases depth_below(panes@, path@),
    {
        let node = match panes.at_path(path.as_slice()) {
            Some(n) => n,
            None => return path,
        };
        let (axis, n_children) = match split_axis_and_children(node) {
            Some(x) => x,
            None => return path,
        };
        let pick = pick_closest_child(
            panes,
            path.as_slice(),
            axis,
            n_children,
            dir,
            source_path,
            cache,
        );
        proof {
            lemma_depth_below_push(panes@, path@, pick);
        }
        path.push(pick);
    }
}

fn compute_focus_target(
    panes: &PaneRegistry,
    focus: &[usize],
    dir: Direction,
    cache: &RenderCache,
) -> (r: Option<Vec<usize>>)
    requires
        forall|i: int| 0 <= i < focus@.len() ==> #[trigger] focus@[i] < isize::MAX,
    ensures
        match r {
            Some(p) => focus_target(panes@, focus@, dir, focus@, *cache) == Some(p@),
            None => focus_target(panes@, focus@, dir, focus@, *cache) is None,
        },
{
    let needed_axis = match dir {
        Direction::Left | Direction::Right => Axis::Horizontal,
        Direction::Up | Direction::Down => Axis::Vertical,
    };
    let mut path = copy_path(focus);
    while path.len() > 0
        invariant
            focus_target(panes@, path@, dir, focus@, *cache) == focus_target(
                panes@,
                focus@,
                dir,
                focus@,
                *cache,
            ),
            path@.len() <= focus@.len(),
            forall|i: int| 0 <= i < path@.len() ==> #[trigger] path@[i] == focus@[i],
            forall|i: int| 0 <= i < focus@.len() ==> #[trigger] focus@[i] < isize::MAX,
            needed_axis == move_axis(dir),
        decreases path@.len(),
    {
        let child_idx = path[path.len() - 1];
        let ghost full = path@;
        path.pop();
        proof {
            assert(path@ == full.drop_last());
        }
        let parent = match panes.at_path(path.as_slice()) {
            Some(n) => n,
            None => return None,
        };
        match split_axis_and_children(parent) {
            Some((axis, n_children)) => {
                if axis == needed_axis {
                    let ok = match dir {
                        Direction::Left | Direction::Up => child_idx >= 1 && child_idx - 1 < n_children,
                        Direction::Right | Direction::Down => child_idx + 1 < n_children,
                    };
                    if ok {
                        let next = match dir {
                            Direction::Left | Direction::Up => child_idx - 1,
                            Direction::Right | Direction::Down => child_idx + 1,
                        };
                        let mut new_path = copy_path(path.as_slice());
                        new_path.push(next);
                        return Some(walk_into_exec(panes, new_path, dir, focus, cache));
                    }
                }
            },
            None => {},
        }
    }
    None
}

impl Editor {
    /// Move focus one step in `dir`: into the neighbouring pane along
    /// the move's axis (entering splits at the child closest to the
    /// current leaf), or at the edge into the sidebar on that side.
    /// Announces `FocusChanged` if focus moved.
    pub fn focus_dir(&mut self, dir: Direction)
        requires
            forall|i: int| 0 <= i < old(self).focus@.len() ==> #[trigger] old(self).focus@[i] < isize::MAX,
        ensures
            final(self).cursors == old(self).cursors,
            final(self).next_frame == old(self).next_frame,
            final(self).panes@ == old(self).panes@,
            final(self).render_cache == old(self).render_cache,
            final(self).focus@ == focus_after_move(
                old(self).panes@,
                old(self).focus@,
                dir,
                old(self).render_cache,
            ),
            pulses_view(final(self).pulses@) == pulses_view(old(self).pulses@) + focus_pulse(
                old(self).focus@,
                final(self).focus@,
            ),
    {
        match compute_focus_target(&self.panes, self.focus.active(), dir, &self.render_cache) {
            Some(target) => {
                self.set_focus(target);
                return ;
            },
            None => {},
        }
        let needed = match dir {
            Direction::Left => Some(SidebarSlot::Left),
            Direction::Right => Some(SidebarSlot::Right),
            _ => None,
        };
        match needed {
            Some(slot) => match self.panes.path_to_leaf(LeafRef::Sidebar(slot)) {
                Some(path) => {
                    self.set_focus(path);
                },
                None => {
                    proof {
                        assert(pulses_view(self.pulses@) =~= pulses_view(old(self).pulses@) + focus_pulse(
                            old(self).focus@,
                            self.focus@,
                        ));
                    }
                },
            },
            None => {
                proof {
                    assert(pulses_view(self.pulses@) =~= pulses_view(old(self).pulses@) + focus_pulse(
                        old(self).focus@,
                        self.focus@,
                    ));
                }
            },
        }
    }

    /// Move focus to `frame`'s leaf if it is in the tree.
    pub fn focus_frame(&mut self, frame: FrameId) -> (found: bool)
        ensures
            final(self).cursors == old(self).cursors,
            final(self).next_frame == old(self).next_frame,
            found == old(self).panes@.path_to_leaf(LeafRef::Frame(frame)) is Some,
            final(self).panes@ == old(self).panes@,
            final(self).render_cache == old(self).render_cache,
            final(self).focus@ == (match old(self).panes@.path_to_leaf(LeafRef::Frame(frame)) {
                Some(p) => p,
                None => old(self).focus@,
            }),
            pulses_view(final(self).pulses@) == pulses_view(old(self).pulses@) + focus_pulse(
                old(self).focus@,
                final(self).focus@,
            ),
    {
        match self.panes.path_to_leaf(LeafRef::Frame(frame)) {
            Some(path) => {
                self.set_focus(path);
                true
            },
            None => {
                proof {
                    assert(pulses_view(self.pulses@) =~= pulses_view(old(self).pulses@) + focus_pulse(
                        old(self).focus@,
                        self.focus@,
                    ));
                }
                false
            },
        }
    }
}


/// Every rect the cache holds: frame bodies, sidebars, tab-strip rows.
pub open spec fn cached_rects(c: RenderCache) -> Seq<Rect> {
    c.frame_table().map_values(|e: (FrameId, Rect)| e.1) + c.sidebar_table().map_values(
        |e: (SidebarSlot, Rect)| e.1,
    ) + c.strip_table().map_values(|e: (FrameId, TabStripCache)| e.1.strip_rect)
}

/// Least value of `f` over a non-empty `rs`.
pub open spec fn seq_min(rs: Seq<Rect>, f: spec_fn(Rect) -> int) -> int
    decreases rs.len(),
{
    if rs.len() <= 1 {
        f(rs[0])
    } else {
        let m = seq_min(rs.drop_last(), f);
        if f(rs.last()) < m {
            f(rs.last())
        } else {
            m
        }
    }
}

/// Greatest value of `f` over a non-empty `rs`.
pub open spec fn seq_max(rs: Seq<Rect>, f: spec_fn(Rect) -> int) -> int
    decreases rs.len(),
{
    if rs.len() <= 1 {
        f(rs[0])
    } else {
        let m = seq_max(rs.drop_last(), f);
        if f(rs.last()) > m {
            f(rs.last())
        } else {
            m
        }
    }
}

/// The smallest rect covering every rect of `rs` (all zero for none).
pub open spec fn bounding(rs: Seq<Rect>) -> Rect {
    if rs.len() == 0 {
        Rect { x: 0, y: 0, width: 0, height: 0 }
    } else {
        let x = seq_min(rs, |r: Rect| r.x as int);
        let y = seq_min(rs, |r: Rect| r.y as int);
        let xe = seq_max(rs, |r: Rect| r.x + r.width);
        let ye = seq_max(rs, |r: Rect| r.y + r.height);
        Rect { x: x as u16, y: y as u16, width: (xe - x) as u16, height: (ye - y) as u16 }
    }
}

/// `seq_min` is attained and is a lower bound; `seq_max` likewise.
proof fn lemma_min_max(rs: Seq<Rect>, f: spec_fn(Rect) -> int)
    requires
        rs.len() > 0,
    ensures
        exists|i: int| 0 <= i < rs.len() && f(rs[i]) == seq_min(rs, f),
        exists|i: int| 0 <= i < rs.len() && f(rs[i]) == seq_max(rs, f),
        forall|i: int| 0 <= i < rs.len() ==> seq_min(rs, f) <= #[trigger] f(rs[i]) <= seq_max(rs, f),
    decreases rs.len(),
{
    if rs.len() > 1 {
        lemma_min_max(rs.drop_last(), f);
        assert forall|i: int| 0 <= i < rs.len() - 1 implies #[trigger] rs.drop_last()[i] == rs[i] by {}
        let i1 = choose|i: int| 0 <= i < rs.drop_last().len() && f(rs.drop_last()[i]) == seq_min(rs.drop_last(), f);
        let i2 = choose|i: int| 0 <= i < rs.drop_last().len() && f(rs.drop_last()[i]) == seq_max(rs.drop_last(), f);
        assert(f(rs[i1]) == seq_min(rs.drop_last(), f));
        assert(f(rs[i2]) == seq_max(rs.drop_last(), f));
        assert forall|i: int| 0 <= i < rs.len() implies seq_min(rs, f) <= #[trigger] f(rs[i]) <= seq_max(rs, f) by {
            if i < rs.len() - 1 {
                assert(f(rs.drop_last()[i]) == f(rs[i]));
            }
        }
    } else {
        assert(f(rs[0]) == seq_min(rs, f));
    }
}

/// The bounding rect of `rs`, all of which end inside the coordinate
/// space.
fn bounding_rect(rs: &Vec<Rect>) -> (r: Rect)
    requires
        forall|i: int| 0 <= i < rs@.len() ==> on_screen(#[trigger] rs@[i]),
    ensures
        r == bounding(rs@),
{
    if rs.len() == 0 {
        return Rect { x: 0, y: 0, width: 0, height: 0 };
    }
    let ghost fx = |r: Rect| r.x as int;
    let ghost fy = |r: Rect| r.y as int;
    let ghost fxe = |r: Rect| r.x + r.width;
    let ghost fye = |r: Rect| r.y + r.height;
    let mut x: u16 = rs[0].x;
    let mut y: u16 = rs[0].y;
    let mut xe: u16 = rs[0].x + rs[0].width;
    let mut ye: u16 = rs[0].y + rs[0].height;
    let mut i: usize = 1;
    proof {
        assert(rs@.take(1) =~= seq![rs@[0]]);
    }
    while i < rs.len()
        invariant
            1 <= i <= rs@.len(),
            forall|k: int| 0 <= k < rs@.len() ==> on_screen(#[trigger] rs@[k]),
            x == seq_min(rs@.take(i as int), fx),
            y == seq_min(rs@.take(i as int), fy),
            xe == seq_max(rs@.take(i as int), fxe),
            ye == seq_max(rs@.take(i as int), fye),
            fx == (|r: Rect| r.x as int),
            fy == (|r: Rect| r.y as int),
            fxe == (|r: Rect| r.x + r.width),
            fye == (|r: Rect| r.y + r.height),
        decreases rs@.len() - i,
    {
        let r = rs[i];
        proof {
            assert(rs@.take(i + 1).drop_last() =~= rs@.take(i as int));
            assert(rs@.take(i + 1).last() == r);
            assert(on_screen(rs@[i as int]));
        }
        if r.x < x {
            x = r.x;
        }
        if r.y < y {
            y = r.y;
        }
        if r.x + r.width > xe {
            xe = r.x + r.width;
        }
        if r.y + r.height > ye {
            ye = r.y + r.height;
        }
        i = i + 1;
    }
    proof {
        assert(rs@.take(i as int) =~= rs@);
        lemma_min_max(rs@, fx);
        lemma_min_max(rs@, fxe);
        lemma_min_max(rs@, fy);
        lemma_min_max(rs@, fye);
        let k = choose|k: int| 0 <= k < rs@.len() && fx(rs@[k]) == seq_min(rs@, fx);
        assert(fxe(rs@[k]) <= xe);
        let k2 = choose|k: int| 0 <= k < rs@.len() && fy(rs@[k]) == seq_min(rs@, fy);
        assert(fye(rs@[k2]) <= ye);
    }
    Rect { x, y, width: xe - x, height: ye - y }
}

/// Every cached rect, collected in cache order.
fn collect_cached_rects(cache: &RenderCache) -> (v: Vec<Rect>)
    ensures
        v@ == cached_rects(*cache),
        forall|i: int| 0 <= i < v@.len() ==> on_screen(#[trigger] v@[i]),
{
    let ghost a = cache.frame_table().map_values(|e: (FrameId, Rect)| e.1);
    let ghost b = cache.sidebar_table().map_values(|e: (SidebarSlot, Rect)| e.1);
    let ghost s = cache.strip_table().map_values(|e: (FrameId, TabStripCache)| e.1.strip_rect);
    let mut v: Vec<Rect> = Vec::new();
    let n1 = cache.frame_rect_count();
    let mut i: usize = 0;
    while i < n1
        invariant
            n1 == cache.frame_table().len(),
            a == cache.frame_table().map_values(|e: (FrameId, Rect)| e.1),
            i <= n1,
            v@ == a.take(i as int),
            forall|k: int| 0 <= k < v@.len() ==> on_screen(#[trigger] v@[k]),
        decreases n1 - i,
    {
        let (_, r) = cache.frame_rect_at(i);
        v.push(r);
        proof {
            assert(a.take(i + 1) =~= a.take(i as int).push(r));
        }
        i = i + 1;
    }
    proof {
        assert(a.take(i as int) =~= a);
    }
    let n2 = cache.sidebar_rect_count();
    let mut j: usize = 0;
    while j < n2
        invariant
            n2 == cache.sidebar_table().len(),
            b == cache.sidebar_table().map_values(|e: (SidebarSlot, Rect)| e.1),
            j <= n2,
            v@ == a + b.take(j as int),
            forall|k: int| 0 <= k < v@.len() ==> on_screen(#[trigger] v@[k]),
        decreases n2 - j,
    {
        let (_, r) = cache.sidebar_rect_at(j);
        v.push(r);
        proof {
            assert(a + b.take(j + 1) =~= (a + b.take(j as int)).push(r));
        }
        j = j + 1;
    }
    proof {
        assert(b.take(j as int) =~= b);
    }
    let n3 = cache.tab_strip_count();
    let mut k: usize = 0;
    while k < n3
        invariant
            n3 == cache.strip_table().len(),
            s == cache.strip_table().map_values(|e: (FrameId, TabStripCache)| e.1.strip_rect),
            k <= n3,
            v@ == a + b + s.take(k as int),
            forall|m: int| 0 <= m < v@.len() ==> on_screen(#[trigger] v@[m]),
        decreases n3 - k,
    {
        let (_, strip) = cache.tab_strip_at(k);
        v.push(strip.strip_rect);
        proof {
            assert(a + b + s.take(k + 1) =~= (a + b + s.take(k as int)).push(strip.strip_rect));
        }
        k = k + 1;
    }
    proof {
        assert(s.take(k as int) =~= s);
    }
    v
}

/// Total area covered by the cached leaves: the bounding rect of every
/// cached rect (all zero before the first layout pass).
pub fn root_area(cache: &RenderCache) -> (r: Rect)
    ensures
        r == bounding(cached_rects(*cache)),
{
    let rects = collect_cached_rects(cache);
    bounding_rect(&rects)
}

/// The area the layout tree occupies, derived from the cached rects
/// (the same bounding rect as [`root_area`]).
pub fn outer_editor_area(cache: &RenderCache) -> (r: Rect)
    ensures
        r == bounding(cached_rects(*cache)),
{
    let rects = collect_cached_rects(cache);
    bounding_rect(&rects)
}

} // verus!
