//! Structural layout tree — the editor's closed set of layout shapes.
//!
//! Splits, frames and sidebars are a closed set of node kinds: third
//! parties extend the editor through content (a sidebar pane, a modal, a
//! command), never through new layout shapes. So the tree is a closed
//! enum walked by exhaustive match. A node is addressed by its path: the
//! list of `Split.children` indices from the root (`/pane/0/1`).

use vstd::prelude::*;

use crate::editor::editor::RenderCache;
use crate::editor::ids::{CursorId, FrameId};
use crate::geom::{Axis, Rect, SidebarSlot, sat_add16, sat_sub};
use crate::editor::tree::laws::{lemma_path_to_leaf_sound, lemma_view_addressable};

pub mod laws;
pub mod mutate;

verus! {

/// Identity of a layout leaf.
#[derive(Copy, Clone, Debug, PartialEq, Eq, Structural)]
pub enum LeafRef {
    Frame(FrameId),
    Sidebar(SidebarSlot),
}

/// What the layout tree reads while it paints: the geometry cached by
/// the last layout pass and which leaf has focus.
pub struct LayoutCtx<'a> {
    pub render_cache: &'a RenderCache,
    pub focused_leaf: Option<LeafRef>,
}

/// Editor-frame leaf: tabs over a single document body, plus per-frame
/// tab-strip scroll state.
pub struct LayoutFrame {
    pub frame: FrameId,
    pub tabs: Vec<CursorId>,
    pub active_tab: usize,
    /// Tab-strip scroll offset in cells.
    pub tab_strip_scroll: (u32, u32),
    /// One-shot request that the next tab-strip layout scrolls the active
    /// tab into view. Set by keyboard navigation and tab mutations,
    /// cleared by the layout pass.
    pub recenter_active: bool,
}

impl LayoutFrame {
    /// A frame showing the single tab `cursor`, asking to be scrolled
    /// into view.
    pub fn with_cursor(frame: FrameId, cursor: CursorId) -> (f: Self)
        ensures
            f.frame == frame,
            f.tabs@ == seq![cursor],
            f.active_tab == 0,
            f.tab_strip_scroll == (0u32, 0u32),
            f.recenter_active,
    {
        let mut tabs: Vec<CursorId> = Vec::new();
        tabs.push(cursor);
        Self { frame, tabs, active_tab: 0, tab_strip_scroll: (0, 0), recenter_active: true }
    }

    /// Activate a tab and request scroll-into-view (keyboard navigation
    /// and tab-mutating operations). Out-of-range indices leave the
    /// active tab alone but still request the scroll.
    pub fn set_active(&mut self, idx: usize)
        ensures
            final(self).active_tab == (if idx < old(self).tabs@.len() {
                idx
            } else {
                old(self).active_tab
            }),
            final(self).recenter_active,
            final(self).frame == old(self).frame,
            final(self).tabs@ == old(self).tabs@,
            final(self).tab_strip_scroll == old(self).tab_strip_scroll,
    {
        if idx < self.tabs.len() {
            self.active_tab = idx;
        }
        self.recenter_active = true;
    }

    /// Activate without disturbing the tab-strip scroll (click
    /// activation: the user already pointed at a visible tab).
    pub fn select_visible(&mut self, idx: usize)
        ensures
            final(self).active_tab == (if idx < old(self).tabs@.len() {
                idx
            } else {
                old(self).active_tab
            }),
            final(self).recenter_active == old(self).recenter_active,
            final(self).frame == old(self).frame,
            final(self).tabs@ == old(self).tabs@,
            final(self).tab_strip_scroll == old(self).tab_strip_scroll,
    {
        if idx < self.tabs.len() {
            self.active_tab = idx;
        }
    }

    /// The cursor of the active tab, if the active index is in range.
    pub fn active_cursor(&self) -> (c: Option<CursorId>)
        ensures
            c == (if self.active_tab < self.tabs@.len() {
                Some(self.tabs@[self.active_tab as int])
            } else {
                None
            }),
    {
        if self.active_tab < self.tabs.len() {
            Some(self.tabs[self.active_tab])
        } else {
            None
        }
    }
}

/// The area inside a sidebar's one-cell border, where its content is
/// painted.
pub fn sidebar_inner_rect(area: Rect) -> (r: Rect)
    ensures
        r.x == sat_add16(area.x as int, 1),
        r.y == sat_add16(area.y as int, 1),
        r.width == sat_sub(area.width as int, 2),
        r.height == sat_sub(area.height as int, 2),
{
    let x = area.x.saturating_add(1);
    let y = area.y.saturating_add(1);
    let w = area.width.saturating_sub(2);
    let h = area.height.saturating_sub(2);
    Rect { x, y, width: w, height: h }
}

/// Sidebar-slot leaf. The slot is its identity; `content` is the id of
/// the pane painted inside the sidebar chrome, if one is installed.
pub struct LayoutSidebar {
    pub slot: SidebarSlot,
    pub content: Option<u64>,
}

impl LayoutSidebar {
    pub fn empty(slot: SidebarSlot) -> (s: Self)
        ensures
            s.slot == slot,
            s.content is None,
    {
        Self { slot, content: None }
    }
}

/// Recursive split: children laid out along `axis` by integer weights.
pub struct LayoutSplit {
    pub axis: Axis,
    pub children: Vec<(LayoutNode, u16)>,
}

/// Closed enum of structural layout kinds.
pub enum LayoutNode {
    Split(LayoutSplit),
    Frame(LayoutFrame),
    Sidebar(LayoutSidebar),
}

/// Mathematical picture of a frame leaf.
pub struct FrameView {
    pub frame: FrameId,
    pub tabs: Seq<CursorId>,
    pub active_tab: usize,
    pub tab_strip_scroll: (u32, u32),
    pub recenter_active: bool,
}

/// Mathematical picture of a layout tree: the same shape, with each
/// split's children as a sequence of `(subtree, weight)` pairs.
pub enum NodeView {
    Split(Axis, Seq<(NodeView, u16)>),
    Frame(FrameView),
    Sidebar(SidebarSlot, Option<u64>),
}

impl View for LayoutFrame {
    type V = FrameView;

    open spec fn view(&self) -> FrameView {
        FrameView {
            frame: self.frame,
            tabs: self.tabs@,
            active_tab: self.active_tab,
            tab_strip_scroll: self.tab_strip_scroll,
            recenter_active: self.recenter_active,
        }
    }
}

/// The view of a node.
pub open spec fn node_view(n: LayoutNode) -> NodeView
    decreases n,
{
    match n {
        LayoutNode::Split(s) => NodeView::Split(s.axis, children_view(s.children@)),
        LayoutNode::Frame(f) => NodeView::Frame(f@),
        LayoutNode::Sidebar(s) => NodeView::Sidebar(s.slot, s.content),
    }
}

/// The view of a list of weighted children.
pub open spec fn children_view(cs: Seq<(LayoutNode, u16)>) -> Seq<(NodeView, u16)>
    decreases cs,
{
    if cs.len() == 0 {
        Seq::empty()
    } else {
        children_view(cs.drop_last()).push((node_view(cs.last().0), cs.last().1))
    }
}

impl View for LayoutNode {
    type V = NodeView;

    open spec fn view(&self) -> NodeView {
        node_view(*self)
    }
}

/// `children_view` of a pushed list.
pub proof fn lemma_children_view_push(cs: Seq<(LayoutNode, u16)>, x: (LayoutNode, u16))
    ensures
        children_view(cs.push(x)) == children_view(cs).push((node_view(x.0), x.1)),
{
    assert(cs.push(x).drop_last() =~= cs);
}

/// `children_view` of an updated list.
pub proof fn lemma_children_view_update(cs: Seq<(LayoutNode, u16)>, i: int, x: (LayoutNode, u16))
    requires
        0 <= i < cs.len(),
    ensures
        children_view(cs.update(i, x)) == children_view(cs).update(i, (node_view(x.0), x.1)),
{
    lemma_children_view(cs);
    lemma_children_view(cs.update(i, x));
    assert(children_view(cs.update(i, x)) =~= children_view(cs).update(i, (node_view(x.0), x.1)));
}

/// `children_view` of a list with one element removed.
pub proof fn lemma_children_view_remove(cs: Seq<(LayoutNode, u16)>, i: int)
    requires
        0 <= i < cs.len(),
    ensures
        children_view(cs.remove(i)) == children_view(cs).remove(i),
{
    lemma_children_view(cs);
    lemma_children_view(cs.remove(i));
    assert(children_view(cs.remove(i)) =~= children_view(cs).remove(i));
}

/// `children_view` of a list with one element inserted.
pub proof fn lemma_children_view_insert(cs: Seq<(LayoutNode, u16)>, i: int, x: (LayoutNode, u16))
    requires
        0 <= i <= cs.len(),
    ensures
        children_view(cs.insert(i, x)) == children_view(cs).insert(i, (node_view(x.0), x.1)),
{
    lemma_children_view(cs);
    lemma_children_view(cs.insert(i, x));
    assert(children_view(cs.insert(i, x)) =~= children_view(cs).insert(i, (node_view(x.0), x.1)));
}

/// `children_view` keeps the length and views each child in place.
pub proof fn lemma_children_view(cs: Seq<(LayoutNode, u16)>)
    ensures
        children_view(cs).len() == cs.len(),
        forall|i: int|
            0 <= i < cs.len() ==> #[trigger] children_view(cs)[i] == (node_view(cs[i].0), cs[i].1),
    decreases cs.len(),
{
    if cs.len() > 0 {
        lemma_children_view(cs.drop_last());
    }
}

impl NodeView {
    /// Identity of this node as a leaf; `None` for a split.
    pub open spec fn leaf_id(self) -> Option<LeafRef> {
        match self {
            NodeView::Frame(f) => Some(LeafRef::Frame(f.frame)),
            NodeView::Sidebar(slot, _) => Some(LeafRef::Sidebar(slot)),
            NodeView::Split(..) => None,
        }
    }

    /// The node reached by following `path` from here: each index picks
    /// a child of the split it lands on. `None` when an index is out of
    /// range or the walk reaches a leaf with indices left over.
    pub open spec fn at_path(self, path: Seq<usize>) -> Option<NodeView>
        decreases path.len(),
    {
        if path.len() == 0 {
            Some(self)
        } else {
            match self {
                NodeView::Split(_, cs) => if path[0] < cs.len() {
                    cs[path[0] as int].0.at_path(path.drop_first())
                } else {
                    None
                },
                _ => None,
            }
        }
    }

    /// Frame ids of the subtree, in tree (pre-)order.
    pub open spec fn frames(self) -> Seq<FrameId>
        decreases self,
    {
        match self {
            NodeView::Frame(f) => seq![f.frame],
            NodeView::Sidebar(..) => Seq::empty(),
            NodeView::Split(_, cs) => frames_in(cs),
        }
    }

    /// Whether a sidebar leaf for `slot` occurs in the subtree.
    pub open spec fn sidebar_present(self, slot: SidebarSlot) -> bool
        decreases self,
    {
        match self {
            NodeView::Sidebar(s, _) => s == slot,
            NodeView::Frame(_) => false,
            NodeView::Split(_, cs) => sidebar_in(cs, slot),
        }
    }

    /// The first frame leaf (in tree order) with id `fid`.
    pub open spec fn find_frame(self, fid: FrameId) -> Option<FrameView>
        decreases self,
    {
        match self {
            NodeView::Frame(f) => if f.frame == fid {
                Some(f)
            } else {
                None
            },
            NodeView::Sidebar(..) => None,
            NodeView::Split(_, cs) => find_frame_in(cs, fid),
        }
    }

    /// The first path (in tree order) that leads to the leaf `target`.
    pub open spec fn path_to_leaf(self, target: LeafRef) -> Option<Seq<usize>>
        decreases self,
    {
        if self.leaf_id() == Some(target) {
            Some(Seq::empty())
        } else {
            match self {
                NodeView::Split(_, cs) => path_in(cs, target),
                _ => None,
            }
        }
    }
}

impl NodeView {
    /// The tree with the node at `path` replaced by `new` (the empty path
    /// replaces the whole tree). Unchanged when `path` leads nowhere.
    pub open spec fn replaced(self, path: Seq<usize>, new: NodeView) -> NodeView
        decreases path.len(),
    {
        if path.len() == 0 {
            new
        } else {
            match self {
                NodeView::Split(a, cs) => if path[0] < cs.len() {
                    NodeView::Split(
                        a,
                        cs.update(
                            path[0] as int,
                            (cs[path[0] as int].0.replaced(path.drop_first(), new), cs[path[0] as int].1),
                        ),
                    )
                } else {
                    self
                },
                _ => self,
            }
        }
    }

    /// The tree with the child at `path` dropped from its parent split.
    /// Unchanged when `path` is empty or leads nowhere.
    pub open spec fn removed(self, path: Seq<usize>) -> NodeView
        decreases path.len(),
    {
        if path.len() == 0 {
            self
        } else {
            match self {
                NodeView::Split(a, cs) => if path[0] < cs.len() {
                    if path.len() == 1 {
                        NodeView::Split(a, cs.remove(path[0] as int))
                    } else {
                        NodeView::Split(
                            a,
                            cs.update(
                                path[0] as int,
                                (cs[path[0] as int].0.removed(path.drop_first()), cs[path[0] as int].1),
                            ),
                        )
                    }
                } else {
                    self
                },
                _ => self,
            }
        }
    }

    /// The tree with every single-child split replaced by its child,
    /// innermost first, so chains of single-child splits vanish at once.
    pub open spec fn collapsed(self) -> NodeView
        decreases self,
    {
        match self {
            NodeView::Split(a, cs) => {
                let cs2 = collapsed_children(cs);
                if cs2.len() == 1 {
                    cs2[0].0
                } else {
                    NodeView::Split(a, cs2)
                }
            },
            _ => self,
        }
    }

    /// The tree wrapped as the sole child (weight 80) of a horizontal
    /// split.
    pub open spec fn lifted(self) -> NodeView {
        NodeView::Split(Axis::Horizontal, seq![(self, 80u16)])
    }
}

/// Each child collapsed, weights kept.
pub open spec fn collapsed_children(cs: Seq<(NodeView, u16)>) -> Seq<(NodeView, u16)>
    decreases cs,
{
    if cs.len() == 0 {
        Seq::empty()
    } else {
        collapsed_children(cs.drop_last()).push((cs.last().0.collapsed(), cs.last().1))
    }
}

impl NodeView {
    /// The first path (in tree order) to a frame leaf.
    pub open spec fn first_frame(self) -> Option<Seq<usize>>
        decreases self,
    {
        match self {
            NodeView::Frame(_) => Some(Seq::empty()),
            NodeView::Sidebar(..) => None,
            NodeView::Split(_, cs) => first_frame_in(cs),
        }
    }
}

/// The first path to a frame leaf through one of `cs`.
pub open spec fn first_frame_in(cs: Seq<(NodeView, u16)>) -> Option<Seq<usize>>
    decreases cs,
{
    if cs.len() == 0 {
        None
    } else {
        match first_frame_in(cs.drop_last()) {
            Some(p) => Some(p),
            None => match cs.last().0.first_frame() {
                Some(p) => Some(seq![(cs.len() - 1) as usize] + p),
                None => None,
            },
        }
    }
}

/// Frame ids of a list of children, in order.
pub open spec fn frames_in(cs: Seq<(NodeView, u16)>) -> Seq<FrameId>
    decreases cs,
{
    if cs.len() == 0 {
        Seq::empty()
    } else {
        frames_in(cs.drop_last()) + cs.last().0.frames()
    }
}

/// Whether one of `cs` holds a sidebar leaf for `slot`.
pub open spec fn sidebar_in(cs: Seq<(NodeView, u16)>, slot: SidebarSlot) -> bool
    decreases cs,
{
    if cs.len() == 0 {
        false
    } else {
        sidebar_in(cs.drop_last(), slot) || cs.last().0.sidebar_present(slot)
    }
}

/// The first frame with id `fid` among `cs`, in tree order.
pub open spec fn find_frame_in(cs: Seq<(NodeView, u16)>, fid: FrameId) -> Option<FrameView>
    decreases cs,
{
    if cs.len() == 0 {
        None
    } else {
        match find_frame_in(cs.drop_last(), fid) {
            Some(f) => Some(f),
            None => cs.last().0.find_frame(fid),
        }
    }
}

/// The first path to `target` through one of `cs` (the path starts with
/// the index of that child).
pub open spec fn path_in(cs: Seq<(NodeView, u16)>, target: LeafRef) -> Option<Seq<usize>>
    decreases cs,
{
    if cs.len() == 0 {
        None
    } else {
        match path_in(cs.drop_last(), target) {
            Some(p) => Some(p),
            None => match cs.last().0.path_to_leaf(target) {
                Some(p) => Some(seq![(cs.len() - 1) as usize] + p),
                None => None,
            },
        }
    }
}

impl LayoutNode {
    /// A frame leaf showing the single tab `cursor`.
    pub fn frame(frame: FrameId, cursor: CursorId) -> (n: Self)
        ensures
            n@ == NodeView::Frame(
                FrameView {
                    frame,
                    tabs: seq![cursor],
                    active_tab: 0,
                    tab_strip_scroll: (0u32, 0u32),
                    recenter_active: true,
                },
            ),
    {
        LayoutNode::Frame(LayoutFrame::with_cursor(frame, cursor))
    }

    /// An empty sidebar leaf for `slot`.
    pub fn sidebar(slot: SidebarSlot) -> (n: Self)
        ensures
            n@ == NodeView::Sidebar(slot, None),
    {
        LayoutNode::Sidebar(LayoutSidebar::empty(slot))
    }

    /// Identity of this node as a leaf, or `None` if it's a split.
    pub fn leaf_id(&self) -> (r: Option<LeafRef>)
        ensures
            r == self@.leaf_id(),
    {
        match self {
            LayoutNode::Frame(f) => Some(LeafRef::Frame(f.frame)),
            LayoutNode::Sidebar(s) => Some(LeafRef::Sidebar(s.slot)),
            LayoutNode::Split(_) => None,
        }
    }

    /// Frames and sidebars accept focus; splits don't.
    pub fn is_focusable(&self) -> (b: bool)
        ensures
            b == !(self@ is Split),
    {
        match self {
            LayoutNode::Split(_) => false,
            _ => true,
        }
    }

    /// Resolve a path of `Split.children` indices to the target node.
    pub fn at_path(&self, path: &[usize]) -> (r: Option<&LayoutNode>)
        ensures
            match r {
                Some(n) => self@.at_path(path@) == Some(n@),
                None => self@.at_path(path@) is None,
            },
    {
        let mut cur: &LayoutNode = self;
        let mut k: usize = 0;
        proof {
            assert(path@.skip(0) =~= path@);
        }
        while k < path.len()
            invariant
                k <= path.len(),
                self@.at_path(path@) == cur@.at_path(path@.skip(k as int)),
            decreases path.len() - k,
        {
            proof {
                assert(path@.skip(k as int).drop_first() =~= path@.skip(k + 1));
            }
            match cur {
                LayoutNode::Split(s) => {
                    let idx = path[k];
                    if idx >= s.children.len() {
                        proof {
                            lemma_children_view(s.children@);
                        }
                        return None;
                    }
                    proof {
                        lemma_children_view(s.children@);
                    }
                    cur = &s.children[idx].0;
                },
                _ => {
                    return None;
                },
            }
            k = k + 1;
        }
        proof {
            assert(path@.skip(k as int).len() == 0);
        }
        Some(cur)
    }

    /// Every `FrameId` in the tree, in tree order.
    pub fn frames(&self) -> (v: Vec<FrameId>)
        ensures
            v@ == self@.frames(),
    {
        let mut out: Vec<FrameId> = Vec::new();
        collect_frames(self, &mut out);
        proof {
            assert(out@ =~= Seq::<FrameId>::empty() + self@.frames());
        }
        out
    }

    /// Whether a sidebar leaf for `slot` is present anywhere in the tree.
    pub fn sidebar_present(&self, slot: SidebarSlot) -> (b: bool)
        ensures
            b == self@.sidebar_present(slot),
        decreases self,
    {
        match self {
            LayoutNode::Sidebar(s) => s.slot == slot,
            LayoutNode::Frame(_) => false,
            LayoutNode::Split(s) => {
                let ghost cv = children_view(s.children@);
                proof {
                    lemma_children_view(s.children@);
                    assert(cv.take(0) =~= Seq::<(NodeView, u16)>::empty());
                }
                let mut i: usize = 0;
                while i < s.children.len()
                    invariant
                        *self == LayoutNode::Split(*s),
                        i <= s.children@.len(),
                        cv == children_view(s.children@),
                        cv.len() == s.children@.len(),
                        forall|j: int|
                            0 <= j < s.children@.len() ==> #[trigger] cv[j] == (
                                node_view(s.children@[j].0),
                                s.children@[j].1,
                            ),
                        !sidebar_in(cv.take(i as int), slot),
                    decreases s.children@.len() - i,
                {
                    proof {
                        assert(cv.take(i + 1).drop_last() =~= cv.take(i as int));
                    }
                    proof {
                        lemma_child_decreases(*self, i as int);
                    }
                    if s.children[i].0.sidebar_present(slot) {
                        proof {
                            lemma_sidebar_in_prefix(cv, i + 1, slot);
                        }
                        return true;
                    }
                    i = i + 1;
                }
                proof {
                    assert(cv.take(i as int) =~= cv);
                }
                false
            },
        }
    }
}

impl LayoutNode {
    /// Find a frame leaf by id (the first one in tree order).
    pub fn find_frame(&self, fid: FrameId) -> (r: Option<&LayoutFrame>)
        ensures
            match r {
                Some(f) => self@.find_frame(fid) == Some(f@),
                None => self@.find_frame(fid) is None,
            },
        decreases self,
    {
        match self {
            LayoutNode::Frame(f) => if f.frame == fid {
                Some(f)
            } else {
                None
            },
            LayoutNode::Sidebar(_) => None,
            LayoutNode::Split(s) => {
                let ghost cv = children_view(s.children@);
                proof {
                    lemma_children_view(s.children@);
                    assert(cv.take(0) =~= Seq::<(NodeView, u16)>::empty());
                }
                let mut i: usize = 0;
                while i < s.children.len()
                    invariant
                        *self == LayoutNode::Split(*s),
                        i <= s.children@.len(),
                        cv == children_view(s.children@),
                        cv.len() == s.children@.len(),
                        forall|j: int|
                            0 <= j < s.children@.len() ==> #[trigger] cv[j] == (
                                node_view(s.children@[j].0),
                                s.children@[j].1,
                            ),
                        find_frame_in(cv.take(i as int), fid) is None,
                    decreases s.children@.len() - i,
                {
                    proof {
                        assert(cv.take(i + 1).drop_last() =~= cv.take(i as int));
                        lemma_child_decreases(*self, i as int);
                    }
                    let found = s.children[i].0.find_frame(fid);
                    if found.is_some() {
                        proof {
                            lemma_find_frame_in_prefix(cv, i + 1, fid);
                        }
                        return found;
                    }
                    i = i + 1;
                }
                proof {
                    assert(cv.take(i as int) =~= cv);
                }
                None
            },
        }
    }

    /// Path of `Split.children` indices that leads to `target` (the first
    /// such path in tree order), or `None` if no such leaf exists.
    pub fn path_to_leaf(&self, target: LeafRef) -> (r: Option<Vec<usize>>)
        ensures
            match r {
                Some(p) => self@.path_to_leaf(target) == Some(p@),
                None => self@.path_to_leaf(target) is None,
            },
    {
        let mut p: Vec<usize> = Vec::new();
        if path_walk(self, target, &mut p) {
            proof {
                assert(p@ =~= Seq::<usize>::empty() + self@.path_to_leaf(target).unwrap());
            }
            Some(p)
        } else {
            None
        }
    }
}

impl LayoutNode {
    /// Mutable counterpart of [`Self::at_path`]: whatever the caller leaves
    /// in the returned node ends up at `path` in the tree.
    pub fn at_path_mut(&mut self, path: &[usize]) -> (r: Option<&mut LayoutNode>)
        ensures
            match r {
                Some(n) => {
                    &&& old(self)@.at_path(path@) == Some(n@)
                    &&& final(self)@ == old(self)@.replaced(path@, final(n)@)
                },
                None => old(self)@.at_path(path@) is None && final(self)@ == old(self)@,
            },
    {
        proof {
            assert(path@.skip(0) =~= path@);
        }
        at_path_mut_from(self, path, 0)
    }

    /// Find a frame leaf by id for mutation: the frame the path
    /// `path_to_leaf(Frame(fid))` leads to. Whatever the caller leaves in
    /// it ends up at that path.
    pub fn find_frame_mut(&mut self, fid: FrameId) -> (r: Option<&mut LayoutFrame>)
        ensures
            r is Some == old(self)@.path_to_leaf(LeafRef::Frame(fid)) is Some,
            match r {
                Some(f) => {
                    let p = old(self)@.path_to_leaf(LeafRef::Frame(fid)).unwrap();
                    &&& f.frame == fid
                    &&& old(self)@.at_path(p) == Some(NodeView::Frame(f@))
                    &&& final(self)@ == old(self)@.replaced(p, NodeView::Frame(final(f)@))
                },
                None => final(self)@ == old(self)@,
            },
    {
        let ghost t = LeafRef::Frame(fid);
        match self.path_to_leaf(LeafRef::Frame(fid)) {
            None => None,
            Some(p) => {
                proof {
                    lemma_view_addressable(*self);
                    lemma_path_to_leaf_sound(self@, t);
                }
                match self.at_path_mut(&p) {
                    Some(LayoutNode::Frame(f)) => Some(f),
                    Some(_) => {
                        proof {
                            assert(false);
                        }
                        None
                    },
                    None => None,
                }
            },
        }
    }

    /// Find the sidebar leaf for `slot` for mutation: the sidebar the path
    /// `path_to_leaf(Sidebar(slot))` leads to.
    pub fn find_sidebar_mut(&mut self, slot: SidebarSlot) -> (r: Option<&mut LayoutSidebar>)
        ensures
            r is Some == old(self)@.path_to_leaf(LeafRef::Sidebar(slot)) is Some,
            match r {
                Some(sb) => {
                    let p = old(self)@.path_to_leaf(LeafRef::Sidebar(slot)).unwrap();
                    &&& sb.slot == slot
                    &&& old(self)@.at_path(p) == Some(NodeView::Sidebar(slot, sb.content))
                    &&& final(self)@ == old(self)@.replaced(
                        p,
                        NodeView::Sidebar(final(sb).slot, final(sb).content),
                    )
                },
                None => final(self)@ == old(self)@,
            },
    {
        let ghost t = LeafRef::Sidebar(slot);
        match self.path_to_leaf(LeafRef::Sidebar(slot)) {
            None => None,
            Some(p) => {
                proof {
                    lemma_view_addressable(*self);
                    lemma_path_to_leaf_sound(self@, t);
                }
                match self.at_path_mut(&p) {
                    Some(LayoutNode::Sidebar(sb)) => Some(sb),
                    Some(_) => {
                        proof {
                            assert(false);
                        }
                        None
                    },
                    None => None,
                }
            },
        }
    }
}

fn at_path_mut_from<'a>(node: &'a mut LayoutNode, path: &[usize], k: usize) -> (r: Option<
    &'a mut LayoutNode,
>)
    requires
        k <= path@.len(),
    ensures
        match r {
            Some(n) => {
                &&& old(node)@.at_path(path@.skip(k as int)) == Some(n@)
                &&& final(node)@ == old(node)@.replaced(path@.skip(k as int), final(n)@)
            },
            None => old(node)@.at_path(path@.skip(k as int)) is None && final(node)@ == old(
                node,
            )@,
        },
    decreases path@.len() - k,
{
    if k == path.len() {
        return Some(node);
    }
    proof {
        assert(path@.skip(k as int).drop_first() =~= path@.skip(k + 1));
    }
    match node {
        LayoutNode::Split(s) => {
            let idx = path[k];
            proof {
                lemma_children_view(s.children@);
            }
            if idx >= s.children.len() {
                return None;
            }
            let ghost cs0 = s.children@;
            proof {
                assert forall|x: (LayoutNode, u16)|
                    #![trigger cs0.update(idx as int, x)]
                    children_view(cs0.update(idx as int, x)) == children_view(cs0).update(
                        idx as int,
                        (node_view(x.0), x.1),
                    ) by {
                    lemma_children_view_update(cs0, idx as int, x);
                }
                assert(cs0.update(idx as int, cs0[idx as int]) =~= cs0);
                assert(children_view(cs0).update(
                    idx as int,
                    (node_view(cs0[idx as int].0), cs0[idx as int].1),
                ) =~= children_view(cs0));
            }
            at_path_mut_from(&mut s.children[idx].0, path, k + 1)
        },
        _ => None,
    }
}

/// Path to the first frame leaf in tree order, or the empty path (the
/// root) when the tree holds no frame. Sidebars are skipped: landing
/// focus on a sidebar after closing a split would surprise the user.
pub fn first_frame_path(root: &LayoutNode) -> (p: Vec<usize>)
    ensures
        p@ == (match root@.first_frame() {
            Some(q) => q,
            None => Seq::empty(),
        }),
{
    let mut p: Vec<usize> = Vec::new();
    if first_frame_walk(root, &mut p) {
        proof {
            assert(p@ =~= Seq::<usize>::empty() + root@.first_frame().unwrap());
        }
        p
    } else {
        Vec::new()
    }
}

fn first_frame_walk(node: &LayoutNode, out: &mut Vec<usize>) -> (found: bool)
    ensures
        found == node@.first_frame() is Some,
        found ==> final(out)@ == old(out)@ + node@.first_frame().unwrap(),
        !found ==> final(out)@ == old(out)@,
    decreases node,
{
    match node {
        LayoutNode::Frame(_) => {
            proof {
                assert(old(out)@ =~= old(out)@ + Seq::<usize>::empty());
            }
            true
        },
        LayoutNode::Sidebar(_) => false,
        LayoutNode::Split(s) => {
            let ghost cv = children_view(s.children@);
            let ghost start = out@;
            proof {
                lemma_children_view(s.children@);
                assert(cv.take(0) =~= Seq::<(NodeView, u16)>::empty());
            }
            let mut i: usize = 0;
            while i < s.children.len()
                invariant
                    *node == LayoutNode::Split(*s),
                    i <= s.children@.len(),
                    cv == children_view(s.children@),
                    cv.len() == s.children@.len(),
                    forall|j: int|
                        0 <= j < s.children@.len() ==> #[trigger] cv[j] == (
                            node_view(s.children@[j].0),
                            s.children@[j].1,
                        ),
                    first_frame_in(cv.take(i as int)) is None,
                    out@ == start,
                    start == old(out)@,
                decreases s.children@.len() - i,
            {
                proof {
                    assert(cv.take(i + 1).drop_last() =~= cv.take(i as int));
                    lemma_child_decreases(*node, i as int);
                }
                out.push(i);
                if first_frame_walk(&s.children[i].0, out) {
                    proof {
                        let q = cv[i as int].0.first_frame().unwrap();
                        assert(first_frame_in(cv.take(i + 1)) == Some(seq![i] + q));
                        lemma_first_frame_in_prefix(cv, i + 1);
                        assert(node@ == NodeView::Split(s.axis, cv));
                        assert(out@ =~= start + (seq![i] + q));
                    }
                    return true;
                }
                out.pop();
                proof {
                    assert(out@ =~= start);
                }
                i = i + 1;
            }
            proof {
                assert(cv.take(i as int) =~= cv);
            }
            false
        },
    }
}

proof fn lemma_first_frame_in_prefix(cs: Seq<(NodeView, u16)>, n: int)
    requires
        0 < n <= cs.len(),
        first_frame_in(cs.take(n)) is Some,
    ensures
        first_frame_in(cs) == first_frame_in(cs.take(n)),
    decreases cs.len() - n,
{
    if n < cs.len() {
        assert(cs.take(n + 1).drop_last() =~= cs.take(n));
        lemma_first_frame_in_prefix(cs, n + 1);
    } else {
        assert(cs.take(n) =~= cs);
    }
}

/// Depth-first search for `target` below `node`: on success the path to
/// it (relative to `node`) is appended to `out`; on failure `out` is left
/// as it was.
fn path_walk(node: &LayoutNode, target: LeafRef, out: &mut Vec<usize>) -> (found: bool)
    ensures
        found == node@.path_to_leaf(target) is Some,
        found ==> final(out)@ == old(out)@ + node@.path_to_leaf(target).unwrap(),
        !found ==> final(out)@ == old(out)@,
    decreases node,
{
    if node.leaf_id() == Some(target) {
        proof {
            assert(old(out)@ =~= old(out)@ + Seq::<usize>::empty());
        }
        return true;
    }
    match node {
        LayoutNode::Split(s) => {
            let ghost cv = children_view(s.children@);
            let ghost start = out@;
            proof {
                lemma_children_view(s.children@);
                assert(cv.take(0) =~= Seq::<(NodeView, u16)>::empty());
            }
            let mut i: usize = 0;
            while i < s.children.len()
                invariant
                    *node == LayoutNode::Split(*s),
                    node@.leaf_id() != Some(target),
                    i <= s.children@.len(),
                    cv == children_view(s.children@),
                    cv.len() == s.children@.len(),
                    forall|j: int|
                        0 <= j < s.children@.len() ==> #[trigger] cv[j] == (
                            node_view(s.children@[j].0),
                            s.children@[j].1,
                        ),
                    path_in(cv.take(i as int), target) is None,
                    out@ == start,
                    start == old(out)@,
                decreases s.children@.len() - i,
            {
                proof {
                    assert(cv.take(i + 1).drop_last() =~= cv.take(i as int));
                    lemma_child_decreases(*node, i as int);
                }
                out.push(i);
                if path_walk(&s.children[i].0, target, out) {
                    proof {
                        let q = cv[i as int].0.path_to_leaf(target).unwrap();
                        assert(path_in(cv.take(i + 1), target) == Some(seq![i] + q));
                        lemma_path_in_prefix(cv, i + 1, target);
                        assert(node@ == NodeView::Split(s.axis, cv));
                        assert(out@ =~= start + (seq![i] + q));
                    }
                    return true;
                }
                out.pop();
                proof {
                    assert(out@ =~= start);
                }
                i = i + 1;
            }
            proof {
                assert(cv.take(i as int) =~= cv);
            }
            false
        },
        _ => false,
    }
}

/// Once a prefix of `cs` holds a frame `fid`, the whole list yields the
/// same (first) one.
proof fn lemma_find_frame_in_prefix(cs: Seq<(NodeView, u16)>, n: int, fid: FrameId)
    requires
        0 < n <= cs.len(),
        find_frame_in(cs.take(n), fid) is Some,
    ensures
        find_frame_in(cs, fid) == find_frame_in(cs.take(n), fid),
    decreases cs.len() - n,
{
    if n < cs.len() {
        assert(cs.take(n + 1).drop_last() =~= cs.take(n));
        lemma_find_frame_in_prefix(cs, n + 1, fid);
    } else {
        assert(cs.take(n) =~= cs);
    }
}

/// Once a prefix of `cs` holds a path to `target`, the whole list yields
/// the same (first) one.
proof fn lemma_path_in_prefix(cs: Seq<(NodeView, u16)>, n: int, target: LeafRef)
    requires
        0 < n <= cs.len(),
        path_in(cs.take(n), target) is Some,
    ensures
        path_in(cs, target) == path_in(cs.take(n), target),
    decreases cs.len() - n,
{
    if n < cs.len() {
        assert(cs.take(n + 1).drop_last() =~= cs.take(n));
        lemma_path_in_prefix(cs, n + 1, target);
    } else {
        assert(cs.take(n) =~= cs);
    }
}

/// Appends the frame ids of `node` to `out`, in tree order.
fn collect_frames(node: &LayoutNode, out: &mut Vec<FrameId>)
    ensures
        final(out)@ == old(out)@ + node@.frames(),
    decreases node,
{
    match node {
        LayoutNode::Frame(f) => {
            out.push(f.frame);
        },
        LayoutNode::Sidebar(_) => {},
        LayoutNode::Split(s) => {
            let ghost cv = children_view(s.children@);
            let ghost start = out@;
            proof {
                lemma_children_view(s.children@);
                assert(cv.take(0) =~= Seq::<(NodeView, u16)>::empty());
                assert(out@ =~= start + frames_in(cv.take(0)));
            }
            let mut i: usize = 0;
            while i < s.children.len()
                invariant
                    *node == LayoutNode::Split(*s),
                    i <= s.children@.len(),
                    cv == children_view(s.children@),
                    cv.len() == s.children@.len(),
                    forall|j: int|
                        0 <= j < s.children@.len() ==> #[trigger] cv[j] == (
                            node_view(s.children@[j].0),
                            s.children@[j].1,
                        ),
                    out@ == start + frames_in(cv.take(i as int)),
                decreases s.children@.len() - i,
            {
                proof {
                    lemma_child_decreases(*node, i as int);
                }
                collect_frames(&s.children[i].0, out);
                proof {
                    assert(cv.take(i + 1).drop_last() =~= cv.take(i as int));
                    assert(out@ =~= start + frames_in(cv.take(i + 1)));
                }
                i = i + 1;
            }
            proof {
                assert(cv.take(i as int) =~= cv);
            }
        },
    }
}

/// A split decreases to each of its children (termination of the walks).
pub(crate) proof fn lemma_child_decreases(n: LayoutNode, i: int)
    requires
        n is Split,
        0 <= i < n->Split_0.children@.len(),
    ensures
        decreases_to!(n => n->Split_0.children@[i].0),
{
    let s = n->Split_0;
    assert(decreases_to!(n => s));
    assert(decreases_to!(s => s.children));
    assert(decreases_to!(s.children => s.children@));
    assert(decreases_to!(s.children@ => s.children@[i]));
}

/// Once a prefix of `cs` holds the sidebar, every longer prefix does.
proof fn lemma_sidebar_in_prefix(cs: Seq<(NodeView, u16)>, n: int, slot: SidebarSlot)
    requires
        0 < n <= cs.len(),
        sidebar_in(cs.take(n), slot),
    ensures
        sidebar_in(cs, slot),
    decreases cs.len() - n,
{
    if n < cs.len() {
        assert(cs.take(n + 1).drop_last() =~= cs.take(n));
        lemma_sidebar_in_prefix(cs, n + 1, slot);
    } else {
        assert(cs.take(n) =~= cs);
    }
}

} // verus!
