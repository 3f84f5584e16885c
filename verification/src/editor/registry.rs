//! Pane registry — owner of the structural layout tree.
//!
//! Every walk, lookup and mutation of the layout tree goes through the
//! registry, which also speaks the `/pane(/<i>)*` namespace: pane paths
//! name nodes by their `Split.children` indices below the root.

use vstd::prelude::*;

use crate::editor::focus_chain::{pane_path_chars, pane_path_from_indices};
use crate::editor::ids::FrameId;
use crate::editor::tree::{
    LayoutFrame, LayoutNode, LayoutSidebar, LayoutSplit, LeafRef, NodeView, children_view,
    lemma_child_decreases, lemma_children_view, mutate, node_view,
};
use crate::geom::{Axis, SidebarSlot};
use crate::editor::tree::laws::{addressable, lemma_view_addressable};
use crate::paths::seg_is;
use crate::text::{parse_u64, spec_parse_u64};

verus! {

pub struct PaneRegistry {
    root: LayoutNode,
}

impl View for PaneRegistry {
    type V = NodeView;

    closed spec fn view(&self) -> NodeView {
        self.root@
    }
}

/// Every path that names a node of the tree, in pre-order: the root
/// first, then each child's paths in child order.
pub open spec fn all_paths(n: NodeView) -> Seq<Seq<usize>>
    decreases n,
{
    match n {
        NodeView::Split(_, cs) => seq![Seq::<usize>::empty()] + paths_in(cs),
        _ => seq![Seq::<usize>::empty()],
    }
}

/// Paths through the children `cs`, each led by the child's index.
pub open spec fn paths_in(cs: Seq<(NodeView, u16)>) -> Seq<Seq<usize>>
    decreases cs,
{
    if cs.len() == 0 {
        Seq::empty()
    } else {
        paths_in(cs.drop_last()) + all_paths(cs.last().0).map_values(
            |p: Seq<usize>| seq![(cs.len() - 1) as usize] + p,
        )
    }
}

/// A decimal segment that fits a `usize`.
pub open spec fn spec_parse_index(s: Seq<char>) -> Option<usize> {
    match spec_parse_u64(s) {
        Some(n) => if n <= usize::MAX {
            Some(n as usize)
        } else {
            None
        },
        None => None,
    }
}

/// Whether every segment from position `from` on is a decimal index.
pub open spec fn all_indices(segs: Seq<Seq<char>>, from: int) -> bool {
    forall|i: int| from <= i < segs.len() ==> #[trigger] spec_parse_index(segs[i]) is Some
}

/// Decode `/pane(/<i>)*` (as its segment texts) into child indices.
pub open spec fn spec_pane_indices(segs: Seq<Seq<char>>) -> Option<Seq<usize>> {
    if segs.len() > 0 && segs[0] == seq!['p', 'a', 'n', 'e'] && all_indices(segs, 1) {
        Some(Seq::new((segs.len() - 1) as nat, |i: int| spec_parse_index(segs[i + 1]).unwrap()))
    } else {
        None
    }
}

/// Decode the segments of a `/pane(/<i>)*` path into child indices.
/// `None` when the first segment isn't `pane` or a later one isn't a
/// decimal index.
pub fn pane_path_indices(segs: &[String]) -> (r: Option<Vec<usize>>)
    ensures
        match r {
            Some(v) => spec_pane_indices(segs@.map_values(|s: String| s@)) == Some(v@),
            None => spec_pane_indices(segs@.map_values(|s: String| s@)) is None,
        },
{
    let ghost sc = segs@.map_values(|s: String| s@);
    proof {
        reveal_strlit("pane");
        assert("pane"@ =~= seq!['p', 'a', 'n', 'e']);
        assert(sc.len() == segs@.len());
        if segs@.len() > 0 {
            assert(sc[0] == segs@[0]@);
        }
    }
    if segs.len() == 0 || !seg_is(&segs[0], "pane") {
        return None;
    }
    proof {
        assert(sc.subrange(0, 1) =~= seq![sc[0]]);
    }
    let mut out: Vec<usize> = Vec::new();
    let mut i: usize = 1;
    while i < segs.len()
        invariant
            1 <= i <= segs@.len(),
            sc == segs@.map_values(|s: String| s@),
            all_indices(sc.subrange(0, i as int), 1),
            out@.len() == i - 1,
            forall|k: int| 0 <= k < i - 1 ==> out@[k] == spec_parse_index(sc[k + 1]).unwrap(),
        decreases segs@.len() - i,
    {
        proof {
            assert(sc[i as int] == segs@[i as int]@);
        }
        match parse_u64(segs[i].as_str()) {
            Some(n) => {
                if n > usize::MAX as u64 {
                    proof {
                        assert(spec_parse_index(sc[i as int]) is None);
                    }
                    return None;
                }
                out.push(n as usize);
                proof {
                    assert forall|k: int| 1 <= k < i + 1 implies #[trigger] spec_parse_index(
                        sc.subrange(0, i + 1)[k],
                    ) is Some by {
                        if k < i {
                            assert(sc.subrange(0, i + 1)[k] == sc.subrange(0, i as int)[k]);
                        }
                    }
                }
            },
            None => {
                proof {
                    assert(spec_parse_index(sc[i as int]) is None);
                }
                return None;
            },
        }
        i = i + 1;
    }
    proof {
        assert(sc.subrange(0, i as int) =~= sc);
        assert(all_indices(sc, 1));
        assert(out@ =~= Seq::new(
            (sc.len() - 1) as nat,
            |k: int| spec_parse_index(sc[k + 1]).unwrap(),
        ));
    }
    Some(out)
}

impl PaneRegistry {
    /// The view of the tree is addressable.
    pub proof fn lemma_addressable(&self)
        ensures
            addressable(self@),
    {
        lemma_view_addressable(self.root);
    }

    pub fn new(root: LayoutNode) -> (r: Self)
        ensures
            r@ == root@,
    {
        Self { root }
    }

    /// Read-only access to the underlying tree.
    pub fn root(&self) -> (r: &LayoutNode)
        ensures
            r@ == self@,
    {
        &self.root
    }

    pub fn find_frame(&self, fid: FrameId) -> (r: Option<&LayoutFrame>)
        ensures
            match r {
                Some(f) => self@.find_frame(fid) == Some(f@),
                None => self@.find_frame(fid) is None,
            },
    {
        self.root.find_frame(fid)
    }

    pub fn find_frame_mut(&mut self, fid: FrameId) -> (r: Option<&mut LayoutFrame>)
        ensures
            r is Some == old(self)@.path_to_leaf(LeafRef::Frame(fid)) is Some,
            match r {
                Some(f) => {
                    let p = old(self)@.path_to_leaf(LeafRef::Frame(fid)).unwrap();
                    &&& f.frame == fid
                    &&& old(self)@.at_path(p) == Some(NodeView::Frame(f@))
                    &&& final(self)@ == old(self)@.replaced(p, NodeView::Frame(final(f)@))
                },
                None => final(self)@ == old(self)@,
            },
    {
        self.root.find_frame_mut(fid)
    }

    pub fn find_sidebar_mut(&mut self, slot: SidebarSlot) -> (r: Option<&mut LayoutSidebar>)
        ensures
            r is Some == old(self)@.path_to_leaf(LeafRef::Sidebar(slot)) is Some,
            match r {
                Some(sb) => {
                    let p = old(self)@.path_to_leaf(LeafRef::Sidebar(slot)).unwrap();
                    &&& sb.slot == slot
                    &&& old(self)@.at_path(p) == Some(NodeView::Sidebar(slot, sb.content))
                    &&& final(self)@ == old(self)@.replaced(
                        p,
                        NodeView::Sidebar(final(sb).slot, final(sb).content),
                    )
                },
                None => final(self)@ == old(self)@,
            },
    {
        self.root.find_sidebar_mut(slot)
    }

    pub fn sidebar_present(&self, slot: SidebarSlot) -> (b: bool)
        ensures
            b == self@.sidebar_present(slot),
    {
        self.root.sidebar_present(slot)
    }

    pub fn frames(&self) -> (v: Vec<FrameId>)
        ensures
            v@ == self@.frames(),
    {
        self.root.frames()
    }

    pub fn at_path(&self, path: &[usize]) -> (r: Option<&LayoutNode>)
        ensures
            match r {
                Some(n) => self@.at_path(path@) == Some(n@),
                None => self@.at_path(path@) is None,
            },
    {
        self.root.at_path(path)
    }

    pub fn at_path_mut(&mut self, path: &[usize]) -> (r: Option<&mut LayoutNode>)
        ensures
            match r {
                Some(n) => {
                    &&& old(self)@.at_path(path@) == Some(n@)
                    &&& final(self)@ == old(self)@.replaced(path@, final(n)@)
                },
                None => old(self)@.at_path(path@) is None && final(self)@ == old(self)@,
            },
    {
        self.root.at_path_mut(path)
    }

    pub fn path_to_leaf(&self, target: LeafRef) -> (r: Option<Vec<usize>>)
        ensures
            match r {
                Some(p) => self@.path_to_leaf(target) == Some(p@),
                None => self@.path_to_leaf(target) is None,
            },
    {
        self.root.path_to_leaf(target)
    }

    /// Resolve a `/pane(/<i>)*` path, given as its segments, to the node
    /// it names.
    pub fn pane_at(&self, segs: &[String]) -> (r: Option<&LayoutNode>)
        ensures
            match spec_pane_indices(segs@.map_values(|s: String| s@)) {
                Some(p) => match r {
                    Some(n) => self@.at_path(p) == Some(n@),
                    None => self@.at_path(p) is None,
                },
                None => r is None,
            },
    {
        let indices = pane_path_indices(segs);
        match indices {
            Some(p) => self.root.at_path(p.as_slice()),
            None => None,
        }
    }

    /// Mutable counterpart of [`Self::pane_at`].
    pub fn pane_at_mut(&mut self, segs: &[String]) -> (r: Option<&mut LayoutNode>)
        ensures
            match spec_pane_indices(segs@.map_values(|s: String| s@)) {
                Some(p) => match r {
                    Some(n) => {
                        &&& old(self)@.at_path(p) == Some(n@)
                        &&& final(self)@ == old(self)@.replaced(p, final(n)@)
                    },
                    None => old(self)@.at_path(p) is None && final(self)@ == old(self)@,
                },
                None => r is None && final(self)@ == old(self)@,
            },
    {
        let indices = pane_path_indices(segs);
        match indices {
            Some(p) => self.root.at_path_mut(p.as_slice()),
            None => None,
        }
    }

    /// Pre-order enumeration of every pane path: `/pane` for the root,
    /// then each split's children by index.
    pub fn pane_paths(&self) -> (r: Vec<String>)
        ensures
            r@.map_values(|s: String| s@) == all_paths(self@).map_values(
                |p: Seq<usize>| pane_path_chars(p),
            ),
    {
        let mut out: Vec<String> = Vec::new();
        let mut here: Vec<usize> = Vec::new();
        walk_pane_paths(&self.root, &mut here, &mut out);
        proof {
            assert(here@ =~= Seq::<usize>::empty());
            assert forall|p: Seq<usize>| #[trigger] (Seq::<usize>::empty() + p) == p by {
                assert(Seq::<usize>::empty() + p =~= p);
            }
            assert(out@.map_values(|s: String| s@) =~= all_paths(self@).map_values(
                |p: Seq<usize>| pane_path_chars(p),
            ));
        }
        out
    }

    /// Replace the node at `path`. The empty path replaces the root.
    pub fn replace_at(&mut self, path: &[usize], new: LayoutNode) -> (ok: bool)
        ensures
            ok == old(self)@.at_path(path@) is Some,
            ok ==> final(self)@ == old(self)@.replaced(path@, new@),
            !ok ==> final(self)@ == old(self)@,
    {
        mutate::replace_at(&mut self.root, path, new)
    }

    /// Remove the child at `path` from its parent split.
    pub fn remove_at(&mut self, path: &[usize]) -> (ok: bool)
        ensures
            ok == (path@.len() > 0 && old(self)@.at_path(path@) is Some),
            ok ==> final(self)@ == old(self)@.removed(path@),
            !ok ==> final(self)@ == old(self)@,
    {
        mutate::remove_at(&mut self.root, path)
    }

    /// Collapse single-child splits anywhere in the tree.
    pub fn collapse_singletons(&mut self)
        ensures
            final(self)@ == old(self)@.collapsed(),
    {
        mutate::collapse_singletons(&mut self.root);
    }

    /// Lift the root into a horizontal split so a sidebar can be inserted
    /// alongside it.
    pub fn lift_into_horizontal_split(&mut self)
        ensures
            final(self)@ == old(self)@.lifted(),
    {
        mutate::lift_into_horizontal_split(&mut self.root);
    }

    /// Mutable access to the root split, if the root is one.
    pub fn root_split_mut(&mut self) -> (r: Option<&mut LayoutSplit>)
        ensures
            match r {
                Some(s) => {
                    &&& old(self)@ == NodeView::Split(s.axis, children_view(s.children@))
                    &&& final(self)@ == NodeView::Split(
                        final(s).axis,
                        children_view(final(s).children@),
                    )
                },
                None => !(old(self)@ is Split) && final(self)@ == old(self)@,
            },
    {
        match &mut self.root {
            LayoutNode::Split(s) => Some(s),
            _ => None,
        }
    }

    /// Whether the root is a horizontal split.
    pub fn root_is_horizontal_split(&self) -> (b: bool)
        ensures
            b == (self@ matches NodeView::Split(a, _) && a == Axis::Horizontal),
    {
        match &self.root {
            LayoutNode::Split(s) => s.axis == Axis::Horizontal,
            _ => false,
        }
    }
}

/// Appends the canonical pane path of every node below `node` (which
/// sits at `here`) to `out`, in pre-order. `here` is restored on return.
fn walk_pane_paths(node: &LayoutNode, here: &mut Vec<usize>, out: &mut Vec<String>)
    ensures
        final(here)@ == old(here)@,
        final(out)@.map_values(|s: String| s@) == old(out)@.map_values(|s: String| s@)
            + all_paths(node@).map_values(|p: Seq<usize>| pane_path_chars(old(here)@ + p)),
    decreases node,
{
    let ghost h = here@;
    let ghost o = out@.map_values(|s: String| s@);
    out.push(pane_path_from_indices(here.as_slice()));
    proof {
        assert(h + Seq::<usize>::empty() =~= h);
        assert(out@.map_values(|s: String| s@) =~= o + seq![pane_path_chars(h)]);
    }
    match node {
        LayoutNode::Split(s) => {
            let ghost cv = children_view(s.children@);
            let ghost o1 = out@.map_values(|s: String| s@);
            proof {
                lemma_children_view(s.children@);
                assert(cv.take(0) =~= Seq::<(NodeView, u16)>::empty());
                assert(o1 =~= o1 + paths_in(cv.take(0)).map_values(
                    |p: Seq<usize>| pane_path_chars(h + p),
                ));
            }
            let mut i: usize = 0;
            while i < s.children.len()
                invariant
                    *node == LayoutNode::Split(*s),
                    i <= s.children@.len(),
                    cv == children_view(s.children@),
                    cv.len() == s.children@.len(),
                    forall|j: int|
                        0 <= j < s.children@.len() ==> #[trigger] cv[j] == (
                            node_view(s.children@[j].0),
                            s.children@[j].1,
                        ),
                    here@ == h,
                    o1 == o + seq![pane_path_chars(h)],
                    out@.map_values(|s: String| s@) == o1 + paths_in(cv.take(i as int)).map_values(
                        |p: Seq<usize>| pane_path_chars(h + p),
                    ),
                decreases s.children@.len() - i,
            {
                proof {
                    lemma_child_decreases(*node, i as int);
                }
                let ghost before = out@.map_values(|s: String| s@);
                here.push(i);
                walk_pane_paths(&s.children[i].0, here, out);
                here.pop();
                proof {
                    let c = cv[i as int].0;
                    let hi = h.push(i);
                    assert(cv.take(i + 1).drop_last() =~= cv.take(i as int));
                    assert(cv.take(i + 1).last() == cv[i as int]);
                    let f = |p: Seq<usize>| pane_path_chars(h + p);
                    let g = |p: Seq<usize>| seq![i] + p;
                    let step = all_paths(c).map_values(g);
                    assert(paths_in(cv.take(i + 1)) == paths_in(cv.take(i as int)) + step);
                    assert(step.map_values(f) =~= all_paths(c).map_values(
                        |p: Seq<usize>| pane_path_chars(hi + p),
                    )) by {
                        assert forall|k: int| 0 <= k < step.len() implies #[trigger] step.map_values(
                            f,
                        )[k] == pane_path_chars(hi + all_paths(c)[k]) by {
                            assert(h + (seq![i] + all_paths(c)[k]) =~= hi + all_paths(c)[k]);
                        }
                    }
                    assert((paths_in(cv.take(i as int)) + step).map_values(f) =~= paths_in(
                        cv.take(i as int),
                    ).map_values(f) + step.map_values(f));
                    assert(out@.map_values(|s: String| s@) =~= o1 + paths_in(
                        cv.take(i + 1),
                    ).map_values(f));
                    assert(here@ =~= h);
                }
                i = i + 1;
            }
            proof {
                assert(cv.take(i as int) =~= cv);
                assert(node@ == NodeView::Split(s.axis, cv));
                let f = |p: Seq<usize>| pane_path_chars(h + p);
                assert((seq![Seq::<usize>::empty()] + paths_in(cv)).map_values(f) =~= seq![
                    pane_path_chars(h + Seq::<usize>::empty()),
                ] + paths_in(cv).map_values(f));
                assert(out@.map_values(|s: String| s@) =~= o + all_paths(node@).map_values(f));
            }
        },
        _ => {
            proof {
                let f = |p: Seq<usize>| pane_path_chars(h + p);
                assert(all_paths(node@).map_values(f) =~= seq![pane_path_chars(h)]);
            }
        },
    }
}

} // verus!
