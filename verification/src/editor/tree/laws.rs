//! Laws of the layout tree: what a path lookup finds after each
//! structural operation, and which leaves each operation keeps.

use vstd::prelude::*;
use vstd::std_specs::vec::spec_vec_len;

use crate::editor::ids::FrameId;
use crate::geom::Axis;
use crate::editor::tree::{
    FrameView, find_frame_in, LayoutNode, children_view, lemma_child_decreases, lemma_children_view, LeafRef, NodeView, collapsed_children, frames_in, path_in,
};

verus! {

/// Every split has few enough children for each to be named by a `usize`
/// index. The view of every tree held in memory is addressable.
pub open spec fn addressable(n: NodeView) -> bool
    decreases n,
{
    match n {
        NodeView::Split(_, cs) => cs.len() <= usize::MAX && children_addressable(cs),
        _ => true,
    }
}

/// Every child is `addressable`.
pub open spec fn children_addressable(cs: Seq<(NodeView, u16)>) -> bool
    decreases cs,
{
    cs.len() == 0 || (children_addressable(cs.drop_last()) && addressable(cs.last().0))
}

/// The view of a tree in memory is addressable.
pub proof fn lemma_view_addressable(x: LayoutNode)
    ensures
        addressable(x@),
    decreases x,
{
    match x {
        LayoutNode::Split(s) => {
            broadcast use vstd::std_specs::vec::axiom_spec_len;

            assert(s.children@.len() == spec_vec_len(&s.children));
            lemma_children_view(s.children@);
            lemma_children_addressable(x, s.children@.len() as int);
            let cv = children_view(s.children@);
            assert(cv.take(cv.len() as int) =~= cv);
            assert(x@ == NodeView::Split(s.axis, cv));
        },
        _ => {},
    }
}

proof fn lemma_children_addressable(x: LayoutNode, n: int)
    requires
        x is Split,
        0 <= n <= x->Split_0.children@.len(),
    ensures
        children_addressable(children_view(x->Split_0.children@).take(n)),
    decreases x, n,
{
    let cs = x->Split_0.children@;
    lemma_children_view(cs);
    let cv = children_view(cs);
    if n == 0 {
        assert(cv.take(0) =~= Seq::<(NodeView, u16)>::empty());
    } else {
        lemma_children_addressable(x, n - 1);
        lemma_child_decreases(x, n - 1);
        lemma_view_addressable(cs[n - 1].0);
        assert(cv.take(n).drop_last() =~= cv.take(n - 1));
    }
}

/// The path `path_to_leaf` reports leads to the requested leaf.
pub proof fn lemma_path_to_leaf_sound(n: NodeView, target: LeafRef)
    requires
        addressable(n),
        n.path_to_leaf(target) is Some,
    ensures
        n.at_path(n.path_to_leaf(target).unwrap()) matches Some(m) && m.leaf_id() == Some(target),
    decreases n,
{
    if n.leaf_id() != Some(target) {
        match n {
            NodeView::Split(_, cs) => {
                lemma_path_in_sound(cs, target);
                let p = path_in(cs, target).unwrap();
                assert(p == seq![p[0]] + p.drop_first());
            },
            _ => {},
        }
    }
}

proof fn lemma_path_in_sound(cs: Seq<(NodeView, u16)>, target: LeafRef)
    requires
        cs.len() <= usize::MAX,
        children_addressable(cs),
        path_in(cs, target) is Some,
    ensures
        ({
            let p = path_in(cs, target).unwrap();
            &&& p.len() > 0
            &&& p[0] < cs.len()
            &&& cs[p[0] as int].0.at_path(p.drop_first()) matches Some(m) && m.leaf_id() == Some(
                target,
            )
        }),
    decreases cs,
{
    if cs.len() > 0 {
        match path_in(cs.drop_last(), target) {
            Some(p) => {
                lemma_path_in_sound(cs.drop_last(), target);
                assert(cs.drop_last()[p[0] as int] == cs[p[0] as int]);
            },
            None => {
                let last = cs.last().0;
                lemma_path_to_leaf_sound(last, target);
                let q = last.path_to_leaf(target).unwrap();
                let p = seq![(cs.len() - 1) as usize] + q;
                assert(path_in(cs, target) == Some(p));
                assert(p[0] == cs.len() - 1);
                assert(p.drop_first() =~= q);
            },
        }
    }
}

/// `path_to_leaf` finds the leaf whenever some path leads to it.
pub proof fn lemma_path_to_leaf_complete(n: NodeView, path: Seq<usize>, target: LeafRef)
    requires
        n.at_path(path) matches Some(m) && m.leaf_id() == Some(target),
    ensures
        n.path_to_leaf(target) is Some,
    decreases path.len(),
{
    if n.leaf_id() != Some(target) && path.len() > 0 {
        match n {
            NodeView::Split(_, cs) => {
                let i = path[0] as int;
                lemma_path_to_leaf_complete(cs[i].0, path.drop_first(), target);
                lemma_path_in_some(cs, i, target);
            },
            _ => {},
        }
    }
}

proof fn lemma_path_in_some(cs: Seq<(NodeView, u16)>, i: int, target: LeafRef)
    requires
        0 <= i < cs.len(),
        cs[i].0.path_to_leaf(target) is Some,
    ensures
        path_in(cs, target) is Some,
    decreases cs.len(),
{
    if i < cs.len() - 1 {
        assert(cs.drop_last()[i] == cs[i]);
        lemma_path_in_some(cs.drop_last(), i, target);
    }
}

/// Reading back a replaced path yields the new node.
pub proof fn lemma_replaced_read_back(n: NodeView, path: Seq<usize>, new: NodeView)
    requires
        n.at_path(path) is Some,
    ensures
        n.replaced(path, new).at_path(path) == Some(new),
    decreases path.len(),
{
    if path.len() > 0 {
        match n {
            NodeView::Split(_, cs) => {
                lemma_replaced_read_back(cs[path[0] as int].0, path.drop_first(), new);
            },
            _ => {},
        }
    }
}

/// Removing the node at `path` drops exactly that child from its parent
/// split; the siblings after it move up by one.
pub proof fn lemma_removed_drops_child(n: NodeView, path: Seq<usize>)
    requires
        path.len() > 0,
        n.at_path(path) is Some,
    ensures
        n.at_path(path.drop_last()) matches Some(NodeView::Split(a, cs)) && n.removed(path).at_path(
            path.drop_last(),
        ) == Some(NodeView::Split(a, cs.remove(path.last() as int))),
    decreases path.len(),
{
    match n {
        NodeView::Split(a, cs) => {
            if path.len() == 1 {
                assert(path.drop_last() =~= Seq::<usize>::empty());
            } else {
                let i = path[0] as int;
                let rest = path.drop_first();
                lemma_removed_drops_child(cs[i].0, rest);
                assert(path.drop_last().drop_first() =~= rest.drop_last());
                assert(path.drop_last()[0] == path[0]);
                assert(rest.last() == path.last());
            }
        },
        _ => {},
    }
}

/// `collapsed_children` collapses each child in place.
pub proof fn lemma_collapsed_children(cs: Seq<(NodeView, u16)>)
    ensures
        collapsed_children(cs).len() == cs.len(),
        forall|i: int|
            0 <= i < cs.len() ==> #[trigger] collapsed_children(cs)[i] == (
                cs[i].0.collapsed(),
                cs[i].1,
            ),
    decreases cs.len(),
{
    if cs.len() > 0 {
        lemma_collapsed_children(cs.drop_last());
    }
}

/// Collapsing single-child splits keeps every frame, in order.
pub proof fn lemma_collapse_keeps_frames(n: NodeView)
    ensures
        n.collapsed().frames() == n.frames(),
    decreases n,
{
    match n {
        NodeView::Split(_, cs) => {
            lemma_collapse_keeps_frames_in(cs);
            let cs2 = collapsed_children(cs);
            if cs2.len() == 1 {
                assert(cs2.drop_last() =~= Seq::<(NodeView, u16)>::empty());
                assert(frames_in(cs2.drop_last()) =~= Seq::<FrameId>::empty());
                assert(frames_in(cs2) == frames_in(cs2.drop_last()) + cs2.last().0.frames());
                assert(frames_in(cs2) =~= cs2[0].0.frames());
            }
        },
        _ => {},
    }
}

proof fn lemma_collapse_keeps_frames_in(cs: Seq<(NodeView, u16)>)
    ensures
        frames_in(collapsed_children(cs)) == frames_in(cs),
    decreases cs,
{
    if cs.len() > 0 {
        lemma_collapse_keeps_frames_in(cs.drop_last());
        lemma_collapse_keeps_frames(cs.last().0);
        let cs2 = collapsed_children(cs);
        lemma_collapsed_children(cs);
        assert(cs2.drop_last() == collapsed_children(cs.drop_last()));
    }
}

/// No split in the tree has exactly one child.
pub open spec fn no_single_child_split(n: NodeView) -> bool
    decreases n,
{
    match n {
        NodeView::Split(_, cs) => cs.len() != 1 && children_without_single(cs),
        _ => true,
    }
}

/// Every child satisfies `no_single_child_split`.
pub open spec fn children_without_single(cs: Seq<(NodeView, u16)>) -> bool
    decreases cs,
{
    cs.len() == 0 || (children_without_single(cs.drop_last()) && no_single_child_split(
        cs.last().0,
    ))
}

/// After collapsing, no split in the tree has exactly one child.
pub proof fn lemma_collapsed_has_no_single_child_split(n: NodeView)
    ensures
        no_single_child_split(n.collapsed()),
    decreases n,
{
    match n {
        NodeView::Split(_, cs) => {
            lemma_collapsed_children_without_single(cs);
            lemma_collapsed_children(cs);
            let cs2 = collapsed_children(cs);
            if cs2.len() == 1 {
                assert(cs2.drop_last() =~= Seq::<(NodeView, u16)>::empty());
            }
        },
        _ => {},
    }
}

proof fn lemma_collapsed_children_without_single(cs: Seq<(NodeView, u16)>)
    ensures
        children_without_single(collapsed_children(cs)),
    decreases cs,
{
    if cs.len() > 0 {
        lemma_collapsed_children_without_single(cs.drop_last());
        lemma_collapsed_has_no_single_child_split(cs.last().0);
        lemma_collapsed_children(cs);
        assert(collapsed_children(cs).drop_last() == collapsed_children(cs.drop_last()));
    }
}

/// Lifting the root puts the old tree at child 0 of a horizontal split
/// and keeps every frame.
pub proof fn lemma_lifted(n: NodeView)
    ensures
        n.lifted().at_path(seq![0usize]) == Some(n),
        n.lifted().frames() == n.frames(),
{
    let cs = seq![(n, 80u16)];
    let p = seq![0usize];
    assert(p.len() == 1 && p[0] == 0);
    assert(p.drop_first() =~= Seq::<usize>::empty());
    assert(n.lifted() == NodeView::Split(crate::geom::Axis::Horizontal, cs));
    assert(cs[0].0 == n);
    assert(n.at_path(Seq::<usize>::empty()) == Some(n));
    assert(cs.drop_last() =~= Seq::<(NodeView, u16)>::empty());
    assert(frames_in(cs.drop_last()) =~= Seq::<FrameId>::empty());
    assert(frames_in(cs) == frames_in(cs.drop_last()) + cs.last().0.frames());
    assert(frames_in(cs) =~= n.frames());
}

} // verus!

verus! {

/// The frame `path_to_leaf(Frame(fid))` leads to, if that path leads to
/// a frame.
pub open spec fn frame_at_leaf_path(n: NodeView, fid: FrameId) -> Option<FrameView> {
    match n.path_to_leaf(LeafRef::Frame(fid)) {
        Some(p) => match n.at_path(p) {
            Some(NodeView::Frame(f)) => Some(f),
            _ => None,
        },
        None => None,
    }
}

/// `find_frame` and the path `path_to_leaf(Frame(fid))` name the same
/// frame: the lookups by id and by path agree.
pub proof fn lemma_find_frame_is_path_frame(n: NodeView, fid: FrameId)
    requires
        addressable(n),
    ensures
        n.find_frame(fid) == frame_at_leaf_path(n, fid),
    decreases n,
{
    match n {
        NodeView::Split(a, cs) => {
            lemma_find_frame_in_is_path_frame(a, cs, fid);
        },
        NodeView::Frame(f) => {
            if f.frame == fid {
                assert(n.at_path(Seq::<usize>::empty()) == Some(n));
            }
        },
        _ => {},
    }
}

proof fn lemma_find_frame_in_is_path_frame(a: Axis, cs: Seq<(NodeView, u16)>, fid: FrameId)
    requires
        cs.len() <= usize::MAX,
        children_addressable(cs),
    ensures
        find_frame_in(cs, fid) == (match path_in(cs, LeafRef::Frame(fid)) {
            Some(p) => match NodeView::Split(a, cs).at_path(p) {
                Some(NodeView::Frame(f)) => Some(f),
                _ => None,
            },
            None => None,
        }),
    decreases cs,
{
    let t = LeafRef::Frame(fid);
    if cs.len() > 0 {
        let dl = cs.drop_last();
        let last = cs.last().0;
        lemma_find_frame_in_is_path_frame(a, dl, fid);
        lemma_find_frame_is_path_frame(last, fid);
        match path_in(dl, t) {
            Some(p) => {
                lemma_path_in_sound(dl, t);
                assert(dl[p[0] as int] == cs[p[0] as int]);
                assert(NodeView::Split(a, dl).at_path(p) == dl[p[0] as int].0.at_path(p.drop_first()));
                assert(NodeView::Split(a, cs).at_path(p) == cs[p[0] as int].0.at_path(p.drop_first()));
            },
            None => {
                match last.path_to_leaf(t) {
                    Some(q) => {
                        let p = seq![(cs.len() - 1) as usize] + q;
                        assert(p[0] == cs.len() - 1);
                        assert(p.drop_first() =~= q);
                        assert(NodeView::Split(a, cs).at_path(p) == last.at_path(q));
                    },
                    None => {},
                }
            },
        }
    }
}

} // verus!

verus! {

/// Putting back the node a path already holds leaves the tree as it was.
pub proof fn lemma_replaced_same(n: NodeView, path: Seq<usize>)
    requires
        n.at_path(path) is Some,
    ensures
        n.replaced(path, n.at_path(path).unwrap()) == n,
    decreases path.len(),
{
    if path.len() > 0 {
        match n {
            NodeView::Split(a, cs) => {
                let i = path[0] as int;
                lemma_replaced_same(cs[i].0, path.drop_first());
                assert(cs.update(i, (cs[i].0, cs[i].1)) =~= cs);
            },
            _ => {},
        }
    }
}

} // verus!

verus! {

/// The frame `find_frame` returns carries the requested id.
pub proof fn lemma_find_frame_id(n: NodeView, fid: FrameId)
    ensures
        n.find_frame(fid) matches Some(f) ==> f.frame == fid,
    decreases n,
{
    match n {
        NodeView::Split(_, cs) => lemma_find_frame_in_id(cs, fid),
        _ => {},
    }
}

proof fn lemma_find_frame_in_id(cs: Seq<(NodeView, u16)>, fid: FrameId)
    ensures
        find_frame_in(cs, fid) matches Some(f) ==> f.frame == fid,
    decreases cs,
{
    if cs.len() > 0 {
        lemma_find_frame_in_id(cs.drop_last(), fid);
        lemma_find_frame_id(cs.last().0, fid);
    }
}

} // verus!

verus! {

/// Following one more index from `path` steps into that child of the
/// split at `path`.
pub proof fn lemma_at_path_push(n: NodeView, path: Seq<usize>, i: usize)
    ensures
        n.at_path(path.push(i)) == (match n.at_path(path) {
            Some(NodeView::Split(_, cs)) => if i < cs.len() {
                Some(cs[i as int].0)
            } else {
                None
            },
            _ => None,
        }),
    decreases path.len(),
{
    if path.len() == 0 {
        assert(path.push(i).drop_first() =~= Seq::<usize>::empty());
        assert(path.push(i)[0] == i);
        if let NodeView::Split(_, cs) = n {
            if i < cs.len() {
                assert(cs[i as int].0.at_path(Seq::<usize>::empty()) == Some(cs[i as int].0));
            }
        }
    } else {
        assert(path.push(i).drop_first() =~= path.drop_first().push(i));
        assert(path.push(i)[0] == path[0]);
        match n {
            NodeView::Split(_, cs) => {
                if path[0] < cs.len() {
                    lemma_at_path_push(cs[path[0] as int].0, path.drop_first(), i);
                }
            },
            _ => {},
        }
    }
}

/// Height of a tree: leaves are 0, a split is one more than its tallest
/// child.
pub open spec fn height(n: NodeView) -> nat
    decreases n,
{
    match n {
        NodeView::Split(_, cs) => 1 + children_height(cs),
        _ => 0,
    }
}

/// Height of the tallest of `cs` (0 for none).
pub open spec fn children_height(cs: Seq<(NodeView, u16)>) -> nat
    decreases cs,
{
    if cs.len() == 0 {
        0
    } else {
        let a = children_height(cs.drop_last());
        let b = height(cs.last().0);
        if a >= b {
            a
        } else {
            b
        }
    }
}

/// A child is lower than its split.
pub proof fn lemma_child_lower(cs: Seq<(NodeView, u16)>, i: int)
    requires
        0 <= i < cs.len(),
    ensures
        height(cs[i].0) <= children_height(cs),
    decreases cs.len(),
{
    if i < cs.len() - 1 {
        lemma_child_lower(cs.drop_last(), i);
        assert(cs.drop_last()[i] == cs[i]);
    }
}

/// How far below `path` the tree still goes: one more than the height of
/// the node there, or 0 when `path` leads nowhere. Walking one step down
/// decreases it.
pub open spec fn depth_below(t: NodeView, path: Seq<usize>) -> nat {
    match t.at_path(path) {
        Some(n) => height(n) + 1,
        None => 0,
    }
}

/// Stepping from a split into any index lowers `depth_below`.
pub proof fn lemma_depth_below_push(t: NodeView, path: Seq<usize>, i: usize)
    requires
        t.at_path(path) matches Some(NodeView::Split(_, _)),
    ensures
        depth_below(t, path.push(i)) < depth_below(t, path),
{
    lemma_at_path_push(t, path, i);
    if let Some(NodeView::Split(_, cs)) = t.at_path(path) {
        if i < cs.len() {
            lemma_child_lower(cs, i as int);
        }
    }
}

/// A frame the tree finds is one of its frames.
pub proof fn lemma_found_frame_listed(n: NodeView, fid: FrameId)
    ensures
        n.find_frame(fid) is Some ==> n.frames().contains(fid),
    decreases n,
{
    match n {
        NodeView::Split(_, cs) => {
            lemma_found_frame_listed_in(cs, fid);
        },
        NodeView::Frame(f) => {
            assert(n.frames()[0] == f.frame);
        },
        NodeView::Sidebar(..) => {},
    }
}

proof fn lemma_found_frame_listed_in(cs: Seq<(NodeView, u16)>, fid: FrameId)
    ensures
        find_frame_in(cs, fid) is Some ==> frames_in(cs).contains(fid),
    decreases cs,
{
    if cs.len() > 0 {
        lemma_found_frame_listed_in(cs.drop_last(), fid);
        lemma_found_frame_listed(cs.last().0, fid);
        let a = frames_in(cs.drop_last());
        let b = cs.last().0.frames();
        assert(frames_in(cs) == a + b);
        if find_frame_in(cs.drop_last(), fid) is Some {
            let j = choose|j: int| 0 <= j < a.len() && a[j] == fid;
            assert((a + b)[j] == fid);
        } else if cs.last().0.find_frame(fid) is Some {
            let j = choose|j: int| 0 <= j < b.len() && b[j] == fid;
            assert((a + b)[a.len() + j] == fid);
        }
    }
}

} // verus!
