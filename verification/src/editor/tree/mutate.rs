//! Tree-mutation helpers: replace or remove the node at a path, collapse
//! single-child splits, lift the root into a horizontal split.

use vstd::prelude::*;

use crate::editor::tree::{
    LayoutNode, LayoutSplit, NodeView, children_view, lemma_child_decreases,
    lemma_children_view, lemma_children_view_push, lemma_children_view_remove,
    lemma_children_view_update, collapsed_children, node_view,
};
use crate::geom::Axis;

verus! {

/// Replace the node at `path` with `new`. The empty path replaces the
/// root. Returns `false`, leaving the tree alone, if the path goes out of
/// range or hits a non-split mid-walk.
pub fn replace_at(root: &mut LayoutNode, path: &[usize], new: LayoutNode) -> (ok: bool)
    ensures
        ok == old(root)@.at_path(path@) is Some,
        ok ==> final(root)@ == old(root)@.replaced(path@, new@),
        !ok ==> final(root)@ == old(root)@,
{
    proof {
        assert(path@.skip(0) =~= path@);
    }
    replace_from(root, path, 0, new)
}

fn replace_from(node: &mut LayoutNode, path: &[usize], k: usize, new: LayoutNode) -> (ok: bool)
    requires
        k <= path@.len(),
    ensures
        ok == old(node)@.at_path(path@.skip(k as int)) is Some,
        ok ==> final(node)@ == old(node)@.replaced(path@.skip(k as int), new@),
        !ok ==> final(node)@ == old(node)@,
    decreases path@.len() - k,
{
    if k == path.len() {
        *node = new;
        return true;
    }
    proof {
        assert(path@.skip(k as int).drop_first() =~= path@.skip(k + 1));
    }
    match node {
        LayoutNode::Split(s) => {
            let idx = path[k];
            proof {
                lemma_children_view(s.children@);
            }
            if idx >= s.children.len() {
                return false;
            }
            let ghost cs0 = s.children@;
            let ok = replace_from(&mut s.children[idx].0, path, k + 1, new);
            proof {
                lemma_children_view_update(cs0, idx as int, s.children@[idx as int]);
                if !ok {
                    assert(children_view(s.children@) =~= children_view(cs0));
                }
            }
            ok
        },
        _ => false,
    }
}

/// Remove the child at `path` from its parent split. Returns `false`,
/// leaving the tree alone, if the path is empty or leads nowhere.
pub fn remove_at(root: &mut LayoutNode, path: &[usize]) -> (ok: bool)
    ensures
        ok == (path@.len() > 0 && old(root)@.at_path(path@) is Some),
        ok ==> final(root)@ == old(root)@.removed(path@),
        !ok ==> final(root)@ == old(root)@,
{
    if path.len() == 0 {
        return false;
    }
    proof {
        assert(path@.skip(0) =~= path@);
    }
    remove_from(root, path, 0)
}

fn remove_from(node: &mut LayoutNode, path: &[usize], k: usize) -> (ok: bool)
    requires
        k < path@.len(),
    ensures
        ok == old(node)@.at_path(path@.skip(k as int)) is Some,
        ok ==> final(node)@ == old(node)@.removed(path@.skip(k as int)),
        !ok ==> final(node)@ == old(node)@,
    decreases path@.len() - k,
{
    proof {
        assert(path@.skip(k as int).drop_first() =~= path@.skip(k + 1));
    }
    match node {
        LayoutNode::Split(s) => {
            let idx = path[k];
            proof {
                lemma_children_view(s.children@);
            }
            if idx >= s.children.len() {
                return false;
            }
            let ghost cs0 = s.children@;
            if k + 1 == path.len() {
                proof {
                    assert(path@.skip(k + 1).len() == 0);
                    assert(node_view(cs0[idx as int].0).at_path(path@.skip(k + 1)) is Some);
                }
                s.children.remove(idx);
                proof {
                    lemma_children_view_remove(cs0, idx as int);
                }
                true
            } else {
                let ok = remove_from(&mut s.children[idx].0, path, k + 1);
                proof {
                    lemma_children_view_update(cs0, idx as int, s.children@[idx as int]);
                    if !ok {
                        assert(children_view(s.children@) =~= children_view(cs0));
                    }
                }
                ok
            }
        },
        _ => false,
    }
}

/// Recursively replace every split with a single child by that child.
/// Post-order, so a chain of single-child splits collapses in one pass.
pub fn collapse_singletons(root: &mut LayoutNode)
    ensures
        final(root)@ == old(root)@.collapsed(),
{
    let mut tree = LayoutNode::Split(LayoutSplit { axis: Axis::Horizontal, children: Vec::new() });
    std::mem::swap(root, &mut tree);
    *root = collapsed_node(tree);
}

fn collapsed_node(n: LayoutNode) -> (r: LayoutNode)
    ensures
        r@ == n@.collapsed(),
    decreases n,
{
    let ghost n0 = n;
    match n {
        LayoutNode::Split(s) => {
            let LayoutSplit { axis, children } = s;
            let ghost orig = children@;
            let ghost cv = children_view(orig);
            let mut rest = children;
            let mut out: Vec<(LayoutNode, u16)> = Vec::new();
            let mut done: usize = 0;
            let total: usize = rest.len();
            proof {
                lemma_children_view(orig);
                assert(cv.take(0) =~= Seq::<(NodeView, u16)>::empty());
                assert(rest@ =~= orig.skip(0));
            }
            while rest.len() > 0
                invariant
                    n0 == n,
                    n0 == LayoutNode::Split(LayoutSplit { axis, children: n0->Split_0.children }),
                    n0->Split_0.children@ == orig,
                    cv == children_view(orig),
                    cv.len() == orig.len(),
                    forall|j: int|
                        0 <= j < orig.len() ==> #[trigger] cv[j] == (node_view(orig[j].0), orig[j].1),
                    done <= orig.len(),
                    orig.len() == total,
                    rest@ == orig.skip(done as int),
                    children_view(out@) == collapsed_children(cv.take(done as int)),
                decreases rest@.len(),
            {
                let (c, w) = rest.remove(0);
                proof {
                    assert(orig.skip(done as int)[0] == orig[done as int]);
                    assert(rest@ =~= orig.skip(done + 1));
                    lemma_child_decreases(n0, done as int);
                }
                let c2 = collapsed_node(c);
                proof {
                    lemma_children_view_push(out@, (c2, w));
                    assert(cv.take(done + 1).drop_last() =~= cv.take(done as int));
                }
                out.push((c2, w));
                done = done + 1;
            }
            proof {
                assert(cv.take(done as int) =~= cv);
                lemma_children_view(out@);
            }
            if out.len() == 1 {
                let (only, _) = out.remove(0);
                only
            } else {
                LayoutNode::Split(LayoutSplit { axis, children: out })
            }
        },
        other => other,
    }
}

/// Replace the root with a horizontal split holding the previous root as
/// its sole child (weight 80). Used when the first sidebar opens against
/// a root that isn't a horizontal split.
pub fn lift_into_horizontal_split(root: &mut LayoutNode)
    ensures
        final(root)@ == old(root)@.lifted(),
{
    let mut inner = LayoutNode::Split(LayoutSplit { axis: Axis::Horizontal, children: Vec::new() });
    std::mem::swap(root, &mut inner);
    let ghost iv = inner@;
    let mut children: Vec<(LayoutNode, u16)> = Vec::new();
    children.push((inner, 80));
    proof {
        lemma_children_view_push(Seq::empty(), (inner, 80u16));
        assert(Seq::<(LayoutNode, u16)>::empty().push((inner, 80u16)) =~= children@);
        assert(children_view(Seq::empty()) =~= Seq::<(NodeView, u16)>::empty());
    }
    *root = LayoutNode::Split(LayoutSplit { axis: Axis::Horizontal, children });
    proof {
        assert(children_view(children@) =~= seq![(iv, 80u16)]);
    }
}

} // verus!
