use devix_core::editor::ids::{CursorId, FrameId};
use devix_core::editor::registry::PaneRegistry;
use devix_core::editor::tree::mutate;
use devix_core::editor::tree::{
    LayoutFrame, LayoutNode, LayoutSidebar, LayoutSplit, LeafRef, first_frame_path,
    sidebar_inner_rect,
};
use devix_core::geom::{Axis, Rect, SidebarSlot};

fn frame_node(fid: FrameId) -> LayoutNode {
    LayoutNode::Frame(LayoutFrame {
        frame: fid,
        tabs: Vec::new(),
        active_tab: 0,
        tab_strip_scroll: (0, 0),
        recenter_active: false,
    })
}

fn sidebar_node(slot: SidebarSlot) -> LayoutNode {
    LayoutNode::Sidebar(LayoutSidebar::empty(slot))
}

fn split_node(axis: Axis, children: Vec<(LayoutNode, u16)>) -> LayoutNode {
    LayoutNode::Split(LayoutSplit { axis, children })
}

#[test]
fn replace_at_root_swaps_root() {
    let f1 = FrameId(1);
    let f2 = FrameId(2);
    let mut tree = frame_node(f1);
    assert!(mutate::replace_at(&mut tree, &[], frame_node(f2)));
    assert_eq!(tree.leaf_id(), Some(LeafRef::Frame(f2)));
}

#[test]
fn remove_at_drops_one_child_and_collapse_flattens() {
    let f1 = FrameId(1);
    let f2 = FrameId(2);
    let mut tree = split_node(Axis::Horizontal, vec![(frame_node(f1), 1), (frame_node(f2), 1)]);
    assert!(mutate::remove_at(&mut tree, &[1]));
    mutate::collapse_singletons(&mut tree);
    assert_eq!(tree.leaf_id(), Some(LeafRef::Frame(f1)));
}

#[test]
fn path_to_leaf_finds_frame_in_split() {
    let f1 = FrameId(1);
    let f2 = FrameId(2);
    let tree = split_node(Axis::Horizontal, vec![(frame_node(f1), 1), (frame_node(f2), 1)]);
    assert_eq!(tree.path_to_leaf(LeafRef::Frame(f1)), Some(vec![0]));
    assert_eq!(tree.path_to_leaf(LeafRef::Frame(f2)), Some(vec![1]));
}

#[test]
fn sidebar_leaf_id_round_trips() {
    let tree = sidebar_node(SidebarSlot::Left);
    assert_eq!(tree.leaf_id(), Some(LeafRef::Sidebar(SidebarSlot::Left)));
    assert!(tree.is_focusable());
}

#[test]
fn frame_leaf_is_focusable_split_is_not() {
    assert!(frame_node(FrameId(1)).is_focusable());
    let split = split_node(Axis::Vertical, vec![(frame_node(FrameId(1)), 1)]);
    assert!(!split.is_focusable());
    assert_eq!(split.leaf_id(), None);
}

#[test]
fn path_to_leaf_reads_back_through_at_path() {
    let inner = split_node(
        Axis::Vertical,
        vec![(frame_node(FrameId(2)), 1), (sidebar_node(SidebarSlot::Right), 1)],
    );
    let tree = split_node(Axis::Horizontal, vec![(frame_node(FrameId(1)), 1), (inner, 1)]);
    let p = tree.path_to_leaf(LeafRef::Sidebar(SidebarSlot::Right)).unwrap();
    assert_eq!(p, vec![1, 1]);
    let node = tree.at_path(&p).unwrap();
    assert_eq!(node.leaf_id(), Some(LeafRef::Sidebar(SidebarSlot::Right)));
    assert_eq!(tree.path_to_leaf(LeafRef::Frame(FrameId(9))), None);
    assert_eq!(tree.path_to_leaf(LeafRef::Sidebar(SidebarSlot::Left)), None);
}

#[test]
fn path_to_leaf_picks_first_in_tree_order() {
    let tree = split_node(
        Axis::Horizontal,
        vec![
            (split_node(Axis::Vertical, vec![(sidebar_node(SidebarSlot::Left), 1)]), 1),
            (frame_node(FrameId(3)), 1),
            (frame_node(FrameId(3)), 1),
        ],
    );
    assert_eq!(tree.path_to_leaf(LeafRef::Frame(FrameId(3))), Some(vec![1]));
    assert_eq!(tree.path_to_leaf(LeafRef::Sidebar(SidebarSlot::Left)), Some(vec![0, 0]));
}

#[test]
fn at_path_rejects_out_of_range_and_leaf_descent() {
    let tree = split_node(Axis::Horizontal, vec![(frame_node(FrameId(1)), 1)]);
    assert!(tree.at_path(&[]).is_some());
    assert!(tree.at_path(&[0]).is_some());
    assert!(tree.at_path(&[1]).is_none());
    assert!(tree.at_path(&[0, 0]).is_none());
}

#[test]
fn frames_lists_frames_in_tree_order() {
    let inner = split_node(
        Axis::Vertical,
        vec![(frame_node(FrameId(2)), 1), (frame_node(FrameId(3)), 1)],
    );
    let tree = split_node(
        Axis::Horizontal,
        vec![(frame_node(FrameId(1)), 1), (sidebar_node(SidebarSlot::Left), 1), (inner, 1)],
    );
    assert_eq!(tree.frames(), vec![FrameId(1), FrameId(2), FrameId(3)]);
    assert!(tree.sidebar_present(SidebarSlot::Left));
    assert!(!tree.sidebar_present(SidebarSlot::Right));
    assert_eq!(tree.find_frame(FrameId(3)).unwrap().frame, FrameId(3));
    assert!(tree.find_frame(FrameId(4)).is_none());
}

#[test]
fn replace_at_reads_back_and_rejects_bad_paths() {
    let mut tree = split_node(
        Axis::Horizontal,
        vec![(frame_node(FrameId(1)), 1), (frame_node(FrameId(2)), 1)],
    );
    assert!(mutate::replace_at(&mut tree, &[1], sidebar_node(SidebarSlot::Right)));
    assert_eq!(tree.at_path(&[1]).unwrap().leaf_id(), Some(LeafRef::Sidebar(SidebarSlot::Right)));
    assert!(!mutate::replace_at(&mut tree, &[2], frame_node(FrameId(5))));
    assert!(!mutate::replace_at(&mut tree, &[0, 0], frame_node(FrameId(5))));
    assert_eq!(tree.frames(), vec![FrameId(1)]);
}

#[test]
fn remove_at_rejects_empty_and_bad_paths() {
    let mut tree = split_node(
        Axis::Horizontal,
        vec![(frame_node(FrameId(1)), 1), (frame_node(FrameId(2)), 1), (frame_node(FrameId(3)), 1)],
    );
    assert!(!mutate::remove_at(&mut tree, &[]));
    assert!(!mutate::remove_at(&mut tree, &[3]));
    assert!(mutate::remove_at(&mut tree, &[1]));
    assert_eq!(tree.frames(), vec![FrameId(1), FrameId(3)]);
}

#[test]
fn collapse_flattens_chains_of_single_child_splits() {
    let chain = split_node(
        Axis::Vertical,
        vec![(split_node(Axis::Horizontal, vec![(frame_node(FrameId(7)), 1)]), 1)],
    );
    let mut tree = split_node(Axis::Horizontal, vec![(chain, 2), (frame_node(FrameId(8)), 1)]);
    mutate::collapse_singletons(&mut tree);
    assert_eq!(tree.at_path(&[0]).unwrap().leaf_id(), Some(LeafRef::Frame(FrameId(7))));
    assert_eq!(tree.frames(), vec![FrameId(7), FrameId(8)]);
    match &tree {
        LayoutNode::Split(s) => assert_eq!(s.children[0].1, 2),
        _ => panic!("root stays a split"),
    }
}

#[test]
fn lift_wraps_root_at_child_zero() {
    let mut tree = frame_node(FrameId(1));
    mutate::lift_into_horizontal_split(&mut tree);
    match &tree {
        LayoutNode::Split(s) => {
            assert_eq!(s.axis, Axis::Horizontal);
            assert_eq!(s.children.len(), 1);
            assert_eq!(s.children[0].1, 80);
        }
        _ => panic!("lifted root is a split"),
    }
    assert_eq!(tree.at_path(&[0]).unwrap().leaf_id(), Some(LeafRef::Frame(FrameId(1))));
}

#[test]
fn find_frame_mut_writes_through() {
    let mut tree = split_node(
        Axis::Horizontal,
        vec![(frame_node(FrameId(1)), 1), (frame_node(FrameId(2)), 1)],
    );
    tree.find_frame_mut(FrameId(2)).unwrap().tabs.push(CursorId(5));
    assert_eq!(tree.find_frame(FrameId(2)).unwrap().tabs, vec![CursorId(5)]);
    assert!(tree.find_frame_mut(FrameId(3)).is_none());
    let mut with_sidebar = split_node(Axis::Horizontal, vec![(sidebar_node(SidebarSlot::Left), 1)]);
    with_sidebar.find_sidebar_mut(SidebarSlot::Left).unwrap().content = Some(3);
    match with_sidebar.at_path(&[0]).unwrap() {
        LayoutNode::Sidebar(s) => assert_eq!(s.content, Some(3)),
        _ => panic!("sidebar stays put"),
    }
}

#[test]
fn first_frame_path_skips_sidebars() {
    let tree = split_node(
        Axis::Horizontal,
        vec![(sidebar_node(SidebarSlot::Left), 20), (frame_node(FrameId(4)), 80)],
    );
    assert_eq!(first_frame_path(&tree), vec![1]);
    assert_eq!(first_frame_path(&sidebar_node(SidebarSlot::Right)), Vec::<usize>::new());
}

#[test]
fn sidebar_inner_rect_shrinks_by_border() {
    let r = sidebar_inner_rect(Rect { x: 2, y: 3, width: 10, height: 1 });
    assert_eq!(r, Rect { x: 3, y: 4, width: 8, height: 0 });
    let edge = sidebar_inner_rect(Rect { x: u16::MAX, y: 0, width: 1, height: 5 });
    assert_eq!(edge, Rect { x: u16::MAX, y: 1, width: 0, height: 3 });
}

#[test]
fn registry_pane_paths_and_pane_at() {
    let tree = split_node(
        Axis::Horizontal,
        vec![
            (frame_node(FrameId(1)), 1),
            (split_node(Axis::Vertical, vec![(frame_node(FrameId(2)), 1), (frame_node(FrameId(3)), 1)]), 1),
        ],
    );
    let reg = PaneRegistry::new(tree);
    assert_eq!(
        reg.pane_paths(),
        vec!["/pane", "/pane/0", "/pane/1", "/pane/1/0", "/pane/1/1"],
    );
    let segs = |s: &[&str]| s.iter().map(|x| x.to_string()).collect::<Vec<String>>();
    assert_eq!(
        reg.pane_at(&segs(&["pane", "1", "0"])).unwrap().leaf_id(),
        Some(LeafRef::Frame(FrameId(2))),
    );
    assert!(reg.pane_at(&segs(&["pane", "2"])).is_none());
    assert!(reg.pane_at(&segs(&["pane", "x"])).is_none());
    assert!(reg.pane_at(&segs(&["buf", "1"])).is_none());
    assert!(reg.root_is_horizontal_split());
}
