use devix_core::editor::cursor::{Cursor, ScrollMode};
use devix_core::editor::editor::pass::body_scroll;
use devix_core::editor::editor::focus::{leaf_rect, outer_editor_area, root_area};
use devix_core::editor::editor::{Editor, EditorPulse, RenderCache, TabHit, TabStripCache, TabStripHit};
use devix_core::editor::ids::{CursorId, DocId, FrameId};
use devix_core::editor::tree::{LayoutNode, LeafRef};
use devix_core::geom::{Axis, Direction, Rect, SidebarSlot};

fn fresh() -> Editor {
    Editor::new(FrameId(1), Cursor::new(DocId(7)))
}

fn focus_leaf(ws: &Editor) -> Option<LeafRef> {
    ws.panes.at_path(ws.focus.active()).and_then(|n| n.leaf_id())
}

#[test]
fn fresh_workspace_has_one_frame_one_cursor() {
    let ws = fresh();
    assert_eq!(ws.panes.frames().len(), 1);
    assert_eq!(ws.active_cursor_id(), Some(CursorId(1)));
    assert_eq!(ws.active_frame(), Some(FrameId(1)));
}

#[test]
fn new_tab_then_close_returns_to_previous() {
    let mut ws = fresh();
    let original = ws.active_cursor_id().unwrap();

    ws.new_tab(CursorId(2));
    let fid = ws.active_frame().unwrap();
    assert_eq!(ws.panes.find_frame(fid).unwrap().tabs.len(), 2);
    assert_eq!(ws.panes.find_frame(fid).unwrap().active_tab, 1);

    assert_eq!(ws.close_active_tab(false, false, CursorId(99)), Some(CursorId(2)));
    assert_eq!(ws.active_cursor_id(), Some(original));
}

#[test]
fn close_last_tab_leaves_a_scratch_tab() {
    let mut ws = fresh();
    assert_eq!(ws.close_active_tab(false, false, CursorId(7)), Some(CursorId(1)));
    let fid = ws.active_frame().unwrap();
    let frame = ws.panes.find_frame(fid).unwrap();
    assert_eq!(frame.tabs.len(), 1);
    assert_eq!(ws.active_cursor_id(), Some(CursorId(7)));
}

#[test]
fn dirty_close_refused_force_close_succeeds() {
    let mut ws = fresh();
    assert_eq!(ws.close_active_tab(false, true, CursorId(7)), None, "dirty close should refuse");
    assert_eq!(ws.active_cursor_id(), Some(CursorId(1)));
    assert_eq!(ws.close_active_tab(true, true, CursorId(7)), Some(CursorId(1)), "force close should succeed");
}

#[test]
fn closing_middle_tab_activates_its_right_neighbour() {
    let mut ws = fresh();
    ws.new_tab(CursorId(2));
    ws.new_tab(CursorId(3));
    ws.activate_tab(FrameId(1), 1);
    assert_eq!(ws.close_active_tab(false, false, CursorId(9)), Some(CursorId(2)));
    let f = ws.panes.find_frame(FrameId(1)).unwrap();
    assert_eq!(f.tabs, vec![CursorId(1), CursorId(3)]);
    assert_eq!(f.active_tab, 1);
    assert_eq!(ws.close_active_tab(false, false, CursorId(9)), Some(CursorId(3)));
    assert_eq!(ws.panes.find_frame(FrameId(1)).unwrap().active_tab, 0);
}

#[test]
fn next_and_prev_tab_wrap_around() {
    let mut ws = fresh();
    ws.new_tab(CursorId(2));
    ws.new_tab(CursorId(3));
    ws.next_tab();
    assert_eq!(ws.panes.find_frame(FrameId(1)).unwrap().active_tab, 0);
    ws.prev_tab();
    assert_eq!(ws.panes.find_frame(FrameId(1)).unwrap().active_tab, 2);
    ws.prev_tab();
    assert_eq!(ws.panes.find_frame(FrameId(1)).unwrap().active_tab, 1);
}

#[test]
fn split_creates_a_second_frame_and_focuses_it() {
    let mut ws = fresh();
    let original_fid = ws.active_frame().unwrap();
    ws.split_active(Axis::Horizontal);
    assert_eq!(ws.panes.frames().len(), 2);
    let new_fid = ws.active_frame().unwrap();
    assert_ne!(original_fid, new_fid);

    let orig_cursor_id = ws.panes.find_frame(original_fid).and_then(|f| f.active_cursor());
    let new_cursor_id = ws.panes.find_frame(new_fid).and_then(|f| f.active_cursor());
    assert_eq!(orig_cursor_id, Some(CursorId(1)));
    assert_eq!(new_cursor_id, Some(CursorId(2)));
    let orig = ws.cursors.get(CursorId(1)).unwrap();
    let copy = ws.cursors.get(CursorId(2)).unwrap();
    assert_eq!(orig.doc, copy.doc);
    assert_eq!(copy.doc, DocId(7));
    assert_eq!(ws.cursors.len(), 2);
}

#[test]
fn fresh_cursor_starts_at_origin_anchored() {
    let c = Cursor::new(DocId(1));
    assert_eq!(c.ranges, vec![(0, 0)]);
    assert_eq!(c.ranges[c.primary].1, 0);
    assert_eq!(c.scroll_mode, ScrollMode::Anchored);
    assert!(c.target_col.is_none());
    assert_eq!(c.scroll.1, 0);
}

#[test]
fn split_copies_selection_and_scroll_anchored() {
    let mut c = Cursor::new(DocId(3));
    c.ranges = vec![(4, 9), (12, 12)];
    c.primary = 1;
    c.target_col = Some(5);
    c.scroll = (2, 40);
    c.scroll_mode = ScrollMode::Free;
    let mut ws = Editor::new(FrameId(5), c);
    ws.split_active(Axis::Vertical);
    assert_eq!(ws.active_frame(), Some(FrameId(6)));
    let copy = ws.cursors.get(CursorId(2)).unwrap();
    assert_eq!(copy.doc, DocId(3));
    assert_eq!(copy.ranges, vec![(4, 9), (12, 12)]);
    assert_eq!(copy.primary, 1);
    assert_eq!(copy.target_col, Some(5));
    assert_eq!(copy.scroll, (2, 40));
    assert_eq!(copy.scroll_mode, ScrollMode::Anchored);
    // The original cursor is untouched.
    assert_eq!(ws.cursors.get(CursorId(1)).unwrap().scroll_mode, ScrollMode::Free);
    // Frame ids are never minted twice, even after the frame closes.
    ws.close_active_frame();
    ws.split_active(Axis::Vertical);
    assert_eq!(ws.active_frame(), Some(FrameId(7)));
}

#[test]
fn closing_one_split_child_collapses_back_to_single_frame() {
    let mut ws = fresh();
    ws.split_active(Axis::Horizontal);
    assert_eq!(ws.panes.frames().len(), 2);
    assert_eq!(ws.close_active_frame(), Some(vec![CursorId(2)]));
    assert_eq!(ws.panes.frames().len(), 1);
    assert!(matches!(ws.panes.root(), LayoutNode::Frame(_)), "single frame at root");
}

#[test]
fn close_active_frame_refuses_the_last_frame() {
    let mut ws = fresh();
    assert_eq!(ws.close_active_frame(), None);
    assert_eq!(ws.panes.frames(), vec![FrameId(1)]);
}

#[test]
fn toggle_left_sidebar_adds_then_removes_it() {
    let mut ws = fresh();
    ws.toggle_sidebar(SidebarSlot::Left);
    let split = match ws.panes.root() {
        LayoutNode::Split(s) => s,
        _ => panic!("root lifted to a Split"),
    };
    assert_eq!(split.children.len(), 2, "split has editor + left sidebar");

    ws.toggle_sidebar(SidebarSlot::Left);
    assert!(!ws.panes.frames().is_empty());
}

#[test]
fn focus_dir_right_after_split_returns_to_original() {
    let mut ws = fresh();
    let original = ws.active_frame().unwrap();
    ws.split_active(Axis::Horizontal);
    let new_fid = ws.active_frame().unwrap();
    assert_ne!(original, new_fid);

    ws.focus_dir(Direction::Left);
    assert_eq!(ws.active_frame(), Some(original));

    ws.focus_dir(Direction::Right);
    assert_eq!(ws.active_frame(), Some(new_fid));
}

#[test]
fn focus_dir_left_at_edge_with_sidebar_enters_sidebar() {
    let mut ws = fresh();
    ws.toggle_sidebar(SidebarSlot::Left);
    ws.focus_dir(Direction::Left);
    assert_eq!(focus_leaf(&ws), Some(LeafRef::Sidebar(SidebarSlot::Left)));
}

#[test]
fn closing_focused_sidebar_lands_focus_on_a_frame() {
    let mut ws = fresh();
    ws.toggle_sidebar(SidebarSlot::Left);
    ws.focus_dir(Direction::Left);
    assert_eq!(focus_leaf(&ws), Some(LeafRef::Sidebar(SidebarSlot::Left)));
    ws.toggle_sidebar(SidebarSlot::Left);
    assert!(
        matches!(focus_leaf(&ws), Some(LeafRef::Frame(_))),
        "after sidebar removal, focus should resolve to a Frame leaf",
    );
}

#[test]
fn closing_one_of_three_split_children_keeps_two_remaining() {
    let mut ws = fresh();
    ws.split_active(Axis::Horizontal);
    ws.split_active(Axis::Horizontal);
    assert_eq!(ws.panes.frames().len(), 3);

    ws.close_active_frame();
    assert_eq!(ws.panes.frames().len(), 2);
    assert!(
        matches!(ws.panes.root(), LayoutNode::Split(_)),
        "two frames should be in a Split, not a flat Frame leaf",
    );
    assert!(matches!(focus_leaf(&ws), Some(LeafRef::Frame(_))));
}

#[test]
fn tab_strip_hit_returns_tab_under_cursor() {
    let mut ws = fresh();
    ws.new_tab(CursorId(2));
    let fid = ws.active_frame().unwrap();
    let strip = TabStripCache {
        strip_rect: Rect { x: 0, y: 0, width: 30, height: 1 },
        content_width: 21,
        hits: vec![
            TabHit { idx: 0, rect: Rect { x: 0, y: 0, width: 10, height: 1 } },
            TabHit { idx: 1, rect: Rect { x: 11, y: 0, width: 10, height: 1 } },
        ],
    };
    ws.render_cache.insert_tab_strip(fid, strip);

    assert_eq!(ws.tab_strip_hit(5, 0), Some(TabStripHit::Tab { frame: fid, idx: 0 }));
    assert_eq!(ws.tab_strip_hit(15, 0), Some(TabStripHit::Tab { frame: fid, idx: 1 }));
    assert_eq!(ws.tab_strip_hit(50, 0), None);
    assert_eq!(ws.tab_strip_hit(5, 5), None);
}

#[test]
fn activate_tab_focuses_clicked_index() {
    let mut ws = fresh();
    ws.new_tab(CursorId(2));
    ws.new_tab(CursorId(3));
    let fid = ws.active_frame().unwrap();
    ws.activate_tab(fid, 0);
    assert_eq!(ws.panes.find_frame(fid).unwrap().active_tab, 0);
    ws.activate_tab(fid, 99);
    assert_eq!(ws.panes.find_frame(fid).unwrap().active_tab, 2);
}

#[test]
fn scroll_tab_strip_clamps_to_content_minus_strip_width() {
    let mut ws = fresh();
    let fid = ws.active_frame().unwrap();
    ws.render_cache.insert_tab_strip(fid, TabStripCache {
        strip_rect: Rect { x: 0, y: 0, width: 20, height: 1 },
        content_width: 50,
        hits: Vec::new(),
    });
    ws.scroll_tab_strip(fid, 100);
    assert_eq!(ws.panes.find_frame(fid).unwrap().tab_strip_scroll.0, 30, "clamped to 50 - 20");
    ws.scroll_tab_strip(fid, -1000);
    assert_eq!(ws.panes.find_frame(fid).unwrap().tab_strip_scroll.0, 0, "clamped at 0");
}

#[test]
fn scroll_tab_strip_noop_when_content_fits() {
    let mut ws = fresh();
    let fid = ws.active_frame().unwrap();
    ws.render_cache.insert_tab_strip(fid, TabStripCache {
        strip_rect: Rect { x: 0, y: 0, width: 20, height: 1 },
        content_width: 15,
        hits: Vec::new(),
    });
    ws.scroll_tab_strip(fid, 5);
    assert_eq!(ws.panes.find_frame(fid).unwrap().tab_strip_scroll.0, 0);
    assert!(!ws.tab_strip_can_scroll(fid));
}

#[test]
fn frame_at_strip_resolves_full_strip_row() {
    let mut ws = fresh();
    let fid = ws.active_frame().unwrap();
    ws.render_cache.insert_tab_strip(fid, TabStripCache {
        strip_rect: Rect { x: 0, y: 4, width: 30, height: 1 },
        content_width: 10,
        hits: Vec::new(),
    });
    assert_eq!(ws.frame_at_strip(25, 4), Some(fid));
    assert_eq!(ws.frame_at_strip(25, 5), None);
}

#[test]
fn next_tab_requests_recenter_but_click_does_not() {
    let mut ws = fresh();
    ws.new_tab(CursorId(2));
    let fid = ws.active_frame().unwrap();
    ws.panes.find_frame_mut(fid).unwrap().recenter_active = false;

    ws.next_tab();
    assert!(ws.panes.find_frame(fid).unwrap().recenter_active, "keyboard nav requests scroll-into-view");

    ws.panes.find_frame_mut(fid).unwrap().recenter_active = false;
    ws.activate_tab(fid, 0);
    assert!(!ws.panes.find_frame(fid).unwrap().recenter_active,
        "click activation must not request scroll — strip stays put");
}

#[test]
fn activate_tab_does_not_change_tab_scroll() {
    let mut ws = fresh();
    ws.new_tab(CursorId(2));
    ws.new_tab(CursorId(3));
    let fid = ws.active_frame().unwrap();
    ws.panes.find_frame_mut(fid).unwrap().tab_strip_scroll.0 = 7;
    ws.activate_tab(fid, 0);
    assert_eq!(ws.panes.find_frame(fid).unwrap().tab_strip_scroll.0, 7,
        "click-to-activate must not relayout the strip");
}

#[test]
fn focus_frame_jumps_focus_across_a_split() {
    let mut ws = fresh();
    let original = ws.active_frame().unwrap();
    ws.split_active(Axis::Horizontal);
    let new_fid = ws.active_frame().unwrap();
    assert_ne!(original, new_fid);

    assert!(ws.focus_frame(original));
    assert_eq!(ws.active_frame(), Some(original));
    assert!(ws.focus_frame(new_fid));
    assert_eq!(ws.active_frame(), Some(new_fid));
    assert!(!ws.focus_frame(FrameId(42)));
}

fn segs(s: &[&str]) -> Vec<String> {
    s.iter().map(|x| x.to_string()).collect()
}

#[test]
fn pane_at_root_returns_root_node() {
    let editor = fresh();
    let node = editor.panes.pane_at(&segs(&["pane"])).unwrap();
    assert!(node.is_focusable());
}

#[test]
fn pane_at_resolves_indices_after_split() {
    let mut editor = fresh();
    editor.split_active(Axis::Horizontal);
    assert!(editor.panes.pane_at(&segs(&["pane", "0"])).is_some());
    assert!(editor.panes.pane_at(&segs(&["pane", "1"])).is_some());
    assert!(editor.panes.pane_at(&segs(&["pane", "2"])).is_none());
}

#[test]
fn pane_at_rejects_non_pane_root() {
    let editor = fresh();
    assert!(editor.panes.pane_at(&segs(&["buf", "42"])).is_none());
}

#[test]
fn pane_paths_enumerates_tree_in_pre_order() {
    let mut editor = fresh();
    editor.split_active(Axis::Horizontal);
    let paths: Vec<String> = editor.panes.pane_paths();
    assert_eq!(paths, vec!["/pane", "/pane/0", "/pane/1"]);
}

#[test]
fn split_active_publishes_frame_split_pulse() {
    let mut ws = fresh();
    ws.split_active(Axis::Horizontal);
    let split = ws
        .pulses
        .iter()
        .find(|p| matches!(p, EditorPulse::FrameSplit { .. }))
        .expect("FrameSplit pulse fired");
    if let EditorPulse::FrameSplit { source, new, axis } = split {
        assert_eq!(source, &Vec::<usize>::new());
        assert_eq!(new, &vec![1]);
        assert_eq!(*axis, Axis::Horizontal);
    }
    assert!(matches!(ws.pulses.last(), Some(EditorPulse::FocusChanged { .. })));
}

#[test]
fn close_active_frame_publishes_frame_closed_pulse() {
    let mut ws = fresh();
    ws.split_active(Axis::Horizontal);
    ws.pulses.clear();
    ws.close_active_frame();
    let closed = ws
        .pulses
        .iter()
        .find(|p| matches!(p, EditorPulse::FrameClosed { .. }))
        .expect("FrameClosed pulse fired");
    if let EditorPulse::FrameClosed { frame } = closed {
        assert_eq!(frame, &vec![1]);
    }
}

#[test]
fn toggle_sidebar_publishes_sidebar_toggled_pulse() {
    let mut ws = fresh();
    ws.toggle_sidebar(SidebarSlot::Left);
    ws.toggle_sidebar(SidebarSlot::Left);
    let events: Vec<bool> = ws
        .pulses
        .iter()
        .filter_map(|p| match p {
            EditorPulse::SidebarToggled { open, .. } => Some(*open),
            _ => None,
        })
        .collect();
    assert_eq!(events, vec![true, false], "open then close");
}

#[test]
fn focus_dir_publishes_focus_changed_pulse_only_on_change() {
    let mut ws = fresh();
    ws.split_active(Axis::Horizontal);
    ws.pulses.clear();
    ws.focus_dir(Direction::Left);
    ws.focus_dir(Direction::Left);
    let count = ws
        .pulses
        .iter()
        .filter(|p| matches!(p, EditorPulse::FocusChanged { .. }))
        .count();
    assert_eq!(count, 1, "FocusChanged fires once for the real transition");
}

#[test]
fn toggle_right_sidebar_goes_last_and_keeps_focus_leaf() {
    let mut ws = fresh();
    ws.split_active(Axis::Vertical);
    ws.toggle_sidebar(SidebarSlot::Left);
    assert_eq!(ws.focus.active(), &[1, 1]);
    ws.toggle_sidebar(SidebarSlot::Right);
    assert_eq!(ws.focus.active(), &[1, 1]);
    assert_eq!(
        ws.panes.at_path(&[2]).unwrap().leaf_id(),
        Some(LeafRef::Sidebar(SidebarSlot::Right)),
    );
    ws.toggle_sidebar(SidebarSlot::Left);
    assert_eq!(ws.focus.active(), &[0, 1]);
    assert_eq!(ws.active_frame(), Some(FrameId(2)));
}

#[test]
fn install_sidebar_pane_opens_slot_and_sets_content() {
    let mut ws = fresh();
    ws.install_sidebar_pane(SidebarSlot::Right, 11);
    assert!(ws.panes.sidebar_present(SidebarSlot::Right));
    match ws.panes.at_path(&[1]).unwrap() {
        LayoutNode::Sidebar(s) => assert_eq!(s.content, Some(11)),
        _ => panic!("right sidebar at child 1"),
    }
    ws.install_sidebar_pane(SidebarSlot::Right, 12);
    match ws.panes.at_path(&[1]).unwrap() {
        LayoutNode::Sidebar(s) => assert_eq!(s.content, Some(12)),
        _ => panic!("right sidebar stays at child 1"),
    }
}

#[test]
fn focus_dir_picks_child_closest_to_source_rect() {
    let mut ws = fresh();
    ws.split_active(Axis::Horizontal);
    ws.split_active(Axis::Vertical);
    // Entering the vertical split on the right, children are compared by
    // the horizontal distance between centres: frame 3 (centre x 60) is
    // closer to frame 1 (centre x 20) than frame 2 (centre x 65).
    ws.render_cache.insert_frame_rect(FrameId(1), Rect { x: 0, y: 0, width: 40, height: 40 });
    ws.render_cache.insert_frame_rect(FrameId(2), Rect { x: 50, y: 0, width: 30, height: 10 });
    ws.render_cache.insert_frame_rect(FrameId(3), Rect { x: 40, y: 10, width: 40, height: 30 });
    ws.focus_frame(FrameId(1));
    ws.focus_dir(Direction::Right);
    assert_eq!(ws.active_frame(), Some(FrameId(3)), "frame 3's centre is closest");
    ws.focus_dir(Direction::Up);
    assert_eq!(ws.active_frame(), Some(FrameId(2)));
    ws.focus_dir(Direction::Up);
    assert_eq!(ws.active_frame(), Some(FrameId(2)), "no neighbour above: focus stays");
}

#[test]
fn focus_dir_without_rects_enters_adjacent_child() {
    let mut ws = fresh();
    ws.split_active(Axis::Horizontal);
    ws.split_active(Axis::Vertical);
    ws.focus_frame(FrameId(1));
    ws.focus_dir(Direction::Right);
    assert_eq!(ws.active_frame(), Some(FrameId(2)), "no cached rect: first child");
}

#[test]
fn root_area_bounds_every_cached_rect() {
    let mut cache = RenderCache::new();
    assert_eq!(root_area(&cache), Rect { x: 0, y: 0, width: 0, height: 0 });
    cache.insert_frame_rect(FrameId(1), Rect { x: 5, y: 2, width: 10, height: 4 });
    cache.insert_sidebar_rect(SidebarSlot::Left, Rect { x: 0, y: 3, width: 5, height: 10 });
    cache.insert_tab_strip(FrameId(1), TabStripCache {
        strip_rect: Rect { x: 5, y: 1, width: 10, height: 1 },
        content_width: 0,
        hits: Vec::new(),
    });
    assert_eq!(root_area(&cache), Rect { x: 0, y: 1, width: 15, height: 12 });
    assert_eq!(outer_editor_area(&cache), root_area(&cache));
    assert_eq!(leaf_rect(LeafRef::Sidebar(SidebarSlot::Left), &cache), Some(Rect { x: 0, y: 3, width: 5, height: 10 }));
    assert_eq!(leaf_rect(LeafRef::Frame(FrameId(2)), &cache), None);
    cache.insert_frame_rect(FrameId(1), Rect { x: 6, y: 2, width: 1, height: 1 });
    assert_eq!(leaf_rect(LeafRef::Frame(FrameId(1)), &cache), Some(Rect { x: 6, y: 2, width: 1, height: 1 }));
    cache.clear();
    assert_eq!(cache.frame_rect(FrameId(1)), None);
}

#[test]
fn layout_records_sidebar_and_frame_body_rects() {
    let mut ws = fresh();
    ws.render_cache.insert_frame_rect(FrameId(9), Rect { x: 0, y: 0, width: 1, height: 1 });
    let leaves = vec![
        (LeafRef::Sidebar(SidebarSlot::Left), Rect { x: 0, y: 0, width: 20, height: 30 }),
        (LeafRef::Frame(FrameId(1)), Rect { x: 20, y: 0, width: 60, height: 30 }),
        (LeafRef::Frame(FrameId(5)), Rect { x: 80, y: 0, width: 20, height: 30 }),
    ];
    let scrolls = ws.layout(
        &leaves,
        |fid, active, scroll, strip| {
            (fid.0 as u32 * 100 + active as u32 + scroll.0, vec![TabHit { idx: 0, rect: strip }])
        },
        |_cid| (40, 100),
    );
    // Frame 5 is not in the tree: it gets nothing. Frame 1's active
    // cursor has its caret line scrolled into its 29-row body.
    assert_eq!(scrolls, vec![(CursorId(1), (0, 12))]);
    // The settled offset is stored on the cursor.
    assert_eq!(ws.cursors.get(CursorId(1)).unwrap().scroll, (0, 12));
    let strip = ws.render_cache.tab_strip(FrameId(1)).unwrap();
    assert_eq!(strip.strip_rect, Rect { x: 20, y: 0, width: 60, height: 1 });
    assert_eq!(strip.content_width, 100);
    assert_eq!(strip.hits, vec![TabHit { idx: 0, rect: Rect { x: 20, y: 0, width: 60, height: 1 } }]);
    assert!(ws.render_cache.tab_strip(FrameId(5)).is_none());
    assert_eq!(ws.render_cache.tab_strip_count(), 1);
    assert_eq!(ws.render_cache.sidebar_rect(SidebarSlot::Left), Some(Rect { x: 0, y: 0, width: 20, height: 30 }));
    assert_eq!(ws.render_cache.frame_rect(FrameId(1)), Some(Rect { x: 20, y: 1, width: 60, height: 29 }));
    assert_eq!(ws.render_cache.frame_rect(FrameId(5)), None);
    // The pass starts from an empty cache.
    assert_eq!(ws.render_cache.frame_rect(FrameId(9)), None);

    let body = Rect { x: 20, y: 1, width: 60, height: 10 };
    // Anchored: the caret's line is scrolled into view.
    assert_eq!(body_scroll((0, 0), ScrollMode::Anchored, 25, 100, body), (0, 16));
    assert_eq!(body_scroll((0, 20), ScrollMode::Anchored, 25, 100, body), (0, 20));
    // Free: the offset stays, clamped to the content.
    assert_eq!(body_scroll((0, 95), ScrollMode::Free, 0, 100, body), (0, 90));
    // A body with no rows leaves the offset alone.
    let flat = Rect { x: 0, y: 0, width: 60, height: 0 };
    assert_eq!(body_scroll((3, 4), ScrollMode::Free, 0, 1, flat), (3, 4));
}

#[test]
fn layout_of_a_fresh_editor_records_strip_and_body() {
    let mut ws = fresh();
    let area = Rect { x: 0, y: 0, width: 80, height: 24 };
    let scrolls = ws.layout(
        &[(LeafRef::Frame(FrameId(1)), area)],
        |_fid, _active, _scroll, _strip| (0, Vec::new()),
        |_cid| (0, 1),
    );
    assert_eq!(ws.render_cache.frame_rect(FrameId(1)), Some(Rect { x: 0, y: 1, width: 80, height: 23 }));
    assert_eq!(ws.render_cache.tab_strip(FrameId(1)).unwrap().strip_rect, Rect { x: 0, y: 0, width: 80, height: 1 });
    assert_eq!(ws.render_cache.tab_strip_count(), 1);
    assert_eq!(ws.render_cache.sidebar_rect_count(), 0);
    assert_eq!(scrolls, vec![(CursorId(1), (0, 0))]);
}

#[test]
fn replace_active_tab_swaps_the_cursor_in_place() {
    let mut ws = fresh();
    ws.new_tab(CursorId(2));
    assert_eq!(ws.replace_active_tab(CursorId(3)), Some(CursorId(2)));
    let fid = ws.active_frame().unwrap();
    let frame = ws.panes.find_frame(fid).unwrap();
    assert_eq!(frame.tabs, vec![CursorId(1), CursorId(3)]);
    assert_eq!(frame.active_tab, 1);
    assert_eq!(ws.active_cursor_id(), Some(CursorId(3)));
}

#[test]
fn layout_stores_settled_scroll_on_the_cursor() {
    let mut c = Cursor::new(DocId(1));
    c.scroll = (0, 95);
    c.scroll_mode = ScrollMode::Free;
    let mut ws = Editor::new(FrameId(1), c);
    let scrolls = ws.layout(
        &[(LeafRef::Frame(FrameId(1)), Rect { x: 0, y: 0, width: 40, height: 11 })],
        |_fid, _active, _scroll, _strip| (0, Vec::new()),
        |_cid| (0, 100),
    );
    // Free: the offset stays, clamped so the last page is full.
    assert_eq!(scrolls, vec![(CursorId(1), (0, 90))]);
    let stored = ws.cursors.get(CursorId(1)).unwrap();
    assert_eq!(stored.scroll, (0, 90));
    assert_eq!(stored.scroll_mode, ScrollMode::Free);
    assert_eq!(stored.doc, DocId(1));
}
