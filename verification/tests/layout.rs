use devix_core::geom::Rect;
use devix_core::widgets::layout::{
    ensure_visible, project_to_screen, scroll_by, set_scroll, CollectionLayout, CollectionPass,
    LinearLayout, UniformLayout, VRect,
};

fn h(sizes: Vec<u32>, spacing: u32) -> LinearLayout {
    LinearLayout::horizontal(sizes, 1).with_spacing(spacing)
}

#[test]
fn vrect_intersects_overlapping_rects() {
    let a = VRect { x: 0, y: 0, w: 10, h: 1 };
    let b = VRect { x: 5, y: 0, w: 10, h: 1 };
    assert!(a.intersects(b));
    let c = VRect { x: 10, y: 0, w: 1, h: 1 };
    assert!(!a.intersects(c), "edges that touch but don't overlap are not intersecting");
}

#[test]
fn project_to_screen_full_visible() {
    let virt = VRect { x: 5, y: 0, w: 4, h: 1 };
    let area = Rect { x: 100, y: 50, width: 20, height: 1 };
    let g = project_to_screen(virt, (0, 0), area).unwrap();
    assert_eq!(g.screen, Rect { x: 105, y: 50, width: 4, height: 1 });
    assert_eq!((g.clip_left, g.clip_right), (0, 0));
}

#[test]
fn project_to_screen_clipped_left() {
    let virt = VRect { x: 10, y: 0, w: 8, h: 1 };
    let area = Rect { x: 0, y: 0, width: 20, height: 1 };
    let g = project_to_screen(virt, (12, 0), area).unwrap();
    assert_eq!(g.screen.x, 0);
    assert_eq!(g.screen.width, 6);
    assert_eq!(g.clip_left, 2);
    assert_eq!(g.clip_right, 0);
}

#[test]
fn project_to_screen_off_screen_returns_none() {
    let virt = VRect { x: 0, y: 0, w: 10, h: 1 };
    let area = Rect { x: 0, y: 0, width: 5, height: 1 };
    assert!(project_to_screen(virt, (20, 0), area).is_none());
}

#[test]
fn linear_layout_rects_account_for_spacing() {
    let l = h(vec![3, 5, 4], 1);
    assert_eq!(l.content_size(), (3 + 1 + 5 + 1 + 4, 1));
    assert_eq!(l.rect_for(0), VRect { x: 0, y: 0, w: 3, h: 1 });
    assert_eq!(l.rect_for(1), VRect { x: 4, y: 0, w: 5, h: 1 });
    assert_eq!(l.rect_for(2), VRect { x: 10, y: 0, w: 4, h: 1 });
}

#[test]
fn linear_layout_decorations_sit_between_items() {
    let l = h(vec![3, 5, 4], 1);
    let decs = l.decorations_in(VRect { x: 0, y: 0, w: 100, h: 1 });
    assert_eq!(decs.len(), 2);
    assert_eq!(decs[0], (0, VRect { x: 3, y: 0, w: 1, h: 1 }));
    assert_eq!(decs[1], (1, VRect { x: 9, y: 0, w: 1, h: 1 }));
}

#[test]
fn linear_layout_items_in_skips_off_screen() {
    let l = h(vec![5; 10], 1);
    let visible = l.items_in(VRect { x: 12, y: 0, w: 7, h: 1 });
    assert_eq!(visible, vec![2, 3]);
    let visible = l.items_in(VRect { x: 0, y: 0, w: 10, h: 1 });
    assert_eq!(visible, vec![0, 1]);
}

#[test]
fn ensure_visible_sticky_does_not_move_when_already_in_view() {
    let layout = h(vec![5; 10], 1);
    let content = layout.content_size();
    let mut scroll = (8u32, 0u32);
    ensure_visible(&mut scroll, layout.rect_for(2), content, (10, 1));
    assert_eq!(scroll, (8, 0));
}

#[test]
fn ensure_visible_scrolls_minimum_to_show_item() {
    let layout = h(vec![5; 10], 1);
    let content = layout.content_size();
    let mut scroll = (0u32, 0u32);
    ensure_visible(&mut scroll, layout.rect_for(9), content, (10, 1));
    assert_eq!(scroll.0, 49);
}

#[test]
fn uniform_layout_rect_for_is_constant_stride() {
    let l = UniformLayout::vertical(1_000_000, 1, 80);
    assert_eq!(l.rect_for(0), VRect { x: 0, y: 0, w: 80, h: 1 });
    assert_eq!(l.rect_for(42), VRect { x: 0, y: 42, w: 80, h: 1 });
}

#[test]
fn uniform_layout_items_in_only_walks_visible() {
    let l = UniformLayout::vertical(1_000, 1, 80);
    let visible = l.items_in(VRect { x: 0, y: 100, w: 80, h: 5 });
    assert_eq!(visible, vec![100, 101, 102, 103, 104]);
}

#[test]
fn uniform_layout_with_spacing_skips_gap() {
    let l = UniformLayout::vertical(4, 2, 80).with_spacing(1);
    assert_eq!(l.rect_for(2), VRect { x: 0, y: 6, w: 80, h: 2 });
    let visible = l.items_in(VRect { x: 0, y: 5, w: 80, h: 4 });
    assert_eq!(visible, vec![2]);
}

#[test]
fn collection_pass_item_at_screen_accounts_for_scroll() {
    let layout = h(vec![5; 10], 1);
    let area = Rect { x: 0, y: 0, width: 10, height: 1 };
    let pass = CollectionPass::new(&layout, (6, 0), area);
    assert_eq!(pass.item_at_screen(0, 0), Some(1));
    assert_eq!(pass.item_at_screen(5, 0), None);
    assert_eq!(pass.item_at_screen(6, 0), Some(2));
}

// -- further cases -------------------------------------------------------

#[test]
fn set_scroll_clamps_to_content_minus_viewport() {
    let mut scroll = (0u32, 0u32);
    set_scroll(&mut scroll, 100, 3, (50, 10), (20, 10));
    assert_eq!(scroll, (30, 0));
    set_scroll(&mut scroll, 7, 0, (50, 10), (20, 10));
    assert_eq!(scroll, (7, 0));
}

#[test]
fn scroll_by_clamps_at_both_ends() {
    let mut scroll = (5u32, 5u32);
    scroll_by(&mut scroll, -100, 1_000, (50, 40), (20, 10));
    assert_eq!(scroll, (0, 30));
    scroll_by(&mut scroll, 3, -4, (50, 40), (20, 10));
    assert_eq!(scroll, (3, 26));
}

#[test]
fn ensure_visible_scrolls_back_when_target_is_above() {
    let mut scroll = (0u32, 40u32);
    let target = VRect { x: 0, y: 12, w: 80, h: 1 };
    ensure_visible(&mut scroll, target, (80, 100), (80, 20));
    assert_eq!(scroll, (0, 12));
}

#[test]
fn linear_layout_vertical_content_size_and_empty() {
    let l = LinearLayout::vertical(vec![2, 3], 7);
    assert_eq!(l.content_size(), (7, 5));
    assert_eq!(l.rect_for(1), VRect { x: 0, y: 2, w: 7, h: 3 });
    let empty = LinearLayout::vertical(Vec::new(), 7);
    assert_eq!(empty.content_size(), (0, 0));
    assert_eq!(empty.items_in(VRect { x: 0, y: 0, w: 10, h: 10 }), Vec::<usize>::new());
    assert_eq!(l.sizes(), &[2, 3]);
    assert_eq!(l.spacing(), 0);
}

#[test]
fn linear_layout_offsets_saturate_at_u32_max() {
    let l = LinearLayout::horizontal(vec![u32::MAX, 10], 1);
    assert_eq!(l.rect_for(1).x, u32::MAX);
    assert_eq!(l.content_size(), (u32::MAX, 1));
}

#[test]
fn linear_layout_no_decorations_without_spacing() {
    let l = h(vec![3, 5, 4], 0);
    assert!(l.decorations_in(VRect { x: 0, y: 0, w: 100, h: 1 }).is_empty());
}

#[test]
fn uniform_layout_content_size_counts_gaps() {
    let l = UniformLayout::horizontal(3, 4, 2).with_spacing(1);
    assert_eq!(l.content_size(), (14, 2));
    assert_eq!(UniformLayout::vertical(0, 4, 2).content_size(), (0, 0));
}

#[test]
fn uniform_layout_items_in_respects_the_cross_axis() {
    let l = UniformLayout::vertical(1_000, 1, 80);
    // A viewport entirely to the right of the items sees none of them.
    let visible = l.items_in(VRect { x: 100, y: 10, w: 10, h: 5 });
    assert!(visible.is_empty());
}

#[test]
fn collection_pass_visible_items_projects_each_visible_item() {
    let layout = h(vec![5; 10], 1);
    let area = Rect { x: 2, y: 3, width: 10, height: 1 };
    let pass = CollectionPass::new(&layout, (6, 0), area);
    let items = pass.visible_items();
    let ids: Vec<usize> = items.iter().map(|(i, _)| *i).collect();
    assert_eq!(ids, vec![1, 2]);
    assert_eq!(items[0].1.screen, Rect { x: 2, y: 3, width: 5, height: 1 });
    assert_eq!(items[0].1.clip_left, 0);
    assert_eq!(items[1].1.screen, Rect { x: 8, y: 3, width: 4, height: 1 });
    assert_eq!(items[1].1.clip_right, 1);
    assert_eq!(pass.viewport(), VRect { x: 6, y: 0, w: 10, h: 1 });
}
