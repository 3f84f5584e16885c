use devix_core::geom::Rect;
use devix_core::widgets::popup::{
    CompletionLine, Popup, PopupAnchor, PopupContent, list_window_top, measure_list, measure_text,
    place, popup_area,
};

fn viewport(w: u16, h: u16) -> Rect {
    Rect { x: 0, y: 0, width: w, height: h }
}

#[test]
fn popup_renders_below_anchor_when_room() {
    let lines = vec!["hello".to_string()];
    let popup = Popup::with_default_size(PopupAnchor { col: 2, row: 1 }, PopupContent::Text(&lines));
    let area = popup_area(&popup, viewport(30, 10)).unwrap();
    // Top border at y=2, content at y=3 starting at x=3.
    assert_eq!(area, Rect { x: 2, y: 2, width: 7, height: 3 });
    assert_eq!((area.x + 1, area.y + 1), (3, 3));
}

#[test]
fn popup_flips_above_when_no_room_below() {
    let lines = vec!["x".to_string()];
    let popup = Popup::with_default_size(PopupAnchor { col: 1, row: 9 }, PopupContent::Text(&lines));
    let area = popup_area(&popup, viewport(20, 10)).unwrap();
    // Below would start at row 10, out of bounds: the 3-row box sits on rows 6..9.
    assert_eq!(area, Rect { x: 1, y: 6, width: 3, height: 3 });
    assert_eq!((area.x + 1, area.y + 1), (2, 7));
}

#[test]
fn empty_content_renders_nothing() {
    let lines: Vec<String> = vec![];
    let popup = Popup::with_default_size(PopupAnchor { col: 0, row: 0 }, PopupContent::Text(&lines));
    assert_eq!(popup_area(&popup, viewport(20, 10)), None);
}

#[test]
fn default_size_is_sixty_by_twelve() {
    let lines: Vec<String> = vec![];
    let popup = Popup::with_default_size(PopupAnchor { col: 0, row: 0 }, PopupContent::Text(&lines));
    assert_eq!(popup.max_size, (60, 12));
}

#[test]
fn text_wraps_and_clips_to_inner_box() {
    let lines = vec!["a".repeat(25), "bb".to_string()];
    // 25 chars in 10 columns wrap to 3 rows, plus one row for "bb".
    assert_eq!(measure_text(&lines, 10, 8), Some((10, 4)));
    // Height clips at the inner maximum.
    assert_eq!(measure_text(&lines, 10, 2), Some((10, 2)));
    assert_eq!(measure_text(&[], 10, 2), None);
}

#[test]
fn list_width_counts_detail_gap() {
    let items = vec![
        CompletionLine { label: "new", detail: Some("fn() -> Self") },
        CompletionLine { label: "next", detail: None },
    ];
    // "new" + 12-char detail + 3 cells of gap = 18.
    assert_eq!(measure_list(&items, 40, 10), Some((18, 2)));
    assert_eq!(measure_list(&items, 10, 1), Some((10, 1)));
    let none: Vec<CompletionLine> = vec![];
    assert_eq!(measure_list(&none, 10, 1), None);
    let popup = Popup::with_default_size(
        PopupAnchor { col: 0, row: 0 },
        PopupContent::CompletionList { items: &items, selected: 1 },
    );
    assert_eq!(popup_area(&popup, viewport(80, 24)), Some(Rect { x: 0, y: 1, width: 20, height: 4 }));
}

#[test]
fn place_shifts_left_at_the_right_edge() {
    let r = place(PopupAnchor { col: 18, row: 0 }, 6, 3, viewport(20, 10));
    assert_eq!(r, Rect { x: 14, y: 1, width: 6, height: 3 });
    // No room above or below: pinned to the top of the viewport.
    let r = place(PopupAnchor { col: 0, row: 1 }, 4, 5, viewport(20, 4));
    assert_eq!(r.y, 0);
}

#[test]
fn list_window_keeps_selection_on_first_third() {
    assert_eq!(list_window_top(0, 20, 6), 0);
    assert_eq!(list_window_top(10, 20, 6), 8);
    assert_eq!(list_window_top(19, 20, 6), 14);
    assert_eq!(list_window_top(3, 2, 6), 0);
}
