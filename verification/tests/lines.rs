use devix_core::widgets::lines::{
    MATERIALIZE_WINDOW, coalesce, gutter, gutter_width, line_spans, paint_styles, visible_window,
};

#[test]
fn window_starts_at_scroll_top_and_is_clipped() {
    assert_eq!(visible_window(0, 10), (0, 10));
    assert_eq!(visible_window(50, 1000), (50, 50 + MATERIALIZE_WINDOW));
    assert_eq!(visible_window(2000, 1000), (1000, 1000));
    assert_eq!(visible_window(990, 1000), (990, 1000));
}

#[test]
fn gutter_is_right_aligned_line_numbers() {
    assert_eq!(gutter_width(120), 5);
    assert_eq!(gutter_width(0), 3);
    assert_eq!(gutter(0, 3), "   1 ");
    assert_eq!(gutter(41, 2), " 42 ");
    // A number wider than the gutter is not cut.
    assert_eq!(gutter(999, 2), " 1000 ");
}

#[test]
fn later_highlights_paint_over_earlier_ones() {
    let styles = paint_styles(8, 0, &[(0, 5, 1), (2, 4, 2), (6, 100, 3), (7, 3, 9)]);
    assert_eq!(styles, vec![1, 1, 2, 2, 1, 0, 3, 3]);
}

#[test]
fn equal_neighbours_merge_into_spans() {
    assert_eq!(coalesce(&[1, 1, 2, 2, 1, 0, 3, 3]), vec![(0, 2, 1), (2, 4, 2), (4, 5, 1), (5, 6, 0), (6, 8, 3)]);
    assert_eq!(coalesce(&[]), vec![]);
    assert_eq!(coalesce(&[7, 7, 7]), vec![(0, 3, 7)]);
}

#[test]
fn line_spans_cut_the_text() {
    let spans = line_spans("let x = 1;", 0, &[(0, 3, 5), (8, 9, 6)]);
    let expected: Vec<(String, u32)> = vec![
        ("let".to_string(), 5),
        (" x = ".to_string(), 0),
        ("1".to_string(), 6),
        (";".to_string(), 0),
    ];
    assert_eq!(spans, expected);
    assert!(line_spans("", 0, &[(0, 3, 5)]).is_empty());
}
