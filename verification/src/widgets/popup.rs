//! Floating popup geometry: a bordered box with text or list content,
//! anchored to a screen cell, sized to its content (clamped against its
//! maximum size and the viewport), placed one row below the anchor or
//! flipped above it when below would clip. Used by hover (text) and
//! completion (list) popups.

use vstd::prelude::*;

use crate::geom::{Rect, sat_add16, sat_sub};

verus! {

/// Cell the popup attaches to. The box prefers the row below `(col,
/// row)`, so it doesn't cover what the user points at, and flips above
/// when below would overflow the viewport.
#[derive(Copy, Clone, Debug)]
pub struct PopupAnchor {
    pub col: u16,
    pub row: u16,
}

/// One row of a completion popup: `label` with an optional dim `detail`.
#[derive(Copy, Clone, Debug)]
pub struct CompletionLine<'a> {
    pub label: &'a str,
    pub detail: Option<&'a str>,
}

/// Popup payload: pre-split text lines (hover) or completion items.
#[derive(Copy, Clone, Debug)]
pub enum PopupContent<'a> {
    Text(&'a [String]),
    CompletionList { items: &'a [CompletionLine<'a>], selected: usize },
}

#[derive(Copy, Clone, Debug)]
pub struct Popup<'a> {
    pub anchor: PopupAnchor,
    pub content: PopupContent<'a>,
    /// Outer bounds, border included. The box never exceeds them.
    pub max_size: (u16, u16),
}

/// Default outer bounds of a popup.
pub const DEFAULT_MAX_WIDTH: u16 = 60;

/// Default outer bounds of a popup.
pub const DEFAULT_MAX_HEIGHT: u16 = 12;

impl<'a> Popup<'a> {
    /// A popup bounded by the default 60x12 box.
    pub fn with_default_size(anchor: PopupAnchor, content: PopupContent<'a>) -> (p: Popup<'a>)
        ensures
            p.anchor == anchor,
            p.content == content,
            p.max_size == (60u16, 12u16),
    {
        Popup { anchor, content, max_size: (DEFAULT_MAX_WIDTH, DEFAULT_MAX_HEIGHT) }
    }
}

pub open spec fn min16(a: int, b: int) -> int {
    if a <= b {
        a
    } else {
        b
    }
}

pub open spec fn max16(a: int, b: int) -> int {
    if a >= b {
        a
    } else {
        b
    }
}

/// Display width of a line in cells: its character count, as a `u16`
/// (wrapping past `u16::MAX`, as the cast does).
pub open spec fn display_width(line: Seq<char>) -> int {
    (line.len() % 65536) as int
}

/// Rows a line of width `w` wraps to in `inner_w` columns (at least 1).
pub open spec fn wrapped_rows(w: int, inner_w: int) -> int {
    let d = max16(inner_w, 1);
    max16((w + d - 1) / d, 1)
}

/// Measuring text from line `k` on, having reached width `w` and height
/// `h`: each line widens the box to its (clipped) width and adds its
/// wrapped rows; the walk stops once the height reaches the maximum.
pub open spec fn measure_from(lines: Seq<Seq<char>>, k: int, inner_w: int, inner_h: int, w: int, h: int) -> (
    int,
    int,
)
    decreases lines.len() - k,
{
    if k >= lines.len() || k < 0 {
        (w, h)
    } else {
        let dw = display_width(lines[k]);
        let w2 = max16(w, min16(dw, inner_w));
        let h2 = sat_add16(h, wrapped_rows(dw, inner_w));
        if h2 >= inner_h {
            (w2, inner_h)
        } else {
            measure_from(lines, k + 1, inner_w, inner_h, w2, h2)
        }
    }
}

/// Content size of text lines inside `inner_max_w` x `inner_max_h`;
/// `None` for no lines.
pub fn measure_text(lines: &[String], inner_max_w: u16, inner_max_h: u16) -> (r: Option<(u16, u16)>)
    ensures
        match r {
            Some((w, h)) => lines@.len() > 0 && (w as int, h as int) == measure_from(
                lines@.map_values(|s: String| s@),
                0,
                inner_max_w as int,
                inner_max_h as int,
                0,
                0,
            ),
            None => lines@.len() == 0,
        },
{
    if lines.len() == 0 {
        return None;
    }
    let ghost ls = lines@.map_values(|s: String| s@);
    let mut content_w: u16 = 0;
    let mut content_h: u16 = 0;
    let mut k: usize = 0;
    let d: u16 = if inner_max_w > 1 {
        inner_max_w
    } else {
        1
    };
    while k < lines.len()
        invariant
            ls == lines@.map_values(|s: String| s@),
            k <= lines@.len(),
            d == max16(inner_max_w as int, 1),
            measure_from(ls, 0, inner_max_w as int, inner_max_h as int, 0, 0) == measure_from(
                ls,
                k as int,
                inner_max_w as int,
                inner_max_h as int,
                content_w as int,
                content_h as int,
            ),
        decreases lines@.len() - k,
    {
        let n = lines[k].as_str().unicode_len();
        proof {
            assert(ls[k as int] == lines@[k as int]@);
        }
        let display_w: u16 = (n % 65536) as u16;
        let q = display_w / d;
        let rem = display_w % d;
        proof {
            lemma_div_ceil(display_w as int, d as int);
            vstd::arithmetic::div_mod::lemma_fundamental_div_mod(display_w as int, d as int);
            if rem != 0 {
                assert(d >= 2) by {
                    if d == 1 {
                        vstd::arithmetic::div_mod::lemma_fundamental_div_mod_converse(
                            display_w as int,
                            1,
                            display_w as int,
                            0,
                        );
                    }
                }
                assert(q * d >= q * 2) by (nonlinear_arith)
                    requires
                        d >= 2,
                        q >= 0,
                ;
                assert(d * q == q * d) by (nonlinear_arith);
            }
        }
        let rows_raw: u16 = if rem != 0 {
            q + 1
        } else {
            q
        };
        let rows: u16 = if rows_raw > 1 {
            rows_raw
        } else {
            1
        };
        let clipped = if display_w < inner_max_w {
            display_w
        } else {
            inner_max_w
        };
        if clipped > content_w {
            content_w = clipped;
        }
        content_h = content_h.saturating_add(rows);
        if content_h >= inner_max_h {
            content_h = inner_max_h;
            return Some((content_w, content_h));
        }
        k = k + 1;
    }
    Some((content_w, content_h))
}

/// Width a completion row asks for: label, plus three cells of gap and
/// the detail when there is one, clipped to `inner_w`.
pub open spec fn row_width(label: Seq<char>, detail: Option<Seq<char>>, inner_w: int) -> int {
    let lw = (label.len() % 65536) as int;
    let dw = match detail {
        Some(d) => ((d.len() % 65536) + 3) as int,
        None => 0,
    };
    min16(sat_add16(lw, dw), inner_w)
}

/// The widest of the first `n` rows (0 for none).
pub open spec fn widest_row(items: Seq<(Seq<char>, Option<Seq<char>>)>, n: int, inner_w: int) -> int
    decreases n,
{
    if n <= 0 {
        0
    } else {
        max16(widest_row(items, n - 1, inner_w), row_width(items[n - 1].0, items[n - 1].1, inner_w))
    }
}

/// The first `n` details leave room for their three-cell gap within a
/// `u16` width.
pub open spec fn details_fit(items: Seq<CompletionLine>, n: int) -> bool {
    forall|i: int|
        0 <= i < n && i < items.len() ==> ((#[trigger] items[i]).detail matches Some(d) ==> d@.len()
            % 65536 + 3 <= u16::MAX)
}

/// The label and detail texts of completion items.
pub open spec fn item_texts(items: Seq<CompletionLine>) -> Seq<(Seq<char>, Option<Seq<char>>)> {
    items.map_values(
        |it: CompletionLine|
            (
                it.label@,
                match it.detail {
                    Some(d) => Some(d@),
                    None => None,
                },
            ),
    )
}

/// Content size of completion items inside `inner_max_w` x
/// `inner_max_h`: one row per item (at most `inner_max_h`), as wide as
/// the widest of those rows. `None` for no items.
pub fn measure_list(items: &[CompletionLine], inner_max_w: u16, inner_max_h: u16) -> (r: Option<
    (u16, u16),
>)
    requires
        details_fit(items@, min16(items@.len() as int, inner_max_h as int)),
    ensures
        match r {
            Some((w, h)) => {
                &&& items@.len() > 0
                &&& w == widest_row(
                    item_texts(items@),
                    min16(items@.len() as int, inner_max_h as int),
                    inner_max_w as int,
                )
                &&& h == min16((items@.len() % 65536) as int, inner_max_h as int)
            },
            None => items@.len() == 0,
        },
{
    if items.len() == 0 {
        return None;
    }
    let ghost its = item_texts(items@);
    let limit: usize = if items.len() < inner_max_h as usize {
        items.len()
    } else {
        inner_max_h as usize
    };
    let mut content_w: u16 = 0;
    let mut k: usize = 0;
    while k < limit
        invariant
            its == item_texts(items@),
            limit <= items@.len(),
            limit == min16(items@.len() as int, inner_max_h as int),
            details_fit(items@, limit as int),
            k <= limit,
            content_w == widest_row(its, k as int, inner_max_w as int),
        decreases limit - k,
    {
        let it = &items[k];
        let label_w: u16 = (it.label.unicode_len() % 65536) as u16;
        let detail_w: u16 = match it.detail {
            Some(d) => ((d.unicode_len() % 65536) as u16) + 3,
            None => 0,
        };
        let sum = label_w.saturating_add(detail_w);
        let row_w = if sum < inner_max_w {
            sum
        } else {
            inner_max_w
        };
        proof {
            assert(its[k as int].0 == it.label@);
        }
        if row_w > content_w {
            content_w = row_w;
        }
        k = k + 1;
    }
    let len16: u16 = (items.len() % 65536) as u16;
    let content_h = if len16 < inner_max_h {
        len16
    } else {
        inner_max_h
    };
    Some((content_w, content_h))
}

/// Where a box of `outer_w` x `outer_h` goes: at the anchor's column,
/// pulled left to stay inside the viewport (but not past its left
/// edge); on the row below the anchor when it fits, else ending on the
/// row above, else at the viewport's top.
pub open spec fn spec_place(anchor: PopupAnchor, outer_w: int, outer_h: int, viewport: Rect) -> Rect {
    let right = sat_add16(viewport.x as int, viewport.width as int);
    let bottom = sat_add16(viewport.y as int, viewport.height as int);
    let x0 = if anchor.col + outer_w > right {
        sat_sub(right, outer_w)
    } else {
        anchor.col as int
    };
    let x = if x0 < viewport.x {
        viewport.x as int
    } else {
        x0
    };
    let below = sat_sub(bottom, sat_add16(anchor.row as int, 1));
    let above = sat_sub(anchor.row as int, viewport.y as int);
    let y = if below >= outer_h {
        sat_add16(anchor.row as int, 1)
    } else if above >= outer_h {
        sat_sub(anchor.row as int, outer_h)
    } else {
        viewport.y as int
    };
    Rect { x: x as u16, y: y as u16, width: outer_w as u16, height: outer_h as u16 }
}

/// A box that fits between the row below the anchor and the viewport's
/// bottom goes on that row; one that does not, but fits between the
/// viewport's top and the anchor's row, ends on the row just above the
/// anchor; one that fits neither starts at the viewport's top. Either
/// way it has the size asked for.
pub proof fn lemma_place_rows(anchor: PopupAnchor, outer_w: u16, outer_h: u16, viewport: Rect)
    requires
        viewport.y + viewport.height <= u16::MAX,
        outer_h >= 1,
    ensures
        ({
            let r = spec_place(anchor, outer_w as int, outer_h as int, viewport);
            &&& r.width == outer_w && r.height == outer_h
            &&& anchor.row + 1 + outer_h <= viewport.y + viewport.height ==> r.y == anchor.row + 1
            &&& (anchor.row + 1 + outer_h > viewport.y + viewport.height && viewport.y + outer_h
                <= anchor.row) ==> r.y + outer_h == anchor.row
            &&& (anchor.row + 1 + outer_h > viewport.y + viewport.height && viewport.y + outer_h
                > anchor.row) ==> r.y == viewport.y
        }),
{
}

/// A box no wider than the viewport stays inside it horizontally: at the
/// anchor's column when it fits there, else pulled left to end on the
/// viewport's right edge.
pub proof fn lemma_place_columns(anchor: PopupAnchor, outer_w: u16, outer_h: u16, viewport: Rect)
    requires
        viewport.x + viewport.width <= u16::MAX,
        outer_w <= viewport.width,
        viewport.x <= anchor.col,
    ensures
        ({
            let r = spec_place(anchor, outer_w as int, outer_h as int, viewport);
            &&& viewport.x <= r.x && r.x + outer_w <= viewport.x + viewport.width
            &&& anchor.col + outer_w <= viewport.x + viewport.width ==> r.x == anchor.col
            &&& anchor.col + outer_w > viewport.x + viewport.width ==> r.x + outer_w == viewport.x
                + viewport.width
        }),
{
}

/// Place a box of `outer_w` x `outer_h` for `anchor` inside `viewport`.
pub fn place(anchor: PopupAnchor, outer_w: u16, outer_h: u16, viewport: Rect) -> (r: Rect)
    requires
        anchor.col + outer_w <= u16::MAX,
    ensures
        r == spec_place(anchor, outer_w as int, outer_h as int, viewport),
{
    let viewport_right = viewport.x.saturating_add(viewport.width);
    let viewport_bottom = viewport.y.saturating_add(viewport.height);
    let mut x = anchor.col;
    if x + outer_w > viewport_right {
        x = viewport_right.saturating_sub(outer_w);
    }
    if x < viewport.x {
        x = viewport.x;
    }
    let space_below = viewport_bottom.saturating_sub(anchor.row.saturating_add(1));
    let space_above = anchor.row.saturating_sub(viewport.y);
    let y = if space_below >= outer_h {
        anchor.row.saturating_add(1)
    } else if space_above >= outer_h {
        anchor.row.saturating_sub(outer_h)
    } else {
        viewport.y
    };
    Rect { x, y, width: outer_w, height: outer_h }
}

/// The rect a popup occupies inside `viewport`, border included; `None`
/// when there is no room or nothing to show.
pub fn popup_area(popup: &Popup, viewport: Rect) -> (r: Option<Rect>)
    requires
        popup.anchor.col + max16(viewport.width as int, 3) <= u16::MAX,
        popup.content matches PopupContent::CompletionList { items, .. } ==> details_fit(
            items@,
            items@.len() as int,
        ),
    ensures
        ({
            let max_w = max16(min16(popup.max_size.0 as int, viewport.width as int), 3);
            let max_h = max16(min16(popup.max_size.1 as int, viewport.height as int), 3);
            let iw = sat_sub(max_w, 2);
            let ih = sat_sub(max_h, 2);
            let content: Option<(int, int)> = match popup.content {
                PopupContent::Text(lines) => if lines@.len() > 0 {
                    Some(
                        measure_from(lines@.map_values(|s: String| s@), 0, iw, ih, 0, 0),
                    )
                } else {
                    None
                },
                PopupContent::CompletionList { items, selected } => if items@.len() > 0 {
                    Some(
                        (
                            widest_row(item_texts(items@), min16(items@.len() as int, ih), iw),
                            min16((items@.len() % 65536) as int, ih),
                        ),
                    )
                } else {
                    None
                },
            };
            r == (if iw == 0 || ih == 0 {
                None
            } else {
                match content {
                    Some((cw, ch)) => Some(
                        spec_place(
                            popup.anchor,
                            max16(sat_add16(cw, 2), 3),
                            max16(sat_add16(ch, 2), 3),
                            viewport,
                        ),
                    ),
                    None => None,
                }
            })
        }),
{
    let (mw, mh) = popup.max_size;
    let max_w = {
        let m = if mw < viewport.width {
            mw
        } else {
            viewport.width
        };
        if m > 3 {
            m
        } else {
            3
        }
    };
    let max_h = {
        let m = if mh < viewport.height {
            mh
        } else {
            viewport.height
        };
        if m > 3 {
            m
        } else {
            3
        }
    };
    let inner_max_w = max_w.saturating_sub(2);
    let inner_max_h = max_h.saturating_sub(2);
    if inner_max_w == 0 || inner_max_h == 0 {
        return None;
    }
    let measured = match &popup.content {
        PopupContent::Text(lines) => measure_text(lines, inner_max_w, inner_max_h),
        PopupContent::CompletionList { items, .. } => measure_list(items, inner_max_w, inner_max_h),
    };
    let (content_w, content_h) = match measured {
        Some(m) => m,
        None => return None,
    };
    proof {
        match popup.content {
            PopupContent::Text(lines) => {
                lemma_measure_bound(
                    lines@.map_values(|s: String| s@),
                    0,
                    inner_max_w as int,
                    inner_max_h as int,
                    0,
                    0,
                );
            },
            PopupContent::CompletionList { items, .. } => {
                lemma_widest_bound(
                    item_texts(items@),
                    min16(items@.len() as int, inner_max_h as int),
                    inner_max_w as int,
                );
            },
        }
    }
    let ow = content_w.saturating_add(2);
    let oh = content_h.saturating_add(2);
    let outer_w = if ow > 3 {
        ow
    } else {
        3
    };
    let outer_h = if oh > 3 {
        oh
    } else {
        3
    };
    Some(place(popup.anchor, outer_w, outer_h, viewport))
}

/// Ceiling division through floor division and remainder.
proof fn lemma_div_ceil(w: int, d: int)
    requires
        w >= 0,
        d >= 1,
    ensures
        (w + d - 1) / d == w / d + (if w % d != 0 {
            1int
        } else {
            0int
        }),
{
    let q = w / d;
    let r = w % d;
    vstd::arithmetic::div_mod::lemma_fundamental_div_mod(w, d);
    assert(d * q == q * d) by (nonlinear_arith);
    if r == 0 {
        vstd::arithmetic::div_mod::lemma_fundamental_div_mod_converse(w + d - 1, d, q, d - 1);
    } else {
        assert((q + 1) * d == q * d + d) by (nonlinear_arith);
        vstd::arithmetic::div_mod::lemma_fundamental_div_mod_converse(w + d - 1, d, q + 1, r - 1);
    }
}

/// Measured text is never wider than the inner width.
proof fn lemma_measure_bound(lines: Seq<Seq<char>>, k: int, inner_w: int, inner_h: int, w: int, h: int)
    requires
        0 <= w <= inner_w,
    ensures
        measure_from(lines, k, inner_w, inner_h, w, h).0 <= inner_w,
    decreases lines.len() - k,
{
    if 0 <= k < lines.len() {
        let dw = display_width(lines[k]);
        let w2 = max16(w, min16(dw, inner_w));
        let h2 = sat_add16(h, wrapped_rows(dw, inner_w));
        if h2 < inner_h {
            lemma_measure_bound(lines, k + 1, inner_w, inner_h, w2, h2);
        }
    }
}

/// No completion row is wider than the inner width.
proof fn lemma_widest_bound(items: Seq<(Seq<char>, Option<Seq<char>>)>, n: int, inner_w: int)
    requires
        inner_w >= 0,
    ensures
        widest_row(items, n, inner_w) <= inner_w,
    decreases n,
{
    if n > 0 {
        lemma_widest_bound(items, n - 1, inner_w);
    }
}

/// The first row of the window: the selection on the window's first
/// third, clamped so the window neither starts before the list nor runs
/// past its end.
pub open spec fn spec_list_window_top(selected: int, total: int, visible: int) -> int {
    min16(sat_sub(selected, visible / 3), sat_sub(total, min16(visible, total)))
}

/// The window keeps the selected row in view, and shows no blank rows
/// past the list's end: with `visible >= 1` rows and `selected` an item
/// of the list, `top <= selected < top + visible`, and the window ends
/// at or before the last item when the list is at least that long.
pub proof fn lemma_list_window_shows_selection(selected: usize, total: usize, visible: usize)
    requires
        visible >= 1,
        selected < total,
    ensures
        ({
            let top = spec_list_window_top(selected as int, total as int, visible as int);
            &&& 0 <= top <= selected < top + visible
            &&& visible <= total ==> top + visible <= total
        }),
{
}

/// First item row shown when `visible` rows of a `total`-item list are
/// painted around `selected`: the selection sits on the first third of
/// the window when possible, clamped at the top and bottom.
pub fn list_window_top(selected: usize, total: usize, visible: usize) -> (top: usize)
    ensures
        top == spec_list_window_top(selected as int, total as int, visible as int),
{
    let target_row = visible / 3;
    let a = selected.saturating_sub(target_row);
    let v = if visible < total {
        visible
    } else {
        total
    };
    let b = total.saturating_sub(v);
    if a < b {
        a
    } else {
        b
    }
}

} // verus!
