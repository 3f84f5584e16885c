//! Screen geometry shared by the layout tree, the tab strip and the
//! popup placement code: a cell rectangle with `u16` coordinates, the
//! split axis, focus directions and sidebar slots.

use vstd::prelude::*;

verus! {

/// Rectangle on screen, in terminal cells, top-left origin.
#[derive(Copy, Clone, Debug, Default, PartialEq, Eq, Hash, Structural)]
pub struct Rect {
    pub x: u16,
    pub y: u16,
    pub width: u16,
    pub height: u16,
}

/// `a + b` clamped to `u16::MAX`, as `u16::saturating_add` computes it.
pub open spec fn sat_add16(a: int, b: int) -> int {
    if a + b > u16::MAX { u16::MAX as int } else { a + b }
}

/// `a - b` clamped at zero, as the unsigned `saturating_sub` computes it.
pub open spec fn sat_sub(a: int, b: int) -> int {
    if a >= b { a - b } else { 0 }
}

/// Whether the cell `(col, row)` lies inside `rect`. The right and
/// bottom edges saturate at `u16::MAX`, so a rect touching the far edge
/// of the coordinate space never wraps around.
pub open spec fn spec_rect_contains(rect: Rect, col: int, row: int) -> bool {
    &&& col >= rect.x
    &&& col < sat_add16(rect.x as int, rect.width as int)
    &&& row >= rect.y
    &&& row < sat_add16(rect.y as int, rect.height as int)
}

/// Hit test: is `(col, row)` inside `rect`?
pub fn rect_contains(rect: Rect, col: u16, row: u16) -> (b: bool)
    ensures
        b == spec_rect_contains(rect, col as int, row as int),
{
    col >= rect.x && col < rect.x.saturating_add(rect.width) && row >= rect.y && row
        < rect.y.saturating_add(rect.height)
}

/// Axis a split or a linear layout lays its children out along.
#[derive(Copy, Clone, Debug, PartialEq, Eq, Hash, Structural)]
pub enum Axis {
    Horizontal,
    Vertical,
}

/// Direction of a focus move.
#[derive(Copy, Clone, Debug, PartialEq, Eq, Hash, Structural)]
pub enum Direction {
    Left,
    Right,
    Up,
    Down,
}

/// Which side of the editor a sidebar occupies. One of each can exist
/// in the layout tree at a time.
#[derive(Copy, Clone, Debug, PartialEq, Eq, Hash, Structural)]
pub enum SidebarSlot {
    Left,
    Right,
}

} // verus!
