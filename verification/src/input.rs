//! Terminal input and screen geometry as plain values: the keys and clicks the
//! state machines react to, and the rectangles the renderer lays out.
use vstd::prelude::*;

verus! {

#[derive(Debug, Clone, Copy, PartialEq, Eq, Structural)]
pub enum KeyCode {
    Char(char),
    Enter,
    Esc,
    Tab,
    BackTab,
    Backspace,
    Up,
    Down,
    Left,
    Right,
    PageUp,
    PageDown,
    Home,
    End,
    /// Any key otter does not react to.
    Other,
}

/// One key press, with whether Control was held.
#[derive(Debug, Clone, Copy, PartialEq, Eq, Structural)]
pub struct KeyInput {
    pub code: KeyCode,
    pub ctrl: bool,
}

impl KeyInput {
    /// A press of `code` without modifiers.
    pub fn plain(code: KeyCode) -> (r: KeyInput)
        ensures
            r.code == code,
            !r.ctrl,
    {
        KeyInput { code, ctrl: false }
    }
}

#[derive(Debug, Clone, Copy, PartialEq, Eq, Structural)]
pub enum MouseKind {
    LeftDown,
    RightDown,
    MiddleDown,
    ScrollUp,
    ScrollDown,
    Moved,
    /// Any other mouse event.
    Other,
}

/// One mouse event at a terminal cell.
#[derive(Debug, Clone, Copy, PartialEq, Eq, Structural)]
pub struct MouseInput {
    pub kind: MouseKind,
    pub column: u16,
    pub row: u16,
}

/// A rectangle of terminal cells.
#[derive(Debug, Clone, Copy, PartialEq, Eq, Structural)]
pub struct Rect {
    pub x: u16,
    pub y: u16,
    pub width: u16,
    pub height: u16,
}

/// `a + b` capped at the largest `u16`.
pub open spec fn sat_add16(a: u16, b: u16) -> int {
    if a + b > u16::MAX {
        u16::MAX as int
    } else {
        a + b
    }
}

/// Whether the cell at `column`, `row` lies in `area`, whose far edges are
/// capped at the screen's largest coordinate.
pub open spec fn cell_in(area: Rect, column: u16, row: u16) -> bool {
    &&& area.x <= column
    &&& column < sat_add16(area.x, area.width)
    &&& area.y <= row
    &&& row < sat_add16(area.y, area.height)
}

/// Whether the cell at `column`, `row` lies in `area`.
pub fn contains(area: Rect, column: u16, row: u16) -> (r: bool)
    ensures
        r == cell_in(area, column, row),
{
    column >= area.x && column < area.x.saturating_add(area.width) && row >= area.y && row
        < area.y.saturating_add(area.height)
}

/// The inside of a one-cell border.
pub fn bordered_inner(area: Rect) -> (r: Rect)
    ensures
        r.x == (if area.x == u16::MAX { u16::MAX } else { (area.x + 1) as u16 }),
        r.y == (if area.y == u16::MAX { u16::MAX } else { (area.y + 1) as u16 }),
        r.width == (if area.width < 2 { 0 } else { (area.width - 2) as u16 }),
        r.height == (if area.height < 2 { 0 } else { (area.height - 2) as u16 }),
{
    Rect {
        x: area.x.saturating_add(1),
        y: area.y.saturating_add(1),
        width: area.width.saturating_sub(2),
        height: area.height.saturating_sub(2),
    }
}

} // verus!
