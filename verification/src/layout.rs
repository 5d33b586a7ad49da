//! Where the panes go on the screen, and which pane a terminal cell belongs to.
use vstd::prelude::*;

verus! {

/// Below this width only one pane is shown at a time.
pub const NARROW_WIDTH: u16 = 100;

#[derive(Debug, Clone, Copy, PartialEq, Eq, Structural)]
pub enum Pane {
    Left,
    Right,
}

/// A rectangle of terminal cells: its top-left corner and its size.
#[derive(Debug, Clone, Copy, PartialEq, Eq, Structural)]
pub struct Rect {
    pub x: u16,
    pub y: u16,
    pub width: u16,
    pub height: u16,
}

/// The column just right of a rectangle, kept within the terminal's coordinates.
pub open spec fn right_edge(r: Rect) -> int {
    if r.x + r.width > u16::MAX {
        u16::MAX as int
    } else {
        r.x + r.width
    }
}

/// The row just below a rectangle, kept within the terminal's coordinates.
pub open spec fn bottom_edge(r: Rect) -> int {
    if r.y + r.height > u16::MAX {
        u16::MAX as int
    } else {
        r.y + r.height
    }
}

/// The cell at `column`, `row` lies in `r`.
pub open spec fn contains_spec(r: Rect, column: u16, row: u16) -> bool {
    r.x <= column < right_edge(r) && r.y <= row < bottom_edge(r)
}

impl Rect {
    pub fn new(x: u16, y: u16, width: u16, height: u16) -> (r: Rect)
        ensures
            r == (Rect { x, y, width, height }),
    {
        Rect { x, y, width, height }
    }

    /// Whether the cell at `column`, `row` lies in this rectangle.
    pub fn contains(&self, column: u16, row: u16) -> (r: bool)
        ensures
            r == contains_spec(*self, column, row),
    {
        let right = if self.width > u16::MAX - self.x {
            u16::MAX
        } else {
            self.x + self.width
        };
        let bottom = if self.height > u16::MAX - self.y {
            u16::MAX
        } else {
            self.y + self.height
        };
        self.x <= column && column < right && self.y <= row && row < bottom
    }
}

#[derive(Debug, Clone, Copy, PartialEq, Eq, Structural)]
pub struct PaneRects {
    pub left: Option<Rect>,
    pub right: Option<Rect>,
    pub key_bar: Rect,
}

impl PaneRects {
    /// No panes placed yet.
    pub fn empty() -> (r: PaneRects)
        ensures
            r.left is None,
            r.right is None,
            r.key_bar == (Rect { x: 0, y: 0, width: 0, height: 0 }),
    {
        PaneRects { left: None, right: None, key_bar: Rect { x: 0, y: 0, width: 0, height: 0 } }
    }
}

/// The body and the one-row key bar below it that `area` is split into.
pub uninterp spec fn body_and_key_bar(area: Rect) -> (Rect, Rect);

/// The left and right panes, sixty and forty percent wide, that `body` is split into.
pub uninterp spec fn sixty_forty(body: Rect) -> (Rect, Rect);

/// `Layout::vertical([Min(0), Length(1)])` on `area`: the body, and a key bar of one row at the
/// bottom. The result is named, not stated: ratatui's constraint solver computes it.
#[verifier::external_body]
fn split_key_bar(area: Rect) -> (r: (Rect, Rect))
    ensures
        r == body_and_key_bar(area),
{
    let a = ratatui::layout::Rect { x: area.x, y: area.y, width: area.width, height: area.height };
    let [b, k] = ratatui::layout::Layout::vertical(
        [ratatui::layout::Constraint::Min(0), ratatui::layout::Constraint::Length(1)],
    ).areas(a);
    (
        Rect { x: b.x, y: b.y, width: b.width, height: b.height },
        Rect { x: k.x, y: k.y, width: k.width, height: k.height },
    )
}

/// `Layout::horizontal([Percentage(60), Percentage(40)])` on `body`. The result is named, not
/// stated: ratatui's constraint solver computes it.
#[verifier::external_body]
fn split_panes(body: Rect) -> (r: (Rect, Rect))
    ensures
        r == sixty_forty(body),
{
    let a = ratatui::layout::Rect { x: body.x, y: body.y, width: body.width, height: body.height };
    let [l, r] = ratatui::layout::Layout::horizontal(
        [ratatui::layout::Constraint::Percentage(60), ratatui::layout::Constraint::Percentage(40)],
    ).areas(a);
    (
        Rect { x: l.x, y: l.y, width: l.width, height: l.height },
        Rect { x: r.x, y: r.y, width: r.width, height: r.height },
    )
}

/// Where the panes go, given the body, the key bar and the body's sixty-forty halves: the
/// body goes to the left pane alone when there is no right pane, to the focused pane alone on
/// a terminal narrower than `NARROW_WIDTH`; the halves go to the two panes otherwise.
pub open spec fn place_spec(
    width: u16,
    has_right: bool,
    focus: Pane,
    body: Rect,
    key_bar: Rect,
    halves: (Rect, Rect),
) -> PaneRects {
    if !has_right {
        PaneRects { left: Some(body), right: None, key_bar }
    } else if width < NARROW_WIDTH {
        match focus {
            Pane::Left => PaneRects { left: Some(body), right: None, key_bar },
            Pane::Right => PaneRects { left: None, right: Some(body), key_bar },
        }
    } else {
        PaneRects { left: Some(halves.0), right: Some(halves.1), key_bar }
    }
}

/// Where the panes of a terminal `width` columns wide go.
pub fn place(width: u16, has_right: bool, focus: Pane, body: Rect, key_bar: Rect, halves: (Rect, Rect)) -> (r:
    PaneRects)
    ensures
        r == place_spec(width, has_right, focus, body, key_bar, halves),
{
    if !has_right {
        return PaneRects { left: Some(body), right: None, key_bar };
    }
    if width < NARROW_WIDTH {
        return match focus {
            Pane::Left => PaneRects { left: Some(body), right: None, key_bar },
            Pane::Right => PaneRects { left: None, right: Some(body), key_bar },
        };
    }
    PaneRects { left: Some(halves.0), right: Some(halves.1), key_bar }
}

/// Where the panes of `area` go: split into body and key bar, and the body into halves.
pub open spec fn compute_spec(area: Rect, has_right: bool, focus: Pane) -> PaneRects {
    let (body, key_bar) = body_and_key_bar(area);
    place_spec(area.width, has_right, focus, body, key_bar, sixty_forty(body))
}

/// Pane rectangles for `area`. On a narrow terminal the focused pane is the one shown.
pub fn compute(area: Rect, has_right: bool, focus: Pane) -> (r: PaneRects)
    ensures
        r == compute_spec(area, has_right, focus),
{
    let (body, key_bar) = split_key_bar(area);
    let halves = split_panes(body);
    place(area.width, has_right, focus, body, key_bar, halves)
}

/// The pane whose rectangle holds the cell; the left pane wins where both do.
pub open spec fn pane_at_spec(rects: PaneRects, column: u16, row: u16) -> Option<Pane> {
    if rects.left matches Some(l) && contains_spec(l, column, row) {
        Some(Pane::Left)
    } else if rects.right matches Some(r) && contains_spec(r, column, row) {
        Some(Pane::Right)
    } else {
        None
    }
}

/// The pane containing a terminal cell, if any.
pub fn pane_at(rects: &PaneRects, column: u16, row: u16) -> (r: Option<Pane>)
    ensures
        r == pane_at_spec(*rects, column, row),
{
    let in_left = match rects.left {
        Some(l) => l.contains(column, row),
        None => false,
    };
    if in_left {
        return Some(Pane::Left);
    }
    let in_right = match rects.right {
        Some(r) => r.contains(column, row),
        None => false,
    };
    if in_right {
        Some(Pane::Right)
    } else {
        None
    }
}

/// A rectangle of `percent_x` and `percent_y` percent of `area`'s size, centered in it
/// (rounding down).
pub open spec fn centered_spec(area: Rect, percent_x: int, percent_y: int) -> Rect {
    let width = area.width * percent_x / 100;
    let height = area.height * percent_y / 100;
    Rect {
        x: (area.x + (area.width - width) / 2) as u16,
        y: (area.y + (area.height - height) / 2) as u16,
        width: width as u16,
        height: height as u16,
    }
}

/// A rectangle centered in `area`, of the given percentages of its size.
pub fn centered(area: Rect, percent_x: u16, percent_y: u16) -> (r: Rect)
    requires
        percent_x <= 100,
        percent_y <= 100,
        area.x + area.width <= u16::MAX,
        area.y + area.height <= u16::MAX,
    ensures
        r == centered_spec(area, percent_x as int, percent_y as int),
        r.x + r.width <= area.x + area.width,
        r.y + r.height <= area.y + area.height,
{
    assert(area.width as u32 * percent_x as u32 <= 65535 * 100) by (nonlinear_arith)
        requires
            percent_x <= 100,
    ;
    assert(area.height as u32 * percent_y as u32 <= 65535 * 100) by (nonlinear_arith)
        requires
            percent_y <= 100,
    ;
    let w32 = area.width as u32 * percent_x as u32;
    let h32 = area.height as u32 * percent_y as u32;
    assert(w32 <= area.width as u32 * 100) by (nonlinear_arith)
        requires
            w32 == area.width as u32 * percent_x as u32,
            percent_x <= 100,
    ;
    assert(h32 <= area.height as u32 * 100) by (nonlinear_arith)
        requires
            h32 == area.height as u32 * percent_y as u32,
            percent_y <= 100,
    ;
    let width = (w32 / 100) as u16;
    let height = (h32 / 100) as u16;
    Rect {
        x: area.x + (area.width - width) / 2,
        y: area.y + (area.height - height) / 2,
        width,
        height,
    }
}

} // verus!
