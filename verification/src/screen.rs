//! How the terminal is divided: a header row on top, the body below it
//! (a file sidebar on its left, the diff on its right), then the filter bar
//! and the error log at the bottom.
use vstd::prelude::*;
use crate::statusline::error_log_height;
use crate::unicode::{str_width, unicode_str_width};

verus! {

/// A rectangle of terminal cells.
#[derive(Debug, Clone, Copy, PartialEq, Eq, Structural)]
pub struct Rect {
    pub x: u16,
    pub y: u16,
    pub width: u16,
    pub height: u16,
}

/// The areas of one frame.
#[derive(Debug, Clone, Copy, PartialEq, Eq, Structural)]
pub struct ScreenLayout {
    pub root: Rect,
    pub header: Rect,
    pub body: Rect,
    pub sidebar: Option<Rect>,
    pub diff: Rect,
    pub filter_bar: Option<Rect>,
    pub error_log: Option<Rect>,
    pub sidebar_width: u16,
}

/// `a - b`, or zero when `b` is larger.
pub open spec fn sub_or_zero(a: int, b: int) -> int {
    if a > b { a - b } else { 0 }
}

/// `a + b`, or `u16::MAX` when the sum does not fit.
pub open spec fn add_capped(a: int, b: int) -> int {
    if a + b > u16::MAX { u16::MAX as int } else { a + b }
}

/// The rows the error log takes below a filter bar of `filter_height` rows.
pub open spec fn error_rows(area: Rect, filter_height: int, has_error_log: bool, log_height: u16, min_height: u16, max_height: u16) -> int {
    let available = sub_or_zero(sub_or_zero(area.height as int, 1), filter_height);
    if !has_error_log || available == 0 {
        0
    } else {
        let clamped = if log_height < min_height { min_height as int } else if log_height > max_height { max_height as int } else { log_height as int };
        if clamped < available { clamped } else { available }
    }
}

/// `layout` is the division of `area` that `ScreenLayout::build` makes.
pub open spec fn lays_out(
    layout: ScreenLayout,
    area: Rect,
    filter_bar_visible: bool,
    has_error_log: bool,
    log_height: u16,
    min_log_height: u16,
    max_log_height: u16,
    sidebar_width: u16,
) -> bool {
    let filter_height: int = if area.height > 1 && filter_bar_visible { 1 } else { 0 };
    let error_height = error_rows(area, filter_height, has_error_log, log_height, min_log_height, max_log_height);
    let body_height = sub_or_zero(sub_or_zero(sub_or_zero(area.height as int, 1), filter_height), error_height);
    let body_y = add_capped(area.y as int, 1);
    let bottom = add_capped(body_y, body_height);
    &&& layout.root == area
    &&& layout.header == (Rect { x: area.x, y: area.y, width: area.width, height: 1 })
    &&& layout.body == (Rect { x: area.x, y: body_y as u16, width: area.width, height: body_height as u16 })
    &&& layout.filter_bar == if filter_height > 0 {
        Some(Rect { x: area.x, y: bottom as u16, width: area.width, height: 1 })
    } else {
        None
    }
    &&& layout.error_log == if error_height > 0 {
        Some(Rect { x: area.x, y: add_capped(bottom, filter_height) as u16, width: area.width, height: error_height as u16 })
    } else {
        None
    }
    &&& layout.sidebar_width == sidebar_width
    &&& if sidebar_width > 0 {
        &&& layout.sidebar == Some(Rect { x: area.x, y: body_y as u16, width: sidebar_width, height: body_height as u16 })
        &&& layout.diff == (Rect {
            x: add_capped(area.x as int, sidebar_width as int) as u16,
            y: body_y as u16,
            width: sub_or_zero(area.width as int, sidebar_width as int) as u16,
            height: body_height as u16,
        })
    } else {
        layout.sidebar is None && layout.diff == layout.body
    }
}

impl ScreenLayout {
    /// Divides `area`: the header is its top row; the filter bar (when it is
    /// shown and the area has more than one row) and the error log (when
    /// there is one, between its bounds and within the room left) sit at
    /// the bottom; the body takes the rows between. A sidebar of
    /// `sidebar_width` columns, when that is not zero, takes the body's left
    /// and the diff the rest.
    pub fn build(
        area: Rect,
        filter_bar_visible: bool,
        has_error_log: bool,
        log_height: u16,
        min_log_height: u16,
        max_log_height: u16,
        sidebar_width: u16,
    ) -> (r: Self)
        requires
            min_log_height <= max_log_height,
        ensures
            lays_out(r, area, filter_bar_visible, has_error_log, log_height, min_log_height, max_log_height, sidebar_width),
    {
        let header = Rect { x: area.x, y: area.y, width: area.width, height: 1 };
        let filter_bar_height: u16 = if area.height > 1 && filter_bar_visible { 1 } else { 0 };
        let error_height = error_log_height(
            has_error_log,
            log_height,
            area.height.saturating_sub(1).saturating_sub(filter_bar_height),
            min_log_height,
            max_log_height,
        );
        let body_height = area.height.saturating_sub(1).saturating_sub(filter_bar_height).saturating_sub(error_height);
        let body = Rect { x: area.x, y: area.y.saturating_add(1), width: area.width, height: body_height };
        let filter_bar = if filter_bar_height > 0 {
            Some(Rect { x: area.x, y: body.y.saturating_add(body.height), width: area.width, height: 1 })
        } else {
            None
        };
        let error_log = if error_height > 0 {
            Some(Rect {
                x: area.x,
                y: body.y.saturating_add(body.height).saturating_add(filter_bar_height),
                width: area.width,
                height: error_height,
            })
        } else {
            None
        };
        let (sidebar, diff) = if sidebar_width > 0 {
            (
                Some(Rect { x: body.x, y: body.y, width: sidebar_width, height: body.height }),
                Rect {
                    x: body.x.saturating_add(sidebar_width),
                    y: body.y,
                    width: body.width.saturating_sub(sidebar_width),
                    height: body.height,
                },
            )
        } else {
            (None, body)
        };
        ScreenLayout { root: area, header, body, sidebar, diff, filter_bar, error_log, sidebar_width }
    }
}

/// The height of an optional area, zero when it is absent.
pub open spec fn rows_of(r: Option<Rect>) -> int {
    match r {
        Some(a) => a.height as int,
        None => 0,
    }
}

/// A frame that fits on the screen's rows (its bottom edge is a `u16`) and
/// has at least one row is cut into rows without gap or overlap: the header,
/// then the body, then the filter bar and the error log, each starting
/// where the one above ends, their heights adding up to the frame's. A
/// sidebar no wider than the body leaves the diff the rest of the body's
/// columns, starting where the sidebar ends.
pub proof fn screen_rows_partition(
    area: Rect,
    filter_bar_visible: bool,
    has_error_log: bool,
    log_height: u16,
    min_log_height: u16,
    max_log_height: u16,
    sidebar_width: u16,
    layout: ScreenLayout,
)
    requires
        min_log_height <= max_log_height,
        area.height >= 1,
        area.y + area.height <= u16::MAX,
        area.x + area.width <= u16::MAX,
        sidebar_width <= area.width,
        lays_out(layout, area, filter_bar_visible, has_error_log, log_height, min_log_height, max_log_height, sidebar_width),
    ensures
        layout.header.y == area.y,
        layout.body.y == area.y + 1,
        1 + layout.body.height + rows_of(layout.filter_bar) + rows_of(layout.error_log) == area.height,
        layout.filter_bar matches Some(f) ==> f.y == layout.body.y + layout.body.height,
        layout.error_log matches Some(e) ==> e.y == layout.body.y + layout.body.height + rows_of(layout.filter_bar),
        layout.diff.x + layout.diff.width == area.x + area.width,
        layout.sidebar matches Some(s) ==> s.x == area.x && layout.diff.x == s.x + s.width,
        layout.sidebar is None ==> layout.diff.x == area.x,
{
}

/// The corner of the screen toasts stack from.
#[derive(Debug, Clone, Copy, PartialEq, Eq, Structural)]
pub enum ToastCorner {
    TopLeft,
    TopRight,
    BottomLeft,
    BottomRight,
}

/// The widest a toast gets.
pub const TOAST_MAX_WIDTH: u16 = 48;

/// The rows of a toast: its message between two blank rows.
pub const TOAST_HEIGHT: u16 = 3;

/// The rows between two stacked toasts.
pub const TOAST_GAP: u16 = 1;

/// The columns kept free beside a toast, when the screen is wide enough.
pub const TOAST_X_MARGIN: u16 = 2;

/// The rows kept free above or below the toasts, when there is room.
pub const TOAST_Y_MARGIN: u16 = 1;

/// `v` kept between `lo` and `hi`.
pub open spec fn clamp_to(v: int, lo: int, hi: int) -> int {
    if v < lo { lo } else if v > hi { hi } else { v }
}

/// The smaller of two integers.
pub open spec fn least(a: int, b: int) -> int {
    if a < b { a } else { b }
}

/// Where the toast number `index` (counting from the corner) with a message
/// `text_width` columns wide goes in `area`: margins of up to two columns
/// and one row where they fit, stacked three-row toasts one row apart, as
/// wide as the message with six columns of decoration but within the room
/// and at most the widest toast width; none when it no longer fits.
pub open spec fn toast_area_spec(text_width: usize, area: Rect, corner: ToastCorner, index: nat) -> Option<Rect> {
    let x_margin = least(TOAST_X_MARGIN as int, sub_or_zero(area.width as int, 1) / 2);
    let y_margin = least(TOAST_Y_MARGIN as int, sub_or_zero(area.height as int, TOAST_HEIGHT as int) / 2);
    let available_width = sub_or_zero(area.width as int, 2 * x_margin);
    let available_height = sub_or_zero(area.height as int, 2 * y_margin);
    let offset = least(index * (TOAST_HEIGHT + TOAST_GAP), u16::MAX as int);
    if index > u16::MAX || available_width == 0 || add_capped(offset, TOAST_HEIGHT as int) > available_height {
        None
    } else {
        let max_width = clamp_to(available_width, 1, TOAST_MAX_WIDTH as int);
        let natural_width = least(text_width + 6int, u16::MAX as int);
        let width = clamp_to(natural_width, 1, max_width);
        let x = match corner {
            ToastCorner::TopLeft | ToastCorner::BottomLeft => add_capped(area.x as int, x_margin),
            _ => add_capped(area.x as int, sub_or_zero(sub_or_zero(area.width as int, x_margin), width)),
        };
        let y = match corner {
            ToastCorner::TopLeft | ToastCorner::TopRight => add_capped(add_capped(area.y as int, y_margin), offset),
            _ => add_capped(area.y as int, sub_or_zero(sub_or_zero(sub_or_zero(area.height as int, y_margin), TOAST_HEIGHT as int), offset)),
        };
        Some(Rect { x: x as u16, y: y as u16, width: width as u16, height: TOAST_HEIGHT })
    }
}

/// Where toast number `index` with message `text` goes in `area`, stacking
/// from `corner` (see `toast_area_spec`).
pub fn toast_area(text: &str, area: Rect, corner: ToastCorner, index: usize) -> (r: Option<Rect>)
    ensures
        r == toast_area_spec(unicode_str_width(text@), area, corner, index as nat),
{
    if index > 65535 {
        return None;
    }
    let index = index as u16;
    let half_width = area.width.saturating_sub(1) / 2;
    let x_margin = if TOAST_X_MARGIN < half_width { TOAST_X_MARGIN } else { half_width };
    let half_height = area.height.saturating_sub(TOAST_HEIGHT) / 2;
    let y_margin = if TOAST_Y_MARGIN < half_height { TOAST_Y_MARGIN } else { half_height };
    let available_width = area.width.saturating_sub(x_margin * 2);
    let available_height = area.height.saturating_sub(y_margin * 2);
    let stride: u32 = (TOAST_HEIGHT + TOAST_GAP) as u32;
    let full_offset: u32 = (index as u32) * stride;
    let offset: u16 = if full_offset > 65535 { 65535 } else { full_offset as u16 };
    if available_width == 0 || offset.saturating_add(TOAST_HEIGHT) > available_height {
        return None;
    }
    let max_width = if available_width > TOAST_MAX_WIDTH { TOAST_MAX_WIDTH } else { available_width };
    let text_width = str_width(text).saturating_add(6);
    let natural_width: u16 = if text_width > 65535 { 65535 } else { text_width as u16 };
    let width = if natural_width < 1 { 1 } else if natural_width > max_width { max_width } else { natural_width };
    let x = match corner {
        ToastCorner::TopLeft | ToastCorner::BottomLeft => area.x.saturating_add(x_margin),
        ToastCorner::TopRight | ToastCorner::BottomRight => area.x.saturating_add(area.width.saturating_sub(x_margin).saturating_sub(width)),
    };
    let y = match corner {
        ToastCorner::TopLeft | ToastCorner::TopRight => area.y.saturating_add(y_margin).saturating_add(offset),
        ToastCorner::BottomLeft | ToastCorner::BottomRight => area.y.saturating_add(
            area.height.saturating_sub(y_margin).saturating_sub(TOAST_HEIGHT).saturating_sub(offset),
        ),
    };
    Some(Rect { x, y, width, height: TOAST_HEIGHT })
}

/// A toast that is placed at all lies wholly inside the area it was placed
/// in (for an area whose right and bottom edges are terminal columns and
/// rows), and is never wider than the widest toast.
pub proof fn toasts_stay_inside_the_area(text_width: usize, area: Rect, corner: ToastCorner, index: nat)
    requires
        area.x + area.width <= u16::MAX,
        area.y + area.height <= u16::MAX,
    ensures
        toast_area_spec(text_width, area, corner, index) matches Some(t) ==> {
            &&& area.x <= t.x
            &&& t.x + t.width <= area.x + area.width
            &&& area.y <= t.y
            &&& t.y + t.height <= area.y + area.height
            &&& 1 <= t.width <= TOAST_MAX_WIDTH
        },
{
}

/// Toasts stacked in one corner of one area never overlap: toast `j` lies
/// `j - i` strides of a toast's height and the gap further from the corner
/// than toast `i`, down from a top corner and up from a bottom corner, so
/// their rows are disjoint, whatever their messages.
pub proof fn stacked_toasts_do_not_overlap(
    width_i: usize,
    width_j: usize,
    area: Rect,
    corner: ToastCorner,
    i: nat,
    j: nat,
)
    requires
        area.x + area.width <= u16::MAX,
        area.y + area.height <= u16::MAX,
        i < j,
    ensures
        toast_area_spec(width_i, area, corner, i) is Some && toast_area_spec(width_j, area, corner, j) is Some
            ==> {
            let a = toast_area_spec(width_i, area, corner, i)->0;
            let b = toast_area_spec(width_j, area, corner, j)->0;
            &&& (corner == ToastCorner::TopLeft || corner == ToastCorner::TopRight)
                ==> b.y == a.y + (j - i) * (TOAST_HEIGHT + TOAST_GAP)
            &&& (corner == ToastCorner::BottomLeft || corner == ToastCorner::BottomRight)
                ==> a.y == b.y + (j - i) * (TOAST_HEIGHT + TOAST_GAP)
            &&& (a.y + a.height <= b.y || b.y + b.height <= a.y)
        },
{
    toasts_stay_inside_the_area(width_i, area, corner, i);
    toasts_stay_inside_the_area(width_j, area, corner, j);
    assert((j - i) * (TOAST_HEIGHT + TOAST_GAP) == j * 4 - i * 4) by (nonlinear_arith);
    assert(i * 4 < j * 4) by (nonlinear_arith)
        requires
            i < j;
    if toast_area_spec(width_i, area, corner, i) is Some && toast_area_spec(width_j, area, corner, j) is Some {
        let y_margin = least(TOAST_Y_MARGIN as int, sub_or_zero(area.height as int, TOAST_HEIGHT as int) / 2);
        let available_height = sub_or_zero(area.height as int, 2 * y_margin);
        assert(least(j * (TOAST_HEIGHT + TOAST_GAP), u16::MAX as int) + 3 <= available_height);
        assert(available_height <= u16::MAX);
        assert(least(j * (TOAST_HEIGHT + TOAST_GAP), u16::MAX as int) == j * 4);
        assert(least(i * (TOAST_HEIGHT + TOAST_GAP), u16::MAX as int) == i * 4);
        let a = toast_area_spec(width_i, area, corner, i)->0;
        let b = toast_area_spec(width_j, area, corner, j)->0;
        if corner == ToastCorner::TopLeft || corner == ToastCorner::TopRight {
            let ya = area.y + y_margin + i * 4;
            let yb = area.y + y_margin + j * 4;
            assert(yb <= u16::MAX);
            assert(a.y == ya);
            assert(b.y == yb);
            assert(b.y == a.y + (j - i) * (TOAST_HEIGHT + TOAST_GAP));
            assert(a.y + a.height <= b.y);
        } else {
            let ya = area.y + (area.height - y_margin - 3 - i * 4);
            let yb = area.y + (area.height - y_margin - 3 - j * 4);
            assert(yb >= 0);
            assert(a.y == ya);
            assert(b.y == yb);
            assert(a.y == b.y + (j - i) * (TOAST_HEIGHT + TOAST_GAP));
            assert(b.y + b.height <= a.y);
        }
    }
}

} // verus!
