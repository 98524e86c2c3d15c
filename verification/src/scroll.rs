use vstd::prelude::*;

use crate::coords::{DocLine, VisualCol};

verus! {

/// `max(n, 1)`.
pub open spec fn at_least_one(n: u32) -> int {
    if n == 0 {
        1
    } else {
        n as int
    }
}

/// `a - b`, or 0 when `b > a`.
pub open spec fn sat_sub(a: int, b: int) -> int {
    if a < b {
        0
    } else {
        a - b
    }
}

/// `min(a, b)`.
pub open spec fn min_int(a: int, b: int) -> int {
    if a < b {
        a
    } else {
        b
    }
}

/// Largest scroll position that still fills the viewport.
pub open spec fn spec_max_scroll_y(total_lines: u32, viewport_lines: u32) -> int {
    sat_sub(total_lines as int, at_least_one(viewport_lines) - 1)
}

/// A scroll position clamped into range.
pub open spec fn spec_clamp_scroll_y(scroll_y: int, total_lines: u32, viewport_lines: u32) -> int {
    min_int(scroll_y, spec_max_scroll_y(total_lines, viewport_lines))
}

/// The last document line on screen.
pub open spec fn spec_viewport_bottom_line(scroll_y: int, total_lines: u32, viewport_lines: u32) -> int {
    min_int(
        min_int(
            spec_clamp_scroll_y(scroll_y, total_lines, viewport_lines) + at_least_one(viewport_lines)
                - 1,
            u32::MAX as int,
        ),
        total_lines as int,
    )
}

/// Lines moved by one page motion.
pub fn page_motion_step(viewport_lines: u32) -> (r: u32)
    ensures
        r == if viewport_lines > 1 {
            viewport_lines - 1
        } else {
            1
        },
{
    if viewport_lines > 1 {
        viewport_lines - 1
    } else {
        1
    }
}

/// Largest scroll position that still fills the viewport.
pub fn max_scroll_y(total_lines: u32, viewport_lines: u32) -> (r: u32)
    ensures
        r == spec_max_scroll_y(total_lines, viewport_lines),
{
    let vl = if viewport_lines == 0 {
        1
    } else {
        viewport_lines
    };
    total_lines.saturating_sub(vl - 1)
}

/// Clamps a scroll position so the viewport never starts past the last full page.
pub fn clamp_scroll_y(scroll_y: u32, total_lines: u32, viewport_lines: u32) -> (r: u32)
    ensures
        r == spec_clamp_scroll_y(scroll_y as int, total_lines, viewport_lines),
{
    let m = max_scroll_y(total_lines, viewport_lines);
    if scroll_y < m {
        scroll_y
    } else {
        m
    }
}

/// The last document line on screen for a scroll position.
pub fn viewport_bottom_line(scroll_y: u32, total_lines: u32, viewport_lines: u32) -> (r: u32)
    ensures
        r == spec_viewport_bottom_line(scroll_y as int, total_lines, viewport_lines),
{
    let vl = if viewport_lines == 0 {
        1
    } else {
        viewport_lines
    };
    let bottom = clamp_scroll_y(scroll_y, total_lines, viewport_lines).saturating_add(vl - 1);
    if bottom < total_lines {
        bottom
    } else {
        total_lines
    }
}

/// Scrolls the least amount that brings the cursor line into the viewport.
pub fn pan_scroll_y_to_keep_cursor_visible(
    scroll_y: u32,
    cursor_line: DocLine,
    total_lines: u32,
    viewport_lines: u32,
) -> (r: u32)
    ensures
        ({
            let vl = at_least_one(viewport_lines);
            let top = spec_clamp_scroll_y(scroll_y as int, total_lines, viewport_lines);
            let wanted = if cursor_line.0 < top {
                cursor_line.0 as int
            } else if cursor_line.0 >= min_int(top + vl, u32::MAX as int) {
                sat_sub(cursor_line.0 as int, vl - 1)
            } else {
                top
            };
            r == spec_clamp_scroll_y(wanted, total_lines, viewport_lines)
        }),
        cursor_line.0 <= total_lines ==> r <= cursor_line.0 < r + at_least_one(viewport_lines),
{
    let viewport_lines = if viewport_lines == 0 {
        1
    } else {
        viewport_lines
    };
    let mut scroll_y = clamp_scroll_y(scroll_y, total_lines, viewport_lines);
    if cursor_line.0 < scroll_y {
        scroll_y = cursor_line.0;
    } else if cursor_line.0 >= scroll_y.saturating_add(viewport_lines) {
        scroll_y = cursor_line.0.saturating_sub(viewport_lines - 1);
    }
    clamp_scroll_y(scroll_y, total_lines, viewport_lines)
}

/// Scroll position after scrolling by `delta` lines, clamped to the document.
pub open spec fn spec_scroll_viewport(scroll_y: u32, delta: i32, total_lines: u32, viewport_lines: u32) -> int {
    let moved = scroll_y as int + delta as int;
    let target = if moved < 0 {
        0
    } else {
        moved
    };
    spec_clamp_scroll_y((target as u32) as int, total_lines, viewport_lines)
}

/// The cursor line moved into the lines that the viewport shows.
pub open spec fn spec_clamp_cursor_line(cursor_line: u32, scroll_y: u32, total_lines: u32, viewport_lines: u32) -> int {
    let top = spec_clamp_scroll_y(scroll_y as int, total_lines, viewport_lines);
    let bottom = spec_viewport_bottom_line(top, total_lines, viewport_lines);
    if cursor_line < top {
        top
    } else if cursor_line > bottom {
        bottom
    } else {
        cursor_line as int
    }
}

/// Scrolls by `delta` lines, clamped to the document.
pub fn scroll_viewport(scroll_y: u32, delta: i32, total_lines: u32, viewport_lines: u32) -> (r: u32)
    ensures
        r == spec_scroll_viewport(scroll_y, delta, total_lines, viewport_lines),
{
    let moved = scroll_y as i64 + delta as i64;
    let target: i64 = if moved < 0 {
        0
    } else {
        moved
    };
    clamp_scroll_y(target as u32, total_lines, viewport_lines)
}

/// Keeps the cursor line inside the lines that the viewport shows.
pub fn clamp_cursor_line_to_viewport(
    cursor_line: DocLine,
    scroll_y: u32,
    total_lines: u32,
    viewport_lines: u32,
) -> (r: DocLine)
    ensures
        r.0 == spec_clamp_cursor_line(cursor_line.0, scroll_y, total_lines, viewport_lines),
        spec_clamp_scroll_y(scroll_y as int, total_lines, viewport_lines) <= r.0
            <= spec_viewport_bottom_line(scroll_y as int, total_lines, viewport_lines),
{
    let top = clamp_scroll_y(scroll_y, total_lines, viewport_lines);
    let bottom = viewport_bottom_line(top, total_lines, viewport_lines);
    if cursor_line.0 < top {
        DocLine(top)
    } else if cursor_line.0 > bottom {
        DocLine(bottom)
    } else {
        cursor_line
    }
}

/// Number of screen rows a line of the given visual width occupies when wrapped.
pub fn row_count_from_visual_width(visual_width: u32, text_width: u16) -> (r: u32)
    ensures
        r == if text_width == 0 || visual_width == 0 {
            1
        } else {
            (visual_width - 1) / (text_width as int) + 1
        },
        r >= 1,
{
    if text_width == 0 || visual_width == 0 {
        1
    } else {
        (visual_width - 1) / (text_width as u32) + 1
    }
}

/// First visual column of wrapped row `row_offset`.
pub fn row_start_col(row_offset: u32, wrap_enabled: bool, text_width: u16) -> (r: VisualCol)
    ensures
        r.0 == if wrap_enabled && text_width > 0 {
            min_int(row_offset * text_width, u32::MAX as int)
        } else {
            0
        },
{
    if wrap_enabled && text_width > 0 {
        assert(row_offset as u64 * text_width as u64 <= 0xffff_ffff_u64 * 0xffff_u64) by (nonlinear_arith)
            requires
                row_offset <= 0xffff_ffff_u32,
                text_width <= 0xffff_u16,
        ;
        let product = row_offset as u64 * text_width as u64;
        if product > u32::MAX as u64 {
            VisualCol(u32::MAX)
        } else {
            VisualCol(product as u32)
        }
    } else {
        VisualCol(0)
    }
}

} // verus!
