use vstd::prelude::*;

use crate::coords::{DocLine, VisualCol};
use crate::folding::{
    doc_line_for_visual_index, is_folded_visible_line, line_width, min32, sadd,
    snap_line_to_visible_boundary, ssub, visual_line_index_for_doc_line, LineView,
};
use crate::scroll::{min_int, row_count_from_visual_width, row_start_col};

verus! {

/// Screens narrower than this never show the minimap.
pub const MINIMAP_MIN_SCREEN_WIDTH: u16 = 40;

/// Columns kept free for text before the minimap takes any.
pub const MINIMAP_RESERVED_COLUMNS: u16 = 24;

/// Widest the minimap gets.
pub const MINIMAP_MAX_WIDTH: u16 = 14;

/// Columns that a folded placeholder occupies.
pub const FOLDED_PLACEHOLDER_COLUMNS: u32 = 3;

/// One screen row: a document line and the visual column at which the row starts.
#[derive(Debug, Clone, Copy, PartialEq, Eq, Structural)]
pub struct VisibleRow {
    pub line: DocLine,
    pub start_col: VisualCol,
}

/// The first screen row of the viewport: a line and a wrapped-row offset inside it.
#[derive(Debug, Clone, Copy, PartialEq, Eq, Structural)]
pub struct ViewportAnchor {
    pub line: DocLine,
    pub row_offset: u32,
}

/// How the screen width is split between gutter, text, separator and minimap.
#[derive(Debug, Clone, Copy, PartialEq, Eq, Structural)]
pub struct ViewportGeometry {
    pub gutter_width: u16,
    pub text_width: u16,
    pub minimap_width: u16,
    pub separator_width: u16,
}

/// Number of decimal digits of `n`.
pub open spec fn decimal_digits(n: nat) -> nat
    decreases n,
{
    if n < 10 {
        1
    } else {
        1 + decimal_digits(n / 10)
    }
}

proof fn lemma_decimal_digits_bound(n: nat)
    requires
        n <= u32::MAX,
    ensures
        1 <= decimal_digits(n) <= 10,
{
    reveal_with_fuel(decimal_digits, 11);
}

/// Number of decimal digits of `n`, by division.
pub fn decimal_digit_count(n: u32) -> (r: u32)
    ensures
        r == decimal_digits(n as nat),
        1 <= r <= 10,
{
    proof {
        lemma_decimal_digits_bound(n as nat);
    }
    let mut count: u32 = 1;
    let mut rest = n;
    while rest >= 10
        invariant
            count + decimal_digits(rest as nat) == decimal_digits(n as nat) + 1,
            1 <= count <= 10,
            decimal_digits(n as nat) <= 10,
        decreases rest,
    {
        assert(decimal_digits(rest as nat) == 1 + decimal_digits((rest / 10) as nat));
        assert(decimal_digits((rest / 10) as nat) >= 1);
        rest = rest / 10;
        count = count + 1;
    }
    count
}

/// The split of the screen width for a document of `total_lines` lines.
pub open spec fn spec_viewport_geometry(total_lines: u32, screen_width: u16, show_minimap: bool) -> ViewportGeometry {
    let minimap_width: int = if show_minimap && screen_width > MINIMAP_MIN_SCREEN_WIDTH {
        let avail = screen_width - MINIMAP_RESERVED_COLUMNS;
        if avail < MINIMAP_MAX_WIDTH {
            avail
        } else {
            MINIMAP_MAX_WIDTH as int
        }
    } else {
        0
    };
    let separator_width: int = if minimap_width > 0 {
        1
    } else {
        0
    };
    let gutter_width: int = (decimal_digits(if total_lines == 0 {
        1nat
    } else {
        total_lines as nat
    }) + 1) as int;
    let used = gutter_width + minimap_width + separator_width;
    ViewportGeometry {
        gutter_width: gutter_width as u16,
        text_width: (if screen_width < used {
            0
        } else {
            screen_width - used
        }) as u16,
        minimap_width: minimap_width as u16,
        separator_width: separator_width as u16,
    }
}

/// Splits the screen width between line-number gutter, text, separator and minimap.
pub fn viewport_geometry(total_lines: u32, screen_width: u16, show_minimap: bool) -> (r:
    ViewportGeometry)
    ensures
        r == spec_viewport_geometry(total_lines, screen_width, show_minimap),
{
    let minimap_width: u16 = if show_minimap && screen_width > MINIMAP_MIN_SCREEN_WIDTH {
        let avail = screen_width - MINIMAP_RESERVED_COLUMNS;
        if avail < MINIMAP_MAX_WIDTH {
            avail
        } else {
            MINIMAP_MAX_WIDTH
        }
    } else {
        0
    };
    let separator_width: u16 = if minimap_width > 0 {
        1
    } else {
        0
    };
    let digits = decimal_digit_count(if total_lines == 0 {
        1
    } else {
        total_lines
    });
    let gutter_width: u16 = digits as u16 + 1;
    let used = gutter_width + minimap_width + separator_width;
    let text_width = screen_width.saturating_sub(used);
    ViewportGeometry { gutter_width, text_width, minimap_width, separator_width }
}

/// Screen rows of a line `visual_width` columns wide, wrapped at `text_width`.
pub open spec fn spec_row_count(visual_width: u32, text_width: u16) -> u32 {
    if text_width == 0 || visual_width == 0 {
        1
    } else {
        ((visual_width - 1) / (text_width as int) + 1) as u32
    }
}

/// First visual column of wrapped row `row_offset`.
pub open spec fn spec_row_start(row_offset: u32, wrap_enabled: bool, text_width: u16) -> u32 {
    if wrap_enabled && text_width > 0 {
        min_int(row_offset * text_width, u32::MAX as int) as u32
    } else {
        0
    }
}

/// Screen rows that `line` takes: one without wrapping; else its width wrapped at
/// `text_width`, a folded placeholder being three columns wide and a line whose bytes
/// are not loaded taking one row.
pub open spec fn line_rows(view: LineView, line: u32, wrap_enabled: bool, text_width: u16) -> u32 {
    if !wrap_enabled {
        1
    } else if view.line_folded(line) {
        spec_row_count(FOLDED_PLACEHOLDER_COLUMNS, text_width)
    } else {
        match view.width_of(line) {
            Some(w) => spec_row_count(w, text_width),
            None => 1,
        }
    }
}

/// Screen rows of `line`.
pub fn line_row_count(view: &LineView, line: DocLine, wrap_enabled: bool, text_width: u16) -> (r:
    u32)
    ensures
        r == line_rows(*view, line.0, wrap_enabled, text_width),
        r >= 1,
{
    if !wrap_enabled {
        return 1;
    }
    if is_folded_visible_line(view, line) {
        return row_count_from_visual_width(FOLDED_PLACEHOLDER_COLUMNS, text_width);
    }
    match line_width(view, line) {
        Some(w) => row_count_from_visual_width(w, text_width),
        None => 1,
    }
}

/// Wrapped row of the cursor inside its line and its column on that row: the column is
/// clamped to the line's end, and a cursor at the end of a line that fills its last
/// row exactly stays on that row.
pub open spec fn cursor_row_col(
    view: LineView,
    line: u32,
    col: u32,
    wrap_enabled: bool,
    text_width: u16,
) -> (u32, u32) {
    if !wrap_enabled || text_width == 0 || view.line_folded(line) {
        (0, col)
    } else {
        match view.width_of(line) {
            None => (0, col),
            Some(line_end) => {
                let w = text_width as u32;
                let clamped = min32(col, line_end);
                if clamped == line_end && line_end > 0 && line_end % w == 0 {
                    ((line_end / w - 1) as u32, (w - 1) as u32)
                } else {
                    ((clamped / w) as u32, (clamped % w) as u32)
                }
            },
        }
    }
}

/// The cursor's wrapped row inside its line and its column on that row.
pub fn cursor_row_and_screen_col(
    view: &LineView,
    line: DocLine,
    col: VisualCol,
    wrap_enabled: bool,
    text_width: u16,
) -> (r: (u32, VisualCol))
    ensures
        (r.0, r.1.0) == cursor_row_col(*view, line.0, col.0, wrap_enabled, text_width),
{
    if !wrap_enabled || text_width == 0 || is_folded_visible_line(view, line) {
        return (0, col);
    }
    let width = text_width as u32;
    let line_end = match line_width(view, line) {
        Some(w) => w,
        None => {
            return (0, col);
        },
    };
    let clamped = if col.0 < line_end {
        col.0
    } else {
        line_end
    };
    if clamped == line_end && line_end > 0 && line_end % width == 0 {
        assert(line_end / width >= 1) by (nonlinear_arith)
            requires
                line_end > 0,
                width > 0,
                line_end % width == 0,
        ;
        (line_end / width - 1, VisualCol(width - 1))
    } else {
        (clamped / width, VisualCol(clamped % width))
    }
}

/// The visible line after `line`'s, if any.
pub open spec fn next_visible(view: LineView, line: u32, total_lines: u32) -> Option<u32> {
    let l = view.snapped(line);
    let next = view.doc_line(sadd(view.visual_index(l), 1), total_lines);
    if next != l {
        Some(next)
    } else {
        None
    }
}

/// The visible line before `line`'s, if any.
pub open spec fn previous_visible(view: LineView, line: u32, total_lines: u32) -> Option<u32> {
    let l = view.snapped(line);
    let cv = view.visual_index(l);
    if cv == 0 {
        None
    } else {
        let prev = view.doc_line((cv - 1) as u32, total_lines);
        if prev != l {
            Some(prev)
        } else {
            None
        }
    }
}

/// The first line of the visible line after `line`'s, if any.
pub fn next_visible_line(view: &LineView, line: DocLine, total_lines: u32) -> (r: Option<DocLine>)
    ensures
        r matches Some(l) ==> next_visible(*view, line.0, total_lines) == Some(l.0),
        r is None ==> next_visible(*view, line.0, total_lines) is None,
{
    let line = snap_line_to_visible_boundary(view, line);
    let current_visual = visual_line_index_for_doc_line(view, line);
    let next = doc_line_for_visual_index(view, current_visual.saturating_add(1), total_lines);
    if next.0 != line.0 {
        Some(next)
    } else {
        None
    }
}

/// The first line of the visible line before `line`'s, if any.
pub fn previous_visible_line(view: &LineView, line: DocLine, total_lines: u32) -> (r: Option<
    DocLine,
>)
    ensures
        r matches Some(l) ==> previous_visible(*view, line.0, total_lines) == Some(l.0),
        r is None ==> previous_visible(*view, line.0, total_lines) is None,
{
    let line = snap_line_to_visible_boundary(view, line);
    let current_visual = visual_line_index_for_doc_line(view, line);
    if current_visual == 0 {
        return None;
    }
    let prev = doc_line_for_visual_index(view, current_visual - 1, total_lines);
    if prev.0 != line.0 {
        Some(prev)
    } else {
        None
    }
}

/// An anchor moved onto a visible line of the document, its row offset kept inside that
/// line (and 0 without wrapping).
pub open spec fn normalized(
    view: LineView,
    anchor: ViewportAnchor,
    total_lines: u32,
    wrap_enabled: bool,
    text_width: u16,
) -> ViewportAnchor {
    let line = view.snapped(min32(anchor.line.0, total_lines));
    let max_row = ssub(line_rows(view, line, wrap_enabled, text_width), 1);
    ViewportAnchor {
        line: DocLine(line),
        row_offset: if wrap_enabled {
            min32(anchor.row_offset, max_row)
        } else {
            0
        },
    }
}

/// Moves an anchor onto a visible line and keeps its row offset inside that line.
pub fn normalize_anchor(
    view: &LineView,
    anchor: ViewportAnchor,
    total_lines: u32,
    wrap_enabled: bool,
    text_width: u16,
) -> (r: ViewportAnchor)
    ensures
        r == normalized(*view, anchor, total_lines, wrap_enabled, text_width),
{
    let first = if anchor.line.0 < total_lines {
        anchor.line.0
    } else {
        total_lines
    };
    let line = snap_line_to_visible_boundary(view, DocLine(first));
    let max_row_offset = line_row_count(view, line, wrap_enabled, text_width) - 1;
    ViewportAnchor {
        line,
        row_offset: if wrap_enabled {
            if anchor.row_offset < max_row_offset {
                anchor.row_offset
            } else {
                max_row_offset
            }
        } else {
            0
        },
    }
}

/// Rows counted from the line after `line` on until `target` (where `target_row` more
/// are added), starting from `rows`. Each step visits the next visible line; a walk of
/// distinct lines ends within `fuel` steps, which the callers set to the number of
/// lines the document has.
pub open spec fn rows_walk(
    view: LineView,
    line: u32,
    target: u32,
    target_row: u32,
    rows: u32,
    total_lines: u32,
    wrap_enabled: bool,
    text_width: u16,
    fuel: nat,
) -> u32
    decreases fuel,
{
    if fuel == 0 {
        rows
    } else {
        match next_visible(view, line, total_lines) {
            None => rows,
            Some(next) => if next == target {
                sadd(rows, target_row)
            } else {
                rows_walk(
                    view,
                    next,
                    target,
                    target_row,
                    sadd(rows, line_rows(view, next, wrap_enabled, text_width)),
                    total_lines,
                    wrap_enabled,
                    text_width,
                    (fuel - 1) as nat,
                )
            },
        }
    }
}

/// Screen rows from the anchor's row down to row `target_row` of `target_line`.
pub open spec fn rows_to_position(
    view: LineView,
    anchor: ViewportAnchor,
    target_line: u32,
    target_row: u32,
    total_lines: u32,
    wrap_enabled: bool,
    text_width: u16,
) -> u32 {
    if anchor.line.0 == target_line {
        ssub(target_row, anchor.row_offset)
    } else {
        rows_walk(
            view,
            anchor.line.0,
            target_line,
            target_row,
            ssub(line_rows(view, anchor.line.0, wrap_enabled, text_width), anchor.row_offset),
            total_lines,
            wrap_enabled,
            text_width,
            total_lines as nat + 1,
        )
    }
}

/// Screen rows from the anchor's row down to row `target_row` of `target_line`.
pub fn rows_from_anchor_to_position(
    view: &LineView,
    anchor: ViewportAnchor,
    target_line: DocLine,
    target_row: u32,
    total_lines: u32,
    wrap_enabled: bool,
    text_width: u16,
) -> (r: u32)
    ensures
        r == rows_to_position(
            *view,
            anchor,
            target_line.0,
            target_row,
            total_lines,
            wrap_enabled,
            text_width,
        ),
{
    if anchor.line.0 == target_line.0 {
        return target_row.saturating_sub(anchor.row_offset);
    }
    let mut rows = line_row_count(view, anchor.line, wrap_enabled, text_width).saturating_sub(
        anchor.row_offset,
    );
    let mut line = anchor.line;
    let mut fuel: u64 = total_lines as u64 + 1;
    while fuel > 0
        invariant
            rows_walk(
                *view,
                line.0,
                target_line.0,
                target_row,
                rows,
                total_lines,
                wrap_enabled,
                text_width,
                fuel as nat,
            ) == rows_to_position(
                *view,
                anchor,
                target_line.0,
                target_row,
                total_lines,
                wrap_enabled,
                text_width,
            ),
        decreases fuel,
    {
        match next_visible_line(view, line, total_lines) {
            None => {
                return rows;
            },
            Some(next_line) => {
                if next_line.0 == target_line.0 {
                    return rows.saturating_add(target_row);
                }
                rows = rows.saturating_add(
                    line_row_count(view, next_line, wrap_enabled, text_width),
                );
                line = next_line;
            },
        }
        fuel = fuel - 1;
    }
    rows
}

/// Scrolling down `remaining` more rows from `anchor`: inside its line when the line has
/// them, else on to the next visible line; at the last line, its last row.
pub open spec fn scroll_down(
    view: LineView,
    anchor: ViewportAnchor,
    remaining: int,
    total_lines: u32,
    wrap_enabled: bool,
    text_width: u16,
) -> ViewportAnchor
    decreases remaining,
{
    if remaining <= 0 {
        anchor
    } else {
        let lr = line_rows(view, anchor.line.0, wrap_enabled, text_width);
        let left = ssub(ssub(lr, anchor.row_offset), 1);
        if remaining <= left {
            ViewportAnchor { row_offset: sadd(anchor.row_offset, remaining as u32), ..anchor }
        } else {
            match next_visible(view, anchor.line.0, total_lines) {
                None => ViewportAnchor { row_offset: ssub(lr, 1), ..anchor },
                Some(next) => scroll_down(
                    view,
                    ViewportAnchor { line: DocLine(next), row_offset: 0 },
                    remaining - (left + 1),
                    total_lines,
                    wrap_enabled,
                    text_width,
                ),
            }
        }
    }
}

/// Scrolling up `-remaining` more rows from `anchor`: inside its line when the rows
/// above in it suffice, else on to the last row of the previous visible line; above
/// the first line, the top of the document.
pub open spec fn scroll_up(
    view: LineView,
    anchor: ViewportAnchor,
    remaining: int,
    total_lines: u32,
    wrap_enabled: bool,
    text_width: u16,
) -> ViewportAnchor
    decreases -remaining,
{
    if remaining >= 0 {
        anchor
    } else if -remaining <= anchor.row_offset {
        ViewportAnchor { row_offset: (anchor.row_offset + remaining) as u32, ..anchor }
    } else {
        match previous_visible(view, anchor.line.0, total_lines) {
            None => ViewportAnchor { line: DocLine(0), row_offset: 0 },
            Some(prev) => scroll_up(
                view,
                ViewportAnchor {
                    line: DocLine(prev),
                    row_offset: ssub(line_rows(view, prev, wrap_enabled, text_width), 1),
                },
                remaining + anchor.row_offset + 1,
                total_lines,
                wrap_enabled,
                text_width,
            ),
        }
    }
}

/// The anchor `delta_rows` screen rows below (above, when negative) `anchor`, moved onto
/// a visible line first.
pub open spec fn scrolled_anchor(
    view: LineView,
    anchor: ViewportAnchor,
    delta_rows: int,
    total_lines: u32,
    wrap_enabled: bool,
    text_width: u16,
) -> ViewportAnchor {
    let a = normalized(view, anchor, total_lines, wrap_enabled, text_width);
    if delta_rows > 0 {
        scroll_down(view, a, delta_rows, total_lines, wrap_enabled, text_width)
    } else {
        scroll_up(view, a, delta_rows, total_lines, wrap_enabled, text_width)
    }
}

/// Scrolls the viewport anchor by `delta_rows` screen rows, wrapped rows and folded
/// blocks included.
pub fn scroll_viewport_anchor(
    view: &LineView,
    anchor: ViewportAnchor,
    delta_rows: i32,
    total_lines: u32,
    wrap_enabled: bool,
    text_width: u16,
) -> (r: ViewportAnchor)
    ensures
        r == scrolled_anchor(*view, anchor, delta_rows as int, total_lines, wrap_enabled, text_width),
{
    let ghost goal = scrolled_anchor(
        *view,
        anchor,
        delta_rows as int,
        total_lines,
        wrap_enabled,
        text_width,
    );
    let mut a = normalize_anchor(view, anchor, total_lines, wrap_enabled, text_width);
    if !wrap_enabled {
        a.row_offset = 0;
    }
    let mut remaining: i64 = delta_rows as i64;
    if remaining > 0 {
        while remaining > 0
            invariant
                scroll_down(*view, a, remaining as int, total_lines, wrap_enabled, text_width)
                    == goal,
                goal == scrolled_anchor(
                    *view,
                    anchor,
                    delta_rows as int,
                    total_lines,
                    wrap_enabled,
                    text_width,
                ),
                remaining <= i32::MAX,
            decreases remaining,
        {
            let line_rows = line_row_count(view, a.line, wrap_enabled, text_width);
            let remaining_in_line = line_rows.saturating_sub(a.row_offset).saturating_sub(1);
            if remaining <= remaining_in_line as i64 {
                a.row_offset = a.row_offset.saturating_add(remaining as u32);
                return a;
            }
            remaining = remaining - (remaining_in_line as i64 + 1);
            match next_visible_line(view, a.line, total_lines) {
                None => {
                    a.row_offset = line_rows.saturating_sub(1);
                    return a;
                },
                Some(next_line) => {
                    a.line = next_line;
                    a.row_offset = 0;
                },
            }
        }
        return a;
    }
    while remaining < 0
        invariant
            scroll_up(*view, a, remaining as int, total_lines, wrap_enabled, text_width) == goal,
            goal == scrolled_anchor(
                *view,
                anchor,
                delta_rows as int,
                total_lines,
                wrap_enabled,
                text_width,
            ),
            remaining >= i32::MIN,
        decreases -remaining,
    {
        if -remaining <= a.row_offset as i64 {
            a.row_offset = (a.row_offset as i64 + remaining) as u32;
            return a;
        }
        remaining = remaining + a.row_offset as i64 + 1;
        match previous_visible_line(view, a.line, total_lines) {
            None => {
                return ViewportAnchor { line: DocLine(0), row_offset: 0 };
            },
            Some(prev_line) => {
                a.line = prev_line;
                a.row_offset = line_row_count(view, prev_line, wrap_enabled, text_width) - 1;
            },
        }
    }
    a
}

/// A line takes at least one screen row.
pub proof fn lemma_line_rows_positive(view: LineView, line: u32, wrap_enabled: bool, text_width: u16)
    ensures
        line_rows(view, line, wrap_enabled, text_width) >= 1,
{
    if wrap_enabled && !view.line_folded(line) {
        match view.width_of(line) {
            Some(w) => {
                if text_width != 0 && w != 0 {
                    assert((w - 1) / (text_width as int) >= 0) by (nonlinear_arith)
                        requires
                            w >= 1,
                            text_width >= 1,
                    ;
                    assert((w - 1) / (text_width as int) + 1 <= u32::MAX) by (nonlinear_arith)
                        requires
                            w >= 1,
                            w <= u32::MAX,
                            text_width >= 1,
                    ;
                }
            },
            None => {},
        }
    }
}

/// The anchor after panning so that the cursor's screen row shows in a viewport of
/// `viewport_rows` rows: onto the cursor's row when the cursor is above the anchor,
/// unchanged when the cursor is on screen, else scrolled down until the cursor's row is
/// the last one.
pub open spec fn panned_anchor(
    view: LineView,
    anchor: ViewportAnchor,
    cursor_line: u32,
    cursor_col: u32,
    total_lines: u32,
    viewport_rows: u32,
    wrap_enabled: bool,
    text_width: u16,
) -> ViewportAnchor {
    let vr: u32 = if viewport_rows == 0 {
        1
    } else {
        viewport_rows
    };
    let a = normalized(view, anchor, total_lines, wrap_enabled, text_width);
    let cl = view.snapped(cursor_line);
    let crow = cursor_row_col(view, cl, cursor_col, wrap_enabled, text_width).0;
    let av = view.visual_index(a.line.0);
    let cv = view.visual_index(cl);
    if cv < av || (cv == av && crow < a.row_offset) {
        ViewportAnchor {
            line: DocLine(cl),
            row_offset: if wrap_enabled {
                crow
            } else {
                0
            },
        }
    } else {
        let offset = rows_to_position(view, a, cl, crow, total_lines, wrap_enabled, text_width);
        if offset < vr {
            a
        } else {
            scrolled_anchor(
                view,
                a,
                (ssub(offset, (vr - 1) as u32) as i32) as int,
                total_lines,
                wrap_enabled,
                text_width,
            )
        }
    }
}

/// Pans the viewport anchor the least so that the cursor's screen row shows.
pub fn pan_viewport_anchor_to_keep_cursor_visible(
    view: &LineView,
    anchor: ViewportAnchor,
    cursor_line: DocLine,
    cursor_col: VisualCol,
    total_lines: u32,
    viewport_rows: u32,
    wrap_enabled: bool,
    text_width: u16,
) -> (r: ViewportAnchor)
    ensures
        r == panned_anchor(
            *view,
            anchor,
            cursor_line.0,
            cursor_col.0,
            total_lines,
            viewport_rows,
            wrap_enabled,
            text_width,
        ),
{
    let viewport_rows = if viewport_rows == 0 {
        1
    } else {
        viewport_rows
    };
    let a = normalize_anchor(view, anchor, total_lines, wrap_enabled, text_width);
    let cursor_line = snap_line_to_visible_boundary(view, cursor_line);
    let (cursor_row, _) = cursor_row_and_screen_col(
        view,
        cursor_line,
        cursor_col,
        wrap_enabled,
        text_width,
    );
    let anchor_visual = visual_line_index_for_doc_line(view, a.line);
    let cursor_visual = visual_line_index_for_doc_line(view, cursor_line);
    if cursor_visual < anchor_visual || (cursor_visual == anchor_visual && cursor_row
        < a.row_offset) {
        return ViewportAnchor {
            line: cursor_line,
            row_offset: if wrap_enabled {
                cursor_row
            } else {
                0
            },
        };
    }
    let cursor_offset = rows_from_anchor_to_position(
        view,
        a,
        cursor_line,
        cursor_row,
        total_lines,
        wrap_enabled,
        text_width,
    );
    if cursor_offset < viewport_rows {
        a
    } else {
        scroll_viewport_anchor(
            view,
            a,
            cursor_offset.saturating_sub(viewport_rows - 1) as i32,
            total_lines,
            wrap_enabled,
            text_width,
        )
    }
}

/// Where the cursor goes to stay on screen: the anchor's row when it is above the
/// viewport, where it is when on screen, else the last row of the viewport.
pub open spec fn clamped_cursor(
    view: LineView,
    anchor: ViewportAnchor,
    cursor_line: u32,
    cursor_col: u32,
    total_lines: u32,
    viewport_rows: u32,
    wrap_enabled: bool,
    text_width: u16,
) -> (u32, u32) {
    let vr: u32 = if viewport_rows == 0 {
        1
    } else {
        viewport_rows
    };
    let a = normalized(view, anchor, total_lines, wrap_enabled, text_width);
    let cl = view.snapped(cursor_line);
    let crow = cursor_row_col(view, cl, cursor_col, wrap_enabled, text_width).0;
    let av = view.visual_index(a.line.0);
    let cv = view.visual_index(cl);
    if cv < av || (cv == av && crow < a.row_offset) {
        (a.line.0, spec_row_start(a.row_offset, wrap_enabled, text_width))
    } else {
        let offset = rows_to_position(view, a, cl, crow, total_lines, wrap_enabled, text_width);
        if offset < vr {
            (cl, cursor_col)
        } else {
            let bottom = scrolled_anchor(
                view,
                a,
                (((vr - 1) as u32) as i32) as int,
                total_lines,
                wrap_enabled,
                text_width,
            );
            (bottom.line.0, spec_row_start(bottom.row_offset, wrap_enabled, text_width))
        }
    }
}

/// Moves the cursor onto the screen rows that the viewport shows.
pub fn clamp_cursor_to_viewport_anchor(
    view: &LineView,
    anchor: ViewportAnchor,
    cursor_line: DocLine,
    cursor_col: VisualCol,
    total_lines: u32,
    viewport_rows: u32,
    wrap_enabled: bool,
    text_width: u16,
) -> (r: (DocLine, VisualCol))
    ensures
        (r.0.0, r.1.0) == clamped_cursor(
            *view,
            anchor,
            cursor_line.0,
            cursor_col.0,
            total_lines,
            viewport_rows,
            wrap_enabled,
            text_width,
        ),
{
    let viewport_rows = if viewport_rows == 0 {
        1
    } else {
        viewport_rows
    };
    let a = normalize_anchor(view, anchor, total_lines, wrap_enabled, text_width);
    let cursor_line = snap_line_to_visible_boundary(view, cursor_line);
    let (cursor_row, _) = cursor_row_and_screen_col(
        view,
        cursor_line,
        cursor_col,
        wrap_enabled,
        text_width,
    );
    let anchor_visual = visual_line_index_for_doc_line(view, a.line);
    let cursor_visual = visual_line_index_for_doc_line(view, cursor_line);
    if cursor_visual < anchor_visual || (cursor_visual == anchor_visual && cursor_row
        < a.row_offset) {
        return (a.line, row_start_col(a.row_offset, wrap_enabled, text_width));
    }
    let cursor_offset = rows_from_anchor_to_position(
        view,
        a,
        cursor_line,
        cursor_row,
        total_lines,
        wrap_enabled,
        text_width,
    );
    if cursor_offset < viewport_rows {
        (cursor_line, cursor_col)
    } else {
        let bottom = scroll_viewport_anchor(
            view,
            a,
            (viewport_rows - 1) as i32,
            total_lines,
            wrap_enabled,
            text_width,
        );
        (bottom.line, row_start_col(bottom.row_offset, wrap_enabled, text_width))
    }
}

/// The cursor's screen row counted from the anchor's row, and its column on that row.
pub fn cursor_view_metrics(
    view: &LineView,
    anchor: ViewportAnchor,
    cursor_line: DocLine,
    cursor_col: VisualCol,
    total_lines: u32,
    wrap_enabled: bool,
    text_width: u16,
) -> (r: (u32, VisualCol))
    ensures
        ({
            let a = normalized(*view, anchor, total_lines, wrap_enabled, text_width);
            let cl = view.snapped(cursor_line.0);
            let (crow, col) = cursor_row_col(*view, cl, cursor_col.0, wrap_enabled, text_width);
            &&& r.0 == rows_to_position(*view, a, cl, crow, total_lines, wrap_enabled, text_width)
            &&& r.1.0 == col
        }),
{
    let a = normalize_anchor(view, anchor, total_lines, wrap_enabled, text_width);
    let cursor_line = snap_line_to_visible_boundary(view, cursor_line);
    let (cursor_row, screen_col) = cursor_row_and_screen_col(
        view,
        cursor_line,
        cursor_col,
        wrap_enabled,
        text_width,
    );
    let row = rows_from_anchor_to_position(
        view,
        a,
        cursor_line,
        cursor_row,
        total_lines,
        wrap_enabled,
        text_width,
    );
    (row, screen_col)
}

/// The first `budget` screen rows from row `offset` of `line` on, one per wrapped row of
/// each visible line.
pub open spec fn rows_from(
    view: LineView,
    line: u32,
    offset: u32,
    budget: nat,
    total_lines: u32,
    wrap_enabled: bool,
    text_width: u16,
) -> Seq<VisibleRow>
    decreases budget,
{
    if budget == 0 {
        Seq::empty()
    } else if offset < line_rows(view, line, wrap_enabled, text_width) {
        seq![
            VisibleRow {
                line: DocLine(line),
                start_col: VisualCol(spec_row_start(offset, wrap_enabled, text_width)),
            },
        ] + rows_from(
            view,
            line,
            (offset + 1) as u32,
            (budget - 1) as nat,
            total_lines,
            wrap_enabled,
            text_width,
        )
    } else {
        match next_visible(view, line, total_lines) {
            None => Seq::empty(),
            Some(next) => seq![
                VisibleRow {
                    line: DocLine(next),
                    start_col: VisualCol(spec_row_start(0, wrap_enabled, text_width)),
                },
            ] + rows_from(
                view,
                next,
                1,
                (budget - 1) as nat,
                total_lines,
                wrap_enabled,
                text_width,
            ),
        }
    }
}

/// The screen rows of a viewport of `viewport_rows` rows from the anchor down, fewer
/// when the document ends first.
pub fn collect_visible_rows(
    view: &LineView,
    anchor: ViewportAnchor,
    total_lines: u32,
    viewport_rows: u32,
    wrap_enabled: bool,
    text_width: u16,
) -> (r: Vec<VisibleRow>)
    ensures
        ({
            let a = normalized(*view, anchor, total_lines, wrap_enabled, text_width);
            r@ == rows_from(
                *view,
                a.line.0,
                a.row_offset,
                (if viewport_rows == 0 {
                    1
                } else {
                    viewport_rows
                }) as nat,
                total_lines,
                wrap_enabled,
                text_width,
            )
        }),
{
    let mut rows: Vec<VisibleRow> = Vec::new();
    let vr = if viewport_rows == 0 {
        1
    } else {
        viewport_rows
    };
    let a = normalize_anchor(view, anchor, total_lines, wrap_enabled, text_width);
    let ghost goal = rows_from(
        *view,
        a.line.0,
        a.row_offset,
        vr as nat,
        total_lines,
        wrap_enabled,
        text_width,
    );
    let mut line = a.line;
    let mut offset = a.row_offset;
    while rows.len() < vr as usize
        invariant
            rows@.len() < vr,
            vr == (if viewport_rows == 0 {
                1
            } else {
                viewport_rows
            }),
            a == normalized(*view, anchor, total_lines, wrap_enabled, text_width),
            goal == rows_from(
                *view,
                a.line.0,
                a.row_offset,
                vr as nat,
                total_lines,
                wrap_enabled,
                text_width,
            ),
            rows@ + rows_from(
                *view,
                line.0,
                offset,
                (vr - rows@.len()) as nat,
                total_lines,
                wrap_enabled,
                text_width,
            ) == goal,
        decreases vr - rows@.len(), if offset < line_rows(
            *view,
            line.0,
            wrap_enabled,
            text_width,
        ) {
            0int
        } else {
            1int
        },
    {
        let line_rows = line_row_count(view, line, wrap_enabled, text_width);
        let ghost budget = (vr - rows@.len()) as nat;
        if offset < line_rows {
            let ghost before = rows@;
            rows.push(VisibleRow { line, start_col: row_start_col(offset, wrap_enabled, text_width) });
            offset = offset + 1;
            proof {
                assert(rows@ + rows_from(
                    *view,
                    line.0,
                    offset,
                    (budget - 1) as nat,
                    total_lines,
                    wrap_enabled,
                    text_width,
                ) =~= before + rows_from(
                    *view,
                    line.0,
                    (offset - 1) as u32,
                    budget,
                    total_lines,
                    wrap_enabled,
                    text_width,
                ));
            }
            if rows.len() >= vr as usize {
                proof {
                    assert(rows_from(*view, line.0, offset, 0, total_lines, wrap_enabled, text_width)
                        =~= Seq::<VisibleRow>::empty());
                    assert(rows@ =~= goal);
                }
                return rows;
            }
        } else {
            match next_visible_line(view, line, total_lines) {
                None => {
                    proof {
                        assert(rows@ =~= goal);
                    }
                    return rows;
                },
                Some(next_line) => {
                    proof {
                        lemma_line_rows_positive(*view, next_line.0, wrap_enabled, text_width);
                    }
                    line = next_line;
                    offset = 0;
                },
            }
        }
    }
    proof {
        assert(rows_from(*view, line.0, offset, 0, total_lines, wrap_enabled, text_width)
            =~= Seq::<VisibleRow>::empty());
        assert(rows@ =~= goal);
    }
    rows
}

/// More decimal digits for a larger number.
pub proof fn lemma_decimal_digits_monotone(a: nat, b: nat)
    requires
        a <= b,
    ensures
        decimal_digits(a) <= decimal_digits(b),
    decreases b,
{
    if b >= 10 && a >= 10 {
        lemma_decimal_digits_monotone(a / 10, b / 10);
    }
    if a < 10 && b >= 10 {
        assert(decimal_digits(b) >= 1);
    }
}

/// The text area never grows when the document gets longer or the minimap is shown,
/// and when there is room for text the four parts fill the screen width exactly.
pub proof fn viewport_geometry_laws(t1: u32, t2: u32, w: u16, m: bool)
    requires
        t1 <= t2,
    ensures
        spec_viewport_geometry(t1, w, m).text_width >= spec_viewport_geometry(t2, w, m).text_width,
        spec_viewport_geometry(t1, w, false).text_width >= spec_viewport_geometry(t1, w, true).text_width,
        spec_viewport_geometry(t1, w, m).separator_width == if spec_viewport_geometry(t1, w, m).minimap_width > 0 {
            1u16
        } else {
            0u16
        },
        spec_viewport_geometry(t1, w, m).text_width > 0 ==> spec_viewport_geometry(t1, w, m).gutter_width
            + spec_viewport_geometry(t1, w, m).text_width + spec_viewport_geometry(t1, w, m).minimap_width
            + spec_viewport_geometry(t1, w, m).separator_width == w,
{
    let a: nat = if t1 == 0 { 1 } else { t1 as nat };
    let b: nat = if t2 == 0 { 1 } else { t2 as nat };
    lemma_decimal_digits_monotone(a, b);
    lemma_decimal_digits_bound(b);
    lemma_decimal_digits_bound(a);
}


} // verus!
