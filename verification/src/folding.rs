use vstd::prelude::*;

use crate::coords::DocLine;
use crate::lines::{
    is_line_start, lemma_line_start_pos, lemma_nl_count_bound, lemma_nl_count_step,
    lemma_nl_count_take_full, lemma_width_bound, line_content, line_start_pos, nl_count,
    small_doc, vstep, width, NL, TAB,
};

verus! {

/// `a + b`, stopping at `u32::MAX`.
pub open spec fn sadd(a: u32, b: u32) -> u32 {
    if a + b > u32::MAX {
        u32::MAX
    } else {
        (a + b) as u32
    }
}

/// `a - b`, stopping at 0.
pub open spec fn ssub(a: u32, b: u32) -> u32 {
    if a < b {
        0
    } else {
        (a - b) as u32
    }
}

/// One stop of the walk over the visible document tree: a leaf holding `newlines`
/// line breaks, or a folded block (its line breaks all hidden behind one placeholder
/// line). `tail_line`, read from the bytes the unit has loaded (none when it has none),
/// is the line of the unit, counted from its first, that starts at its very end.
#[derive(Debug, Clone, Copy, PartialEq, Eq, Structural)]
pub struct ViewUnit {
    pub newlines: u32,
    pub folded: bool,
    pub tail_line: Option<u32>,
}

/// The document as folding and wrapping read it: the stops of the walk in document
/// order, the document's line count (`newlines` of the whole tree), and the visual
/// width of each document line whose bytes are loaded.
pub struct LineView {
    pub units: Vec<ViewUnit>,
    pub total_newlines: u32,
    pub line_widths: Vec<Option<u32>>,
}

/// Whether unit `u`, whose first line is `acc`, is where the walk places line
/// `target`: a line inside it, or its last line when it is not folded or is the last
/// unit.
pub open spec fn unit_holds_line(units: Seq<ViewUnit>, u: int, acc: u32, target: u32) -> bool {
    let end = sadd(acc, units[u].newlines);
    target < end || (target == end && (!units[u].folded || u + 1 == units.len()))
}

/// Visual line index of line `target`, walking from unit `u` with `acc` lines and `vi`
/// visual lines behind: a folded unit counts as one visual line, an open one as its
/// line breaks.
pub open spec fn visual_index_from(units: Seq<ViewUnit>, target: u32, u: int, acc: u32, vi: u32) -> u32
    decreases units.len() - u,
{
    if u < 0 || u >= units.len() {
        vi
    } else if unit_holds_line(units, u, acc, target) {
        if units[u].folded {
            vi
        } else {
            sadd(vi, ssub(target, acc))
        }
    } else {
        visual_index_from(
            units,
            target,
            u + 1,
            sadd(acc, units[u].newlines),
            sadd(
                vi,
                if units[u].folded {
                    1
                } else {
                    units[u].newlines
                },
            ),
        )
    }
}

/// Document line shown as visual line `target`, walking from unit `u` with `acc` lines
/// and `vi` visual lines behind; `total` when the walk ends first.
pub open spec fn doc_line_from(
    units: Seq<ViewUnit>,
    target: u32,
    total: u32,
    u: int,
    acc: u32,
    vi: u32,
) -> u32
    decreases units.len() - u,
{
    if u < 0 || u >= units.len() {
        total
    } else if units[u].folded {
        if vi >= target {
            acc
        } else {
            doc_line_from(units, target, total, u + 1, sadd(acc, units[u].newlines), sadd(vi, 1))
        }
    } else if target <= sadd(vi, units[u].newlines) {
        sadd(acc, ssub(target, vi))
    } else {
        doc_line_from(
            units,
            target,
            total,
            u + 1,
            sadd(acc, units[u].newlines),
            sadd(vi, units[u].newlines),
        )
    }
}

/// Whether the walk from unit `u` (first line `acc`) finds line `target` under a fold:
/// the unit that holds it is folded, passing on to the next unit when the line starts
/// at the very end of an open one; past the last unit, whether that one is folded.
pub open spec fn folded_from(units: Seq<ViewUnit>, target: u32, u: int, acc: u32) -> bool
    decreases units.len() - u,
{
    if u < 0 || u >= units.len() {
        units.len() > 0 && u == units.len() && units.last().folded
    } else if unit_holds_line(units, u, acc, target) {
        if units[u].folded {
            true
        } else if units[u].tail_line == Some(ssub(target, acc)) && u + 1 < units.len() {
            folded_from(units, target, u + 1, sadd(acc, units[u].newlines))
        } else {
            false
        }
    } else {
        folded_from(units, target, u + 1, sadd(acc, units[u].newlines))
    }
}

impl LineView {
    /// Visual line index of a document line.
    pub open spec fn visual_index(&self, line: u32) -> u32 {
        visual_index_from(self.units@, line, 0, 0, 0)
    }

    /// Document line shown as a visual line.
    pub open spec fn doc_line(&self, vi: u32, total: u32) -> u32 {
        doc_line_from(self.units@, vi, total, 0, 0, 0)
    }

    /// The first line of the visual line that shows `line`.
    pub open spec fn snapped(&self, line: u32) -> u32 {
        self.doc_line(self.visual_index(line), self.total_newlines)
    }

    /// Whether `line` shows as a folded placeholder.
    pub open spec fn line_folded(&self, line: u32) -> bool {
        folded_from(self.units@, line, 0, 0)
    }

    /// Visual width of `line`, when its bytes are loaded.
    pub open spec fn width_of(&self, line: u32) -> Option<u32> {
        if line < self.line_widths@.len() {
            self.line_widths@[line as int]
        } else {
            None
        }
    }
}

/// Visual line index of `target_line`, with folded blocks counting as one line.
pub fn visual_line_index_for_doc_line(view: &LineView, target_line: DocLine) -> (r: u32)
    ensures
        r == view.visual_index(target_line.0),
{
    let n = view.units.len();
    let mut u: usize = 0;
    let mut acc: u32 = 0;
    let mut vi: u32 = 0;
    while u < n
        invariant
            n == view.units@.len(),
            u <= n,
            visual_index_from(view.units@, target_line.0, u as int, acc, vi) == view.visual_index(
                target_line.0,
            ),
        decreases n - u,
    {
        let unit = view.units[u];
        let end = acc.saturating_add(unit.newlines);
        if target_line.0 < end || (target_line.0 == end && (!unit.folded || u + 1 == n)) {
            if unit.folded {
                return vi;
            }
            return vi.saturating_add(target_line.0.saturating_sub(acc));
        }
        vi = if unit.folded {
            vi.saturating_add(1)
        } else {
            vi.saturating_add(unit.newlines)
        };
        acc = end;
        u = u + 1;
    }
    vi
}

/// Visual line index of the document's last line.
pub fn max_visual_line_index(view: &LineView, total_lines: u32) -> (r: u32)
    ensures
        r == view.visual_index(total_lines),
{
    visual_line_index_for_doc_line(view, DocLine(total_lines))
}

/// The document line that visual line `target_visual_index` shows (its first line,
/// for a folded block), or `total_lines` past the end.
pub fn doc_line_for_visual_index(view: &LineView, target_visual_index: u32, total_lines: u32) -> (r:
    DocLine)
    ensures
        r.0 == view.doc_line(target_visual_index, total_lines),
{
    let n = view.units.len();
    let mut u: usize = 0;
    let mut acc: u32 = 0;
    let mut vi: u32 = 0;
    while u < n
        invariant
            n == view.units@.len(),
            u <= n,
            doc_line_from(view.units@, target_visual_index, total_lines, u as int, acc, vi)
                == view.doc_line(target_visual_index, total_lines),
        decreases n - u,
    {
        let unit = view.units[u];
        if unit.folded {
            if vi >= target_visual_index {
                return DocLine(acc);
            }
            vi = vi.saturating_add(1);
        } else {
            let next_visual = vi.saturating_add(unit.newlines);
            if target_visual_index <= next_visual {
                return DocLine(acc.saturating_add(target_visual_index.saturating_sub(vi)));
            }
            vi = next_visual;
        }
        acc = acc.saturating_add(unit.newlines);
        u = u + 1;
    }
    DocLine(total_lines)
}

/// The first line of the visual line that shows `line`: `line` itself unless it is
/// hidden in a folded block.
pub fn snap_line_to_visible_boundary(view: &LineView, line: DocLine) -> (r: DocLine)
    ensures
        r.0 == view.snapped(line.0),
{
    let visual_index = visual_line_index_for_doc_line(view, line);
    doc_line_for_visual_index(view, visual_index, view.total_newlines)
}

/// Whether `line` shows as a folded placeholder.
pub fn is_folded_visible_line(view: &LineView, line: DocLine) -> (r: bool)
    ensures
        r == view.line_folded(line.0),
{
    let n = view.units.len();
    let mut u: usize = 0;
    let mut acc: u32 = 0;
    while u < n
        invariant
            n == view.units@.len(),
            u <= n,
            folded_from(view.units@, line.0, u as int, acc) == view.line_folded(line.0),
        decreases n - u,
    {
        let unit = view.units[u];
        let end = acc.saturating_add(unit.newlines);
        if line.0 < end || (line.0 == end && (!unit.folded || u + 1 == n)) {
            if unit.folded {
                return true;
            }
            let in_unit = line.0.saturating_sub(acc);
            if !(unit.tail_line == Some(in_unit) && u + 1 < n) {
                return false;
            }
        }
        acc = end;
        u = u + 1;
    }
    n > 0 && view.units[n - 1].folded
}

/// Visual width of `line`, when its bytes are loaded.
pub fn line_width(view: &LineView, line: DocLine) -> (r: Option<u32>)
    ensures
        r == view.width_of(line.0),
{
    if (line.0 as usize) < view.line_widths.len() {
        view.line_widths[line.0 as usize]
    } else {
        None
    }
}

/// `min(a, b)`.
pub open spec fn min32(a: u32, b: u32) -> u32 {
    if a < b {
        a
    } else {
        b
    }
}

/// Scroll position (a document line) that brings the cursor's visual line into a
/// viewport of `viewport_lines` lines, moving the top visual line the least; folded
/// blocks count as one line.
pub fn pan_scroll_y_to_keep_cursor_visible(
    view: &LineView,
    scroll_y: u32,
    cursor_line: DocLine,
    total_lines: u32,
    viewport_lines: u32,
) -> (r: u32)
    ensures
        ({
            let vl: u32 = if viewport_lines == 0 {
                1
            } else {
                viewport_lines
            };
            let max_visual = view.visual_index(total_lines);
            let top = view.visual_index(min32(scroll_y, total_lines));
            let cursor_visual = view.visual_index(cursor_line.0);
            let new_top = if cursor_visual < top {
                cursor_visual
            } else if cursor_visual > sadd(top, (vl - 1) as u32) {
                ssub(cursor_visual, (vl - 1) as u32)
            } else {
                top
            };
            r == view.doc_line(min32(new_top, max_visual), total_lines)
        }),
{
    let viewport_lines = if viewport_lines == 0 {
        1
    } else {
        viewport_lines
    };
    let max_visual = max_visual_line_index(view, total_lines);
    let first = if scroll_y < total_lines {
        scroll_y
    } else {
        total_lines
    };
    let mut top_visual = visual_line_index_for_doc_line(view, DocLine(first));
    let cursor_visual = visual_line_index_for_doc_line(view, cursor_line);
    if cursor_visual < top_visual {
        top_visual = cursor_visual;
    } else {
        let bottom_visual = top_visual.saturating_add(viewport_lines - 1);
        if cursor_visual > bottom_visual {
            top_visual = cursor_visual.saturating_sub(viewport_lines - 1);
        }
    }
    let target = if top_visual < max_visual {
        top_visual
    } else {
        max_visual
    };
    doc_line_for_visual_index(view, target, total_lines).0
}

/// Scroll position (a document line) `delta` visual lines from `scroll_y`, kept between
/// the first and the last visual line.
pub fn scroll_viewport(view: &LineView, scroll_y: u32, delta: i32, total_lines: u32) -> (r: u32)
    ensures
        ({
            let top = view.visual_index(min32(scroll_y, total_lines));
            let max_visual = view.visual_index(total_lines);
            let moved = top + delta;
            let new_visual = if moved < 0 {
                0
            } else if moved > max_visual {
                max_visual as int
            } else {
                moved
            };
            r == view.doc_line(new_visual as u32, total_lines)
        }),
{
    let first = if scroll_y < total_lines {
        scroll_y
    } else {
        total_lines
    };
    let top_visual = visual_line_index_for_doc_line(view, DocLine(first));
    let max_visual = max_visual_line_index(view, total_lines);
    let moved = top_visual as i64 + delta as i64;
    let new_visual: u32 = if moved < 0 {
        0
    } else if moved > max_visual as i64 {
        max_visual
    } else {
        moved as u32
    };
    doc_line_for_visual_index(view, new_visual, total_lines).0
}

/// Keeps the cursor on a visual line that a viewport of `viewport_lines` lines from
/// `scroll_y` shows: above it, the top line; below it, the bottom line.
pub fn clamp_cursor_line_to_viewport(
    view: &LineView,
    cursor_line: DocLine,
    scroll_y: u32,
    total_lines: u32,
    viewport_lines: u32,
) -> (r: DocLine)
    ensures
        ({
            let vl: u32 = if viewport_lines == 0 {
                1
            } else {
                viewport_lines
            };
            let top = view.visual_index(min32(scroll_y, total_lines));
            let max_visual = view.visual_index(total_lines);
            let bottom = min32(sadd(top, (vl - 1) as u32), max_visual);
            let cursor_visual = view.visual_index(cursor_line.0);
            r.0 == if cursor_visual < top {
                view.doc_line(top, total_lines)
            } else if cursor_visual > bottom {
                view.doc_line(bottom, total_lines)
            } else {
                cursor_line.0
            }
        }),
{
    let viewport_lines = if viewport_lines == 0 {
        1
    } else {
        viewport_lines
    };
    let first = if scroll_y < total_lines {
        scroll_y
    } else {
        total_lines
    };
    let top_visual = visual_line_index_for_doc_line(view, DocLine(first));
    let max_visual = max_visual_line_index(view, total_lines);
    let below = top_visual.saturating_add(viewport_lines - 1);
    let bottom_visual = if below < max_visual {
        below
    } else {
        max_visual
    };
    let cursor_visual = visual_line_index_for_doc_line(view, cursor_line);
    if cursor_visual < top_visual {
        doc_line_for_visual_index(view, top_visual, total_lines)
    } else if cursor_visual > bottom_visual {
        doc_line_for_visual_index(view, bottom_visual, total_lines)
    } else {
        cursor_line
    }
}

/// The unit of a whole unfolded document: its line breaks, and which of its lines
/// starts at its end (the empty one after a final newline, or the first of an empty
/// document).
pub open spec fn document_unit(doc: Seq<u8>) -> ViewUnit {
    ViewUnit {
        newlines: nl_count(doc) as u32,
        folded: false,
        tail_line: if doc.len() == 0 {
            Some(0)
        } else if doc.last() == NL {
            Some(nl_count(doc) as u32)
        } else {
            None
        },
    }
}

impl LineView {
    /// The view of a document held whole in memory, with nothing folded: one unit, and
    /// the width of every line.
    pub fn from_text(doc: &[u8]) -> (r: LineView)
        requires
            small_doc(doc@),
        ensures
            r.units@ == seq![document_unit(doc@)],
            r.total_newlines == nl_count(doc@),
            r.line_widths@.len() == nl_count(doc@) + 1,
            forall|k: int|
                0 <= k <= nl_count(doc@) ==> #[trigger] r.line_widths@[k] == Some(
                    width(line_content(doc@, k as nat)) as u32,
                ),
    {
        let ghost d = doc@;
        let mut widths: Vec<Option<u32>> = Vec::new();
        let mut col: u32 = 0;
        let mut start: usize = 0;
        let mut k: u32 = 0;
        let mut i: usize = 0;
        proof {
            lemma_nl_count_bound(d);
        }
        while i < doc.len()
            invariant
                d == doc@,
                small_doc(d),
                start <= i <= d.len(),
                k == nl_count(d.take(i as int)),
                k <= i,
                is_line_start(d, k as nat, start as int),
                forall|j: int| start <= j < i ==> d[j] != NL,
                col == width(d.subrange(start as int, i as int)),
                widths@.len() == k,
                forall|j: int|
                    0 <= j < k ==> #[trigger] widths@[j] == Some(
                        width(line_content(d, j as nat)) as u32,
                    ),
            decreases d.len() - i,
        {
            proof {
                lemma_nl_count_step(d, i as int);
                lemma_width_bound(d.subrange(start as int, i as int));
            }
            if doc[i] == NL {
                proof {
                    assert(is_line_start(d, (k + 1) as nat, (i + 1) as int));
                    lemma_line_start_pos(d, k as nat, start as int);
                    lemma_line_start_pos(d, (k + 1) as nat, (i + 1) as int);
                    assert(d.subrange(start as int, i + 1).drop_last() =~= d.subrange(
                        start as int,
                        i as int,
                    ));
                    assert(line_content(d, k as nat) == d.subrange(start as int, i as int));
                }
                widths.push(Some(col));
                k = k + 1;
                start = i + 1;
                col = 0;
                proof {
                    assert(d.subrange(start as int, (i + 1) as int) =~= Seq::<u8>::empty());
                }
            } else {
                proof {
                    assert(d.subrange(start as int, i + 1).drop_last() =~= d.subrange(
                        start as int,
                        i as int,
                    ));
                }
                col = if doc[i] == TAB {
                    col + 4 - col % 4
                } else {
                    col + 1
                };
            }
            i = i + 1;
        }
        proof {
            lemma_nl_count_take_full(d);
            assert(d.take(i as int) =~= d);
            lemma_line_start_pos(d, k as nat, start as int);
            assert(line_start_pos(d, (k + 1) as nat) == d.len());
            let raw = d.subrange(start as int, d.len() as int);
            if raw.len() > 0 {
                assert(raw.last() == d[d.len() - 1]);
            }
            assert(line_content(d, k as nat) == raw);
        }
        widths.push(Some(col));
        let newlines = k;
        let n = doc.len();
        let tail_line = if n == 0 {
            Some(0)
        } else if doc[n - 1] == NL {
            Some(newlines)
        } else {
            None
        };
        let mut units: Vec<ViewUnit> = Vec::new();
        units.push(ViewUnit { newlines, folded: false, tail_line });
        proof {
            assert(units@ =~= seq![document_unit(d)]);
        }
        LineView { units, total_newlines: newlines, line_widths: widths }
    }
}

} // verus!
