use vstd::prelude::*;

use crate::coords::{DocByte, DocLine, VisualCol};
use crate::lines::{
    NL, line_byte_range, line_col_from_byte_offset, byte_offset_from_line_col, lemma_line_col_bound,
    line_start_pos, lands_at, pos_of, small_doc, nl_count, lemma_nl_count_monotone,
    lemma_nl_count_step, lemma_nl_count_take_full, lemma_line_start_exists,
    lemma_line_start_pos_range, lemma_pos_line_bound,
};

verus! {

/// The shape of a visual selection.
#[derive(Debug, Clone, Copy, PartialEq, Eq, Structural)]
pub enum VisualKind {
    Char,
    Line,
    Block,
}

/// Where `byte_offset_from_line_col` lands for (`line`, `col`): the first landing byte,
/// or the end of the document when no byte lands.
pub open spec fn landing_byte(doc: Seq<u8>, line: nat, col: int) -> int {
    if exists|j: int| 0 <= j < doc.len() && lands_at(doc, j, line, col) {
        choose|j: int|
            0 <= j < doc.len() && lands_at(doc, j, line, col) && forall|k: int|
                0 <= k < j ==> !#[trigger] lands_at(doc, k, line, col)
    } else {
        doc.len() as int
    }
}

/// The least-landing characterisation picks out `landing_byte`.
pub proof fn lemma_landing_byte(doc: Seq<u8>, line: nat, col: int, r: int)
    requires
        0 <= r <= doc.len(),
        r < doc.len() ==> lands_at(doc, r, line, col),
        forall|j: int| 0 <= j < r ==> !#[trigger] lands_at(doc, j, line, col),
    ensures
        r == landing_byte(doc, line, col),
{
    if exists|j: int| 0 <= j < doc.len() && lands_at(doc, j, line, col) {
        let w = choose|j: int|
            0 <= j < doc.len() && lands_at(doc, j, line, col) && forall|k: int|
                0 <= k < j ==> !#[trigger] lands_at(doc, k, line, col);
        if r == doc.len() {
            let j = choose|j: int| 0 <= j < doc.len() && lands_at(doc, j, line, col);
            assert(!lands_at(doc, j, line, col));
        }
        if w < r {
            assert(!lands_at(doc, w, line, col));
        }
        if r < w {
            assert(!lands_at(doc, r, line, col));
        }
    }
}

/// Byte range of line `line` that a block selection between `min_col` and `max_col` covers,
/// if any.
pub open spec fn block_range_for_line(doc: Seq<u8>, line: nat, min_col: int, max_col: int) -> Option<
    (int, int),
> {
    let line_start = line_start_pos(doc, line);
    let line_end_with_break = line_start_pos(doc, line + 1);
    let content_end = if line_end_with_break > line_start && doc[line_end_with_break - 1] == NL {
        line_end_with_break - 1
    } else {
        line_end_with_break
    };
    let start_byte = landing_byte(doc, line, min_col);
    let raw_end = landing_byte(doc, line, max_col);
    let end_byte = if raw_end >= content_end {
        content_end - 1
    } else {
        raw_end
    };
    if content_end <= line_start || start_byte >= content_end || start_byte > end_byte {
        None
    } else {
        Some((start_byte, end_byte))
    }
}

/// The block ranges of lines `lo..=hi`, top to bottom.
pub open spec fn block_ranges(doc: Seq<u8>, lo: int, hi: int, min_col: int, max_col: int) -> Seq<
    (int, int),
>
    decreases hi - lo + 1,
{
    if hi < lo {
        Seq::empty()
    } else {
        let before = block_ranges(doc, lo, hi - 1, min_col, max_col);
        match block_range_for_line(doc, hi as nat, min_col, max_col) {
            Some(r) => before.push(r),
            None => before,
        }
    }
}

/// The view of a list of byte ranges.
pub open spec fn range_view(v: Seq<(DocByte, DocByte)>) -> Seq<(int, int)> {
    v.map_values(|p: (DocByte, DocByte)| (p.0.0 as int, p.1.0 as int))
}

fn clamp_visual_byte(byte: DocByte, buffer: &[u8]) -> (r: Option<DocByte>)
    ensures
        buffer@.len() == 0 ==> r is None,
        buffer@.len() > 0 ==> r == Some(
            DocByte(
                if byte.0 < buffer@.len() - 1 {
                    byte.0
                } else {
                    (buffer@.len() - 1) as u64
                },
            ),
        ),
{
    if buffer.len() == 0 {
        None
    } else {
        let last = (buffer.len() - 1) as u64;
        Some(
            DocByte(
                if byte.0 < last {
                    byte.0
                } else {
                    last
                },
            ),
        )
    }
}

/// `rs` are the byte ranges, inclusive at both ends, that a visual selection of shape
/// `kind` from `anchor` to `cursor` covers in `buffer`: positions past the end are clamped
/// to the last byte, and an empty buffer has none.
pub open spec fn visual_selection(
    buffer: Seq<u8>,
    anchor: DocByte,
    cursor: DocByte,
    kind: VisualKind,
    rs: Seq<(int, int)>,
) -> bool {
    &&& buffer.len() == 0 ==> rs.len() == 0
    &&& buffer.len() > 0 ==> {
            let last = buffer.len() - 1;
            let a = if anchor.0 < last {
                anchor.0 as int
            } else {
                last
            };
            let c = if cursor.0 < last {
                cursor.0 as int
            } else {
                last
            };
            let start = if a < c {
                a
            } else {
                c
            };
            let end = if a < c {
                c
            } else {
                a
            };
            &&& kind == VisualKind::Char ==> rs == seq![(start, end)]
            &&& kind == VisualKind::Line ==> rs.len() == 1 && {
                let s = rs[0].0;
                let e = rs[0].1;
                &&& 0 <= s <= start && (s == 0 || buffer[s - 1] == NL)
                &&& forall|k: int| s <= k < start ==> buffer[k] != NL
                &&& end <= e < buffer.len() && (e + 1 >= buffer.len() || buffer[e] == NL)
                &&& forall|k: int| end <= k < e ==> buffer[k] != NL
            }
            &&& kind == VisualKind::Block ==> {
                let (al, ac) = pos_of(buffer, a);
                let (cl, cc) = pos_of(buffer, c);
                rs == block_ranges(
                    buffer,
                    if al < cl {
                        al as int
                    } else {
                        cl as int
                    },
                    if al < cl {
                        cl as int
                    } else {
                        al as int
                    },
                    if ac < cc {
                        ac
                    } else {
                        cc
                    },
                    if ac < cc {
                        cc
                    } else {
                        ac
                    },
                )
            }
        }
}

/// The byte ranges covered by a visual selection from `anchor` to `cursor`, each range
/// inclusive at both ends. Positions past the end are clamped to the last byte; an empty
/// buffer has no ranges.
pub fn resolve_visual_ranges(anchor: DocByte, cursor: DocByte, kind: VisualKind, buffer: &[u8]) -> (r:
    Vec<(DocByte, DocByte)>)
    requires
        small_doc(buffer@),
    ensures
        visual_selection(buffer@, anchor, cursor, kind, range_view(r@)),
{
    let anchor = match clamp_visual_byte(anchor, buffer) {
        Some(a) => a,
        None => {
            return Vec::new();
        },
    };
    let cursor = match clamp_visual_byte(cursor, buffer) {
        Some(c) => c,
        None => {
            return Vec::new();
        },
    };
    let start = if anchor.0 < cursor.0 {
        anchor.0
    } else {
        cursor.0
    };
    let end = if anchor.0 < cursor.0 {
        cursor.0
    } else {
        anchor.0
    };
    match kind {
        VisualKind::Char => {
            let mut v = Vec::new();
            v.push((DocByte(start), DocByte(end)));
            assert(range_view(v@) =~= seq![(start as int, end as int)]);
            v
        },
        VisualKind::Line => {
            let mut expanded_start = start as usize;
            while expanded_start > 0 && buffer[expanded_start - 1] != NL
                invariant
                    expanded_start <= start < buffer@.len(),
                    forall|k: int| expanded_start <= k < start ==> buffer@[k] != NL,
                decreases expanded_start,
            {
                expanded_start = expanded_start - 1;
            }
            let mut expanded_end = end as usize;
            while expanded_end + 1 < buffer.len() && buffer[expanded_end] != NL
                invariant
                    end <= expanded_end < buffer@.len(),
                    small_doc(buffer@),
                    forall|k: int| end <= k < expanded_end ==> buffer@[k] != NL,
                decreases buffer@.len() - expanded_end,
            {
                expanded_end = expanded_end + 1;
            }
            let mut v = Vec::new();
            v.push((DocByte(expanded_start as u64), DocByte(expanded_end as u64)));
            v
        },
        VisualKind::Block => {
            let (anchor_line, anchor_col) = line_col_from_byte_offset(buffer, anchor);
            let (cursor_line, cursor_col) = line_col_from_byte_offset(buffer, cursor);
            proof {
                lemma_line_col_bound(buffer@.take(anchor.0 as int));
                lemma_line_col_bound(buffer@.take(cursor.0 as int));
            }
            let min_line = if anchor_line.0 < cursor_line.0 {
                anchor_line.0
            } else {
                cursor_line.0
            };
            let max_line = if anchor_line.0 < cursor_line.0 {
                cursor_line.0
            } else {
                anchor_line.0
            };
            let min_col = VisualCol(
                if anchor_col.0 < cursor_col.0 {
                    anchor_col.0
                } else {
                    cursor_col.0
                },
            );
            let max_col = VisualCol(
                if anchor_col.0 < cursor_col.0 {
                    cursor_col.0
                } else {
                    anchor_col.0
                },
            );
            let mut ranges: Vec<(DocByte, DocByte)> = Vec::new();
            let mut line = min_line;
            while line <= max_line
                invariant
                    min_line <= line <= max_line + 1,
                    max_line <= buffer@.len(),
                    small_doc(buffer@),
                    range_view(ranges@) == block_ranges(
                        buffer@,
                        min_line as int,
                        line - 1,
                        min_col.0 as int,
                        max_col.0 as int,
                    ),
                decreases max_line + 1 - line,
            {
                let ghost before = ranges@;
                let found = block_range_for(buffer, DocLine(line), min_col, max_col);
                match found {
                    Some((s, e)) => {
                        ranges.push((DocByte(s as u64), DocByte(e as u64)));
                        assert(range_view(ranges@) =~= range_view(before).push(
                            (s as int, e as int),
                        ));
                    },
                    None => {},
                }
                line = line + 1;
            }
            ranges
        },
    }
}

/// Computes `block_range_for_line` for one line.
fn block_range_for(buffer: &[u8], line: DocLine, min_col: VisualCol, max_col: VisualCol) -> (r:
    Option<(usize, usize)>)
    requires
        small_doc(buffer@),
    ensures
        match block_range_for_line(buffer@, line.0 as nat, min_col.0 as int, max_col.0 as int) {
            Some((s, e)) => r == Some((s as usize, e as usize)) && 0 <= s <= e < buffer@.len(),
            None => r is None,
        },
{
    let (line_start, line_end_with_break) = line_byte_range(buffer, line, line);
    let line_content_end = if line_end_with_break > line_start && buffer[line_end_with_break - 1]
        == NL {
        line_end_with_break - 1
    } else {
        line_end_with_break
    };
    if line_content_end <= line_start {
        return None;
    }
    let start_byte = byte_offset_from_line_col(buffer, line, min_col);
    proof {
        lemma_landing_byte(buffer@, line.0 as nat, min_col.0 as int, start_byte.0 as int);
    }
    let start_byte = start_byte.0 as usize;
    if start_byte >= line_content_end {
        return None;
    }
    let raw_end_byte = byte_offset_from_line_col(buffer, line, max_col);
    proof {
        lemma_landing_byte(buffer@, line.0 as nat, max_col.0 as int, raw_end_byte.0 as int);
    }
    let raw_end_byte = raw_end_byte.0 as usize;
    let end_byte = if raw_end_byte >= line_content_end {
        line_content_end - 1
    } else {
        raw_end_byte
    };
    if start_byte <= end_byte {
        Some((start_byte, end_byte))
    } else {
        None
    }
}

/// Lines never go back, and within a line columns never go back.
proof fn lemma_pos_monotone(doc: Seq<u8>, i: int, k: int)
    requires
        0 <= i <= k <= doc.len(),
    ensures
        pos_of(doc, i).0 <= pos_of(doc, k).0,
        pos_of(doc, i).0 == pos_of(doc, k).0 ==> pos_of(doc, i).1 <= pos_of(doc, k).1,
    decreases k - i,
{
    if i < k {
        lemma_pos_monotone(doc, i, k - 1);
        crate::lines::lemma_line_col_step(doc, k - 1);
        lemma_line_col_bound(doc.take(k - 1));
    }
}

/// A byte before `b` on the same line is no newline and sits in an earlier column.
proof fn lemma_same_line_before(doc: Seq<u8>, j: int, b: int)
    requires
        0 <= j < b <= doc.len(),
        pos_of(doc, j).0 == pos_of(doc, b).0,
    ensures
        doc[j] != NL,
        pos_of(doc, j).1 < pos_of(doc, b).1,
    decreases b - j,
{
    crate::lines::lemma_line_col_step(doc, j);
    lemma_line_col_bound(doc.take(j));
    lemma_pos_monotone(doc, j + 1, b);
    if j + 1 < b {
        lemma_same_line_before(doc, j + 1, b);
    }
}

/// Turning a byte offset into a line and column and back gives the offset again:
/// `byte_offset_from_line_col` lands on the byte that `line_col_from_byte_offset`
/// described, for every offset up to the end of the document.
pub proof fn line_col_round_trip(doc: Seq<u8>, b: int)
    requires
        0 <= b <= doc.len(),
    ensures
        landing_byte(doc, pos_of(doc, b).0, pos_of(doc, b).1) == b,
{
    let (line, col) = pos_of(doc, b);
    assert forall|j: int| 0 <= j < b implies !#[trigger] lands_at(doc, j, line, col) by {
        if pos_of(doc, j).0 == line {
            lemma_same_line_before(doc, j, b);
        }
    }
    lemma_landing_byte(doc, line, col, b);
}

/// Every byte before the start of line `line + 1` sits on line `line` or earlier.
proof fn lemma_before_next_line_start(doc: Seq<u8>, line: nat, x: int)
    requires
        0 <= x < line_start_pos(doc, line + 1),
    ensures
        nl_count(doc.take(x)) <= line,
{
    lemma_line_start_pos_range(doc, line + 1);
    if nl_count(doc) >= line + 1 {
        lemma_line_start_exists(doc, line + 1);
        let p = line_start_pos(doc, line + 1);
        lemma_nl_count_step(doc, p - 1);
        lemma_nl_count_monotone(doc, x, p - 1);
    } else {
        lemma_nl_count_monotone(doc, x, doc.len() as int);
        lemma_nl_count_take_full(doc);
    }
}

/// When some byte lands for (`line`, `col`), a first such byte exists.
proof fn lemma_first_landing(doc: Seq<u8>, line: nat, col: int, j: int)
    requires
        0 <= j < doc.len(),
        lands_at(doc, j, line, col),
    ensures
        exists|m: int|
            0 <= m < doc.len() && lands_at(doc, m, line, col) && forall|k: int|
                0 <= k < m ==> !#[trigger] lands_at(doc, k, line, col),
    decreases j,
{
    if exists|k: int| 0 <= k < j && lands_at(doc, k, line, col) {
        let k = choose|k: int| 0 <= k < j && lands_at(doc, k, line, col);
        lemma_first_landing(doc, line, col, k);
    } else {
        assert forall|k: int| 0 <= k < j implies !#[trigger] lands_at(doc, k, line, col) by {}
    }
}

/// The byte that a cursor aimed at (`line`, `col`) lands on, when it is a byte of the
/// document, sits on `line`.
proof fn lemma_landing_byte_line(doc: Seq<u8>, line: nat, col: int)
    requires
        landing_byte(doc, line, col) < doc.len(),
    ensures
        0 <= landing_byte(doc, line, col),
        nl_count(doc.take(landing_byte(doc, line, col))) == line,
{
    if exists|j: int| 0 <= j < doc.len() && lands_at(doc, j, line, col) {
        let w = choose|j: int| 0 <= j < doc.len() && lands_at(doc, j, line, col);
        lemma_first_landing(doc, line, col, w);
        let j = landing_byte(doc, line, col);
        assert(0 <= j < doc.len() && lands_at(doc, j, line, col));
        lemma_pos_line_bound(doc, j);
    }
}

/// Both ends of the block range of a line sit on that line.
proof fn lemma_block_range_on_line(doc: Seq<u8>, line: nat, min_col: int, max_col: int)
    requires
        block_range_for_line(doc, line, min_col, max_col) is Some,
    ensures
        ({
            let (s, e) = block_range_for_line(doc, line, min_col, max_col)->0;
            &&& 0 <= s <= e < doc.len()
            &&& nl_count(doc.take(s)) == line
            &&& nl_count(doc.take(e)) == line
        }),
{
    let line_start = line_start_pos(doc, line);
    let next = line_start_pos(doc, line + 1);
    lemma_line_start_pos_range(doc, line);
    lemma_line_start_pos_range(doc, line + 1);
    let content_end = if next > line_start && doc[next - 1] == NL {
        next - 1
    } else {
        next
    };
    let s = landing_byte(doc, line, min_col);
    let raw_end = landing_byte(doc, line, max_col);
    lemma_landing_byte_line(doc, line, min_col);
    if raw_end >= content_end {
        let e = content_end - 1;
        lemma_nl_count_monotone(doc, s, e);
        lemma_before_next_line_start(doc, line, e);
    } else {
        lemma_landing_byte_line(doc, line, max_col);
    }
}

/// The block ranges of lines `lo..=hi` lie each on one line of that span, in line order.
proof fn lemma_block_ranges_lines(doc: Seq<u8>, lo: int, hi: int, min_col: int, max_col: int)
    requires
        0 <= lo,
    ensures
        ({
            let rs = block_ranges(doc, lo, hi, min_col, max_col);
            &&& forall|i: int|
                #![trigger rs[i]]
                0 <= i < rs.len() ==> {
                    &&& 0 <= rs[i].0 <= rs[i].1 < doc.len()
                    &&& lo <= nl_count(doc.take(rs[i].0)) <= hi
                    &&& nl_count(doc.take(rs[i].1)) == nl_count(doc.take(rs[i].0))
                }
            &&& forall|i: int, j: int|
                #![trigger rs[i], rs[j]]
                0 <= i < j < rs.len() ==> nl_count(doc.take(rs[i].0)) < nl_count(
                    doc.take(rs[j].0),
                )
        }),
    decreases hi - lo + 1,
{
    if hi >= lo {
        lemma_block_ranges_lines(doc, lo, hi - 1, min_col, max_col);
        let before = block_ranges(doc, lo, hi - 1, min_col, max_col);
        let found = block_range_for_line(doc, hi as nat, min_col, max_col);
        if found is Some {
            lemma_block_range_on_line(doc, hi as nat, min_col, max_col);
            let rs = before.push(found->0);
            assert(block_ranges(doc, lo, hi, min_col, max_col) == rs);
            assert forall|i: int| #![trigger rs[i]] 0 <= i < rs.len() implies {
                &&& 0 <= rs[i].0 <= rs[i].1 < doc.len()
                &&& lo <= nl_count(doc.take(rs[i].0)) <= hi
                &&& nl_count(doc.take(rs[i].1)) == nl_count(doc.take(rs[i].0))
            } by {
                if i < before.len() {
                    assert(rs[i] == before[i]);
                }
            }
            assert forall|i: int, j: int|
                #![trigger rs[i], rs[j]]
                0 <= i < j < rs.len() implies nl_count(doc.take(rs[i].0)) < nl_count(
                doc.take(rs[j].0),
            ) by {
                assert(rs[i] == before[i]);
                if j < before.len() {
                    assert(rs[j] == before[j]);
                }
            }
        } else {
            assert(block_ranges(doc, lo, hi, min_col, max_col) == before);
        }
    }
}

/// The ranges of a visual selection are well formed and come in document order, none
/// touching the next: each starts at or before its end, which is a byte of the buffer,
/// and ends before the next one starts. A character or line selection of a nonempty
/// buffer is a single range.
pub proof fn visual_ranges_are_ordered(
    buffer: Seq<u8>,
    anchor: DocByte,
    cursor: DocByte,
    kind: VisualKind,
    rs: Seq<(int, int)>,
)
    requires
        visual_selection(buffer, anchor, cursor, kind, rs),
    ensures
        forall|i: int| #![trigger rs[i]] 0 <= i < rs.len() ==> 0 <= rs[i].0 <= rs[i].1 < buffer.len(),
        forall|i: int, j: int|
            #![trigger rs[i], rs[j]]
            0 <= i < j < rs.len() ==> rs[i].1 < rs[j].0,
        buffer.len() > 0 && kind != VisualKind::Block ==> rs.len() == 1,
{
    if buffer.len() > 0 && kind == VisualKind::Block {
        let last = buffer.len() - 1;
        let a = if anchor.0 < last {
            anchor.0 as int
        } else {
            last
        };
        let c = if cursor.0 < last {
            cursor.0 as int
        } else {
            last
        };
        let (al, ac) = pos_of(buffer, a);
        let (cl, cc) = pos_of(buffer, c);
        let lo = if al < cl {
            al as int
        } else {
            cl as int
        };
        let hi = if al < cl {
            cl as int
        } else {
            al as int
        };
        let mn = if ac < cc {
            ac
        } else {
            cc
        };
        let mx = if ac < cc {
            cc
        } else {
            ac
        };
        lemma_block_ranges_lines(buffer, lo, hi, mn, mx);
        assert forall|i: int, j: int|
            #![trigger rs[i], rs[j]]
            0 <= i < j < rs.len() implies rs[i].1 < rs[j].0 by {
            if rs[j].0 <= rs[i].1 {
                lemma_nl_count_monotone(buffer, rs[j].0, rs[i].1);
            }
        }
    }
}

/// A visual selection covers the same ranges whichever of its two ends is the anchor.
pub proof fn selection_is_symmetric(
    buffer: Seq<u8>,
    anchor: DocByte,
    cursor: DocByte,
    kind: VisualKind,
    rs: Seq<(int, int)>,
)
    ensures
        visual_selection(buffer, anchor, cursor, kind, rs) == visual_selection(
            buffer,
            cursor,
            anchor,
            kind,
            rs,
        ),
{
}

/// The ranges of a visual selection are fixed by the buffer, its two ends and its
/// shape: two lists that both meet `visual_selection` are the same list.
pub proof fn visual_selection_is_unique(
    buffer: Seq<u8>,
    anchor: DocByte,
    cursor: DocByte,
    kind: VisualKind,
    rs1: Seq<(int, int)>,
    rs2: Seq<(int, int)>,
)
    requires
        visual_selection(buffer, anchor, cursor, kind, rs1),
        visual_selection(buffer, anchor, cursor, kind, rs2),
    ensures
        rs1 == rs2,
{
    if buffer.len() > 0 && kind == VisualKind::Line {
        let last = buffer.len() - 1;
        let a = if anchor.0 < last {
            anchor.0 as int
        } else {
            last
        };
        let c = if cursor.0 < last {
            cursor.0 as int
        } else {
            last
        };
        let start = if a < c {
            a
        } else {
            c
        };
        let end = if a < c {
            c
        } else {
            a
        };
        let (s1, e1) = rs1[0];
        let (s2, e2) = rs2[0];
        if s1 < s2 {
            assert(buffer[s2 - 1] != NL);
        }
        if s2 < s1 {
            assert(buffer[s1 - 1] != NL);
        }
        if e1 < e2 {
            assert(buffer[e1] != NL);
        }
        if e2 < e1 {
            assert(buffer[e2] != NL);
        }
        assert(rs1 =~= rs2);
    }
}

/// Resolving a visual selection gives the same ranges whichever end is the anchor.
pub proof fn resolved_selection_ignores_direction(
    buffer: Seq<u8>,
    anchor: DocByte,
    cursor: DocByte,
    kind: VisualKind,
    forward: Seq<(int, int)>,
    backward: Seq<(int, int)>,
)
    requires
        visual_selection(buffer, anchor, cursor, kind, forward),
        visual_selection(buffer, cursor, anchor, kind, backward),
    ensures
        forward == backward,
{
    selection_is_symmetric(buffer, cursor, anchor, kind, backward);
    visual_selection_is_unique(buffer, anchor, cursor, kind, forward, backward);
}

} // verus!
