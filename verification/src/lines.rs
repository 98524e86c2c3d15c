use vstd::prelude::*;

use crate::coords::{DocByte, DocLine, VisualCol, TAB_SIZE};

verus! {

/// The newline byte.
pub const NL: u8 = 10;

/// The horizontal tab byte.
pub const TAB: u8 = 9;

/// Number of newline bytes in `s`.
pub open spec fn nl_count(s: Seq<u8>) -> nat
    decreases s.len(),
{
    if s.len() == 0 {
        0
    } else {
        nl_count(s.drop_last()) + if s.last() == NL {
            1nat
        } else {
            0nat
        }
    }
}

/// `p` is the byte position at which line `line` of `doc` starts.
pub open spec fn is_line_start(doc: Seq<u8>, line: nat, p: int) -> bool {
    ||| line == 0 && p == 0
    ||| 0 < p <= doc.len() && doc[p - 1] == NL && nl_count(doc.take(p)) == line
}

/// Start of line `line`, or the end of the document when the document has fewer lines.
pub open spec fn line_start_pos(doc: Seq<u8>, line: nat) -> int {
    if nl_count(doc) >= line {
        choose|p: int| is_line_start(doc, line, p)
    } else {
        doc.len() as int
    }
}

/// The visual column reached from `col` after one byte, ignoring newlines.
pub open spec fn vstep(col: int, b: u8) -> int {
    if b == TAB {
        col + TAB_SIZE - col % (TAB_SIZE as int)
    } else if b != NL {
        col + 1
    } else {
        col
    }
}

/// Visual width of the first `j + 1` bytes of `s`.
pub open spec fn width_through(s: Seq<u8>, j: int) -> int {
    width(s.take(j + 1))
}

/// Visual width of a run of bytes that starts at column 0.
pub open spec fn width(s: Seq<u8>) -> int
    decreases s.len(),
{
    if s.len() == 0 {
        0
    } else {
        vstep(width(s.drop_last()), s.last())
    }
}

/// Line and column reached from (0, 0) after the bytes of `s`.
pub open spec fn line_col_after(s: Seq<u8>) -> (nat, int)
    decreases s.len(),
{
    if s.len() == 0 {
        (0, 0)
    } else {
        let prev = line_col_after(s.drop_last());
        if s.last() == NL {
            (prev.0 + 1, 0)
        } else if s.last() == TAB {
            (prev.0, prev.1 + TAB_SIZE - prev.1 % (TAB_SIZE as int))
        } else {
            (prev.0, prev.1 + 1)
        }
    }
}

/// The bytes of line `line`, without its newline.
pub open spec fn line_content(doc: Seq<u8>, line: nat) -> Seq<u8> {
    let start = line_start_pos(doc, line);
    let end = line_start_pos(doc, line + 1);
    let raw = doc.subrange(start, end);
    if raw.len() > 0 && raw.last() == NL {
        raw.drop_last()
    } else {
        raw
    }
}

/// The largest document size for which columns and lines are known to fit in 32 bits.
pub open spec fn small_doc(doc: Seq<u8>) -> bool {
    doc.len() <= 0x3fff_ffff
}

pub proof fn lemma_nl_count_step(s: Seq<u8>, i: int)
    requires
        0 <= i < s.len(),
    ensures
        nl_count(s.take(i + 1)) == nl_count(s.take(i)) + if s[i] == NL {
            1nat
        } else {
            0nat
        },
{
    assert(s.take(i + 1).drop_last() =~= s.take(i));
}

pub proof fn lemma_nl_count_take_full(s: Seq<u8>)
    ensures
        nl_count(s.take(s.len() as int)) == nl_count(s),
{
    assert(s.take(s.len() as int) =~= s);
}

pub proof fn lemma_nl_count_monotone(s: Seq<u8>, i: int, j: int)
    requires
        0 <= i <= j <= s.len(),
    ensures
        nl_count(s.take(i)) <= nl_count(s.take(j)),
    decreases j - i,
{
    if i < j {
        lemma_nl_count_step(s, j - 1);
        lemma_nl_count_monotone(s, i, j - 1);
    }
}

pub proof fn lemma_nl_count_bound(s: Seq<u8>)
    ensures
        nl_count(s) <= s.len(),
    decreases s.len(),
{
    if s.len() > 0 {
        lemma_nl_count_bound(s.drop_last());
    }
}

/// Two starts of the same line are the same position.
pub proof fn lemma_line_start_unique(doc: Seq<u8>, line: nat, p: int, q: int)
    requires
        is_line_start(doc, line, p),
        is_line_start(doc, line, q),
    ensures
        p == q,
{
    if p != q && line > 0 {
        if p < q {
            lemma_nl_count_step(doc, p - 1);
            lemma_nl_count_step(doc, q - 1);
            lemma_nl_count_monotone(doc, p, q - 1);
        } else {
            lemma_nl_count_step(doc, p - 1);
            lemma_nl_count_step(doc, q - 1);
            lemma_nl_count_monotone(doc, q, p - 1);
        }
    }
}

/// A line start found by a scan is the line start that `line_start_pos` names.
pub proof fn lemma_line_start_pos(doc: Seq<u8>, line: nat, p: int)
    requires
        is_line_start(doc, line, p),
    ensures
        line_start_pos(doc, line) == p,
        nl_count(doc) >= line,
{
    if line > 0 {
        lemma_nl_count_monotone(doc, p, doc.len() as int);
        lemma_nl_count_take_full(doc);
    }
    let q = choose|q: int| is_line_start(doc, line, q);
    lemma_line_start_unique(doc, line, p, q);
}

pub proof fn lemma_width_step(s: Seq<u8>, i: int)
    requires
        0 <= i < s.len(),
    ensures
        width_through(s, i) == vstep(width(s.take(i)), s[i]),
{
    assert(s.take(i + 1).drop_last() =~= s.take(i));
}

pub proof fn lemma_width_bound(s: Seq<u8>)
    ensures
        0 <= width(s) <= 4 * s.len(),
    decreases s.len(),
{
    if s.len() > 0 {
        lemma_width_bound(s.drop_last());
    }
}

pub proof fn lemma_line_col_step(s: Seq<u8>, i: int)
    requires
        0 <= i < s.len(),
    ensures
        line_col_after(s.take(i + 1)) == (if s[i] == NL {
            (line_col_after(s.take(i)).0 + 1, 0int)
        } else if s[i] == TAB {
            (
                line_col_after(s.take(i)).0,
                line_col_after(s.take(i)).1 + TAB_SIZE - line_col_after(s.take(i)).1 % (
                TAB_SIZE as int),
            )
        } else {
            (line_col_after(s.take(i)).0, line_col_after(s.take(i)).1 + 1)
        }),
{
    assert(s.take(i + 1).drop_last() =~= s.take(i));
}

pub proof fn lemma_line_col_bound(s: Seq<u8>)
    ensures
        line_col_after(s).0 <= s.len(),
        0 <= line_col_after(s).1 <= 4 * s.len(),
    decreases s.len(),
{
    if s.len() > 0 {
        lemma_line_col_bound(s.drop_last());
    }
}

/// Byte range of the lines `start_line..=end_line`: from the start of `start_line`
/// to just past the newline that ends `end_line` (or the end of the document).
pub fn line_byte_range(doc: &[u8], start_line: DocLine, end_line: DocLine) -> (r: (usize, usize))
    requires
        doc@.len() <= u32::MAX,
    ensures
        start_line.0 <= end_line.0 + 1 ==> r.0 == line_start_pos(doc@, start_line.0 as nat),
        start_line.0 > end_line.0 + 1 ==> r.0 == (if nl_count(doc@) > end_line.0 {
            0
        } else {
            doc@.len()
        }),
        r.1 == line_start_pos(doc@, (end_line.0 + 1) as nat),
        r.1 <= doc@.len(),
        start_line.0 <= end_line.0 + 1 ==> r.0 <= r.1,
{
    let mut current_line: u32 = 0;
    let mut byte_start: usize = 0;
    let mut found_start = start_line.0 == 0;
    let mut i: usize = 0;
    let ghost d = doc@;
    while i < doc.len()
        invariant
            0 <= i <= d.len(),
            d == doc@,
            current_line == nl_count(d.take(i as int)),
            current_line <= end_line.0,
            current_line <= i,
            d.len() <= u32::MAX,
            found_start <==> (start_line.0 == 0 || current_line >= start_line.0),
            found_start ==> is_line_start(d, start_line.0 as nat, byte_start as int),
            found_start ==> byte_start <= i,
            !found_start ==> byte_start == 0,
        decreases d.len() - i,
    {
        proof {
            lemma_nl_count_step(d, i as int);
        }
        if doc[i] == NL {
            assert(current_line < u32::MAX);
            current_line = current_line + 1;
            if !found_start && current_line == start_line.0 {
                byte_start = i + 1;
                found_start = true;
            }
            if current_line > end_line.0 {
                proof {
                    lemma_line_start_pos(d, (end_line.0 + 1) as nat, (i + 1) as int);
                    if found_start && start_line.0 <= end_line.0 + 1 {
                        lemma_line_start_pos(d, start_line.0 as nat, byte_start as int);
                    }
                    if start_line.0 > end_line.0 + 1 {
                        lemma_nl_count_monotone(d, (i + 1) as int, d.len() as int);
                        lemma_nl_count_take_full(d);
                    }
                }
                return (byte_start, i + 1);
            }
        }
        i = i + 1;
    }
    proof {
        lemma_nl_count_take_full(d);
        assert(d.take(i as int) =~= d);
        if found_start {
            lemma_line_start_pos(d, start_line.0 as nat, byte_start as int);
        }
    }
    if !found_start {
        byte_start = doc.len();
    }
    (byte_start, doc.len())
}


/// The bytes of line `target_line`, without its newline.
pub fn line_content_slice(doc: &[u8], target_line: DocLine) -> (r: &[u8])
    requires
        doc@.len() <= u32::MAX,
    ensures
        r@ == line_content(doc@, target_line.0 as nat),
{
    let (start, end) = line_byte_range(doc, target_line, target_line);
    let line = &doc[start..end];
    if line.len() > 0 && line[line.len() - 1] == NL {
        let r = &line[0..line.len() - 1];
        assert(r@ =~= line@.drop_last());
        r
    } else {
        line
    }
}

/// Advances `col` over one byte of a line; a tab moves to the next tab stop.
pub fn advance_visual_col_only(col: &mut VisualCol, b: u8)
    requires
        old(col).0 + TAB_SIZE <= u32::MAX,
    ensures
        final(col).0 == vstep(old(col).0 as int, b),
{
    if b == TAB {
        col.0 = col.0 + (TAB_SIZE - (col.0 % TAB_SIZE));
    } else if b != NL {
        col.0 = col.0 + 1;
    }
}

/// Visual width of the first `k` bytes of `s`, computed by a loop.
fn width_of_prefix(s: &[u8], k: usize) -> (r: VisualCol)
    requires
        k <= s@.len(),
        4 * s@.len() <= u32::MAX,
    ensures
        r.0 == width(s@.take(k as int)),
{
    let mut col = VisualCol(0);
    let mut i: usize = 0;
    while i < k
        invariant
            i <= k <= s@.len(),
            4 * s@.len() <= u32::MAX,
            col.0 == width(s@.take(i as int)),
        decreases k - i,
    {
        proof {
            lemma_width_step(s@, i as int);
            lemma_width_bound(s@.take(i as int));
        }
        advance_visual_col_only(&mut col, s[i]);
        i = i + 1;
    }
    col
}

pub proof fn lemma_line_content_len(doc: Seq<u8>, line: nat)
    ensures
        line_content(doc, line).len() <= doc.len(),
{
    let start = line_start_pos(doc, line);
    let end = line_start_pos(doc, line + 1);
    lemma_line_start_pos_range(doc, line);
    lemma_line_start_pos_range(doc, line + 1);
    lemma_line_start_pos_mono(doc, line);
}

/// Line starts come in order.
pub proof fn lemma_line_start_pos_mono(doc: Seq<u8>, line: nat)
    ensures
        line_start_pos(doc, line) <= line_start_pos(doc, line + 1),
{
    lemma_line_start_pos_range(doc, line);
    lemma_line_start_pos_range(doc, line + 1);
    if nl_count(doc) >= line + 1 {
        lemma_line_start_exists(doc, line);
        lemma_line_start_exists(doc, line + 1);
        let p = line_start_pos(doc, line);
        let q = line_start_pos(doc, line + 1);
        if q <= p {
            if line > 0 {
                lemma_nl_count_monotone(doc, q, p);
            }
        }
    }
}

pub proof fn lemma_line_start_pos_range(doc: Seq<u8>, line: nat)
    ensures
        0 <= line_start_pos(doc, line) <= doc.len(),
{
    if nl_count(doc) >= line {
        lemma_line_start_exists(doc, line);
    }
}

/// Every line that the newline count admits has a start.
pub proof fn lemma_line_start_exists(doc: Seq<u8>, line: nat)
    requires
        nl_count(doc) >= line,
    ensures
        exists|p: int| is_line_start(doc, line, p),
        is_line_start(doc, line, line_start_pos(doc, line)),
        0 <= line_start_pos(doc, line) <= doc.len(),
    decreases doc.len(),
{
    if line == 0 {
        assert(is_line_start(doc, line, 0));
    } else {
        let n = doc.len() as int;
        let prefix = doc.drop_last();
        assert(doc.take(n) =~= doc);
        if doc.last() == NL && nl_count(prefix) + 1 == line {
            assert(doc.take(n).drop_last() =~= prefix);
            assert(is_line_start(doc, line, n));
        } else {
            lemma_line_start_exists(prefix, line);
            let p = choose|p: int| is_line_start(prefix, line, p);
            assert(prefix.take(p) =~= doc.take(p));
            assert(is_line_start(doc, line, p));
        }
    }
}

/// Visual column at the end of line `target_line`.
pub fn line_end_visual_col(doc: &[u8], target_line: DocLine) -> (r: VisualCol)
    requires
        small_doc(doc@),
    ensures
        r.0 == width(line_content(doc@, target_line.0 as nat)),
{
    let line = line_content_slice(doc, target_line);
    proof {
        lemma_line_content_len(doc@, target_line.0 as nat);
        assert(line@.take(line@.len() as int) =~= line@);
    }
    width_of_prefix(line, line.len())
}

/// A space or a tab.
pub open spec fn is_blank_byte(b: u8) -> bool {
    b == 32 || b == TAB
}

/// Visual column of the first byte of line `target_line` that is neither a space nor a
/// tab; column 0 when the line holds no such byte.
pub fn first_non_whitespace_visual_col(doc: &[u8], target_line: DocLine) -> (r: VisualCol)
    requires
        small_doc(doc@),
    ensures
        ({
            let lc = line_content(doc@, target_line.0 as nat);
            ||| exists|k: int|
                #![trigger lc[k]]
                0 <= k < lc.len() && !is_blank_byte(lc[k]) && (forall|j: int|
                    0 <= j < k ==> is_blank_byte(lc[j])) && r.0 == width(lc.take(k))
            ||| (forall|j: int| 0 <= j < lc.len() ==> is_blank_byte(lc[j])) && r.0 == 0
        }),
{
    let line = line_content_slice(doc, target_line);
    proof {
        lemma_line_content_len(doc@, target_line.0 as nat);
    }
    let mut col = VisualCol(0);
    let mut i: usize = 0;
    while i < line.len()
        invariant
            i <= line@.len(),
            4 * line@.len() <= u32::MAX,
            col.0 == width(line@.take(i as int)),
            forall|j: int| 0 <= j < i ==> is_blank_byte(line@[j]),
            line@ == line_content(doc@, target_line.0 as nat),
        decreases line@.len() - i,
    {
        let b = line[i];
        if b == 32 || b == TAB {
            proof {
                lemma_width_step(line@, i as int);
                lemma_width_bound(line@.take(i as int));
            }
            advance_visual_col_only(&mut col, b);
        } else {
            assert(!is_blank_byte(line@[i as int]));
            assert(line@ == line_content(doc@, target_line.0 as nat));
            return col;
        }
        i = i + 1;
    }
    VisualCol(0)
}

/// Home key: jump to the first non-blank column, or to column 0 when already there.
pub fn smart_home_visual_col(doc: &[u8], target_line: DocLine, current_col: VisualCol) -> (r:
    VisualCol)
    requires
        small_doc(doc@),
    ensures
        ({
            let first = first_non_blank_col(line_content(doc@, target_line.0 as nat));
            r.0 == if current_col.0 == first {
                0
            } else {
                first
            }
        }),
{
    let first = first_non_whitespace_visual_col(doc, target_line);
    proof {
        lemma_first_non_blank_col(line_content(doc@, target_line.0 as nat), first.0 as int);
    }
    if current_col.0 == first.0 {
        VisualCol(0)
    } else {
        first
    }
}

/// Column of the first byte of `lc` that is not blank, or 0 when every byte is blank.
pub open spec fn first_non_blank_col(lc: Seq<u8>) -> int {
    if exists|k: int| 0 <= k < lc.len() && !is_blank_byte(lc[k]) {
        let k = choose|k: int|
            0 <= k < lc.len() && !is_blank_byte(lc[k]) && (forall|j: int|
                0 <= j < k ==> is_blank_byte(lc[j]));
        width(lc.take(k))
    } else {
        0
    }
}

pub proof fn lemma_first_non_blank_col(lc: Seq<u8>, c: int)
    requires
        ({
            ||| exists|k: int|
                #![trigger lc[k]]
                0 <= k < lc.len() && !is_blank_byte(lc[k]) && (forall|j: int|
                    0 <= j < k ==> is_blank_byte(lc[j])) && c == width(lc.take(k))
            ||| (forall|j: int| 0 <= j < lc.len() ==> is_blank_byte(lc[j])) && c == 0
        }),
    ensures
        c == first_non_blank_col(lc),
{
    if exists|k: int| 0 <= k < lc.len() && !is_blank_byte(lc[k]) {
        let k = choose|k: int|
            0 <= k < lc.len() && !is_blank_byte(lc[k]) && (forall|j: int|
                0 <= j < k ==> is_blank_byte(lc[j]));
        let k2 = choose|k2: int|
            #![trigger lc[k2]]
            0 <= k2 < lc.len() && !is_blank_byte(lc[k2]) && (forall|j: int|
                0 <= j < k2 ==> is_blank_byte(lc[j])) && c == width(lc.take(k2));
        if k < k2 {
            assert(is_blank_byte(lc[k]));
        }
        if k2 < k {
            assert(is_blank_byte(lc[k2]));
        }
    }
}


/// `r` is the column one character to the left of `cur` on a line with bytes `lc`: the
/// start column of the first character that reaches `cur`, or 0 when none does.
pub open spec fn left_step_col(lc: Seq<u8>, cur: int, r: int) -> bool {
    ||| exists|k: int|
        #![trigger lc[k]]
        0 <= k < lc.len() && cur <= width_through(lc, k) && (forall|j: int|
            0 <= j < k ==> cur > width_through(lc, j)) && r == width(lc.take(k))
    ||| (forall|j: int| 0 <= j < lc.len() ==> cur > width_through(lc, j)) && r == 0
}

/// `r` is the column one character to the right of `cur` on a line with bytes `lc`: the
/// end column of the first character that ends past `cur`, or the end of the line.
pub open spec fn right_step_col(lc: Seq<u8>, cur: int, r: int) -> bool {
    ||| exists|k: int|
        #![trigger lc[k]]
        0 <= k < lc.len() && cur < width_through(lc, k) && (forall|j: int|
            0 <= j < k ==> cur >= width_through(lc, j)) && r == width(lc.take(k + 1))
    ||| (forall|j: int| 0 <= j < lc.len() ==> cur >= width_through(lc, j)) && r == width(lc)
}

/// The column one character to the left of `current_col` on line `target_line`.
pub fn step_left_visual_col(doc: &[u8], target_line: DocLine, current_col: VisualCol) -> (r:
    VisualCol)
    requires
        small_doc(doc@),
    ensures
        left_step_col(line_content(doc@, target_line.0 as nat), current_col.0 as int, r.0 as int),
{
    let line = line_content_slice(doc, target_line);
    proof {
        lemma_line_content_len(doc@, target_line.0 as nat);
    }
    let mut col = VisualCol(0);
    let mut i: usize = 0;
    while i < line.len()
        invariant
            i <= line@.len(),
            4 * line@.len() <= u32::MAX,
            col.0 == width(line@.take(i as int)),
            forall|j: int| 0 <= j < i ==> current_col.0 > width_through(line@, j),
            line@ == line_content(doc@, target_line.0 as nat),
        decreases line@.len() - i,
    {
        let char_start = col;
        proof {
            lemma_width_step(line@, i as int);
            lemma_width_bound(line@.take(i as int));
        }
        advance_visual_col_only(&mut col, line[i]);
        if current_col.0 <= col.0 {
            assert(line@[i as int] == line[i as int]);
            return char_start;
        }
        i = i + 1;
    }
    VisualCol(0)
}

/// The column one character to the right of `current_col` on line `target_line`,
/// stopping at the end of the line.
pub fn step_right_visual_col(doc: &[u8], target_line: DocLine, current_col: VisualCol) -> (r:
    VisualCol)
    requires
        small_doc(doc@),
    ensures
        right_step_col(line_content(doc@, target_line.0 as nat), current_col.0 as int, r.0 as int),
{
    let line = line_content_slice(doc, target_line);
    proof {
        lemma_line_content_len(doc@, target_line.0 as nat);
    }
    let mut col = VisualCol(0);
    let mut i: usize = 0;
    while i < line.len()
        invariant
            i <= line@.len(),
            4 * line@.len() <= u32::MAX,
            col.0 == width(line@.take(i as int)),
            forall|j: int| 0 <= j < i ==> current_col.0 >= width_through(line@, j),
            line@ == line_content(doc@, target_line.0 as nat),
        decreases line@.len() - i,
    {
        proof {
            lemma_width_step(line@, i as int);
            lemma_width_bound(line@.take(i as int));
        }
        advance_visual_col_only(&mut col, line[i]);
        if current_col.0 < col.0 {
            assert(line@[i as int] == line[i as int]);
            return col;
        }
        i = i + 1;
    }
    proof {
        assert(line@.take(i as int) =~= line@);
    }
    col
}

/// Advances a (line, column) pair over one document byte.
pub fn advance_col(b: u8, line: &mut DocLine, col: &mut VisualCol)
    requires
        old(line).0 < u32::MAX,
        old(col).0 + TAB_SIZE <= u32::MAX,
    ensures
        b == NL ==> final(line).0 == old(line).0 + 1 && final(col).0 == 0,
        b == TAB ==> final(line).0 == old(line).0 && final(col).0 == old(col).0 + TAB_SIZE
            - old(col).0 % TAB_SIZE,
        b != NL && b != TAB ==> final(line).0 == old(line).0 && final(col).0 == old(col).0 + 1,
{
    if b == NL {
        line.0 = line.0 + 1;
        col.0 = 0;
    } else if b == TAB {
        col.0 = col.0 + (TAB_SIZE - (col.0 % TAB_SIZE));
    } else {
        col.0 = col.0 + 1;
    }
}


/// Line and column of byte `j` of `doc`.
pub open spec fn pos_of(doc: Seq<u8>, j: int) -> (nat, int) {
    line_col_after(doc.take(j))
}

/// Byte `j` is where a cursor aimed at (`line`, `col`) lands: the first byte of that
/// line at or past the column, or the newline that ends the line.
pub open spec fn lands_at(doc: Seq<u8>, j: int, line: nat, col: int) -> bool {
    pos_of(doc, j).0 == line && (pos_of(doc, j).1 >= col || doc[j] == NL)
}

/// Compute (line, col) from a global byte offset into raw document bytes.
pub fn line_col_from_byte_offset(doc: &[u8], byte_offset: DocByte) -> (r: (DocLine, VisualCol))
    requires
        small_doc(doc@),
    ensures
        ({
            let end = if byte_offset.0 < doc@.len() {
                byte_offset.0 as int
            } else {
                doc@.len() as int
            };
            r.0.0 == pos_of(doc@, end).0 && r.1.0 == pos_of(doc@, end).1
        }),
{
    let mut line = DocLine(0);
    let mut col = VisualCol(0);
    let mut i: usize = 0;
    while i < doc.len() && (i as u64) < byte_offset.0
        invariant
            i <= doc@.len(),
            small_doc(doc@),
            line.0 == pos_of(doc@, i as int).0,
            col.0 == pos_of(doc@, i as int).1,
            i as int <= byte_offset.0,
        decreases doc@.len() - i,
    {
        proof {
            lemma_line_col_step(doc@, i as int);
            lemma_line_col_bound(doc@.take(i as int));
        }
        advance_col(doc[i], &mut line, &mut col);
        i = i + 1;
    }
    (line, col)
}

/// Compute global byte offset from (line, col) in raw document bytes: the first byte
/// where a cursor aimed at that position lands, or the end of the document.
pub fn byte_offset_from_line_col(doc: &[u8], target_line: DocLine, target_col: VisualCol) -> (r:
    DocByte)
    requires
        small_doc(doc@),
    ensures
        r.0 <= doc@.len(),
        r.0 < doc@.len() ==> lands_at(doc@, r.0 as int, target_line.0 as nat, target_col.0 as int),
        forall|j: int|
            0 <= j < r.0 ==> !#[trigger] lands_at(
                doc@,
                j,
                target_line.0 as nat,
                target_col.0 as int,
            ),
{
    let mut line = DocLine(0);
    let mut col = VisualCol(0);
    let mut i: usize = 0;
    while i < doc.len()
        invariant
            i <= doc@.len(),
            small_doc(doc@),
            line.0 == pos_of(doc@, i as int).0,
            col.0 == pos_of(doc@, i as int).1,
            forall|j: int|
                0 <= j < i ==> !#[trigger] lands_at(
                    doc@,
                    j,
                    target_line.0 as nat,
                    target_col.0 as int,
                ),
        decreases doc@.len() - i,
    {
        if line.0 == target_line.0 && col.0 >= target_col.0 {
            return DocByte(i as u64);
        }
        let b = doc[i];
        if b == NL {
            if line.0 == target_line.0 {
                return DocByte(i as u64);
            }
        }
        proof {
            lemma_line_col_step(doc@, i as int);
            lemma_line_col_bound(doc@.take(i as int));
        }
        advance_col(b, &mut line, &mut col);
        i = i + 1;
    }
    DocByte(doc.len() as u64)
}

/// The line of byte `j` is never past the document's last line.
pub proof fn lemma_pos_line_bound(doc: Seq<u8>, j: int)
    requires
        0 <= j <= doc.len(),
    ensures
        pos_of(doc, j).0 == nl_count(doc.take(j)),
        pos_of(doc, j).0 <= nl_count(doc),
{
    lemma_line_col_is_nl_count(doc.take(j));
    lemma_nl_count_monotone(doc, j, doc.len() as int);
    lemma_nl_count_take_full(doc);
}

/// The line reached after some bytes is the number of newlines among them.
pub proof fn lemma_line_col_is_nl_count(s: Seq<u8>)
    ensures
        line_col_after(s).0 == nl_count(s),
    decreases s.len(),
{
    if s.len() > 0 {
        lemma_line_col_is_nl_count(s.drop_last());
    }
}

} // verus!
