use vstd::prelude::*;

use crate::coords::{DocByte, DocLine};
use crate::search::line_byte_range_spec;
use crate::lines::{
    first_non_blank_col, first_non_whitespace_visual_col, lemma_first_non_blank_col,
    lemma_line_content_len, line_byte_range, line_col_from_byte_offset, line_content,
    line_content_slice, line_start_pos, nl_count, pos_of, small_doc, TAB,
};

verus! {

/// Space, tab and carriage return: what a line may hold and still be blank.
pub open spec fn is_hblank(b: u8) -> bool {
    b == 32 || b == TAB || b == 13
}

/// The first index at or after `i` that is not blank, or the end.
pub open spec fn skip_hblank(s: Seq<u8>, i: int) -> int
    decreases s.len() - i,
{
    if 0 <= i < s.len() && is_hblank(s[i]) {
        skip_hblank(s, i + 1)
    } else {
        i
    }
}

/// Moving back from `j` (not below `lo`) over blanks.
pub open spec fn back_hblank(s: Seq<u8>, lo: int, j: int) -> int
    decreases j - lo,
{
    if j > lo && is_hblank(s[j - 1]) {
        back_hblank(s, lo, j - 1)
    } else {
        j
    }
}

/// `s` without leading and trailing spaces, tabs and carriage returns.
pub open spec fn trimmed_h(s: Seq<u8>) -> Seq<u8> {
    let lo = skip_hblank(s, 0);
    s.subrange(lo, back_hblank(s, lo, s.len() as int))
}

proof fn lemma_skip_hblank(s: Seq<u8>, i: int)
    requires
        0 <= i <= s.len(),
    ensures
        i <= skip_hblank(s, i) <= s.len(),
        forall|k: int| i <= k < skip_hblank(s, i) ==> is_hblank(s[k]),
        skip_hblank(s, i) < s.len() ==> !is_hblank(s[skip_hblank(s, i)]),
    decreases s.len() - i,
{
    if i < s.len() && is_hblank(s[i]) {
        lemma_skip_hblank(s, i + 1);
    }
}

proof fn lemma_back_hblank(s: Seq<u8>, lo: int, j: int)
    requires
        0 <= lo <= j <= s.len(),
    ensures
        lo <= back_hblank(s, lo, j) <= j,
        forall|k: int| back_hblank(s, lo, j) <= k < j ==> is_hblank(s[k]),
        back_hblank(s, lo, j) > lo ==> !is_hblank(s[back_hblank(s, lo, j) - 1]),
    decreases j - lo,
{
    if j > lo && is_hblank(s[j - 1]) {
        lemma_back_hblank(s, lo, j - 1);
    }
}

/// Drops leading and trailing spaces, tabs and carriage returns.
pub fn trim_horizontal_whitespace(bytes: &[u8]) -> (r: &[u8])
    ensures
        r@ == trimmed_h(bytes@),
{
    proof {
        lemma_skip_hblank(bytes@, 0);
    }
    let mut lo: usize = 0;
    while lo < bytes.len() && (bytes[lo] == 32 || bytes[lo] == TAB || bytes[lo] == 13)
        invariant
            lo <= bytes@.len(),
            skip_hblank(bytes@, lo as int) == skip_hblank(bytes@, 0),
        decreases bytes@.len() - lo,
    {
        lo = lo + 1;
    }
    proof {
        lemma_back_hblank(bytes@, lo as int, bytes@.len() as int);
    }
    let mut hi: usize = bytes.len();
    while hi > lo && (bytes[hi - 1] == 32 || bytes[hi - 1] == TAB || bytes[hi - 1] == 13)
        invariant
            lo <= hi <= bytes@.len(),
            back_hblank(bytes@, lo as int, hi as int) == back_hblank(
                bytes@,
                lo as int,
                bytes@.len() as int,
            ),
        decreases hi,
    {
        hi = hi - 1;
    }
    let r = &bytes[lo..hi];
    assert(r@ =~= trimmed_h(bytes@));
    r
}

/// Line `line` holds nothing but spaces, tabs and carriage returns.
#[verifier::opaque]
pub open spec fn blank_line(doc: Seq<u8>, line: nat) -> bool {
    forall|k: int|
        0 <= k < line_content(doc, line).len() ==> is_hblank(#[trigger] line_content(doc, line)[k])
}

/// Whether line `line` holds nothing but spaces, tabs and carriage returns.
pub fn is_blank_line(doc: &[u8], line: DocLine) -> (r: bool)
    requires
        doc@.len() <= u32::MAX,
    ensures
        r == blank_line(doc@, line.0 as nat),
{
    reveal(blank_line);
    let content = line_content_slice(doc, line);
    let mut k: usize = 0;
    while k < content.len()
        invariant
            k <= content@.len(),
            content@ == line_content(doc@, line.0 as nat),
            forall|j: int| 0 <= j < k ==> is_hblank(content@[j]),
        decreases content@.len() - k,
    {
        let b = content[k];
        if !(b == 32 || b == TAB || b == 13) {
            assert(!is_hblank(line_content(doc@, line.0 as nat)[k as int]));
            proof {
                reveal(blank_line);
            }
            return false;
        }
        k = k + 1;
    }
    true
}

/// Bytes that close a scope or end an item.
pub open spec fn is_closer(b: u8) -> bool {
    b == 125 || b == 41 || b == 93 || b == 59 || b == 44
}

/// Line `line` holds, between blanks, nothing but closing brackets, `;` and `,`, and at
/// least one of them.
#[verifier::opaque]
pub open spec fn closer_line(doc: Seq<u8>, line: nat) -> bool {
    let t = trimmed_h(line_content(doc, line));
    t.len() > 0 && forall|k: int| 0 <= k < t.len() ==> is_closer(#[trigger] t[k])
}

/// Whether line `line` closes a scope and does nothing else.
pub fn is_scope_closer_line(doc: &[u8], line: DocLine) -> (r: bool)
    requires
        doc@.len() <= u32::MAX,
    ensures
        r == closer_line(doc@, line.0 as nat),
{
    reveal(closer_line);
    let content = line_content_slice(doc, line);
    let t = trim_horizontal_whitespace(content);
    if t.len() == 0 {
        return false;
    }
    proof {
        reveal(closer_line);
    }
    let mut k: usize = 0;
    while k < t.len()
        invariant
            k <= t@.len(),
            t@ == trimmed_h(line_content(doc@, line.0 as nat)),
            forall|j: int| 0 <= j < k ==> is_closer(t@[j]),
        decreases t@.len() - k,
    {
        let b = t[k];
        if !(b == 125 || b == 41 || b == 93 || b == 59 || b == 44) {
            assert(!is_closer(t@[k as int]));
            proof {
                reveal(closer_line);
            }
            return false;
        }
        k = k + 1;
    }
    true
}

/// Document byte of the first byte of line `line` that is not blank, if any.
pub open spec fn first_significant(doc: Seq<u8>, line: nat) -> Option<int> {
    let lc = line_content(doc, line);
    let k = skip_hblank(lc, 0);
    if k < lc.len() {
        Some(line_start_pos(doc, line) + k)
    } else {
        None
    }
}

/// The document byte of the first byte of line `line` that is not blank, if any.
pub fn first_significant_byte_on_line(doc: &[u8], line: DocLine) -> (r: Option<usize>)
    requires
        doc@.len() <= u32::MAX,
    ensures
        r is Some <==> first_significant(doc@, line.0 as nat) is Some,
        r matches Some(x) ==> first_significant(doc@, line.0 as nat) == Some(x as int),
{
    let (line_start, _) = line_byte_range(doc, line, line);
    let content = line_content_slice(doc, line);
    proof {
        lemma_skip_hblank(content@, 0);
        lemma_line_content_len(doc@, line.0 as nat);
    }
    let mut k: usize = 0;
    while k < content.len() && (content[k] == 32 || content[k] == TAB || content[k] == 13)
        invariant
            k <= content@.len(),
            content@ == line_content(doc@, line.0 as nat),
            skip_hblank(content@, k as int) == skip_hblank(content@, 0),
        decreases content@.len() - k,
    {
        k = k + 1;
    }
    if k < content.len() {
        Some(line_start + k)
    } else {
        None
    }
}

proof fn lemma_trimmed_empty(s: Seq<u8>)
    ensures
        (trimmed_h(s).len() == 0) == (forall|k: int| 0 <= k < s.len() ==> is_hblank(#[trigger] s[k])),
{
    lemma_skip_hblank(s, 0);
    let lo = skip_hblank(s, 0);
    lemma_back_hblank(s, lo, s.len() as int);
    if lo < s.len() {
        assert(!is_hblank(s[lo]));
        if back_hblank(s, lo, s.len() as int) == lo {
            assert(is_hblank(s[lo]));
        }
    }
}

/// Moving back from line `line` while the line above is not blank: the first line of
/// the run of non-blank lines that ends just above `line`.
pub open spec fn run_top(doc: Seq<u8>, line: int) -> int
    decreases line,
{
    if line > 0 && !blank_line(doc, (line - 1) as nat) {
        run_top(doc, line - 1)
    } else {
        line
    }
}

/// Bracket depth after the bytes of `t`, from `depth`: `[` opens, `]` closes.
pub open spec fn bracket_depth(t: Seq<u8>, depth: int) -> int
    decreases t.len(),
{
    if t.len() == 0 {
        depth
    } else {
        let d = bracket_depth(t.drop_last(), depth);
        if t.last() == 91 {
            d + 1
        } else if t.last() == 93 {
            d - 1
        } else {
            d
        }
    }
}

/// `t` starts an attribute: `#[` or `#![`.
pub open spec fn starts_attribute(t: Seq<u8>) -> bool {
    (t.len() >= 2 && t[0] == 35 && t[1] == 91) || (t.len() >= 3 && t[0] == 35 && t[1] == 33 && t[2]
        == 91)
}

/// Reading lines `line..end` as a block of attributes with open brackets `depth`: the
/// depth after them, or `None` when a line outside brackets is not an attribute.
pub open spec fn attribute_scan(doc: Seq<u8>, line: int, end: int, depth: int) -> Option<int>
    decreases end - line,
{
    if line >= end || line < 0 {
        Some(depth)
    } else {
        let t = trimmed_h(line_content(doc, line as nat));
        if depth == 0 && !starts_attribute(t) {
            None
        } else {
            attribute_scan(doc, line + 1, end, bracket_depth(t, depth))
        }
    }
}

/// The line where the attributes right above `start` begin: the top of the run of
/// non-blank lines above it when that run is whole attributes (brackets balanced),
/// else `start` itself.
pub open spec fn attribute_block_start(doc: Seq<u8>, start: int) -> int {
    let top = run_top(doc, start);
    if start == 0 || top == start {
        start
    } else {
        match attribute_scan(doc, top, start, 0) {
            Some(d) => if d == 0 {
                top
            } else {
                start
            },
            None => start,
        }
    }
}

proof fn lemma_run_top_range(doc: Seq<u8>, line: int)
    requires
        line >= 0,
    ensures
        0 <= run_top(doc, line) <= line,
    decreases line,
{
    if line > 0 && !blank_line(doc, (line - 1) as nat) {
        lemma_run_top_range(doc, line - 1);
    }
}

proof fn lemma_bracket_depth_bound(t: Seq<u8>, depth: int)
    ensures
        depth - t.len() <= bracket_depth(t, depth) <= depth + t.len(),
    decreases t.len(),
{
    if t.len() > 0 {
        lemma_bracket_depth_bound(t.drop_last(), depth);
    }
}

/// The line where the attributes right above `start_line` begin (`#[...]` or `#![...]`
/// lines, brackets balanced, up to a blank line), or `start_line` when there are none.
pub fn preceding_attribute_block_start_line(bytes: &[u8], start_line: DocLine) -> (r: DocLine)
    requires
        small_doc(bytes@),
    ensures
        r.0 == attribute_block_start(bytes@, start_line.0 as int),
{
    if start_line.0 == 0 {
        return start_line;
    }
    let mut top = start_line.0;
    while top > 0 && !is_blank_line(bytes, DocLine(top - 1))
        invariant
            small_doc(bytes@),
            top <= start_line.0,
            run_top(bytes@, top as int) == run_top(bytes@, start_line.0 as int),
        decreases top,
    {
        top = top - 1;
    }
    proof {
        lemma_run_top_range(bytes@, start_line.0 as int);
    }
    if top == start_line.0 {
        return start_line;
    }
    let mut depth: i64 = 0;
    let mut line = top;
    while line < start_line.0
        invariant
            small_doc(bytes@),
            top <= line <= start_line.0,
            top < start_line.0,
            top == run_top(bytes@, start_line.0 as int),
            -(line - top) * 0x4000_0000 <= depth <= (line - top) * 0x4000_0000,
            attribute_scan(bytes@, line as int, start_line.0 as int, depth as int)
                == attribute_scan(bytes@, top as int, start_line.0 as int, 0),
        decreases start_line.0 - line,
    {
        let content = line_content_slice(bytes, DocLine(line));
        let t = trim_horizontal_whitespace(content);
        let starts_attr = (t.len() >= 2 && t[0] == 35 && t[1] == 91) || (t.len() >= 3 && t[0] == 35
            && t[1] == 33 && t[2] == 91);
        if depth == 0 && !starts_attr {
            return start_line;
        }
        proof {
            lemma_line_content_len(bytes@, line as nat);
            lemma_skip_hblank(content@, 0);
            lemma_back_hblank(content@, skip_hblank(content@, 0), content@.len() as int);
            assert(t@.len() <= 0x3fff_ffff);
        }
        let ghost d0 = depth as int;
        let mut k: usize = 0;
        while k < t.len()
            invariant
                k <= t@.len(),
                t@.len() <= 0x3fff_ffff,
                depth as int == bracket_depth(t@.take(k as int), d0),
                d0 - k <= depth <= d0 + k,
                -(line - top) * 0x4000_0000 <= d0 <= (line - top) * 0x4000_0000,
                line - top < 0x1_0000_0000,
            decreases t@.len() - k,
        {
            proof {
                assert(t@.take(k + 1).drop_last() =~= t@.take(k as int));
            }
            if t[k] == 91 {
                depth = depth + 1;
            } else if t[k] == 93 {
                depth = depth - 1;
            }
            k = k + 1;
        }
        proof {
            assert(t@.take(k as int) =~= t@);
        }
        line = line + 1;
    }
    if depth == 0 {
        DocLine(top)
    } else {
        start_line
    }
}

/// Searching up from the line above `line` for a line that is neither blank nor a
/// scope closer: its first non-blank byte.
pub open spec fn anchor_search(doc: Seq<u8>, line: int) -> Option<int>
    decreases line,
{
    if line <= 0 {
        None
    } else {
        let l = (line - 1) as nat;
        if blank_line(doc, l) || closer_line(doc, l) {
            anchor_search(doc, line - 1)
        } else {
            match first_significant(doc, l) {
                Some(a) => Some(a),
                None => anchor_search(doc, line - 1),
            }
        }
    }
}

/// Where a fold is looked for from the cursor at byte `cursor`: the cursor (kept inside
/// the text) when its line has content, else the first non-blank byte of the nearest
/// line above that has content other than closers.
pub open spec fn fold_anchor(doc: Seq<u8>, cursor: int) -> int {
    if doc.len() == 0 {
        0
    } else {
        let clamped = if cursor < doc.len() - 1 {
            cursor
        } else {
            doc.len() - 1
        };
        let line = pos_of(doc, clamped).0;
        if !blank_line(doc, line) && !closer_line(doc, line) {
            clamped
        } else {
            match anchor_search(doc, line as int) {
                Some(a) => a,
                None => clamped,
            }
        }
    }
}

/// The byte at which to look for a fold around the cursor at `cursor_local_byte`.
pub fn fold_anchor_offset(bytes: &[u8], cursor_local_byte: usize) -> (r: usize)
    requires
        small_doc(bytes@),
    ensures
        r == fold_anchor(bytes@, cursor_local_byte as int),
{
    if bytes.len() == 0 {
        return 0;
    }
    let clamped = if cursor_local_byte < bytes.len() - 1 {
        cursor_local_byte
    } else {
        bytes.len() - 1
    };
    let (current_line, _) = line_col_from_byte_offset(bytes, DocByte(clamped as u64));
    if !is_blank_line(bytes, current_line) && !is_scope_closer_line(bytes, current_line) {
        return clamped;
    }
    let mut search_line = current_line.0;
    let ghost goal = fold_anchor(bytes@, cursor_local_byte as int);
    assert(goal == match anchor_search(bytes@, current_line.0 as int) {
        Some(a) => a,
        None => clamped as int,
    });
    while search_line > 0
        invariant
            small_doc(bytes@),
            goal == fold_anchor(bytes@, cursor_local_byte as int),
            goal == match anchor_search(bytes@, search_line as int) {
                Some(a) => a,
                None => clamped as int,
            },
        decreases search_line,
    {
        search_line = search_line - 1;
        let line = DocLine(search_line);
        if is_blank_line(bytes, line) || is_scope_closer_line(bytes, line) {
            continue;
        }
        proof {
            crate::lines::lemma_line_start_pos_range(bytes@, search_line as nat);
            lemma_line_content_len(bytes@, search_line as nat);
        }
        match first_significant_byte_on_line(bytes, line) {
            Some(anchor) => {
                assert(anchor_search(bytes@, search_line + 1) == first_significant(bytes@, search_line as nat));
                assert(first_significant(bytes@, search_line as nat) == Some(anchor as int));
                return anchor;
            },
            None => {},
        }
    }
    clamped
}

/// Indentation column of line `line`: the column of its first byte that is not a space
/// or a tab.
#[verifier::opaque]
pub open spec fn indent_of(doc: Seq<u8>, line: nat) -> int {
    first_non_blank_col(line_content(doc, line))
}

/// Moving up from line `line` over blank lines.
pub open spec fn skip_blank_lines_up(doc: Seq<u8>, line: int) -> int
    decreases line,
{
    if line > 0 && blank_line(doc, line as nat) {
        skip_blank_lines_up(doc, line - 1)
    } else {
        line
    }
}

/// Scanning lines `line..=total` below a line of indentation `base`: blank lines join
/// the block once an indented line has, indented lines join it, the first other line
/// ends it. Whether an indented line was seen, and the last line of the block.
pub open spec fn indent_block(
    doc: Seq<u8>,
    line: int,
    total: int,
    base: int,
    saw: bool,
    end: int,
) -> (bool, int)
    decreases total + 1 - line,
{
    if line > total || line < 0 {
        (saw, end)
    } else if blank_line(doc, line as nat) {
        indent_block(
            doc,
            line + 1,
            total,
            base,
            saw,
            if saw {
                line
            } else {
                end
            },
        )
    } else if indent_of(doc, line as nat) > base {
        indent_block(doc, line + 1, total, base, true, line)
    } else {
        (saw, end)
    }
}

/// The block folded by indentation around `cursor_line`: from the nearest non-blank
/// line at or above it, through the lines indented deeper below it; `None` when there
/// are none.
pub open spec fn indent_fold(doc: Seq<u8>, cursor_line: u32) -> Option<(usize, usize)> {
    let total = nl_count(doc) as int;
    let start = skip_blank_lines_up(
        doc,
        if cursor_line < total {
            cursor_line as int
        } else {
            total
        },
    );
    if blank_line(doc, start as nat) {
        None
    } else {
        let (saw, end) = indent_block(doc, start + 1, total, indent_of(doc, start as nat), false, start);
        if !saw || end == start {
            None
        } else {
            Some(line_byte_range_spec(doc, start as u32, end as u32))
        }
    }
}

proof fn lemma_skip_blank_lines_up(doc: Seq<u8>, line: int)
    requires
        line >= 0,
    ensures
        0 <= skip_blank_lines_up(doc, line) <= line,
    decreases line,
{
    if line > 0 && blank_line(doc, line as nat) {
        lemma_skip_blank_lines_up(doc, line - 1);
    }
}

proof fn lemma_indent_block_range(doc: Seq<u8>, line: int, total: int, base: int, saw: bool, end: int)
    requires
        0 <= end < line,
    ensures
        end <= indent_block(doc, line, total, base, saw, end).1,
        indent_block(doc, line, total, base, saw, end).1 <= if end > total {
            end
        } else {
            total
        },
        indent_block(doc, line, total, base, saw, end).1 < line || indent_block(
            doc,
            line,
            total,
            base,
            saw,
            end,
        ).1 <= total,
    decreases total + 1 - line,
{
    if !(line > total || line < 0) {
        if blank_line(doc, line as nat) {
            lemma_indent_block_range(
                doc,
                line + 1,
                total,
                base,
                saw,
                if saw {
                    line
                } else {
                    end
                },
            );
        } else if indent_of(doc, line as nat) > base {
            lemma_indent_block_range(doc, line + 1, total, base, true, line);
        }
    }
}

/// Scans the lines below `start` (of indentation `base`) for the block they indent.
fn indent_block_exec(bytes: &[u8], start: u32, total: u32, base: u32) -> (r: (bool, u32))
    requires
        small_doc(bytes@),
        start <= total,
        total == nl_count(bytes@),
    ensures
        (r.0, r.1 as int) == indent_block(bytes@, start + 1, total as int, base as int, false, start as int),
        start <= r.1 <= total,
{
    proof {
        crate::lines::lemma_nl_count_bound(bytes@);
        lemma_indent_block_range(bytes@, start + 1, total as int, base as int, false, start as int);
    }
    let ghost goal = indent_block(bytes@, start + 1, total as int, base as int, false, start as int);
    let mut end_line = start;
    let mut saw = false;
    let mut line = start + 1;
    let mut done = false;
    while line <= total && !done
        invariant
            small_doc(bytes@),
            start < line <= total + 1,
            total == nl_count(bytes@),
            total < 0x4000_0000,
            start <= end_line < line,
            end_line <= total,
            goal == indent_block(bytes@, start + 1, total as int, base as int, false, start as int),
            !done ==> indent_block(bytes@, line as int, total as int, base as int, saw, end_line as int)
                == goal,
            done ==> (saw, end_line as int) == goal,
        decreases (total + 1 - line) * 2 + if done {
            0int
        } else {
            1int
        },
    {
        if is_blank_line(bytes, DocLine(line)) {
            if saw {
                end_line = line;
            }
            line = line + 1;
        } else {
            let indent = first_non_whitespace_visual_col(bytes, DocLine(line));
            proof {
                lemma_first_non_blank_col(line_content(bytes@, line as nat), indent.0 as int);
                reveal(indent_of);
            }
            if indent.0 > base {
                saw = true;
                end_line = line;
                line = line + 1;
            } else {
                done = true;
            }
        }
    }
    (saw, end_line)
}

/// The byte range of the block folded by indentation around `cursor_line`, if any.
pub fn find_indentation_fold_range(bytes: &[u8], cursor_line: DocLine) -> (r: Option<(usize, usize)>)
    requires
        small_doc(bytes@),
    ensures
        r == indent_fold(bytes@, cursor_line.0),
{
    let total_count = crate::minimap::count_newlines(bytes);
    proof {
        crate::lines::lemma_nl_count_bound(bytes@);
    }
    let total = total_count as u32;
    let mut start = if cursor_line.0 < total {
        cursor_line.0
    } else {
        total
    };
    while start > 0 && is_blank_line(bytes, DocLine(start))
        invariant
            small_doc(bytes@),
            start <= total,
            total == nl_count(bytes@),
            skip_blank_lines_up(bytes@, start as int) == skip_blank_lines_up(
                bytes@,
                if cursor_line.0 < total {
                    cursor_line.0 as int
                } else {
                    total as int
                },
            ),
        decreases start,
    {
        start = start - 1;
    }
    if is_blank_line(bytes, DocLine(start)) {
        return None;
    }
    let base_col = first_non_whitespace_visual_col(bytes, DocLine(start));
    proof {
        lemma_first_non_blank_col(line_content(bytes@, start as nat), base_col.0 as int);
        reveal(indent_of);
    }
    let base = base_col.0;
    let (saw_nested_line, end_line) = indent_block_exec(bytes, start, total, base);
    if !saw_nested_line || end_line == start {
        return None;
    }
    Some(line_byte_range(bytes, DocLine(start), DocLine(end_line)))
}

} // verus!
