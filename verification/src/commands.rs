use vstd::prelude::*;

use crate::coords::{CursorPosition, DocByte, DocLine};
use crate::selection::VisualKind;
use crate::text::char_table;

verus! {

/// The editing mode the editor is in.
#[derive(Debug, Clone, Copy, PartialEq, Eq, Structural)]
pub enum EditorMode {
    Normal,
    Insert,
    Command,
    Search,
    Confirm,
    Visual { anchor: DocByte, kind: VisualKind },
}

/// An answer to a substitution confirmation prompt.
#[derive(Debug, Clone, Copy, PartialEq, Eq, Structural)]
pub enum ConfirmAction {
    Yes,
    No,
    All,
    Quit,
}

/// A cursor motion.
#[derive(Debug, Clone, Copy, PartialEq, Eq, Structural)]
pub enum MoveDirection {
    Up,
    Down,
    Left,
    Right,
    NextWord,
    PrevWord,
    NextWordEnd,
    Top,
    Bottom,
}

/// The lines a substitution applies to.
#[derive(Debug, Clone, Copy, PartialEq, Eq, Structural)]
pub enum SubstituteRange {
    WholeFile,
    CurrentLine,
    SingleLine(DocLine),
    LineRange(DocLine, DocLine),
}

/// The flags after a substitution: `g`, `c`, and `i`/`I`.
#[derive(Debug, Clone, Copy, PartialEq, Eq, Structural)]
pub struct SubstituteFlags {
    pub global: bool,
    pub confirm: bool,
    pub case_insensitive: bool,
}

impl Default for SubstituteFlags {
    fn default() -> (r: Self)
        ensures
            !r.global && !r.confirm && !r.case_insensitive,
    {
        SubstituteFlags { global: false, confirm: false, case_insensitive: false }
    }
}

/// A request from the user interface to the editor engine.
#[derive(Debug)]
pub enum EditorCommand {
    InsertChar(char),
    Backspace,
    Delete,
    Resize(u16, u16),
    Scroll(i32),
    ScrollViewport(i32),
    MoveCursor(MoveDirection),
    ClickCursor(CursorPosition),
    GotoLine(DocLine),
    LineStart,
    FirstNonWhitespace,
    LineEnd,
    SmartHome,
    PageUp,
    PageDown,
    DeleteInnerWord,
    ChangeInnerWord,
    DeleteToLineEnd,
    SetVisualSelection { anchor: DocByte, kind: VisualKind },
    ClearVisualSelection,
    VisualYank { anchor: DocByte, kind: VisualKind },
    VisualDelete { anchor: DocByte, kind: VisualKind },
    VisualChange { anchor: DocByte, kind: VisualKind },
    LoadFile(String),
    WriteFile,
    WriteFileAs(String),
    WriteAndQuit,
    SetTheme(String),
    ToggleWrap,
    SetWrap(bool),
    SearchStart(String),
    SearchNext,
    SearchPrev,
    SubstituteAll {
        pattern: String,
        replacement: String,
        range: SubstituteRange,
        flags: SubstituteFlags,
    },
    SubstituteConfirm {
        pattern: String,
        replacement: String,
        range: SubstituteRange,
        flags: SubstituteFlags,
    },
    ConfirmResponse(ConfirmAction),
    YankLine { register: char },
    Put { register: char },
    Undo,
    Redo,
    ClearFlash,
    InternalRefresh,
    Quit,
}

/// Value of a char that is an ASCII digit.
pub open spec fn digit_value(c: char) -> int {
    (c as u32) - ('0' as u32)
}

/// Whether `c` is an ASCII digit.
pub open spec fn is_digit(c: char) -> bool {
    '0' <= c && c <= '9'
}

/// Decimal value of a run of digits.
pub open spec fn digits_value(s: Seq<char>) -> int
    decreases s.len(),
{
    if s.len() == 0 {
        0
    } else {
        digits_value(s.drop_last()) * 10 + digit_value(s.last())
    }
}

/// `s` without one leading `+`.
pub open spec fn strip_plus(s: Seq<char>) -> Seq<char> {
    if s.len() > 0 && s[0] == '+' {
        s.drop_first()
    } else {
        s
    }
}

/// One or more digits whose value fits in a `u32`.
pub open spec fn parse_digits_u32(t: Seq<char>) -> Option<u32> {
    if t.len() > 0 && (forall|i: int| 0 <= i < t.len() ==> is_digit(#[trigger] t[i]))
        && digits_value(t) <= u32::MAX {
        Some(digits_value(t) as u32)
    } else {
        None
    }
}

/// `str::parse::<u32>`: an optional `+`, then one or more digits, with a value that fits.
pub open spec fn parse_u32_spec(s: Seq<char>) -> Option<u32> {
    parse_digits_u32(strip_plus(s))
}

proof fn lemma_digits_value_grows(s: Seq<char>, k: int)
    requires
        0 <= k <= s.len(),
        forall|i: int| 0 <= i < s.len() ==> is_digit(#[trigger] s[i]),
    ensures
        digits_value(s.take(k)) <= digits_value(s),
        digits_value(s.take(k)) >= 0,
    decreases s.len() - k,
{
    if k < s.len() {
        assert(s.take(k + 1).drop_last() =~= s.take(k));
        lemma_digits_value_grows(s, k + 1);
        lemma_digits_nonneg(s.take(k));
    } else {
        assert(s.take(k) =~= s);
        lemma_digits_nonneg(s);
    }
}

proof fn lemma_digits_nonneg(s: Seq<char>)
    requires
        forall|i: int| 0 <= i < s.len() ==> is_digit(#[trigger] s[i]),
    ensures
        digits_value(s) >= 0,
    decreases s.len(),
{
    if s.len() > 0 {
        lemma_digits_nonneg(s.drop_last());
    }
}

/// Parses chars `from..to` of `cs` as a `u32`, as `str::parse::<u32>` does.
pub(crate) fn parse_u32_chars(cs: &Vec<char>, from: usize, to: usize) -> (r: Option<u32>)
    requires
        from <= to <= cs@.len(),
    ensures
        r == parse_u32_spec(cs@.subrange(from as int, to as int)),
{
    let ghost s = cs@.subrange(from as int, to as int);
    let mut i = from;
    if i < to && cs[i] == '+' {
        i = i + 1;
    }
    let ghost t = cs@.subrange(i as int, to as int);
    proof {
        if from < to && cs@[from as int] == '+' {
            assert(t =~= s.drop_first());
        } else {
            assert(t =~= s);
        }
    }
    if i >= to {
        return None;
    }
    let start = i;
    let mut value: u64 = 0;
    while i < to
        invariant
            start <= i <= to <= cs@.len(),
            t == cs@.subrange(start as int, to as int),
            s == cs@.subrange(from as int, to as int),
            t == strip_plus(s),
            t.len() > 0,
            forall|k: int| start <= k < i ==> is_digit(#[trigger] cs@[k]),
            value == digits_value(cs@.subrange(start as int, i as int)),
            value <= u32::MAX,
        decreases to - i,
    {
        let c = cs[i];
        if !('0' <= c && c <= '9') {
            proof {
                assert(!is_digit(t[i - start]));
                assert(parse_digits_u32(t) is None);
            }
            return None;
        }
        let d = (c as u32 - '0' as u32) as u64;
        proof {
            assert(cs@.subrange(start as int, i + 1).drop_last() =~= cs@.subrange(
                start as int,
                i as int,
            ));
        }
        let next = value * 10 + d;
        if next > 0xffff_ffff {
            proof {
                let p = cs@.subrange(start as int, i + 1);
                assert(digits_value(p) == next);
                if forall|k: int| 0 <= k < t.len() ==> is_digit(#[trigger] t[k]) {
                    assert(t.take(i + 1 - start) =~= p);
                    lemma_digits_value_grows(t, i + 1 - start);
                }
                assert(parse_digits_u32(t) is None);
            }
            return None;
        }
        value = next;
        i = i + 1;
    }
    proof {
        assert(cs@.subrange(start as int, i as int) =~= t);
        assert forall|k: int| 0 <= k < t.len() implies is_digit(#[trigger] t[k]) by {
            assert(t[k] == cs@[start + k]);
        }
    }
    Some(value as u32)
}

/// First index at or after `i` where `cs` holds `c`.
pub open spec fn index_of_from(cs: Seq<char>, c: char, i: int) -> Option<int>
    decreases cs.len() - i,
{
    if i < 0 || i >= cs.len() {
        None
    } else if cs[i] == c {
        Some(i)
    } else {
        index_of_from(cs, c, i + 1)
    }
}

/// First index at or after `i` where `s/` starts.
pub open spec fn substitute_marker_from(cs: Seq<char>, i: int) -> Option<int>
    decreases cs.len() - i,
{
    if i < 0 || i + 1 >= cs.len() {
        None
    } else if cs[i] == 's' && cs[i + 1] == '/' {
        Some(i)
    } else {
        substitute_marker_from(cs, i + 1)
    }
}

/// `n - 1`, stopping at 0.
pub open spec fn line_from_number(n: u32) -> DocLine {
    DocLine(if n == 0 {
        0
    } else {
        (n - 1) as u32
    })
}

/// The lines named before `s/`: `%` for the whole file, nothing or `.` for the cursor
/// line, `.,+N` for the cursor line and the N after it, `A,B` for lines A to B, or a
/// single line number (line numbers count from 1).
pub open spec fn substitute_range_spec(r: Seq<char>, cursor_line: u32) -> Option<SubstituteRange> {
    if r == seq!['%'] {
        Some(SubstituteRange::WholeFile)
    } else if r.len() == 0 || r == seq!['.'] {
        Some(SubstituteRange::CurrentLine)
    } else if r.len() >= 3 && r[0] == '.' && r[1] == ',' && r[2] == '+' {
        match parse_u32_spec(r.skip(3)) {
            Some(n) => Some(
                SubstituteRange::LineRange(DocLine(cursor_line), DocLine((cursor_line + n) as u32)),
            ),
            None => None,
        }
    } else {
        match index_of_from(r, ',', 0) {
            Some(c) => match (parse_u32_spec(r.take(c)), parse_u32_spec(r.skip(c + 1))) {
                (Some(a), Some(b)) => Some(
                    SubstituteRange::LineRange(line_from_number(a), line_from_number(b)),
                ),
                _ => None,
            },
            None => match parse_u32_spec(r) {
                Some(n) => Some(SubstituteRange::SingleLine(line_from_number(n))),
                None => None,
            },
        }
    }
}

/// Line `v` counted from 1, as a line counted from 0 (line 0 stays line 0).
pub open spec fn zero_based(v: int) -> u32 {
    if v <= 0 {
        0
    } else {
        (v - 1) as u32
    }
}

proof fn lemma_no_char_found(cs: Seq<char>, c: char)
    requires
        forall|k: int| 0 <= k < cs.len() ==> cs[k] != c,
    ensures
        index_of_from(cs, c, 0) is None,
{
    lemma_index_of_from(cs, c, 0, cs.len() as int);
}

/// A line number `a` typed at the command line names line `a - 1`, and a range `a,b`
/// names the lines that `a` and `b` name on their own: both ends are converted from
/// line numbers counted from 1 in the same way.
pub proof fn range_ends_count_like_single_lines(a: Seq<char>, b: Seq<char>, cursor_line: u32)
    requires
        a.len() > 0 && b.len() > 0,
        forall|i: int| 0 <= i < a.len() ==> is_digit(#[trigger] a[i]),
        forall|i: int| 0 <= i < b.len() ==> is_digit(#[trigger] b[i]),
        digits_value(a) <= u32::MAX && digits_value(b) <= u32::MAX,
    ensures
        substitute_range_spec(a, cursor_line) == Some(
            SubstituteRange::SingleLine(DocLine(zero_based(digits_value(a)))),
        ),
        substitute_range_spec(b, cursor_line) == Some(
            SubstituteRange::SingleLine(DocLine(zero_based(digits_value(b)))),
        ),
        substitute_range_spec(a + seq![','] + b, cursor_line) == Some(
            SubstituteRange::LineRange(
                DocLine(zero_based(digits_value(a))),
                DocLine(zero_based(digits_value(b))),
            ),
        ),
{
    let r = a + seq![','] + b;
    lemma_digits_nonneg(a);
    lemma_digits_nonneg(b);
    lemma_no_char_found(a, ',');
    lemma_no_char_found(b, ',');
    assert(a[0] != '.' && a[0] != '%' && a[0] != ',');
    assert(b[0] != '.' && b[0] != '%' && b[0] != ',');
    assert(a != seq!['%'] && a != seq!['.']);
    assert(b != seq!['%'] && b != seq!['.']);
    assert(strip_plus(a) == a);
    assert(strip_plus(b) == b);
    assert forall|k: int| 0 <= k < a.len() implies r[k] != ',' by {
        assert(r[k] == a[k]);
    }
    lemma_index_of_from(r, ',', 0, a.len() as int);
    assert(r[a.len() as int] == ',');
    assert(r.take(a.len() as int) =~= a);
    assert(r.skip(a.len() as int + 1) =~= b);
    assert(r[0] == a[0]);
    assert(r != seq!['%'] && r != seq!['.']);
}

/// The flags that the chars of `f` set, read left to right.
pub open spec fn substitute_flags_spec(f: Seq<char>) -> SubstituteFlags
    decreases f.len(),
{
    if f.len() == 0 {
        SubstituteFlags { global: false, confirm: false, case_insensitive: false }
    } else {
        let prev = substitute_flags_spec(f.drop_last());
        let c = f.last();
        if c == 'g' {
            SubstituteFlags { global: true, ..prev }
        } else if c == 'c' {
            SubstituteFlags { confirm: true, ..prev }
        } else if c == 'i' {
            SubstituteFlags { case_insensitive: true, ..prev }
        } else if c == 'I' {
            SubstituteFlags { case_insensitive: false, ..prev }
        } else {
            prev
        }
    }
}

/// The flags of a substitution: `g` anywhere makes it global, `c` anywhere makes it
/// ask for confirmation, and it ignores case when some `i` comes after every `I`.
pub proof fn substitute_flags_read_each_letter(f: Seq<char>)
    ensures
        substitute_flags_spec(f).global <==> f.contains('g'),
        substitute_flags_spec(f).confirm <==> f.contains('c'),
        substitute_flags_spec(f).case_insensitive <==> exists|k: int|
            0 <= k < f.len() && f[k] == 'i' && forall|m: int| k < m < f.len() ==> #[trigger] f[m] != 'I',
    decreases f.len(),
{
    if f.len() > 0 {
        let p = f.drop_last();
        substitute_flags_read_each_letter(p);
        let n = f.len() - 1;
        assert forall|k: int| 0 <= k < n implies #[trigger] f[k] == p[k] by {}
        if p.contains('g') {
            let k = choose|k: int| 0 <= k < p.len() && p[k] == 'g';
            assert(f[k] == 'g');
        }
        if f.contains('g') && f.last() != 'g' {
            let k = choose|k: int| 0 <= k < f.len() && f[k] == 'g';
            assert(p[k] == 'g');
        }
        if f.last() == 'g' {
            assert(f[n] == 'g');
        }
        if p.contains('c') {
            let k = choose|k: int| 0 <= k < p.len() && p[k] == 'c';
            assert(f[k] == 'c');
        }
        if f.contains('c') && f.last() != 'c' {
            let k = choose|k: int| 0 <= k < f.len() && f[k] == 'c';
            assert(p[k] == 'c');
        }
        if f.last() == 'c' {
            assert(f[n] == 'c');
        }
        let ci = substitute_flags_spec(f).case_insensitive;
        if f.last() == 'i' {
            assert(0 <= n < f.len() && f[n] == 'i' && forall|m: int| n < m < f.len() ==> #[trigger] f[m] != 'I');
        } else if f.last() == 'I' {
            if exists|k: int| 0 <= k < f.len() && f[k] == 'i' && forall|m: int| k < m < f.len() ==> #[trigger] f[m] != 'I' {
                let k = choose|k: int| 0 <= k < f.len() && f[k] == 'i' && forall|m: int| k < m < f.len() ==> #[trigger] f[m] != 'I';
                assert(k < n);
                assert(f[n] != 'I');
            }
        } else {
            if exists|k: int| 0 <= k < p.len() && p[k] == 'i' && forall|m: int| k < m < p.len() ==> #[trigger] p[m] != 'I' {
                let k = choose|k: int| 0 <= k < p.len() && p[k] == 'i' && forall|m: int| k < m < p.len() ==> #[trigger] p[m] != 'I';
                assert(f[k] == 'i');
                assert forall|m: int| k < m < f.len() implies #[trigger] f[m] != 'I' by {
                    if m < n {
                        assert(f[m] == p[m]);
                    }
                }
            }
            if exists|k: int| 0 <= k < f.len() && f[k] == 'i' && forall|m: int| k < m < f.len() ==> #[trigger] f[m] != 'I' {
                let k = choose|k: int| 0 <= k < f.len() && f[k] == 'i' && forall|m: int| k < m < f.len() ==> #[trigger] f[m] != 'I';
                assert(k < n);
                assert(p[k] == 'i');
                assert forall|m: int| k < m < p.len() implies #[trigger] p[m] != 'I' by {
                    assert(f[m] == p[m]);
                }
            }
        }
    }
}

/// The parts of `RANGEs/PATTERN/REPLACEMENT/FLAGS`: pattern, replacement, flags and
/// range; `None` when there is no `s/`, the range is malformed, the second `/` is
/// missing or the pattern is empty.
pub open spec fn substitute_spec(cmd: Seq<char>, cursor_line: u32) -> Option<
    (Seq<char>, Seq<char>, SubstituteFlags, SubstituteRange),
> {
    match substitute_marker_from(cmd, 0) {
        None => None,
        Some(s) => {
            let rest = cmd.skip(s + 2);
            match substitute_range_spec(cmd.take(s), cursor_line) {
                None => None,
                Some(range) => match index_of_from(rest, '/', 0) {
                    None => None,
                    Some(p1) => {
                        let pattern = rest.take(p1);
                        let after = rest.skip(p1 + 1);
                        let (replacement, flags) = match index_of_from(after, '/', 0) {
                            Some(p2) => (after.take(p2), after.skip(p2 + 1)),
                            None => (after, Seq::<char>::empty()),
                        };
                        if pattern.len() == 0 {
                            None
                        } else {
                            Some((pattern, replacement, substitute_flags_spec(flags), range))
                        }
                    },
                },
            }
        },
    }
}

/// Whether the range of `cmd` is `.,+N` with a line past the largest line number.
pub open spec fn substitute_offset_overflows(cmd: Seq<char>, cursor_line: u32) -> bool {
    match substitute_marker_from(cmd, 0) {
        None => false,
        Some(s) => {
            let r = cmd.take(s);
            r != seq!['%'] && r != seq!['.'] && r.len() >= 3 && r[0] == '.' && r[1] == ','
                && r[2] == '+' && match parse_u32_spec(r.skip(3)) {
                Some(n) => cursor_line + n > u32::MAX,
                None => false,
            }
        },
    }
}

proof fn lemma_index_of_from(cs: Seq<char>, c: char, i: int, j: int)
    requires
        0 <= i <= j <= cs.len(),
        forall|k: int| i <= k < j ==> cs[k] != c,
    ensures
        index_of_from(cs, c, i) == index_of_from(cs, c, j),
    decreases j - i,
{
    if i < j {
        lemma_index_of_from(cs, c, i + 1, j);
    }
}

/// First index in `from..to` where `cs` holds `c`, or `to`.
fn find_char(cs: &Vec<char>, c: char, from: usize, to: usize) -> (r: usize)
    requires
        from <= to <= cs@.len(),
    ensures
        from <= r <= to,
        forall|k: int| from <= k < r ==> cs@[k] != c,
        r < to ==> cs@[r as int] == c,
{
    let mut i = from;
    while i < to && cs[i] != c
        invariant
            from <= i <= to <= cs@.len(),
            forall|k: int| from <= k < i ==> cs@[k] != c,
        decreases to - i,
    {
        i = i + 1;
    }
    i
}

/// Parses the range part `cs[0..end]` of a substitution.
fn parse_substitute_range(cs: &Vec<char>, end: usize, cursor_line: DocLine) -> (r: Option<
    SubstituteRange,
>)
    requires
        end <= cs@.len(),
        !(cs@.take(end as int) != seq!['%'] && cs@.take(end as int) != seq!['.'] && end >= 3
            && cs@[0] == '.' && cs@[1] == ',' && cs@[2] == '+' && match parse_u32_spec(
            cs@.take(end as int).skip(3),
        ) {
            Some(n) => cursor_line.0 + n > u32::MAX,
            None => false,
        }),
    ensures
        r == substitute_range_spec(cs@.take(end as int), cursor_line.0),
{
    let ghost r = cs@.take(end as int);
    if end == 1 && cs[0] == '%' {
        assert(r =~= seq!['%']);
        return Some(SubstituteRange::WholeFile);
    }
    if end == 0 || (end == 1 && cs[0] == '.') {
        assert(end == 1 ==> r =~= seq!['.']);
        proof {
            if end == 1 {
                assert(r != seq!['%']);
            }
        }
        return Some(SubstituteRange::CurrentLine);
    }
    proof {
        if r == seq!['%'] || r == seq!['.'] {
            assert(r.len() == 1 && r[0] == cs@[0]);
        }
    }
    if end >= 3 && cs[0] == '.' && cs[1] == ',' && cs[2] == '+' {
        let n = parse_u32_chars(cs, 3, end);
        assert(cs@.subrange(3, end as int) =~= r.skip(3));
        return match n {
            Some(n) => Some(
                SubstituteRange::LineRange(cursor_line, DocLine(cursor_line.0 + n)),
            ),
            None => None,
        };
    }
    let comma = find_char(cs, ',', 0, end);
    proof {
        lemma_index_of_from(r, ',', 0, comma as int);
    }
    if comma < end {
        let a = parse_u32_chars(cs, 0, comma);
        let b = parse_u32_chars(cs, comma + 1, end);
        assert(cs@.subrange(0, comma as int) =~= r.take(comma as int));
        assert(cs@.subrange(comma + 1, end as int) =~= r.skip(comma + 1));
        match (a, b) {
            (Some(a), Some(b)) => Some(
                SubstituteRange::LineRange(
                    DocLine(a.saturating_sub(1)),
                    DocLine(b.saturating_sub(1)),
                ),
            ),
            _ => None,
        }
    } else {
        let n = parse_u32_chars(cs, 0, end);
        assert(cs@.subrange(0, end as int) =~= r);
        match n {
            Some(n) => Some(SubstituteRange::SingleLine(DocLine(n.saturating_sub(1)))),
            None => None,
        }
    }
}

/// Parses a substitution command `RANGEs/PATTERN/REPLACEMENT/FLAGS` typed at the
/// command line, with the cursor on `cursor_line`.
pub fn parse_substitute(cmd: &str, cursor_line: DocLine) -> (r: Option<
    (String, String, SubstituteFlags, SubstituteRange),
>)
    requires
        !substitute_offset_overflows(cmd@, cursor_line.0),
    ensures
        match substitute_spec(cmd@, cursor_line.0) {
            None => r is None,
            Some((pattern, replacement, flags, range)) => r matches Some((p, q, f, g)) && p@
                == pattern && q@ == replacement && f == flags && g == range,
        },
{
    let ghost c = cmd@;
    let (cs, offs) = char_table(cmd);
    let n = cs.len();
    let mut s: usize = 0;
    while s < n && s + 1 < n && !(cs[s] == 's' && cs[s + 1] == '/')
        invariant
            s <= n,
            cs@ == c,
            n == c.len(),
            substitute_marker_from(c, s as int) == substitute_marker_from(c, 0),
        decreases n - s,
    {
        s = s + 1;
    }
    if s >= n || s + 1 >= n {
        return None;
    }
    let range = parse_substitute_range(&cs, s, cursor_line);
    let range = match range {
        Some(range) => range,
        None => {
            return None;
        },
    };
    let ghost rest = c.skip(s + 2);
    let p1 = find_char(&cs, '/', s + 2, n);
    proof {
        assert forall|k: int| 0 <= k < p1 - (s + 2) implies rest[k] != '/' by {
            assert(rest[k] == c[k + s + 2]);
        }
        lemma_index_of_from(rest, '/', 0, p1 - (s + 2));
    }
    if p1 >= n {
        return None;
    }
    let ghost after = rest.skip(p1 - (s + 2) + 1);
    let p2 = find_char(&cs, '/', p1 + 1, n);
    proof {
        assert forall|k: int| 0 <= k < p2 - (p1 + 1) implies after[k] != '/' by {
            assert(after[k] == c[k + p1 + 1]);
        }
        lemma_index_of_from(after, '/', 0, p2 - (p1 + 1));
    }
    if p1 == s + 2 {
        return None;
    }
    let pattern = String::from_str(cmd.substring_char(s + 2, p1));
    let replacement = String::from_str(cmd.substring_char(p1 + 1, p2));
    let flags_start = if p2 < n {
        p2 + 1
    } else {
        n
    };
    proof {
        assert(c.subrange(s + 2, p1 as int) =~= rest.take(p1 - (s + 2)));
        assert(c.subrange(p1 + 1, p2 as int) =~= (if p2 < n {
            after.take(p2 - (p1 + 1))
        } else {
            after
        }));
    }
    let mut flags = SubstituteFlags { global: false, confirm: false, case_insensitive: false };
    let mut i = flags_start;
    while i < n
        invariant
            flags_start <= i <= n,
            cs@ == c,
            n == c.len(),
            flags == substitute_flags_spec(c.subrange(flags_start as int, i as int)),
        decreases n - i,
    {
        let ch = cs[i];
        proof {
            assert(c.subrange(flags_start as int, i + 1).drop_last() =~= c.subrange(
                flags_start as int,
                i as int,
            ));
        }
        if ch == 'g' {
            flags.global = true;
        } else if ch == 'c' {
            flags.confirm = true;
        } else if ch == 'i' {
            flags.case_insensitive = true;
        } else if ch == 'I' {
            flags.case_insensitive = false;
        }
        i = i + 1;
    }
    proof {
        assert(c.subrange(flags_start as int, n as int) =~= (if p2 < n {
            after.skip(p2 - (p1 + 1) + 1)
        } else {
            Seq::<char>::empty()
        }));
    }
    Some((pattern, replacement, flags, range))
}

/// The texts of a history.
pub open spec fn history_texts(history: Seq<String>) -> Seq<Seq<char>> {
    history.map_values(|s: String| s@)
}

/// Records a submitted line in the history, unless it is empty or repeats the last
/// entry, and leaves history browsing.
pub fn push_history_entry(buffer: &str, history: &mut Vec<String>, history_index: &mut Option<usize>)
    ensures
        history_texts(final(history)@) == (if buffer@.len() > 0 && (old(history)@.len() == 0
            || old(history)@.last()@ != buffer@) {
            history_texts(old(history)@).push(buffer@)
        } else {
            history_texts(old(history)@)
        }),
        *final(history_index) is None,
{
    let ghost before = history@;
    let non_empty = buffer.unicode_len() > 0;
    if non_empty {
        let entry = String::from_str(buffer);
        let repeats = history.len() > 0 && history[history.len() - 1].eq(&entry);
        if !repeats {
            history.push(entry);
            proof {
                assert(history_texts(history@) =~= history_texts(before).push(buffer@));
            }
        }
    }
    *history_index = None;
}

/// Steps back in the history: to the last entry when not browsing, else one entry
/// earlier (staying on the first), and loads it into the buffer.
pub fn recall_history_up(buffer: &mut String, history: &[String], history_index: &mut Option<usize>)
    requires
        *old(history_index) matches Some(i) ==> i < history@.len(),
    ensures
        history@.len() == 0 ==> *final(buffer) == *old(buffer) && *final(history_index) == *old(
            history_index,
        ),
        history@.len() > 0 ==> {
            let new_index = match *old(history_index) {
                Some(i) => if i == 0 {
                    0
                } else {
                    i - 1
                },
                None => history@.len() - 1,
            };
            &&& *final(history_index) == Some(new_index as usize)
            &&& final(buffer)@ == history@[new_index]@
        },
{
    if history.len() == 0 {
        return;
    }
    let new_index = match *history_index {
        Some(idx) => idx.saturating_sub(1),
        None => history.len() - 1,
    };
    *history_index = Some(new_index);
    *buffer = history[new_index].clone();
}

/// Steps forward in the history while browsing; past the last entry, leaves browsing
/// with an empty buffer.
pub fn recall_history_down(buffer: &mut String, history: &[String], history_index: &mut Option<usize>)
    ensures
        match *old(history_index) {
            None => *final(buffer) == *old(buffer) && *final(history_index) is None,
            Some(i) => if i + 1 < history@.len() {
                *final(history_index) == Some((i + 1) as usize) && final(buffer)@ == history@[i
                    + 1]@
            } else {
                *final(history_index) is None && final(buffer)@ == Seq::<char>::empty()
            },
        },
{
    if let Some(idx) = *history_index {
        if idx < history.len() && idx + 1 < history.len() {
            let new_index = idx + 1;
            *history_index = Some(new_index);
            *buffer = history[new_index].clone();
        } else {
            *history_index = None;
            *buffer = String::new();
        }
    }
}

} // verus!
