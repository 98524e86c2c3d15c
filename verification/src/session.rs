use vstd::prelude::*;

use crate::commands::{ConfirmAction, EditorMode, MoveDirection, SubstituteFlags, SubstituteRange};
use crate::coords::{CursorPosition, DocByte, DocLine, StateId, VisualCol};
use crate::lines::{
    NL, byte_offset_from_line_col, line_byte_range, first_non_blank_col, first_non_whitespace_visual_col,
    left_step_col, lemma_pos_line_bound, line_col_after, line_col_from_byte_offset, line_content, line_end_visual_col,
    nl_count, pos_of, right_step_col, small_doc, smart_home_visual_col, step_left_visual_col,
    step_right_visual_col, width, lemma_nl_count_monotone, lemma_nl_count_take_full,
    lemma_first_non_blank_col,
};
use crate::minimap::{SearchMatch, count_newlines};
use crate::search::{
    build_regex, deltas_replace_matches, find_all_matches, line_byte_range_spec, matches_at,
    regex_accepts, regex_error_text, regex_match_spans, replacement_deltas, resolve_byte_range,
    substitute_text_deltas, window_of,
};
use crate::scroll::{
    clamp_cursor_line_to_viewport, page_motion_step, scroll_viewport, spec_clamp_cursor_line,
    spec_scroll_viewport,
};
use crate::selection::{
    VisualKind, landing_byte, lemma_landing_byte, range_view, resolve_visual_ranges,
    visual_selection,
};
use crate::edits::{
    line_content_end, line_end_after, linewise_put_insertion, lossy_text, utf8_lossy,
};
use crate::status::{decimal, decimal_text};
use crate::pipeline::{parse_rust, parsed_elements, str_from_utf8};
use crate::word_object::{collect_tokens, select_word_token, tokens_of, word_token_at};
use crate::prompt::push_char;
use crate::text::char_offset;
use crate::undo::{
    LedgerView, TextDelta, UndoLedger, inverse_delta, inverse_group, push_group_model,
    redo_model, stamp_group, text_bytes, undo_model, undo_reverts_push,
};
use crate::words::{
    boundary_index, next_word_end, next_word_end_index, next_word_start, next_word_start_index,
    prev_word_start, prev_word_start_index,
};
use vstd::utf8::{decode_utf8, valid_utf8};

verus! {

/// The editing state that the engine keeps between commands: the document, the cursor,
/// the viewport, the undo history, the registers, and what the status line shows.
///
/// The document is held as its bytes. The cursor is kept both as a byte offset (where
/// edits happen) and as a line and visual column (what motions work on).
pub struct EditorSession {
    pub doc: Vec<u8>,
    pub loaded: bool,
    pub file_path: Option<String>,
    pub cursor_line: DocLine,
    pub cursor_col: VisualCol,
    pub cursor_byte: DocByte,
    pub scroll_y: u32,
    pub viewport_lines: u32,
    pub ledger: UndoLedger,
    pub status_message: Option<String>,
    pub mode_override: Option<EditorMode>,
    pub active_visual: Option<(DocByte, VisualKind)>,
    pub yank_flash: Option<(DocByte, DocByte)>,
    pub registers: Vec<(char, String)>,
    pub search_pattern: Option<String>,
    pub search_case_insensitive: bool,
    pub search_matches: Vec<SearchMatch>,
    pub search_match_index: Option<usize>,
    pub search_match_info: Option<String>,
    pub confirm_state: Option<ConfirmState>,
}

/// An interactive substitution under way: what replaces each match, how many were
/// replaced, how many matches there were at the start, and the flags and range it runs with.
pub struct ConfirmState {
    pub replacement: String,
    pub replacements_done: u32,
    pub total_matches: u32,
    pub flags: SubstituteFlags,
    pub range: SubstituteRange,
}

/// Where a cursor aimed at (`line`, `col`) comes to rest: the byte it lands on and the
/// visual column of that byte (the requested column snapped to a character start, or
/// the end of the line).
pub open spec fn cursor_target(doc: Seq<u8>, line: int, col: int) -> (int, int) {
    let b = landing_byte(doc, line as nat, col);
    (b, pos_of(doc, b).1)
}

/// `line` saturating-minus `n`.
pub open spec fn line_back(line: int, n: int) -> int {
    if line >= n {
        line - n
    } else {
        0
    }
}

/// `line` plus `n`, saturating in 32 bits, then kept within the document's last line.
pub open spec fn line_forward(line: int, n: int, total: int) -> int {
    let l = if line + n > u32::MAX {
        u32::MAX as int
    } else {
        line + n
    };
    if l < total {
        l
    } else {
        total
    }
}

/// Byte that a word motion from byte `b` goes to in text `cs`, before it is kept within
/// the document.
pub open spec fn word_motion_byte(cs: Seq<char>, b: int, dir: MoveDirection) -> int {
    let k = boundary_index(cs, b);
    match dir {
        MoveDirection::NextWord => char_offset(cs, next_word_start_index(cs, k)),
        MoveDirection::PrevWord => char_offset(cs, prev_word_start_index(cs, k)),
        _ => char_offset(cs, next_word_end_index(cs, k)),
    }
}

/// `b` kept within a document of `len` bytes.
pub open spec fn clamp_to(b: int, len: int) -> int {
    if b < len {
        b
    } else {
        len
    }
}

/// After the motion `dir` from session `s`, the cursor of `t` rests where it should.
pub open spec fn motion_done(s: EditorSession, t: EditorSession, dir: MoveDirection) -> bool {
    let doc = s.doc@;
    let line = s.cursor_line.0 as int;
    let col = s.cursor_col.0 as int;
    let total = nl_count(doc) as int;
    match dir {
        MoveDirection::Up => t.placed_at(line_back(line, 1), col),
        MoveDirection::Down => t.placed_at(
            if line < total {
                line + 1
            } else {
                line
            },
            col,
        ),
        MoveDirection::Left => exists|c: int|
            left_step_col(line_content(doc, line as nat), col, c) && #[trigger] t.placed_at(line, c),
        MoveDirection::Right => exists|c: int|
            right_step_col(line_content(doc, line as nat), col, c) && #[trigger] t.placed_at(line, c),
        MoveDirection::Top => t.placed_at(0, 0),
        MoveDirection::Bottom => t.placed_at(total, 0),
        _ => if valid_utf8(doc) {
            let target = clamp_to(
                word_motion_byte(decode_utf8(doc), s.cursor_byte.0 as int, dir),
                doc.len() as int,
            );
            t.placed_at(pos_of(doc, target).0 as int, pos_of(doc, target).1)
        } else {
            t.cursor_line == s.cursor_line && t.cursor_col == s.cursor_col && t.cursor_byte
                == s.cursor_byte
        },
    }
}

/// The motions within the cursor's line.
#[derive(Debug, Clone, Copy, PartialEq, Eq, Structural)]
pub enum LineMotion {
    Start,
    FirstNonWhitespace,
    End,
    SmartHome,
}

/// Column that a line motion from column `col` goes to on a line with bytes `lc`.
pub open spec fn line_motion_col(lc: Seq<u8>, col: int, motion: LineMotion) -> int {
    match motion {
        LineMotion::Start => 0,
        LineMotion::FirstNonWhitespace => first_non_blank_col(lc),
        LineMotion::End => width(lc),
        LineMotion::SmartHome => if col == first_non_blank_col(lc) {
            0
        } else {
            first_non_blank_col(lc)
        },
    }
}

/// `line + delta`, kept between 0 and `total`.
pub open spec fn line_shift(line: int, delta: int, total: int) -> int {
    if line + delta < 0 {
        0
    } else if line + delta > total {
        total
    } else {
        line + delta
    }
}

/// Largest document the session holds: lines and columns of such a document fit in 32 bits.
pub const MAX_DOC_BYTES: usize = 0x3fff_ffff;

/// `doc` with the `del_len` bytes at `at` replaced by `ins`.
pub open spec fn splice(doc: Seq<u8>, at: int, del_len: int, ins: Seq<u8>) -> Seq<u8> {
    doc.take(at) + ins + doc.skip(at + del_len)
}

/// One delta applied to `doc`: the new document, or why it cannot be applied (the text
/// it deletes is not there, or the result would be too large).
pub open spec fn delta_step(doc: Seq<u8>, d: TextDelta) -> Result<Seq<u8>, Seq<char>> {
    let at = d.global_byte_offset.0 as int;
    let del = text_bytes(d.deleted_text);
    let ins = text_bytes(d.inserted_text);
    if at + del.len() > doc.len() {
        Err("Edit range exceeded document bounds"@)
    } else if doc.subrange(at, at + del.len()) != del {
        Err("Edit range no longer matches live document"@)
    } else if doc.len() - del.len() + ins.len() > MAX_DOC_BYTES {
        Err("Document too large"@)
    } else {
        Ok(splice(doc, at, del.len() as int, ins))
    }
}

/// The deltas of `g` applied to `doc` one after another: the final document, or the
/// document reached before the first delta that cannot be applied, with the reason and
/// the number of deltas applied before it.
pub open spec fn group_step(doc: Seq<u8>, g: Seq<TextDelta>) -> Result<
    Seq<u8>,
    (Seq<u8>, Seq<char>, nat),
>
    decreases g.len(),
{
    if g.len() == 0 {
        Ok(doc)
    } else {
        match group_step(doc, g.drop_last()) {
            Ok(d0) => match delta_step(d0, g.last()) {
                Ok(d1) => Ok(d1),
                Err(m) => Err((d0, m, (g.len() - 1) as nat)),
            },
            Err(e) => Err(e),
        }
    }
}

/// A group that fails at its first delta leaves the document as it was.
pub proof fn lemma_group_err_at_start(doc: Seq<u8>, g: Seq<TextDelta>)
    ensures
        group_step(doc, g) matches Err((pd, m, k)) ==> (k == 0 ==> pd == doc),
    decreases g.len(),
{
    if g.len() > 0 {
        lemma_group_err_at_start(doc, g.drop_last());
        if g.len() == 1 {
            assert(g.drop_last() =~= Seq::<TextDelta>::empty());
        }
    }
}

/// A failure in a prefix of a group is the failure of the whole group.
pub proof fn lemma_group_err_extends(doc: Seq<u8>, g: Seq<TextDelta>, k: int)
    requires
        0 <= k <= g.len(),
        group_step(doc, g.take(k)) is Err,
    ensures
        group_step(doc, g) == group_step(doc, g.take(k)),
    decreases g.len() - k,
{
    if k < g.len() {
        assert(g.take(k + 1).drop_last() =~= g.take(k));
        lemma_group_err_extends(doc, g, k + 1);
    } else {
        assert(g.take(k) =~= g);
    }
}

/// The byte the cursor goes to after group `g` has been applied, giving a new document
/// of `len` bytes: `over` when given, else just past the text the last delta inserted;
/// kept within the document.
pub open spec fn edit_cursor(g: Seq<TextDelta>, over: Option<DocByte>, len: int) -> int {
    let b = match over {
        Some(o) => o.0 as int,
        None => {
            let a = g.last().global_byte_offset.0 + text_bytes(g.last().inserted_text).len();
            if a > u64::MAX {
                u64::MAX as int
            } else {
                a
            }
        },
    };
    clamp_to(b, len)
}

/// Whether every delta of `g` can be applied to `doc` in turn.
pub open spec fn group_fits(doc: Seq<u8>, g: Seq<TextDelta>) -> bool {
    group_step(doc, g) is Ok
}

/// Session `t` is session `s` after the delta group `g` was applied (recorded in the
/// history when `record` holds, with the cursor moved by `over` or after the last
/// insertion). A group that cannot be applied in full stops at the first delta that
/// does not fit; the history is then left alone, the cursor keeps its line and column,
/// and the status line shows why.
#[verifier::opaque]
pub open spec fn edit_done(
    s: EditorSession,
    t: EditorSession,
    g: Seq<TextDelta>,
    record: bool,
    over: Option<DocByte>,
) -> bool {
    if g.len() == 0 {
        t == s
    } else {
        match group_step(s.doc@, g) {
            Ok(nd) => {
                let cb = edit_cursor(g, over, nd.len() as int);
                &&& t.doc@ == nd
                &&& t.ledger.model() == if record {
                    push_group_model(s.ledger.model(), g)
                } else {
                    s.ledger.model()
                }
                &&& t.placed_at(pos_of(nd, cb).0 as int, pos_of(nd, cb).1)
                &&& t.cursor_byte.0 == cb
                &&& t.same_but_cursor(&EditorSession { doc: t.doc, ledger: t.ledger, ..s })
            },
            Err((pd, m, applied)) => {
                &&& t.status_message matches Some(e) && e@ == m
                &&& t.doc@ == pd
                &&& t.ledger == s.ledger
                &&& applied == 0 ==> t.cursor_line == s.cursor_line && t.cursor_col == s.cursor_col
                    && t.cursor_byte == s.cursor_byte
                &&& applied > 0 ==> t.placed_at(
                    clamp_to(s.cursor_line.0 as int, nl_count(pd) as int),
                    s.cursor_col.0 as int,
                )
                &&& t.same_but_cursor(
                    &EditorSession { doc: t.doc, status_message: t.status_message, ..s },
                )
            },
        }
    }
}

/// Applies one delta to `doc` when it can be applied.
fn apply_delta_to(doc: &mut Vec<u8>, d: &TextDelta) -> (r: Result<(), String>)
    requires
        small_doc(old(doc)@),
    ensures
        small_doc(final(doc)@),
        match delta_step(old(doc)@, *d) {
            Ok(n) => r is Ok && final(doc)@ == n,
            Err(m) => (r matches Err(e) && e@ == m) && final(doc)@ == old(doc)@,
        },
{
    let del = d.deleted_text.as_str().as_bytes();
    let ins = d.inserted_text.as_str().as_bytes();
    let at64 = d.global_byte_offset.0;
    let len = doc.len();
    if at64 > len as u64 || (len as u64 - at64) < del.len() as u64 {
        return Err(String::from_str("Edit range exceeded document bounds"));
    }
    let at = at64 as usize;
    let mut i: usize = 0;
    while i < del.len()
        invariant
            doc@ == old(doc)@,
            del@ == text_bytes(d.deleted_text),
            at == d.global_byte_offset.0,
            len == doc@.len(),
            small_doc(doc@),
            at + del@.len() <= doc@.len(),
            i <= del@.len(),
            forall|j: int| 0 <= j < i ==> doc@[at + j] == del@[j],
        decreases del@.len() - i,
    {
        if doc[at + i] != del[i] {
            proof {
                let sub = doc@.subrange(at as int, at + del@.len());
                assert(sub[i as int] == doc@[at + i]);
                assert(sub[i as int] != del@[i as int]);
                assert(sub != del@);
            }
            return Err(String::from_str("Edit range no longer matches live document"));
        }
        i = i + 1;
    }
    assert(doc@.subrange(at as int, at + del@.len()) =~= del@);
    let kept = len - del.len();
    if ins.len() > MAX_DOC_BYTES - kept {
        return Err(String::from_str("Document too large"));
    }
    let mut out: Vec<u8> = Vec::new();
    let mut k: usize = 0;
    while k < at
        invariant
            k <= at <= doc@.len(),
            out@ == doc@.take(k as int),
        decreases at - k,
    {
        out.push(doc[k]);
        k = k + 1;
        assert(out@ =~= doc@.take(k as int));
    }
    let mut k: usize = 0;
    while k < ins.len()
        invariant
            k <= ins@.len(),
            at <= doc@.len(),
            out@ == doc@.take(at as int) + ins@.take(k as int),
        decreases ins@.len() - k,
    {
        out.push(ins[k]);
        k = k + 1;
        assert(out@ =~= doc@.take(at as int) + ins@.take(k as int));
    }
    assert(ins@.take(ins@.len() as int) =~= ins@);
    let mut k: usize = at + del.len();
    while k < len
        invariant
            at + del@.len() <= k <= len == doc@.len(),
            out@ == doc@.take(at as int) + ins@ + doc@.subrange(at + del@.len(), k as int),
        decreases len - k,
    {
        out.push(doc[k]);
        k = k + 1;
        assert(out@ =~= doc@.take(at as int) + ins@ + doc@.subrange(at + del@.len(), k as int));
    }
    assert(doc@.subrange(at + del@.len(), len as int) =~= doc@.skip(at + del@.len()));
    *doc = out;
    Ok(())
}

/// Applies the deltas of `deltas` to `doc` in order, stopping at the first that cannot
/// be applied; on failure it reports the reason and how many deltas were applied.
fn apply_group_to(doc: &mut Vec<u8>, deltas: &Vec<TextDelta>) -> (r: Result<(), (String, usize)>)
    requires
        small_doc(old(doc)@),
    ensures
        small_doc(final(doc)@),
        match group_step(old(doc)@, deltas@) {
            Ok(nd) => r is Ok && final(doc)@ == nd,
            Err((pd, m, k)) => (r matches Err((e, n)) && e@ == m && n == k) && final(doc)@ == pd,
        },
{
    let ghost doc0 = doc@;
    let mut i: usize = 0;
    while i < deltas.len()
        invariant
            i <= deltas@.len(),
            small_doc(doc@),
            doc0 == old(doc)@,
            group_step(doc0, deltas@.take(i as int)) == Ok::<Seq<u8>, (Seq<u8>, Seq<char>, nat)>(
                doc@,
            ),
        decreases deltas@.len() - i,
    {
        proof {
            assert(deltas@.take(i + 1).drop_last() =~= deltas@.take(i as int));
            assert(deltas@.take(i + 1).last() == deltas@[i as int]);
        }
        match apply_delta_to(doc, &deltas[i]) {
            Err(e) => {
                proof {
                    lemma_group_err_extends(doc0, deltas@, i + 1);
                }
                return Err((e, i));
            },
            Ok(()) => {},
        }
        i = i + 1;
    }
    proof {
        assert(deltas@.take(deltas@.len() as int) =~= deltas@);
    }
    Ok(())
}

/// Session `s` with history `l`.
pub open spec fn with_ledger(s: EditorSession, l: UndoLedger) -> EditorSession {
    EditorSession { ledger: l, ..s }
}

/// `d` replaces `del` by `ins` at byte `at`, with no state stamps yet.
pub open spec fn plain_delta(d: TextDelta, at: int, del: Seq<char>, ins: Seq<char>) -> bool {
    &&& d.global_byte_offset.0 == at
    &&& d.deleted_text@ == del
    &&& d.inserted_text@ == ins
    &&& d.state_before.0 == 0
    &&& d.state_after.0 == 0
}

/// A UTF-8 continuation byte.
pub open spec fn is_continuation(b: u8) -> bool {
    b & 0xC0 == 0x80
}

/// Start of the character that byte `j` belongs to: back over continuation bytes, not
/// past the start of the document.
pub open spec fn char_start_at(doc: Seq<u8>, j: int) -> int
    decreases j,
{
    if j > 0 && is_continuation(doc[j]) {
        char_start_at(doc, j - 1)
    } else {
        j
    }
}

/// Length of the first character of `p`: the least `k` from `from` on with `p[..k]`
/// valid UTF-8 holding one char, if any.
pub open spec fn first_char_len_from(p: Seq<u8>, from: int) -> Option<int>
    decreases p.len() + 1 - from,
{
    if from < 1 || from > p.len() {
        None
    } else if valid_utf8(p.take(from)) && decode_utf8(p.take(from)).len() == 1 {
        Some(from)
    } else {
        first_char_len_from(p, from + 1)
    }
}

/// The bytes after `at`, at most four of them: where the character at `at` lies.
pub open spec fn char_window(doc: Seq<u8>, at: int) -> Seq<u8> {
    doc.subrange(at, if at + 4 < doc.len() {
        at + 4
    } else {
        doc.len() as int
    })
}

/// The first character of `window` as text, if the window starts with a whole character.
fn first_char_text(window: &[u8]) -> (r: Option<String>)
    requires
        window@.len() <= 4,
    ensures
        match first_char_len_from(window@, 1) {
            None => r is None,
            Some(k) => r matches Some(t) && t@ == decode_utf8(window@.take(k)),
        },
{
    let ghost w = window@;
    let mut k: usize = 1;
    let mut found: Option<String> = None;
    while found.is_none() && k <= window.len()
        invariant
            1 <= k <= window@.len() + 1,
            window@.len() <= 4,
            window@ == w,
            found is None ==> first_char_len_from(w, 1) == first_char_len_from(w, k as int),
            found matches Some(t) ==> first_char_len_from(w, 1) == Some((k - 1) as int) && t@
                == decode_utf8(w.take(k - 1)),
        decreases window@.len() + 1 - k,
    {
        assert(window@.subrange(0, k as int) =~= w.take(k as int));
        match str_from_utf8(&window[0..k]) {
            Some(t) => {
                if t.unicode_len() == 1 {
                    found = Some(String::from_str(t));
                }
            },
            None => {},
        }
        k = k + 1;
    }
    found
}

/// Text of register `r` among `regs` from index `i` on: the first entry named `r`.
pub open spec fn reg_find(regs: Seq<(char, String)>, r: char, i: int) -> Option<String>
    decreases regs.len() - i,
{
    if i < 0 || i >= regs.len() {
        None
    } else if regs[i].0 == r {
        Some(regs[i].1)
    } else {
        reg_find(regs, r, i + 1)
    }
}

/// Text held by register `r`.
pub open spec fn register(regs: Seq<(char, String)>, r: char) -> Option<String> {
    reg_find(regs, r, 0)
}

/// Entries past `i` decide the lookup from `i + 1` on.
proof fn lemma_reg_find_suffix(a: Seq<(char, String)>, b: Seq<(char, String)>, k: char, j: int)
    requires
        a.len() == b.len(),
        0 <= j,
        forall|m: int| j <= m < a.len() ==> a[m] == b[m],
    ensures
        reg_find(a, k, j) == reg_find(b, k, j),
    decreases a.len() - j,
{
    if j < a.len() {
        lemma_reg_find_suffix(a, b, k, j + 1);
    }
}

/// Replacing the first entry named `r` gives `r` its new text and leaves the others.
proof fn lemma_reg_update(regs: Seq<(char, String)>, i: int, r: char, t: String, k: char, j: int)
    requires
        0 <= j <= i < regs.len(),
        regs[i].0 == r,
        forall|m: int| j <= m < i ==> regs[m].0 != r,
    ensures
        reg_find(regs.update(i, (r, t)), k, j) == if k == r {
            Some(t)
        } else {
            reg_find(regs, k, j)
        },
    decreases i - j,
{
    let u = regs.update(i, (r, t));
    if j < i {
        lemma_reg_update(regs, i, r, t, k, j + 1);
    } else {
        lemma_reg_find_suffix(u, regs, k, i + 1);
    }
}

/// Appending an entry named `r` gives `r` its text when it had none, and leaves the
/// others.
proof fn lemma_reg_push(regs: Seq<(char, String)>, r: char, t: String, k: char, j: int)
    requires
        0 <= j <= regs.len(),
        forall|m: int| j <= m < regs.len() ==> regs[m].0 != r,
    ensures
        reg_find(regs.push((r, t)), k, j) == if k == r {
            Some(t)
        } else {
            reg_find(regs, k, j)
        },
    decreases regs.len() - j,
{
    let p = regs.push((r, t));
    if j < regs.len() {
        lemma_reg_push(regs, r, t, k, j + 1);
        assert(p[j] == regs[j]);
    } else {
        assert(p[j] == (r, t));
        assert(reg_find(p, k, j + 1) == None::<String>);
    }
}

/// The text a put of register `r` pastes: the system clipboard's text for `+` when it
/// has one, else the register, falling back to the unnamed register `"`.
pub open spec fn put_source(regs: Seq<(char, String)>, r: char, clipboard: Option<String>) -> Option<
    String,
> {
    if r == '+' {
        match clipboard {
            Some(t) => Some(t),
            None => register(regs, '"'),
        }
    } else {
        match register(regs, r) {
            Some(t) => Some(t),
            None => register(regs, '"'),
        }
    }
}

/// `r` is the status text "`n` bytes yanked".
pub open spec fn yank_message(r: Seq<char>, n: nat) -> bool {
    r == decimal(n) + " bytes yanked"@
}

/// The bytes of the inclusive range `s..=e` of `doc`; none when it does not lie in `doc`.
pub open spec fn range_bytes(doc: Seq<u8>, s: int, e: int) -> Seq<u8> {
    if 0 <= s <= e < doc.len() {
        doc.subrange(s, e + 1)
    } else {
        Seq::empty()
    }
}

/// The text of the first `n` ranges of a selection, joined by newlines where a range does
/// not already end with one; empty ranges add nothing.
pub open spec fn selection_text(doc: Seq<u8>, rs: Seq<(int, int)>, n: int) -> Seq<char>
    decreases n,
{
    if n <= 0 {
        Seq::empty()
    } else {
        let prev = selection_text(doc, rs, n - 1);
        let b = range_bytes(doc, rs[n - 1].0, rs[n - 1].1);
        if b.len() == 0 {
            prev
        } else if n - 1 > 0 && !(prev.len() > 0 && prev.last() == '\n') {
            prev + seq!['\n'] + lossy_text(b)
        } else {
            prev + lossy_text(b)
        }
    }
}

/// Offsets and texts of the deletions that remove the first `n` ranges of a selection,
/// last range first; empty ranges delete nothing.
pub open spec fn selection_deletions(doc: Seq<u8>, rs: Seq<(int, int)>, n: int) -> Seq<
    (int, Seq<char>),
>
    decreases n,
{
    if n <= 0 {
        Seq::empty()
    } else {
        let b = range_bytes(doc, rs[n - 1].0, rs[n - 1].1);
        let rest = selection_deletions(doc, rs, n - 1);
        if b.len() == 0 {
            rest
        } else {
            seq![(rs[n - 1].0, lossy_text(b))] + rest
        }
    }
}

/// `g` deletes what `dels` lists, in that order.
pub open spec fn deletes_as(g: Seq<TextDelta>, dels: Seq<(int, Seq<char>)>) -> bool {
    &&& g.len() == dels.len()
    &&& forall|i: int|
        0 <= i < g.len() ==> plain_delta(#[trigger] g[i], dels[i].0, dels[i].1, Seq::empty())
}

/// The bytes of a range of `doc`, checked to lie within it.
fn range_slice(doc: &[u8], s: DocByte, e: DocByte) -> (r: &[u8])
    ensures
        r@ == range_bytes(doc@, s.0 as int, e.0 as int),
{
    if s.0 <= e.0 && e.0 < doc.len() as u64 {
        &doc[s.0 as usize..e.0 as usize + 1]
    } else {
        &doc[0..0]
    }
}

/// The text a visual selection over `ranges` yanks.
fn extract_selection_text(doc: &[u8], ranges: &Vec<(DocByte, DocByte)>) -> (r: String)
    ensures
        r@ == selection_text(doc@, range_view(ranges@), ranges@.len() as int),
{
    let ghost rs = range_view(ranges@);
    let mut text = String::new();
    let mut i: usize = 0;
    while i < ranges.len()
        invariant
            i <= ranges@.len(),
            rs == range_view(ranges@),
            text@ == selection_text(doc@, rs, i as int),
        decreases ranges@.len() - i,
    {
        let (s, e) = ranges[i];
        let bytes = range_slice(doc, s, e);
        if bytes.len() > 0 {
            let ends_with_newline = text.as_str().unicode_len() > 0 && text.as_str().get_char(
                text.as_str().unicode_len() - 1,
            ) == '\n';
            if i > 0 && !ends_with_newline {
                push_char(&mut text, '\n');
            }
            let piece = utf8_lossy(bytes);
            text.append(piece.as_str());
        }
        i = i + 1;
    }
    text
}

/// The deletions that remove a visual selection over `ranges`, last range first.
fn selection_delete_deltas(doc: &[u8], ranges: &Vec<(DocByte, DocByte)>) -> (r: Vec<TextDelta>)
    ensures
        deletes_as(r@, selection_deletions(doc@, range_view(ranges@), ranges@.len() as int)),
{
    let ghost rs = range_view(ranges@);
    let ghost all = selection_deletions(doc@, rs, ranges@.len() as int);
    let mut out: Vec<TextDelta> = Vec::new();
    let mut i: usize = ranges.len();
    while i > 0
        invariant
            i <= ranges@.len(),
            rs == range_view(ranges@),
            all == selection_deletions(doc@, rs, ranges@.len() as int),
            out@.len() <= all.len(),
            deletes_as(out@, all.take(out@.len() as int)),
            all == all.take(out@.len() as int) + selection_deletions(doc@, rs, i as int),
        decreases i,
    {
        i = i - 1;
        let (s, e) = ranges[i];
        let bytes = range_slice(doc, s, e);
        let ghost before = all.take(out@.len() as int);
        let ghost rest = selection_deletions(doc@, rs, i as int);
        if bytes.len() > 0 {
            let deleted = utf8_lossy(bytes);
            out.push(
                TextDelta {
                    global_byte_offset: s,
                    deleted_text: deleted,
                    inserted_text: String::new(),
                    state_before: StateId(0),
                    state_after: StateId(0),
                },
            );
            proof {
                let item = (rs[i as int].0, lossy_text(bytes@));
                assert(selection_deletions(doc@, rs, i + 1) == seq![item] + rest);
                assert(all =~= (before + seq![item]) + rest);
                assert(all.take(out@.len() as int) =~= before + seq![item]);
            }
        } else {
            proof {
                assert(selection_deletions(doc@, rs, i + 1) == rest);
            }
        }
    }
    proof {
        assert(selection_deletions(doc@, rs, 0) =~= Seq::<(int, Seq<char>)>::empty());
        assert(all.take(out@.len() as int) =~= all);
    }
    out
}

/// Session `t` is session `s` after deleting the selection over `rs`: with no ranges the
/// status line says that nothing was selected; else the selection's text goes to the
/// unnamed register, its ranges are deleted as one change (last range first), and with
/// `change` insert mode follows when the whole change applied. The selection ends.
pub open spec fn selection_deleted(
    s: EditorSession,
    t: EditorSession,
    rs: Seq<(int, int)>,
    change: bool,
) -> bool {
    let doc = s.doc@;
    let text = selection_text(doc, rs, rs.len() as int);
    let dels = selection_deletions(doc, rs, rs.len() as int);
    if rs.len() == 0 {
        &&& t.status_message matches Some(m) && m@ == "Nothing selected"@
        &&& t == (EditorSession { status_message: t.status_message, active_visual: None, ..s })
    } else {
        exists|g: Seq<TextDelta>, mid: EditorSession, fin: EditorSession|
            #[trigger] edit_done(mid, fin, g, true, None) && {
                &&& deletes_as(g, dels)
                &&& (register(mid.registers@, '"') matches Some(x) && x@ == text)
                &&& forall|k: char|
                    k != '"' ==> #[trigger] register(mid.registers@, k) == register(s.registers@, k)
                &&& mid == (EditorSession { registers: mid.registers, active_visual: None, ..s })
                &&& t == if change && g.len() > 0 && group_fits(doc, g) {
                    EditorSession { mode_override: Some(EditorMode::Insert), ..fin }
                } else {
                    fin
                }
            }
    }
}

/// Index of the first match at or after (`line`, `col`) from index `i` on, or 0 when
/// there is none.
pub open spec fn first_match_from(ms: Seq<SearchMatch>, line: u32, col: u32, i: int) -> int
    decreases ms.len() - i,
{
    if i < 0 || i >= ms.len() {
        0
    } else if ms[i].line.0 > line || (ms[i].line.0 == line && ms[i].col.0 >= col) {
        i
    } else {
        first_match_from(ms, line, col, i + 1)
    }
}

/// The match counter "[`i`/`n`]".
pub open spec fn match_info(i: nat, n: nat) -> Seq<char> {
    "["@ + decimal(i) + "/"@ + decimal(n) + "]"@
}

/// The cursor of `t` sits at the start of match `m`, its line kept within the document.
pub open spec fn on_match(t: EditorSession, m: SearchMatch) -> bool {
    let line = clamp_to(m.line.0 as int, nl_count(t.doc@) as int);
    &&& t.cursor_line.0 == line
    &&& t.cursor_byte.0 == landing_byte(t.doc@, line as nat, m.col.0 as int)
    &&& t.cursor_col == m.col
}

/// The match a step to the next (`forward`) or previous match goes to from `index`,
/// among `n` matches, and whether it wrapped around.
pub open spec fn match_step(index: Option<usize>, n: int, forward: bool) -> (int, bool) {
    if forward {
        match index {
            Some(i) => if i + 1 >= n {
                (0, true)
            } else {
                (i + 1, false)
            },
            None => (0, false),
        }
    } else {
        match index {
            Some(i) => if i == 0 {
                (n - 1, true)
            } else {
                (i - 1, false)
            },
            None => (n - 1, false),
        }
    }
}

/// Text "[`i`/`n`]", with " (wrapped)" after it when `wrapped`.
fn match_counter(i: usize, n: usize, wrapped: bool) -> (r: String)
    ensures
        r@ == match_info(i as nat, n as nat) + if wrapped {
            " (wrapped)"@
        } else {
            Seq::<char>::empty()
        },
{
    let mut text = String::from_str("[");
    let first = decimal_text(i as u128);
    text.append(first.as_str());
    text.append("/");
    let second = decimal_text(n as u128);
    text.append(second.as_str());
    text.append("]");
    if wrapped {
        text.append(" (wrapped)");
    }
    text
}

/// A line range whose first line does not come after the line past its last: a range
/// the document can be sliced by.
pub open spec fn range_in_order(range: SubstituteRange) -> bool {
    range matches SubstituteRange::LineRange(a, b) ==> a.0 <= b.0 + 1
}

/// The bytes a substitution over `range` looks at, with the cursor on `line`.
pub open spec fn substitute_window(range: SubstituteRange, doc: Seq<u8>, line: u32) -> (int, int) {
    let r = match range {
        SubstituteRange::WholeFile => None,
        SubstituteRange::CurrentLine => Some(line_byte_range_spec(doc, line, line)),
        SubstituteRange::SingleLine(n) => Some(line_byte_range_spec(doc, n.0, n.0)),
        SubstituteRange::LineRange(a, b) => Some(line_byte_range_spec(doc, a.0, b.0)),
    };
    window_of(r, doc.len())
}

/// The replacements a substitution of `pattern` by `replacement` over `range` makes in
/// `doc`: offset, replaced text and new text, from the last match to the first.
pub open spec fn substitutions(
    doc: Seq<u8>,
    pattern: Seq<char>,
    ci: bool,
    replacement: Seq<char>,
    range: SubstituteRange,
    line: u32,
) -> Seq<(u64, Seq<char>, Seq<char>)> {
    let w = substitute_window(range, doc, line);
    replacement_deltas(
        doc,
        w.0,
        regex_match_spans(pattern, ci, doc.subrange(w.0, w.1)),
        replacement,
    )
}

/// Whether match `m` lies in the lines of `range`, with the cursor on `line`.
pub open spec fn match_in_range(m: SearchMatch, range: SubstituteRange, line: u32) -> bool {
    match range {
        SubstituteRange::WholeFile => true,
        SubstituteRange::CurrentLine => m.line.0 == line,
        SubstituteRange::SingleLine(n) => m.line.0 == n.0,
        SubstituteRange::LineRange(a, b) => a.0 <= m.line.0 <= b.0,
    }
}

/// The matches of `ms` that lie in `range`, in order.
pub open spec fn matches_in_range(ms: Seq<SearchMatch>, range: SubstituteRange, line: u32) -> Seq<
    SearchMatch,
> {
    ms.filter(|m: SearchMatch| match_in_range(m, range, line))
}

/// The prompt "Replace? [y/n/a/q] (`i`/`n`)".
pub open spec fn confirm_prompt(i: nat, n: nat) -> Seq<char> {
    "Replace? [y/n/a/q] ("@ + decimal(i) + "/"@ + decimal(n) + ")"@
}

/// The matches of `ms` that lie in `range`.
fn filter_matches(ms: Vec<SearchMatch>, range: SubstituteRange, line: DocLine) -> (r: Vec<
    SearchMatch,
>)
    ensures
        r@ == matches_in_range(ms@, range, line.0),
{
    let mut out: Vec<SearchMatch> = Vec::new();
    let mut i: usize = 0;
    while i < ms.len()
        invariant
            i <= ms@.len(),
            out@ == matches_in_range(ms@.take(i as int), range, line.0),
        decreases ms@.len() - i,
    {
        let m = ms[i];
        let keep = match range {
            SubstituteRange::WholeFile => true,
            SubstituteRange::CurrentLine => m.line.0 == line.0,
            SubstituteRange::SingleLine(n) => m.line.0 == n.0,
            SubstituteRange::LineRange(a, b) => a.0 <= m.line.0 && m.line.0 <= b.0,
        };
        proof {
            assert(ms@.take(i + 1).drop_last() =~= ms@.take(i as int));
            reveal(Seq::filter);
        }
        if keep {
            out.push(m);
        }
        i = i + 1;
    }
    proof {
        assert(ms@.take(ms@.len() as int) =~= ms@);
    }
    out
}

/// Text "Replace? [y/n/a/q] (`i`/`n`)".
fn confirm_prompt_text(i: u64, n: u64) -> (r: String)
    ensures
        r@ == confirm_prompt(i as nat, n as nat),
{
    let mut text = String::from_str("Replace? [y/n/a/q] (");
    let first = decimal_text(i as u128);
    text.append(first.as_str());
    text.append("/");
    let second = decimal_text(n as u128);
    text.append(second.as_str());
    text.append(")");
    text
}

/// Line and column reached from (`l`, `c`) after the bytes `b`: a newline starts the next
/// line, a tab moves to the next tab stop, any other byte moves one column.
pub open spec fn advance_pos(l: int, c: int, b: Seq<u8>) -> (int, int)
    decreases b.len(),
{
    if b.len() == 0 {
        (l, c)
    } else {
        let p = advance_pos(l, c, b.drop_last());
        if b.last() == NL {
            (p.0 + 1, 0)
        } else if b.last() == crate::lines::TAB {
            (p.0, p.1 + 4 - p.1 % 4)
        } else {
            (p.0, p.1 + 1)
        }
    }
}

/// Index of the first match of `ms`, from index `i` on, at or after (`l`, `c`).
pub open spec fn first_match_after(ms: Seq<SearchMatch>, l: int, c: int, i: int) -> Option<int>
    decreases ms.len() - i,
{
    if i < 0 || i >= ms.len() {
        None
    } else if ms[i].line.0 > l || (ms[i].line.0 == l && ms[i].col.0 >= c) {
        Some(i)
    } else {
        first_match_after(ms, l, c, i + 1)
    }
}

/// `a + b`, saturating in 32 bits.
pub open spec fn sat_add_u32(a: u32, b: int) -> u32 {
    if a + b > u32::MAX {
        u32::MAX
    } else {
        (a + b) as u32
    }
}

/// `t` ends the interactive substitution of `s` after `done` replacements: the count is
/// shown and normal mode returns.
pub open spec fn run_ended(t: EditorSession, done: u32) -> bool {
    &&& t.status_message matches Some(m) && m@ == decimal(done as nat) + " substitution(s)"@
    &&& t.mode_override == Some(EditorMode::Normal)
    &&& t.confirm_state is None
}

/// The match the interactive substitution of `s` stands on.
pub open spec fn current_match(s: EditorSession) -> SearchMatch {
    s.search_matches@[match s.search_match_index {
        Some(i) => i as int,
        None => 0,
    }]
}

/// Index of the match the interactive substitution of `s` stands on.
pub open spec fn current_index(s: EditorSession) -> int {
    match s.search_match_index {
        Some(i) => i as int,
        None => 0,
    }
}

/// Session `t` is session `s` after answering "no" to the current match: the next match
/// is offered, or the run ends after the last.
pub open spec fn confirm_no_done(s: EditorSession, t: EditorSession, cs: ConfirmState) -> bool {
    let i = current_index(s);
    if i + 1 < s.search_matches@.len() {
        &&& t.search_match_index == Some((i + 1) as usize)
        &&& on_match(t, s.search_matches@[i + 1])
        &&& t.status_message matches Some(m) && m@ == confirm_prompt(
            (i + 2) as nat,
            cs.total_matches as nat,
        )
        &&& t.same_but_cursor(
            &EditorSession {
                search_match_index: t.search_match_index,
                status_message: t.status_message,
                ..s
            },
        )
    } else {
        &&& run_ended(t, cs.replacements_done)
        &&& t == (EditorSession {
            status_message: t.status_message,
            mode_override: t.mode_override,
            confirm_state: None,
            ..s
        })
    }
}

/// Session `t` is session `s` after quitting the interactive substitution: the count is
/// shown and the search ends.
pub open spec fn confirm_quit_done(s: EditorSession, t: EditorSession, cs: ConfirmState) -> bool {
    &&& run_ended(t, cs.replacements_done)
    &&& t.search_matches@.len() == 0
    &&& t == (EditorSession {
        status_message: t.status_message,
        mode_override: t.mode_override,
        confirm_state: None,
        search_matches: t.search_matches,
        search_match_index: None,
        search_match_info: None,
        ..s
    })
}

/// Matches kept by a range filter keep whatever line bound all matches had.
pub proof fn lemma_filtered_lines(all: Seq<SearchMatch>, range: SubstituteRange, line: u32, bound: nat)
    requires
        forall|i: int| 0 <= i < all.len() ==> #[trigger] all[i].line.0 <= bound,
    ensures
        forall|i: int|
            0 <= i < matches_in_range(all, range, line).len() ==> #[trigger] matches_in_range(
                all,
                range,
                line,
            )[i].line.0 <= bound,
{
    let ms = matches_in_range(all, range, line);
    assert forall|i: int| 0 <= i < ms.len() implies #[trigger] ms[i].line.0 <= bound by {
        let pred = |m: SearchMatch| match_in_range(m, range, line);
        assert(ms.contains(ms[i]));
        all.lemma_filter_contains_rev(pred, ms[i]);
        let j = choose|j: int| 0 <= j < all.len() && all[j] == ms[i];
        assert(all[j].line.0 <= bound);
    }
}

/// The pattern of the last search, or the empty pattern.
pub open spec fn last_pattern(s: EditorSession) -> Seq<char> {
    match s.search_pattern {
        Some(p) => p@,
        None => Seq::empty(),
    }
}

/// Session `s` with the replacement count of its interactive substitution set to `done`.
pub open spec fn with_done(s: EditorSession, cs: ConfirmState, done: u32) -> EditorSession {
    EditorSession { confirm_state: Some(ConfirmState { replacements_done: done, ..cs }), ..s }
}

/// `t` is `mid` with the interactive substitution over and the search cleared, the status
/// line showing `status` when given, else what `mid` showed.
pub open spec fn all_cleared(mid: EditorSession, t: EditorSession, status: Option<Seq<char>>) -> bool {
    &&& t.mode_override == Some(EditorMode::Normal)
    &&& t.search_matches@.len() == 0
    &&& match status {
        Some(m) => t.status_message matches Some(x) && x@ == m,
        None => t.status_message == mid.status_message,
    }
    &&& t == (EditorSession {
        status_message: t.status_message,
        mode_override: t.mode_override,
        confirm_state: None,
        search_matches: t.search_matches,
        search_match_index: None,
        search_match_info: None,
        ..mid
    })
}

/// Session `t` is session `s` after answering "all": every remaining match from the
/// current one on is replaced as one change, and the run and the search end.
pub open spec fn confirm_all_done(s: EditorSession, t: EditorSession, cs: ConfirmState) -> bool {
    let m = current_match(s);
    let doc = s.doc@;
    let off = landing_byte(doc, m.line.0 as nat, m.col.0 as int);
    let p = last_pattern(s);
    let ci = cs.flags.case_insensitive;
    if !regex_accepts(p, ci) {
        all_cleared(s, t, Some("Invalid regex: "@ + regex_error_text(p, ci)))
    } else {
        let exp = replacement_deltas(
            doc,
            off,
            regex_match_spans(p, ci, doc.subrange(off, doc.len() as int)),
            cs.replacement@,
        );
        let done = sat_add_u32(cs.replacements_done, exp.len() as u32 as int);
        exists|g: Seq<TextDelta>, mid: EditorSession|
            #[trigger] edit_done(with_done(s, cs, done), mid, g, true, None) && deltas_replace_matches(
                g,
                exp,
            ) && all_cleared(
                mid,
                t,
                if group_fits(doc, g) {
                    Some(decimal(done as nat) + " substitution(s)"@)
                } else {
                    None
                },
            )
    }
}

/// Session `t` is session `s` after answering "yes": the current match is replaced (one
/// change), the matches are found again in the new document, and the first one at or
/// after the end of the replacement is offered next; without one, the run ends.
pub open spec fn confirm_yes_done(s: EditorSession, t: EditorSession, cs: ConfirmState) -> bool {
    let m = current_match(s);
    let doc = s.doc@;
    let off = landing_byte(doc, m.line.0 as nat, m.col.0 as int);
    let end = clamp_to(off + m.byte_len, doc.len() as int);
    let done = sat_add_u32(cs.replacements_done, 1);
    let p = last_pattern(s);
    let ci = cs.flags.case_insensitive;
    exists|g: Seq<TextDelta>, mid: EditorSession|
        #[trigger] edit_done(with_done(s, cs, done), mid, g, true, None) && g.len() == 1
            && plain_delta(g[0], off, lossy_text(doc.subrange(off, end)), cs.replacement@) && {
            &&& !group_fits(doc, g) ==> t == mid
            &&& group_fits(doc, g) && !regex_accepts(p, ci) ==> {
                &&& t.status_message matches Some(x) && x@ == "Invalid regex: "@ + regex_error_text(
                    p,
                    ci,
                )
                &&& t.mode_override == Some(EditorMode::Normal)
                &&& t.confirm_state is None
                &&& t == (EditorSession {
                    status_message: t.status_message,
                    mode_override: t.mode_override,
                    confirm_state: None,
                    ..mid
                })
            }
            &&& group_fits(doc, g) && regex_accepts(p, ci) ==> {
                let nd = mid.doc@;
                let nm = matches_in_range(
                    matches_at(nd, regex_match_spans(p, ci, nd)),
                    cs.range,
                    m.line.0,
                );
                let rp = advance_pos(m.line.0 as int, m.col.0 as int, text_bytes(cs.replacement));
                &&& t.search_matches@ == nm
                &&& match first_match_after(nm, rp.0, rp.1, 0) {
                    Some(k) => {
                        &&& t.search_match_index == Some(k as usize)
                        &&& on_match(t, nm[k])
                        &&& t.status_message matches Some(x) && x@ == confirm_prompt(
                            (done + 1) as nat,
                            cs.total_matches as nat,
                        )
                        &&& t.same_but_cursor(
                            &EditorSession {
                                search_matches: t.search_matches,
                                search_match_index: t.search_match_index,
                                status_message: t.status_message,
                                ..mid
                            },
                        )
                    },
                    None => {
                        &&& run_ended(t, done)
                        &&& t.search_match_index == (if current_index(s) < nm.len() {
                            mid.search_match_index
                        } else {
                            None
                        })
                        &&& t == (EditorSession {
                            search_matches: t.search_matches,
                            search_match_index: t.search_match_index,
                            status_message: t.status_message,
                            mode_override: t.mode_override,
                            confirm_state: None,
                            ..mid
                        })
                    },
                }
            }
        }
}

/// Session `t` is session `s` after the answer `action` to an interactive substitution;
/// without a document or such a substitution nothing changes.
pub open spec fn confirm_done(s: EditorSession, action: ConfirmAction, t: EditorSession) -> bool {
    match s.confirm_state {
        Some(cs) if s.loaded => match action {
            ConfirmAction::Yes => confirm_yes_done(s, t, cs),
            ConfirmAction::No => confirm_no_done(s, t, cs),
            ConfirmAction::All => confirm_all_done(s, t, cs),
            ConfirmAction::Quit => confirm_quit_done(s, t, cs),
        },
        _ => t == s,
    }
}

/// Session `t` is `s` with the status line saying that no word object was found.
pub open spec fn no_word_object(s: EditorSession, t: EditorSession) -> bool {
    &&& t.status_message matches Some(m) && m@ == "No structural word at cursor"@
    &&& t == (EditorSession { status_message: t.status_message, ..s })
}

/// Session `t` is session `s` after deleting the word object at the cursor (with
/// `change`, insert mode follows a successful delete): the word token that
/// `word_token_at` picks among the tokens of the document parsed as Rust.
pub open spec fn inner_word_done(s: EditorSession, t: EditorSession, change: bool) -> bool {
    let doc = s.doc@;
    if !s.loaded {
        t == s
    } else if !valid_utf8(doc) {
        no_word_object(s, t)
    } else {
        let ts = tokens_of(parsed_elements(doc));
        match word_token_at(ts, s.cursor_byte.0 as int) {
            None => no_word_object(s, t),
            Some(i) => {
                let a = ts[i].1 as int;
                let b = ts[i].2 as int;
                if !(a < b && b <= doc.len()) {
                    no_word_object(s, t)
                } else {
                    exists|g: Seq<TextDelta>, mid: EditorSession|
                        #[trigger] edit_done(s, mid, g, true, None) && g.len() == 1 && plain_delta(
                            g[0],
                            a,
                            lossy_text(doc.subrange(a, b)),
                            Seq::empty(),
                        ) && t == if change && group_fits(doc, g) {
                            EditorSession { mode_override: Some(EditorMode::Insert), ..mid }
                        } else {
                            mid
                        }
                }
            },
        }
    }
}

impl EditorSession {
    /// The document is small enough for 32-bit lines and columns, and the cursor lies
    /// within it.
    pub open spec fn wf(&self) -> bool {
        &&& small_doc(self.doc@)
        &&& self.cursor_line.0 <= nl_count(self.doc@)
        &&& self.cursor_byte.0 <= self.doc@.len()
        &&& self.search_match_index matches Some(i) ==> i < self.search_matches@.len()
        &&& self.ledger.wf()
    }

    /// The cursor rests where a cursor aimed at (`line`, `col`) comes to rest.
    pub open spec fn placed_at(&self, line: int, col: int) -> bool {
        &&& self.cursor_line.0 == line
        &&& self.cursor_byte.0 == cursor_target(self.doc@, line, col).0
        &&& self.cursor_col.0 == cursor_target(self.doc@, line, col).1
    }

    /// Everything but the cursor is as in `other`.
    pub open spec fn same_but_cursor(&self, other: &EditorSession) -> bool {
        &&& self.doc@ == other.doc@
        &&& self.loaded == other.loaded
        &&& self.file_path == other.file_path
        &&& self.scroll_y == other.scroll_y
        &&& self.viewport_lines == other.viewport_lines
        &&& self.ledger == other.ledger
        &&& self.status_message == other.status_message
        &&& self.mode_override == other.mode_override
        &&& self.active_visual == other.active_visual
        &&& self.yank_flash == other.yank_flash
        &&& self.registers@ == other.registers@
        &&& self.search_pattern == other.search_pattern
        &&& self.search_case_insensitive == other.search_case_insensitive
        &&& self.search_matches@ == other.search_matches@
        &&& self.search_match_index == other.search_match_index
        &&& self.search_match_info == other.search_match_info
        &&& self.confirm_state == other.confirm_state
    }

    /// A session with no document loaded: every command but loading leaves it as it is.
    pub fn new(viewport_lines: u32) -> (r: Self)
        ensures
            r.wf(),
            !r.loaded,
            r.doc@.len() == 0,
            r.file_path is None,
            r.cursor_line.0 == 0 && r.cursor_col.0 == 0 && r.cursor_byte.0 == 0,
            r.scroll_y == 0,
            r.viewport_lines == viewport_lines,
            r.ledger.undo_groups().len() == 0 && r.ledger.redo_groups().len() == 0,
            r.status_message is None && r.mode_override is None,
            r.active_visual is None && r.yank_flash is None,
            r.registers@.len() == 0,
            r.search_pattern is None && r.search_matches@.len() == 0,
            r.search_match_index is None && r.search_match_info is None,
            r.confirm_state is None,
    {
        EditorSession {
            doc: Vec::new(),
            loaded: false,
            file_path: None,
            cursor_line: DocLine(0),
            cursor_col: VisualCol(0),
            cursor_byte: DocByte(0),
            scroll_y: 0,
            viewport_lines,
            ledger: UndoLedger::new(),
            status_message: None,
            mode_override: None,
            active_visual: None,
            yank_flash: None,
            registers: Vec::new(),
            search_pattern: None,
            search_case_insensitive: false,
            search_matches: Vec::new(),
            search_match_index: None,
            search_match_info: None,
            confirm_state: None,
        }
    }

    /// Number of the last line of the document.
    pub fn total_lines(&self) -> (r: u32)
        requires
            self.wf(),
        ensures
            r == nl_count(self.doc@),
    {
        proof {
            crate::lines::lemma_nl_count_bound(self.doc@);
        }
        count_newlines(&self.doc) as u32
    }

    /// Moves the cursor to where a cursor aimed at (`line`, `col`) comes to rest.
    fn place_cursor(&mut self, line: DocLine, col: VisualCol)
        requires
            old(self).wf(),
            line.0 <= nl_count(old(self).doc@),
        ensures
            final(self).wf(),
            final(self).placed_at(line.0 as int, col.0 as int),
            final(self).same_but_cursor(old(self)),
    {
        let b = byte_offset_from_line_col(&self.doc, line, col);
        proof {
            lemma_landing_byte(self.doc@, line.0 as nat, col.0 as int, b.0 as int);
        }
        let (_, c) = line_col_from_byte_offset(&self.doc, b);
        self.cursor_line = line;
        self.cursor_col = c;
        self.cursor_byte = b;
    }

    /// Moves the cursor one step in `dir`: a line up or down, a character left or right
    /// on the line, to the next or previous word start or the next word end, or to the
    /// first or last line. Nothing happens without a document.
    pub fn move_cursor(&mut self, dir: MoveDirection)
        requires
            old(self).wf(),
        ensures
            final(self).wf(),
            move_cursor_done(*old(self), *final(self), dir),
    {
        if !self.loaded {
            return;
        }
        let line = self.cursor_line;
        let col = self.cursor_col;
        match dir {
            MoveDirection::Up => {
                self.place_cursor(line.saturating_sub(1), col);
            },
            MoveDirection::Down => {
                let total = self.total_lines();
                let target = if line.0 < total {
                    DocLine(line.0 + 1)
                } else {
                    line
                };
                self.place_cursor(target, col);
            },
            MoveDirection::Left => {
                let c = step_left_visual_col(&self.doc, line, col);
                self.place_cursor(line, c);
            },
            MoveDirection::Right => {
                let c = step_right_visual_col(&self.doc, line, col);
                self.place_cursor(line, c);
            },
            MoveDirection::Top => {
                self.place_cursor(DocLine(0), VisualCol(0));
            },
            MoveDirection::Bottom => {
                let total = self.total_lines();
                self.place_cursor(DocLine(total), VisualCol(0));
            },
            _ => {
                let target = match str_from_utf8(&self.doc) {
                    Some(text) => {
                        let at = self.cursor_byte.0 as usize;
                        match dir {
                            MoveDirection::NextWord => next_word_start(text, at),
                            MoveDirection::PrevWord => prev_word_start(text, at),
                            _ => next_word_end(text, at),
                        }
                    },
                    None => {
                        return;
                    },
                };
                let ghost clamped = clamp_to(target as int, self.doc@.len() as int);
                let (l, c) = line_col_from_byte_offset(&self.doc, DocByte(target as u64));
                proof {
                    lemma_pos_line_bound(self.doc@, clamped);
                }
                self.place_cursor(l, c);
            },
        }
    }

    /// Puts the cursor on line `target` (kept within the document), at column 0.
    pub fn goto_line(&mut self, target: DocLine)
        requires
            old(self).wf(),
        ensures
            final(self).wf(),
            goto_line_done(*old(self), *final(self), target),
    {
        if !self.loaded {
            return;
        }
        let total = self.total_lines();
        let line = if target.0 < total {
            target
        } else {
            DocLine(total)
        };
        self.place_cursor(line, VisualCol(0));
    }

    /// Puts the cursor at `pos` (its line kept within the document), as a mouse click does.
    pub fn click_cursor(&mut self, pos: CursorPosition)
        requires
            old(self).wf(),
        ensures
            final(self).wf(),
            click_cursor_done(*old(self), *final(self), pos),
    {
        if !self.loaded {
            return;
        }
        let total = self.total_lines();
        let line = if pos.line.0 < total {
            pos.line
        } else {
            DocLine(total)
        };
        self.place_cursor(line, pos.col);
    }

    /// Moves the cursor within its line: to column 0, to the first non-blank column, to
    /// the end of the line, or (smart home) to the first non-blank column unless already
    /// there, else to column 0.
    pub fn line_motion(&mut self, motion: LineMotion)
        requires
            old(self).wf(),
        ensures
            final(self).wf(),
            line_motion_done(*old(self), *final(self), motion),
    {
        if !self.loaded {
            return;
        }
        let line = self.cursor_line;
        let col = match motion {
            LineMotion::Start => VisualCol(0),
            LineMotion::FirstNonWhitespace => {
                let c = first_non_whitespace_visual_col(&self.doc, line);
                proof {
                    lemma_first_non_blank_col(line_content(self.doc@, line.0 as nat), c.0 as int);
                }
                c
            },
            LineMotion::End => line_end_visual_col(&self.doc, line),
            LineMotion::SmartHome => smart_home_visual_col(&self.doc, line, self.cursor_col),
        };
        self.place_cursor(line, col);
    }

    /// Moves the cursor one page up: the viewport height less one line (at least one).
    pub fn page_up(&mut self)
        requires
            old(self).wf(),
        ensures
            final(self).wf(),
            page_up_done(*old(self), *final(self)),
    {
        if !self.loaded {
            return;
        }
        let step = page_motion_step(self.viewport_lines);
        self.place_cursor(self.cursor_line.saturating_sub(step), self.cursor_col);
    }

    /// Moves the cursor one page down, stopping at the last line.
    pub fn page_down(&mut self)
        requires
            old(self).wf(),
        ensures
            final(self).wf(),
            page_down_done(*old(self), *final(self)),
    {
        if !self.loaded {
            return;
        }
        let step = page_motion_step(self.viewport_lines);
        let total = self.total_lines();
        let target = self.cursor_line.saturating_add(step);
        let line = if target.0 < total {
            target
        } else {
            DocLine(total)
        };
        self.place_cursor(line, self.cursor_col);
    }

    /// Moves the cursor `delta` lines down (up when negative), kept within the document.
    pub fn scroll_cursor(&mut self, delta: i32)
        requires
            old(self).wf(),
        ensures
            final(self).wf(),
            scroll_cursor_done(*old(self), *final(self), delta),
    {
        if !self.loaded {
            return;
        }
        let total = self.total_lines();
        let moved = self.cursor_line.0 as i64 + delta as i64;
        let line: u32 = if moved < 0 {
            0
        } else if moved > total as i64 {
            total
        } else {
            moved as u32
        };
        self.place_cursor(DocLine(line), self.cursor_col);
    }

    /// Scrolls the viewport by `delta` lines, then pulls the cursor into the lines shown
    /// when it has left them.
    pub fn scroll_view(&mut self, delta: i32)
        requires
            old(self).wf(),
        ensures
            final(self).wf(),
            scroll_view_done(*old(self), *final(self), delta),
    {
        if !self.loaded {
            return;
        }
        let total = self.total_lines();
        self.scroll_y = scroll_viewport(self.scroll_y, delta, total, self.viewport_lines);
        let line = clamp_cursor_line_to_viewport(
            self.cursor_line,
            self.scroll_y,
            total,
            self.viewport_lines,
        );
        if line.0 != self.cursor_line.0 {
            self.place_cursor(line, self.cursor_col);
        }
    }

    /// The terminal was resized to `height` rows: all but the status row show text.
    pub fn resize(&mut self, height: u16)
        ensures
            resize_done(*old(self), *final(self), height),
    {
        self.viewport_lines = height.saturating_sub(1) as u32;
    }

    /// Applies the deltas of `deltas` in order, records them in the history when
    /// `record_undo` holds, and moves the cursor to `cursor_override` or just past the
    /// last insertion; see `edit_done`. Says whether the whole group was applied.
    fn apply_edit(
        &mut self,
        deltas: Vec<TextDelta>,
        record_undo: bool,
        cursor_override: Option<DocByte>,
    ) -> (ok: bool)
        requires
            old(self).wf(),
            record_undo ==> old(self).ledger.next_state().0 < u64::MAX,
        ensures
            final(self).wf(),
            edit_done(*old(self), *final(self), deltas@, record_undo, cursor_override),
            ok == group_fits(old(self).doc@, deltas@),
    {
        reveal(edit_done);
        if deltas.len() == 0 {
            return true;
        }
        let kept_line = self.cursor_line;
        let kept_col = self.cursor_col;
        let kept_byte = self.cursor_byte;
        self.cursor_line = DocLine(0);
        self.cursor_byte = DocByte(0);
        match apply_group_to(&mut self.doc, &deltas) {
            Err((e, applied)) => {
                if applied > 0 {
                    let total = self.total_lines();
                    let line = if kept_line.0 < total {
                        kept_line
                    } else {
                        DocLine(total)
                    };
                    self.place_cursor(line, kept_col);
                } else {
                    proof {
                        lemma_group_err_at_start(old(self).doc@, deltas@);
                    }
                    self.cursor_line = kept_line;
                    self.cursor_col = kept_col;
                    self.cursor_byte = kept_byte;
                }
                self.status_message = Some(e);
                false
            },
            Ok(()) => {
                let last = deltas.len() - 1;
                let len = self.doc.len();
                let wanted: u64 = match cursor_override {
                    Some(o) => o.0,
                    None => {
                        let inserted = deltas[last].inserted_text.as_str().as_bytes().len() as u64;
                        deltas[last].global_byte_offset.0.saturating_add(inserted)
                    },
                };
                let cb: u64 = if wanted < len as u64 {
                    wanted
                } else {
                    len as u64
                };
                if record_undo {
                    self.ledger.push_group(deltas);
                }
                let (line, col) = line_col_from_byte_offset(&self.doc, DocByte(cb));
                proof {
                    lemma_pos_line_bound(self.doc@, cb as int);
                    crate::selection::line_col_round_trip(self.doc@, cb as int);
                }
                self.place_cursor(line, col);
                true
            },
        }
    }

    /// Types `c` at the cursor.
    pub fn insert_char(&mut self, c: char)
        requires
            old(self).wf(),
            old(self).ledger.next_state().0 < u64::MAX,
        ensures
            final(self).wf(),
            insert_char_done(*old(self), *final(self), c),
    {
        if !self.loaded {
            return;
        }
        let mut text = String::new();
        push_char(&mut text, c);
        let delta = TextDelta {
            global_byte_offset: self.cursor_byte,
            deleted_text: String::new(),
            inserted_text: text,
            state_before: StateId(0),
            state_after: StateId(0),
        };
        let deltas = vec![delta];
        let ghost g = deltas@;
        let ghost s0 = *self;
        self.apply_edit(deltas, true, None);
        assert(edit_done(s0, *self, g, true, None));
    }

    /// Deletes the character before the cursor; nothing at the start of the document.
    pub fn backspace(&mut self)
        requires
            old(self).wf(),
            old(self).ledger.next_state().0 < u64::MAX,
        ensures
            final(self).wf(),
            backspace_done(*old(self), *final(self)),
    {
        if !self.loaded || self.cursor_byte.0 == 0 {
            return;
        }
        let end = self.cursor_byte.0 as usize;
        let mut start = end - 1;
        while start > 0 && (self.doc[start] & 0xC0) == 0x80
            invariant
                start < end <= self.doc@.len(),
                char_start_at(self.doc@, start as int) == char_start_at(self.doc@, end - 1),
            decreases start,
        {
            start = start - 1;
        }
        let deleted = utf8_lossy(&self.doc[start..end]);
        assert(self.doc@.subrange(start as int, end as int) =~= self.doc@.subrange(
            start as int,
            end as int,
        ));
        let delta = TextDelta {
            global_byte_offset: DocByte(start as u64),
            deleted_text: deleted,
            inserted_text: String::new(),
            state_before: StateId(0),
            state_after: StateId(0),
        };
        let deltas = vec![delta];
        let ghost g = deltas@;
        let ghost s0 = *self;
        self.apply_edit(deltas, true, None);
        assert(edit_done(s0, *self, g, true, None));
    }

    /// Deletes the character under the cursor; nothing at the end of the document. When
    /// the bytes there do not start with a whole character, the status line says so.
    pub fn delete_char(&mut self)
        requires
            old(self).wf(),
            old(self).ledger.next_state().0 < u64::MAX,
        ensures
            final(self).wf(),
            delete_char_done(*old(self), *final(self)),
    {
        if !self.loaded || self.cursor_byte.0 >= self.doc.len() as u64 {
            return;
        }
        let at = self.cursor_byte.0 as usize;
        let end = if at + 4 < self.doc.len() {
            at + 4
        } else {
            self.doc.len()
        };
        let window = &self.doc[at..end];
        let ghost w = window@;
        assert(w =~= char_window(self.doc@, at as int));
        let found = first_char_text(window);
        match found {
            None => {
                self.status_message = Some(String::from_str("Delete target is not valid UTF-8"));
            },
            Some(text) => {
                let delta = TextDelta {
                    global_byte_offset: self.cursor_byte,
                    deleted_text: text,
                    inserted_text: String::new(),
                    state_before: StateId(0),
                    state_after: StateId(0),
                };
                let deltas = vec![delta];
                let ghost g = deltas@;
                let ghost s0 = *self;
                self.apply_edit(deltas, true, None);
                assert(edit_done(s0, *self, g, true, None));
            },
        }
    }

    /// Deletes from the cursor to the end of its line, keeping the newline; the status
    /// line says when the cursor already is at the end.
    pub fn delete_to_line_end(&mut self)
        requires
            old(self).wf(),
            old(self).ledger.next_state().0 < u64::MAX,
        ensures
            final(self).wf(),
            delete_to_line_end_done(*old(self), *final(self)),
    {
        if !self.loaded {
            return;
        }
        let (start, with_newline) = line_byte_range(&self.doc, self.cursor_line, self.cursor_line);
        let end = if with_newline > start && self.doc[with_newline - 1] == NL {
            with_newline - 1
        } else {
            with_newline
        };
        let at = self.cursor_byte.0;
        if at >= end as u64 {
            self.status_message = Some(String::from_str("Already at end of line"));
            return;
        }
        let deleted = utf8_lossy(&self.doc[at as usize..end]);
        let delta = TextDelta {
            global_byte_offset: self.cursor_byte,
            deleted_text: deleted,
            inserted_text: String::new(),
            state_before: StateId(0),
            state_after: StateId(0),
        };
        let deltas = vec![delta];
        let ghost g = deltas@;
        let ghost s0 = *self;
        self.apply_edit(deltas, true, None);
        assert(edit_done(s0, *self, g, true, None));
    }

    /// Undoes the most recent change group, putting the cursor where the change began;
    /// the status line says when there is nothing to undo.
    pub fn undo(&mut self)
        requires
            old(self).wf(),
        ensures
            final(self).wf(),
            undo_done(*old(self), *final(self)),
    {
        if !self.loaded {
            return;
        }
        match self.ledger.undo() {
            Some((inverse, cursor)) => {
                let ghost mid = *self;
                self.apply_edit(inverse, false, Some(cursor));
                proof {
                    let m = undo_model(old(self).ledger.model()).1.unwrap();
                    assert(mid == with_ledger(*old(self), mid.ledger));
                    assert(m.0 == inverse@);
                    assert(DocByte(m.1) == cursor);
                    assert(edit_done(
                        with_ledger(*old(self), mid.ledger),
                        *self,
                        m.0,
                        false,
                        Some(DocByte(m.1)),
                    ));
                }
            },
            None => {
                self.status_message = Some(String::from_str("Already at oldest change"));
                assert(self.ledger.model() == undo_model(old(self).ledger.model()).0);
                assert(self.same_but_cursor(
                        &EditorSession {
                            status_message: self.status_message,
                            ledger: self.ledger,
                            ..*old(self)
                        },
                    ));
            },
        }
    }

    /// Redoes the most recently undone change group; the status line says when there is
    /// nothing to redo.
    pub fn redo(&mut self)
        requires
            old(self).wf(),
        ensures
            final(self).wf(),
            redo_done(*old(self), *final(self)),
    {
        if !self.loaded {
            return;
        }
        match self.ledger.redo() {
            Some((forward, cursor)) => {
                let ghost mid = *self;
                self.apply_edit(forward, false, Some(cursor));
                proof {
                    let m = redo_model(old(self).ledger.model()).1.unwrap();
                    assert(mid == with_ledger(*old(self), mid.ledger));
                    assert(m.0 == forward@);
                    assert(DocByte(m.1) == cursor);
                    assert(edit_done(
                        with_ledger(*old(self), mid.ledger),
                        *self,
                        m.0,
                        false,
                        Some(DocByte(m.1)),
                    ));
                }
            },
            None => {
                self.status_message = Some(String::from_str("Already at newest change"));
            },
        }
    }

    /// Stores `text` in register `r`.
    fn set_register(&mut self, r: char, text: String)
        ensures
            forall|k: char|
                #[trigger] register(final(self).registers@, k) == if k == r {
                    Some(text)
                } else {
                    register(old(self).registers@, k)
                },
            *final(self) == (EditorSession { registers: final(self).registers, ..*old(self) }),
    {
        let mut i: usize = 0;
        while i < self.registers.len() && self.registers[i].0 != r
            invariant
                i <= self.registers@.len(),
                forall|m: int| 0 <= m < i ==> self.registers@[m].0 != r,
            decreases self.registers@.len() - i,
        {
            i = i + 1;
        }
        let ghost regs = self.registers@;
        if i < self.registers.len() {
            self.registers.set(i, (r, text));
            proof {
                assert forall|k: char| #[trigger]
                    register(self.registers@, k) == if k == r {
                        Some(text)
                    } else {
                        register(regs, k)
                    } by {
                    lemma_reg_update(regs, i as int, r, text, k, 0);
                }
            }
        } else {
            self.registers.push((r, text));
            proof {
                assert forall|k: char| #[trigger]
                    register(self.registers@, k) == if k == r {
                        Some(text)
                    } else {
                        register(regs, k)
                    } by {
                    lemma_reg_push(regs, r, text, k, 0);
                }
            }
        }
    }

    /// The text held by register `r`.
    pub fn register_text(&self, r: char) -> (t: Option<String>)
        ensures
            t == register(self.registers@, r),
    {
        let mut i: usize = 0;
        while i < self.registers.len()
            invariant
                i <= self.registers@.len(),
                register(self.registers@, r) == reg_find(self.registers@, r, i as int),
            decreases self.registers@.len() - i,
        {
            if self.registers[i].0 == r {
                return Some(self.registers[i].1.clone());
            }
            i = i + 1;
        }
        None
    }

    /// Yanks the cursor's line, newline included: into the unnamed register, and into
    /// register `r` as well unless `r` is `"` or `+`. The line flashes, and the status line
    /// counts the bytes. Returns the text when `r` is `+`: it goes to the system clipboard.
    pub fn yank_line(&mut self, r: char) -> (clip: Option<String>)
        requires
            old(self).wf(),
        ensures
            final(self).wf(),
            yank_line_done(*old(self), *final(self), r, clip),
    {
        if !self.loaded {
            return None;
        }
        let (start, end) = line_byte_range(&self.doc, self.cursor_line, self.cursor_line);
        let text = utf8_lossy(&self.doc[start..end]);
        let ghost regs0 = self.registers@;
        self.set_register('"', text.clone());
        let ghost regs1 = self.registers@;
        if r != '"' && r != '+' {
            self.set_register(r, text.clone());
        }
        self.yank_flash = Some((DocByte(start as u64), DocByte(end as u64)));
        let mut message = decimal_text((end - start) as u128);
        message.append(" bytes yanked");
        self.status_message = Some(message);
        if r == '+' {
            Some(text)
        } else {
            None
        }
    }

    /// Pastes the text of register `r` (for `+`, `clipboard`: the system clipboard's
    /// text) as whole lines below the cursor's line, and puts the cursor at column 0 of
    /// the first pasted line. An empty text pastes nothing; a missing one is reported.
    pub fn put(&mut self, r: char, clipboard: Option<String>)
        requires
            old(self).wf(),
            old(self).ledger.next_state().0 < u64::MAX,
        ensures
            final(self).wf(),
            put_done(*old(self), *final(self), r, clipboard),
    {
        if !self.loaded {
            return;
        }
        let source = if r == '+' {
            match clipboard {
                Some(t) => Some(t),
                None => self.register_text('"'),
            }
        } else {
            match self.register_text(r) {
                Some(t) => Some(t),
                None => self.register_text('"'),
            }
        };
        let text = match source {
            Some(t) => t,
            None => {
                self.status_message = Some(String::from_str("Register empty"));
                return;
            },
        };
        if text.as_str().unicode_len() == 0 {
            return;
        }
        proof {
            crate::lines::lemma_nl_count_bound(self.doc@);
        }
        let (at, inserted, target) = linewise_put_insertion(&self.doc, self.cursor_line, text.as_str());
        let delta = TextDelta {
            global_byte_offset: DocByte(at as u64),
            deleted_text: String::new(),
            inserted_text: inserted,
            state_before: StateId(0),
            state_after: StateId(0),
        };
        let deltas = vec![delta];
        let ghost g = deltas@;
        let ghost s0 = *self;
        let ok = self.apply_edit(deltas, true, None);
        let ghost mid = *self;
        if ok {
            let total = self.total_lines();
            let line = if target.0 < total {
                target
            } else {
                DocLine(total)
            };
            self.place_cursor(line, VisualCol(0));
        }
        assert(edit_done(s0, mid, g, true, None));
    }

    /// Marks a visual selection from `anchor` to the cursor.
    pub fn set_visual(&mut self, anchor: DocByte, kind: VisualKind)
        ensures
            *final(self) == (EditorSession { active_visual: Some((anchor, kind)), ..*old(self) }),
    {
        self.active_visual = Some((anchor, kind));
    }

    /// Drops the visual selection.
    pub fn clear_visual(&mut self)
        ensures
            *final(self) == (EditorSession { active_visual: None, ..*old(self) }),
    {
        self.active_visual = None;
    }

    /// Ends the flash of a yanked line.
    pub fn clear_flash(&mut self)
        ensures
            *final(self) == (EditorSession { yank_flash: None, ..*old(self) }),
    {
        self.yank_flash = None;
    }

    /// Yanks the visual selection from `anchor` to the cursor into the unnamed register
    /// and ends the selection; the status line counts the bytes. Returns the text, which
    /// also goes to the system clipboard.
    pub fn visual_yank(&mut self, anchor: DocByte, kind: VisualKind) -> (clip: Option<String>)
        requires
            old(self).wf(),
        ensures
            final(self).wf(),
            visual_yank_done(*old(self), *final(self), anchor, kind, clip),
    {
        if !self.loaded {
            return None;
        }
        let ranges = resolve_visual_ranges(anchor, self.cursor_byte, kind, &self.doc);
        let ghost rs = range_view(ranges@);
        self.active_visual = None;
        if ranges.len() == 0 {
            self.status_message = Some(String::from_str("Nothing selected"));
            assert(visual_selection(old(self).doc@, anchor, old(self).cursor_byte, kind, rs));
            return None;
        }
        let text = extract_selection_text(&self.doc, &ranges);
        self.set_register('"', text.clone());
        let mut message = decimal_text(text.as_str().as_bytes().len() as u128);
        message.append(" bytes yanked");
        self.status_message = Some(message);
        assert(visual_selection(old(self).doc@, anchor, old(self).cursor_byte, kind, rs));
        Some(text)
    }

    /// Deletes the visual selection from `anchor` to the cursor, after yanking it into the
    /// unnamed register, and ends the selection; with `change`, insert mode follows a
    /// successful delete.
    pub fn visual_delete(&mut self, anchor: DocByte, kind: VisualKind, change: bool)
        requires
            old(self).wf(),
            old(self).ledger.next_state().0 < u64::MAX,
        ensures
            final(self).wf(),
            visual_delete_done(*old(self), *final(self), anchor, kind, change),
    {
        if !self.loaded {
            return;
        }
        let ranges = resolve_visual_ranges(anchor, self.cursor_byte, kind, &self.doc);
        let ghost rs = range_view(ranges@);
        self.active_visual = None;
        if ranges.len() == 0 {
            self.status_message = Some(String::from_str("Nothing selected"));
            assert(visual_selection(old(self).doc@, anchor, old(self).cursor_byte, kind, rs));
            return;
        }
        let text = extract_selection_text(&self.doc, &ranges);
        self.set_register('"', text);
        let deltas = selection_delete_deltas(&self.doc, &ranges);
        let ghost g = deltas@;
        let ghost mid = *self;
        let count = deltas.len();
        let ok = self.apply_edit(deltas, true, None);
        let ghost fin = *self;
        if ok && change && count > 0 {
            self.mode_override = Some(EditorMode::Insert);
        }
        assert(edit_done(mid, fin, g, true, None));
        assert(visual_selection(old(self).doc@, anchor, old(self).cursor_byte, kind, rs));
    }

    /// Puts the cursor at the start of match `m`.
    fn goto_match(&mut self, m: SearchMatch)
        requires
            old(self).wf(),
        ensures
            final(self).wf(),
            on_match(*final(self), m),
            final(self).same_but_cursor(old(self)),
    {
        let total = self.total_lines();
        let line = if m.line.0 < total {
            m.line
        } else {
            DocLine(total)
        };
        self.place_cursor(line, m.col);
        self.cursor_col = m.col;
    }

    /// Searches the document for `pattern` (a regular expression, case-sensitive) and
    /// goes to the first match at or after the cursor, or the first match when none
    /// follows. The status line reports a pattern that does not compile or has no match.
    pub fn search_start(&mut self, pattern: String)
        requires
            old(self).wf(),
        ensures
            final(self).wf(),
            search_start_done(*old(self), *final(self), pattern),
    {
        if !self.loaded {
            return;
        }
        let re = match build_regex(pattern.as_str(), false) {
            Ok(re) => re,
            Err(message) => {
                self.status_message = Some(message);
                return;
            },
        };
        let matches = find_all_matches(&self.doc, &re);
        self.search_pattern = Some(pattern);
        self.search_case_insensitive = false;
        if matches.len() == 0 {
            self.status_message = Some(String::from_str("Pattern not found"));
            self.search_matches = matches;
            self.search_match_index = None;
            self.search_match_info = None;
            return;
        }
        let ghost ms = matches@;
        let mut idx: usize = 0;
        while idx < matches.len() && !(matches[idx].line.0 > self.cursor_line.0 || (
        matches[idx].line.0 == self.cursor_line.0 && matches[idx].col.0 >= self.cursor_col.0))
            invariant
                idx <= matches@.len(),
                first_match_from(ms, self.cursor_line.0, self.cursor_col.0, 0) == first_match_from(
                    ms,
                    self.cursor_line.0,
                    self.cursor_col.0,
                    idx as int,
                ),
                ms == matches@,
            decreases matches@.len() - idx,
        {
            idx = idx + 1;
        }
        if idx == matches.len() {
            idx = 0;
        }
        let count = matches.len();
        let m = matches[idx];
        self.search_matches = matches;
        self.search_match_index = Some(idx);
        self.goto_match(m);
        self.search_match_info = Some(match_counter(idx + 1, count, false));
    }

    /// Goes to the next (`forward`) or previous match of the last search, wrapping around
    /// at either end, and shows which match it is; the status line says when there was no
    /// search with matches.
    pub fn search_step(&mut self, forward: bool)
        requires
            old(self).wf(),
        ensures
            final(self).wf(),
            search_step_done(*old(self), *final(self), forward),
    {
        if !self.loaded {
            return;
        }
        let n = self.search_matches.len();
        if n == 0 {
            self.status_message = Some(String::from_str("No previous search"));
            return;
        }
        let (idx, wrapped) = if forward {
            match self.search_match_index {
                Some(i) => if i + 1 >= n {
                    (0, true)
                } else {
                    (i + 1, false)
                },
                None => (0, false),
            }
        } else {
            match self.search_match_index {
                Some(i) => if i == 0 {
                    (n - 1, true)
                } else {
                    (i - 1, false)
                },
                None => (n - 1, false),
            }
        };
        let m = self.search_matches[idx];
        self.search_match_index = Some(idx);
        self.goto_match(m);
        self.search_match_info = Some(match_counter(idx + 1, n, wrapped));
    }

    /// Replaces every match of `pattern` in `range` by `replacement` as one change. The
    /// status line counts the substitutions, or says that the pattern does not compile or
    /// was not found; a substitution ends the current search.
    pub fn substitute_all(
        &mut self,
        pattern: String,
        replacement: String,
        range: SubstituteRange,
        flags: SubstituteFlags,
    )
        requires
            old(self).wf(),
            old(self).ledger.next_state().0 < u64::MAX,
            range_in_order(range),
        ensures
            final(self).wf(),
            substitute_all_done(*old(self), *final(self), pattern, replacement, range, flags),
    {
        if !self.loaded {
            return;
        }
        let re = match build_regex(pattern.as_str(), flags.case_insensitive) {
            Ok(re) => re,
            Err(message) => {
                self.status_message = Some(message);
                return;
            },
        };
        let byte_range = resolve_byte_range(range, &self.doc, self.cursor_line);
        let deltas = substitute_text_deltas(&self.doc, &re, replacement.as_str(), byte_range);
        let count = deltas.len();
        if count == 0 {
            self.status_message = Some(String::from_str("Pattern not found"));
            return;
        }
        let ghost g = deltas@;
        let ghost s0 = *self;
        let ok = self.apply_edit(deltas, true, None);
        let ghost mid = *self;
        if ok {
            self.search_matches = Vec::new();
            self.search_match_index = None;
            self.search_match_info = None;
            let mut message = decimal_text(count as u128);
            message.append(" substitution(s)");
            self.status_message = Some(message);
        }
        assert(edit_done(s0, mid, g, true, None));
    }

    /// Opens a document: `content` holds the file's bytes, or nothing for a new file.
    /// The cursor goes to the start, the view to the top, and the history is cleared.
    pub fn load_document(&mut self, path: String, content: Option<Vec<u8>>)
        requires
            old(self).wf(),
            content matches Some(b) ==> small_doc(b@),
        ensures
            final(self).wf(),
            final(self).doc@ == match content {
                Some(b) => b@,
                None => Seq::<u8>::empty(),
            },
            final(self).loaded,
            final(self).file_path == Some(path),
            final(self).cursor_line.0 == 0 && final(self).cursor_col.0 == 0
                && final(self).cursor_byte.0 == 0,
            final(self).scroll_y == 0,
            final(self).ledger.undo_groups().len() == 0,
            final(self).ledger.redo_groups().len() == 0,
            final(self).ledger.current_state() == final(self).ledger.saved_state(),
            final(self).active_visual is None,
            final(self).viewport_lines == old(self).viewport_lines,
            final(self).status_message == old(self).status_message,
            final(self).mode_override == old(self).mode_override,
            final(self).yank_flash == old(self).yank_flash,
            final(self).registers@ == old(self).registers@,
            final(self).search_pattern == old(self).search_pattern,
            final(self).search_case_insensitive == old(self).search_case_insensitive,
            final(self).search_matches@ == old(self).search_matches@,
            final(self).search_match_index == old(self).search_match_index,
            final(self).search_match_info == old(self).search_match_info,
            final(self).confirm_state == old(self).confirm_state,
    {
        self.doc = match content {
            Some(bytes) => bytes,
            None => Vec::new(),
        };
        self.loaded = true;
        self.file_path = Some(path);
        self.cursor_line = DocLine(0);
        self.cursor_col = VisualCol(0);
        self.cursor_byte = DocByte(0);
        self.scroll_y = 0;
        self.ledger.clear();
        self.active_visual = None;
    }

    /// Where a write goes: `save_as` when given, else the document's own file. An error
    /// says that there is no document, or that it has no file name yet.
    pub fn write_target(&self, save_as: Option<String>) -> (r: Result<String, String>)
        ensures
            !self.loaded ==> (r matches Err(m) && m@ == "No file to write"@),
            self.loaded && save_as is Some ==> r == Ok::<String, String>(save_as.unwrap()),
            self.loaded && save_as is None ==> match self.file_path {
                Some(p) => r == Ok::<String, String>(p),
                None => r matches Err(m) && m@ == "No file name"@,
            },
    {
        if !self.loaded {
            return Err(String::from_str("No file to write"));
        }
        match save_as {
            Some(p) => Ok(p),
            None => match &self.file_path {
                Some(p) => Ok(p.clone()),
                None => Err(String::from_str("No file name")),
            },
        }
    }

    /// Records how a write of the document to `path` went: `Ok` with the number of bytes
    /// written marks the document saved (and, for a save-as, makes `path` its file), and
    /// the status line reports either outcome. Says whether to quit: after a successful
    /// write that was asked to quit.
    pub fn write_finished(
        &mut self,
        path: String,
        result: Result<u64, String>,
        save_as: bool,
        quit: bool,
    ) -> (q: bool)
        requires
            old(self).wf(),
        ensures
            final(self).wf(),
            q == (quit && result is Ok),
            final(self).doc@ == old(self).doc@,
            final(self).cursor_line == old(self).cursor_line,
            final(self).cursor_col == old(self).cursor_col,
            final(self).cursor_byte == old(self).cursor_byte,
            match result {
                Ok(n) => {
                    &&& final(self).status_message matches Some(m) && m@ == "\""@ + path@ + "\" "@
                        + decimal(n as nat) + "B written"@
                    &&& final(self).ledger.saved_state() == old(self).ledger.current_state()
                    &&& final(self).ledger.current_state() == old(self).ledger.current_state()
                    &&& final(self).ledger.undo_groups() == old(self).ledger.undo_groups()
                    &&& final(self).ledger.redo_groups() == old(self).ledger.redo_groups()
                    &&& final(self).ledger.next_state() == old(self).ledger.next_state()
                    &&& final(self).file_path == if save_as {
                        Some(path)
                    } else {
                        old(self).file_path
                    }
                    &&& final(self).same_but_cursor(
                        &EditorSession {
                            status_message: final(self).status_message,
                            ledger: final(self).ledger,
                            file_path: final(self).file_path,
                            ..*old(self)
                        },
                    )
                },
                Err(e) => *final(self) == (EditorSession { status_message: Some(e), ..*old(self) }),
            },
    {
        match result {
            Ok(n) => {
                self.ledger.mark_saved();
                let mut message = String::from_str("\"");
                message.append(path.as_str());
                message.append("\" ");
                let size = decimal_text(n as u128);
                message.append(size.as_str());
                message.append("B written");
                self.status_message = Some(message);
                if save_as {
                    self.file_path = Some(path);
                }
                quit
            },
            Err(e) => {
                self.status_message = Some(e);
                false
            },
        }
    }

    /// Starts an interactive substitution: finds the matches of `pattern` in `range`, goes
    /// to the first and asks whether to replace it. The status line reports a pattern that
    /// does not compile or has no match there.
    pub fn substitute_confirm(
        &mut self,
        pattern: String,
        replacement: String,
        range: SubstituteRange,
        flags: SubstituteFlags,
    )
        requires
            old(self).wf(),
        ensures
            final(self).wf(),
            !old(self).loaded ==> *final(self) == *old(self),
            old(self).loaded && !regex_accepts(pattern@, flags.case_insensitive) ==> {
                &&& final(self).status_message matches Some(m) && m@ == "Invalid regex: "@
                    + regex_error_text(pattern@, flags.case_insensitive)
                &&& *final(self) == (EditorSession {
                    status_message: final(self).status_message,
                    ..*old(self)
                })
            },
            old(self).loaded && regex_accepts(pattern@, flags.case_insensitive) ==> {
                let doc = old(self).doc@;
                let ms = matches_in_range(
                    matches_at(doc, regex_match_spans(pattern@, flags.case_insensitive, doc)),
                    range,
                    old(self).cursor_line.0,
                );
                &&& ms.len() == 0 ==> {
                    &&& final(self).status_message matches Some(m) && m@ == "Pattern not found"@
                    &&& *final(self) == (EditorSession {
                        status_message: final(self).status_message,
                        ..*old(self)
                    })
                }
                &&& ms.len() > 0 ==> {
                    &&& final(self).search_pattern == Some(pattern)
                    &&& final(self).search_case_insensitive == flags.case_insensitive
                    &&& final(self).search_matches@ == ms
                    &&& final(self).search_match_index == Some(0usize)
                    &&& final(self).confirm_state matches Some(cs) && cs.replacement == replacement
                        && cs.replacements_done == 0 && cs.total_matches == ms.len() as u32 && cs.flags
                        == flags && cs.range == range
                    &&& on_match(*final(self), ms[0])
                    &&& final(self).mode_override == Some(EditorMode::Confirm)
                    &&& final(self).status_message matches Some(m) && m@ == confirm_prompt(
                        1,
                        ms.len(),
                    )
                    &&& final(self).same_but_cursor(
                        &EditorSession {
                            search_pattern: final(self).search_pattern,
                            search_case_insensitive: flags.case_insensitive,
                            search_matches: final(self).search_matches,
                            search_match_index: final(self).search_match_index,
                            confirm_state: final(self).confirm_state,
                            mode_override: final(self).mode_override,
                            status_message: final(self).status_message,
                            ..*old(self)
                        },
                    )
                }
            },
    {
        if !self.loaded {
            return;
        }
        let re = match build_regex(pattern.as_str(), flags.case_insensitive) {
            Ok(re) => re,
            Err(message) => {
                self.status_message = Some(message);
                return;
            },
        };
        let all = find_all_matches(&self.doc, &re);
        let ghost all_v = all@;
        let matches = filter_matches(all, range, self.cursor_line);
        if matches.len() == 0 {
            self.status_message = Some(String::from_str("Pattern not found"));
            return;
        }
        proof {
            lemma_filtered_lines(all_v, range, self.cursor_line.0, nl_count(self.doc@));
        }
        let total = matches.len();
        let first = matches[0];
        self.search_pattern = Some(pattern);
        self.search_case_insensitive = flags.case_insensitive;
        self.search_matches = matches;
        self.search_match_index = Some(0);
        self.confirm_state = Some(
            ConfirmState {
                replacement,
                replacements_done: 0,
                total_matches: total as u32,
                flags,
                range,
            },
        );
        self.goto_match(first);
        self.mode_override = Some(EditorMode::Confirm);
        self.status_message = Some(confirm_prompt_text(1, total as u64));
    }

    /// Ends the interactive substitution: shows the count and returns to normal mode.
    fn end_run(&mut self, done: u32)
        ensures
            run_ended(*final(self), done),
            *final(self) == (EditorSession {
                status_message: final(self).status_message,
                mode_override: final(self).mode_override,
                confirm_state: None,
                ..*old(self)
            }),
    {
        let mut message = decimal_text(done as u128);
        message.append(" substitution(s)");
        self.status_message = Some(message);
        self.mode_override = Some(EditorMode::Normal);
        self.confirm_state = None;
    }

    /// Answers "no": skips the current match.
    fn confirm_no(&mut self)
        requires
            old(self).wf(),
            old(self).confirm_state is Some,
            old(self).search_matches@.len() > 0,
        ensures
            final(self).wf(),
            confirm_no_done(*old(self), *final(self), old(self).confirm_state.unwrap()),
    {
        let done = match &self.confirm_state {
            Some(cs) => cs.replacements_done,
            None => 0,
        };
        let total = match &self.confirm_state {
            Some(cs) => cs.total_matches,
            None => 0,
        };
        let i = match self.search_match_index {
            Some(i) => i,
            None => 0,
        };
        let n = self.search_matches.len();
        if n - i > 1 {
            let m = self.search_matches[i + 1];
            self.search_match_index = Some(i + 1);
            self.goto_match(m);
            self.status_message = Some(confirm_prompt_text((i + 2) as u64, total as u64));
        } else {
            self.end_run(done);
        }
    }

    /// Answers "quit": stops the interactive substitution and ends the search.
    fn confirm_quit(&mut self)
        requires
            old(self).wf(),
            old(self).confirm_state is Some,
        ensures
            final(self).wf(),
            confirm_quit_done(*old(self), *final(self), old(self).confirm_state.unwrap()),
    {
        let done = match &self.confirm_state {
            Some(cs) => cs.replacements_done,
            None => 0,
        };
        self.end_run(done);
        self.search_matches = Vec::new();
        self.search_match_index = None;
        self.search_match_info = None;
    }

    /// Answers "all": replaces every remaining match from the current one on.
    fn confirm_all(&mut self)
        requires
            old(self).wf(),
            old(self).confirm_state is Some,
            old(self).search_matches@.len() > 0,
            old(self).ledger.next_state().0 < u64::MAX,
        ensures
            final(self).wf(),
            confirm_all_done(*old(self), *final(self), old(self).confirm_state.unwrap()),
    {
        let (replacement, done, flags, range, total) = match &self.confirm_state {
            Some(cs) => (cs.replacement.clone(), cs.replacements_done, cs.flags, cs.range, cs.total_matches),
            None => (String::new(), 0, SubstituteFlags::default(), SubstituteRange::WholeFile, 0),
        };
        let i = match self.search_match_index {
            Some(i) => i,
            None => 0,
        };
        let m = self.search_matches[i];
        let off = byte_offset_from_line_col(&self.doc, m.line, m.col);
        proof {
            lemma_landing_byte(self.doc@, m.line.0 as nat, m.col.0 as int, off.0 as int);
        }
        let pattern = match &self.search_pattern {
            Some(p) => p.clone(),
            None => String::new(),
        };
        let re = match build_regex(pattern.as_str(), flags.case_insensitive) {
            Ok(re) => re,
            Err(message) => {
                self.end_run(done);
                self.search_matches = Vec::new();
                self.search_match_index = None;
                self.search_match_info = None;
                self.status_message = Some(message);
                return;
            },
        };
        let len = self.doc.len();
        let deltas = substitute_text_deltas(
            &self.doc,
            &re,
            replacement.as_str(),
            Some((off.0 as usize, len)),
        );
        let count = deltas.len() as u32;
        let done2 = done.saturating_add(count);
        self.confirm_state = Some(
            ConfirmState { replacement, replacements_done: done2, total_matches: total, flags, range },
        );
        let ghost g = deltas@;
        let ghost s1 = *self;
        proof {
            assert(s1 == with_done(*old(self), old(self).confirm_state.unwrap(), done2));
        }
        let ok = self.apply_edit(deltas, true, None);
        let ghost mid = *self;
        if ok {
            let mut message = decimal_text(done2 as u128);
            message.append(" substitution(s)");
            self.status_message = Some(message);
        }
        self.mode_override = Some(EditorMode::Normal);
        self.search_matches = Vec::new();
        self.search_match_index = None;
        self.search_match_info = None;
        self.confirm_state = None;
        assert(edit_done(s1, mid, g, true, None));
    }

    /// Answers "yes": replaces the current match and offers the next one.
    #[verifier::spinoff_prover]
    #[verifier::rlimit(40)]
    fn confirm_yes(&mut self)
        requires
            old(self).wf(),
            old(self).confirm_state is Some,
            old(self).search_matches@.len() > 0,
            old(self).ledger.next_state().0 < u64::MAX,
        ensures
            final(self).wf(),
            confirm_yes_done(*old(self), *final(self), old(self).confirm_state.unwrap()),
    {
        let (replacement, done, flags, range, total) = match &self.confirm_state {
            Some(cs) => (cs.replacement.clone(), cs.replacements_done, cs.flags, cs.range, cs.total_matches),
            None => (String::new(), 0, SubstituteFlags::default(), SubstituteRange::WholeFile, 0),
        };
        let i = match self.search_match_index {
            Some(i) => i,
            None => 0,
        };
        let m = self.search_matches[i];
        let off = byte_offset_from_line_col(&self.doc, m.line, m.col);
        proof {
            lemma_landing_byte(self.doc@, m.line.0 as nat, m.col.0 as int, off.0 as int);
        }
        let start = off.0 as usize;
        let len = self.doc.len();
        let end = if m.byte_len <= len - start {
            start + m.byte_len
        } else {
            len
        };
        let deleted = utf8_lossy(&self.doc[start..end]);
        let delta = TextDelta {
            global_byte_offset: off,
            deleted_text: deleted,
            inserted_text: replacement.clone(),
            state_before: StateId(0),
            state_after: StateId(0),
        };
        let done1 = done.saturating_add(1);
        self.confirm_state = Some(
            ConfirmState {
                replacement: replacement.clone(),
                replacements_done: done1,
                total_matches: total,
                flags,
                range,
            },
        );
        let deltas = vec![delta];
        let ghost g = deltas@;
        let ghost s1 = *self;
        proof {
            assert(self.doc@.subrange(start as int, end as int) =~= self.doc@.subrange(
                start as int,
                end as int,
            ));
            assert(s1 == with_done(*old(self), old(self).confirm_state.unwrap(), done1));
        }
        let ok = self.apply_edit(deltas, true, None);
        let ghost mid = *self;
        let ghost cs0 = old(self).confirm_state.unwrap();
        let ghost w = with_done(*old(self), cs0, sat_add_u32(cs0.replacements_done, 1));
        proof {
            let mm = current_match(*old(self));
            assert(mm == m);
            assert(edit_done(w, mid, g, true, None));
            assert(plain_delta(
                g[0],
                landing_byte(old(self).doc@, mm.line.0 as nat, mm.col.0 as int),
                lossy_text(old(self).doc@.subrange(start as int, end as int)),
                cs0.replacement@,
            ));
        }
        if !ok {
            return;
        }
        assert(self.search_pattern == old(self).search_pattern && self.search_match_index == old(
            self,
        ).search_match_index && self.confirm_state == s1.confirm_state) by {
            reveal(edit_done);
        }
        let pattern = match &self.search_pattern {
            Some(p) => p.clone(),
            None => String::new(),
        };
        let re = match build_regex(pattern.as_str(), flags.case_insensitive) {
            Ok(re) => re,
            Err(message) => {
                self.end_run(done1);
                self.status_message = Some(message);
                return;
            },
        };
        let all = find_all_matches(&self.doc, &re);
        let ghost all_v = all@;
        let nm = filter_matches(all, range, m.line);
        proof {
            lemma_filtered_lines(all_v, range, m.line.0, nl_count(self.doc@));
        }
        let rep = replacement.as_str().as_bytes();
        let mut rl: u128 = m.line.0 as u128;
        let mut rc: u128 = m.col.0 as u128;
        let mut k: usize = 0;
        while k < rep.len()
            invariant
                k <= rep@.len(),
                rep@ == text_bytes(replacement),
                rl <= m.line.0 + k,
                rc <= m.col.0 + 4 * k,
                (rl as int, rc as int) == advance_pos(
                    m.line.0 as int,
                    m.col.0 as int,
                    rep@.take(k as int),
                ),
            decreases rep@.len() - k,
        {
            proof {
                assert(rep@.take(k + 1).drop_last() =~= rep@.take(k as int));
            }
            let b = rep[k];
            if b == NL {
                rl = rl + 1;
                rc = 0;
            } else if b == crate::lines::TAB {
                rc = rc + 4 - rc % 4;
            } else {
                rc = rc + 1;
            }
            k = k + 1;
        }
        proof {
            assert(rep@.take(rep@.len() as int) =~= rep@);
        }
        let ghost nmv = nm@;
        let mut j: usize = 0;
        while j < nm.len() && !(nm[j].line.0 as u128 > rl || (nm[j].line.0 as u128 == rl
            && nm[j].col.0 as u128 >= rc))
            invariant
                j <= nm@.len(),
                nmv == nm@,
                first_match_after(nmv, rl as int, rc as int, 0) == first_match_after(
                    nmv,
                    rl as int,
                    rc as int,
                    j as int,
                ),
            decreases nm@.len() - j,
        {
            j = j + 1;
        }
        let n = nm.len();
        if j < n {
            let next = nm[j];
            self.search_matches = nm;
            self.search_match_index = Some(j);
            self.goto_match(next);
            self.status_message = Some(confirm_prompt_text(done1 as u64 + 1, total as u64));
        } else {
            self.search_matches = nm;
            if i >= n {
                self.search_match_index = None;
            }
            self.end_run(done1);
        }
    }

    /// Applies an answer to the interactive substitution's question about the current
    /// match: replace it, skip it, replace it and all after it, or stop. Nothing happens
    /// without a document or outside an interactive substitution.
    pub fn confirm_response(&mut self, action: ConfirmAction)
        requires
            old(self).wf(),
            old(self).ledger.next_state().0 < u64::MAX,
            old(self).confirm_state is Some ==> old(self).search_matches@.len() > 0,
        ensures
            final(self).wf(),
            confirm_done(*old(self), action, *final(self)),
    {
        if !self.loaded || self.confirm_state.is_none() {
            return;
        }
        match action {
            ConfirmAction::Yes => self.confirm_yes(),
            ConfirmAction::No => self.confirm_no(),
            ConfirmAction::All => self.confirm_all(),
            ConfirmAction::Quit => self.confirm_quit(),
        }
    }

    /// Records the outcome of switching to theme `name`: the status line confirms the
    /// switch or shows why it failed.
    pub fn theme_applied(&mut self, name: String, result: Result<(), String>)
        ensures
            match result {
                Ok(()) => final(self).status_message matches Some(m) && m@ == "Theme set to "@
                    + name@,
                Err(e) => final(self).status_message == Some(e),
            },
            *final(self) == (EditorSession {
                status_message: final(self).status_message,
                ..*old(self)
            }),
    {
        match result {
            Ok(()) => {
                let mut message = String::from_str("Theme set to ");
                message.append(name.as_str());
                self.status_message = Some(message);
            },
            Err(e) => {
                self.status_message = Some(e);
            },
        }
    }

    /// Deletes the word object at the cursor: the identifier, keyword or literal token
    /// there, or the nearest one across whitespace and punctuation. With `change`, insert
    /// mode follows. The status line says when there is none.
    pub fn delete_inner_word(&mut self, change: bool)
        requires
            old(self).wf(),
            old(self).ledger.next_state().0 < u64::MAX,
        ensures
            final(self).wf(),
            inner_word_done(*old(self), *final(self), change),
    {
        if !self.loaded {
            return;
        }
        let elements = parse_rust(&self.doc);
        let tokens = collect_tokens(&elements);
        let ghost ts = tokens_of(parsed_elements(self.doc@));
        assert(tokens@ == ts);
        let found = match select_word_token(&tokens, self.cursor_byte.0) {
            None => None,
            Some(i) => {
                proof {
                    crate::word_object::lemma_word_token_range(tokens@, self.cursor_byte.0 as int);
                }
                assert(word_token_at(ts, self.cursor_byte.0 as int) == Some(i as int));
                assert(tokens@[i as int] == ts[i as int]);
                Some(tokens[i])
            },
        };
        assert(found matches Some(tok) ==> (word_token_at(
            tokens_of(parsed_elements(self.doc@)),
            self.cursor_byte.0 as int,
        ) matches Some(i) && tok == tokens_of(parsed_elements(self.doc@))[i]));
        assert(found is None ==> word_token_at(
            tokens_of(parsed_elements(self.doc@)),
            self.cursor_byte.0 as int,
        ) is None);
        let (start, end) = match found {
            Some((_, a, b)) => {
                if a < b && (b as usize) <= self.doc.len() {
                    (a as usize, b as usize)
                } else {
                    self.status_message = Some(String::from_str("No structural word at cursor"));
                    return;
                }
            },
            None => {
                self.status_message = Some(String::from_str("No structural word at cursor"));
                return;
            },
        };
        let deleted = utf8_lossy(&self.doc[start..end]);
        let delta = TextDelta {
            global_byte_offset: DocByte(start as u64),
            deleted_text: deleted,
            inserted_text: String::new(),
            state_before: StateId(0),
            state_after: StateId(0),
        };
        let deltas = vec![delta];
        let ghost g = deltas@;
        let ghost s0 = *self;
        let ok = self.apply_edit(deltas, true, None);
        let ghost mid = *self;
        if ok && change {
            self.mode_override = Some(EditorMode::Insert);
        }
        assert(edit_done(s0, mid, g, true, None));
    }
}

/// Applying a delta and then its inverse gives back the document.
pub proof fn lemma_delta_inverse(doc: Seq<u8>, d: TextDelta)
    requires
        small_doc(doc),
        delta_step(doc, d) is Ok,
    ensures
        delta_step(delta_step(doc, d)->Ok_0, inverse_delta(d)) == Ok::<Seq<u8>, Seq<char>>(doc),
{
    let at = d.global_byte_offset.0 as int;
    let del = text_bytes(d.deleted_text);
    let ins = text_bytes(d.inserted_text);
    let nd = splice(doc, at, del.len() as int, ins);
    let inv = inverse_delta(d);
    assert(text_bytes(inv.deleted_text) == ins);
    assert(text_bytes(inv.inserted_text) == del);
    assert(nd.subrange(at, at + ins.len()) =~= ins);
    assert(splice(nd, at, ins.len() as int, del) =~= doc);
}

/// The prefix of a group that applies also applies.
pub proof fn lemma_group_err_extends_ok(doc: Seq<u8>, g: Seq<TextDelta>)
    requires
        g.len() > 0,
        group_step(doc, g) is Ok,
    ensures
        group_step(doc, g.drop_last()) is Ok,
{
}

/// A group that starts with `y` applies as `y` followed by the rest.
pub proof fn lemma_group_front(doc: Seq<u8>, y: TextDelta, rest: Seq<TextDelta>)
    requires
        delta_step(doc, y) is Ok,
        group_step(delta_step(doc, y)->Ok_0, rest) is Ok,
    ensures
        group_step(doc, seq![y] + rest) == group_step(delta_step(doc, y)->Ok_0, rest),
    decreases rest.len(),
{
    let d1 = delta_step(doc, y)->Ok_0;
    if rest.len() == 0 {
        assert(seq![y] + rest =~= seq![y]);
        assert(seq![y].drop_last() =~= Seq::<TextDelta>::empty());
        assert(group_step(doc, Seq::<TextDelta>::empty()) == Ok::<Seq<u8>, (Seq<u8>, Seq<char>, nat)>(doc));
        assert(group_step(doc, seq![y]) == Ok::<Seq<u8>, (Seq<u8>, Seq<char>, nat)>(d1));
    } else {
        assert((seq![y] + rest).drop_last() =~= seq![y] + rest.drop_last());
        assert((seq![y] + rest).last() == rest.last());
        lemma_group_err_extends_ok(d1, rest);
        lemma_group_front(doc, y, rest.drop_last());
    }
}

/// What a group that applies leaves is a document of the size the session holds.
pub proof fn lemma_group_small(doc: Seq<u8>, g: Seq<TextDelta>)
    requires
        small_doc(doc),
        group_step(doc, g) is Ok,
    ensures
        small_doc(group_step(doc, g)->Ok_0),
    decreases g.len(),
{
    if g.len() > 0 {
        lemma_group_small(doc, g.drop_last());
    }
}

/// Undoing a group: applying a group and then its inverse (each delta inverted, in
/// reverse order) gives back the document.
pub proof fn group_inverse_restores(doc: Seq<u8>, g: Seq<TextDelta>)
    requires
        small_doc(doc),
        group_step(doc, g) is Ok,
    ensures
        group_step(group_step(doc, g)->Ok_0, inverse_group(g)) == Ok::<
            Seq<u8>,
            (Seq<u8>, Seq<char>, nat),
        >(doc),
    decreases g.len(),
{
    if g.len() == 0 {
        assert(inverse_group(g) =~= Seq::<TextDelta>::empty());
    } else {
        let front = g.drop_last();
        let x = g.last();
        let d0 = group_step(doc, front)->Ok_0;
        let nd = group_step(doc, g)->Ok_0;
        lemma_group_small(doc, front);
        lemma_delta_inverse(d0, x);
        group_inverse_restores(doc, front);
        assert(inverse_group(g) =~= seq![inverse_delta(x)] + inverse_group(front));
        lemma_group_front(nd, inverse_delta(x), inverse_group(front));
    }
}

/// Stamping a group with state ids changes nothing about what it does to a document.
pub proof fn lemma_stamp_applies_alike(doc: Seq<u8>, g: Seq<TextDelta>, a: StateId, b: StateId)
    ensures
        group_step(doc, stamp_group(g, a, b)) == group_step(doc, g),
        inverse_group(stamp_group(g, a, b)) == inverse_group(g),
    decreases g.len(),
{
    if g.len() > 0 {
        lemma_stamp_applies_alike(doc, g.drop_last(), a, b);
        assert(stamp_group(g, a, b).drop_last() =~= stamp_group(g.drop_last(), a, b));
    }
    assert(inverse_group(stamp_group(g, a, b)) =~= inverse_group(g));
}

/// An edit followed by an undo leaves the document as it was before the edit: when the
/// session `s1` came from `s0` by applying and recording the group `g`, and `s2` came
/// from `s1` by an undo, `s2` holds the document of `s0`, and its undo history is that
/// of `s0` again.
pub proof fn undo_restores_edit(
    s0: EditorSession,
    s1: EditorSession,
    s2: EditorSession,
    g: Seq<TextDelta>,
)
    requires
        s0.wf(),
        g.len() > 0,
        group_fits(s0.doc@, g),
        edit_done(s0, s1, g, true, None),
        exists|l: UndoLedger|
            l.model() == undo_model(s1.ledger.model()).0 && #[trigger] edit_done(
                with_ledger(s1, l),
                s2,
                undo_model(s1.ledger.model()).1.unwrap().0,
                false,
                Some(DocByte(undo_model(s1.ledger.model()).1.unwrap().1)),
            ),
    ensures
        s2.doc@ == s0.doc@,
        s2.ledger.model().undo == s0.ledger.model().undo,
        s2.ledger.model().current == s0.ledger.model().current,
{
    reveal(edit_done);
    let m = s0.ledger.model();
    let stamped = stamp_group(g, m.current, m.next);
    undo_reverts_push(m, g);
    let l = choose|l: UndoLedger|
        l.model() == undo_model(s1.ledger.model()).0 && #[trigger] edit_done(
            with_ledger(s1, l),
            s2,
            undo_model(s1.ledger.model()).1.unwrap().0,
            false,
            Some(DocByte(undo_model(s1.ledger.model()).1.unwrap().1)),
        );
    let nd = group_step(s0.doc@, g)->Ok_0;
    lemma_stamp_applies_alike(s0.doc@, g, m.current, m.next);
    group_inverse_restores(s0.doc@, g);
    assert(with_ledger(s1, l).doc@ == nd);
    assert(undo_model(s1.ledger.model()).1.unwrap().0 == inverse_group(g));
}

/// Session `t` is session `s` after `move_cursor`.
pub open spec fn move_cursor_done(s: EditorSession, t: EditorSession, dir: MoveDirection) -> bool {
    &&& t.same_but_cursor(&s)
    &&& s.loaded ==> motion_done(s, t, dir)
    &&& !s.loaded ==> t == s
}

/// Session `t` is session `s` after `goto_line`.
pub open spec fn goto_line_done(s: EditorSession, t: EditorSession, target: DocLine) -> bool {
    &&& t.same_but_cursor(&s)
    &&& s.loaded ==> t.placed_at(
        clamp_to(target.0 as int, nl_count(s.doc@) as int),
        0
    )
    &&& !s.loaded ==> t == s
}

/// Session `t` is session `s` after `click_cursor`.
pub open spec fn click_cursor_done(
    s: EditorSession,
    t: EditorSession,
    pos: CursorPosition,
) -> bool {
    &&& t.same_but_cursor(&s)
    &&& s.loaded ==> t.placed_at(
        clamp_to(pos.line.0 as int, nl_count(s.doc@) as int),
        pos.col.0 as int
    )
    &&& !s.loaded ==> t == s
}

/// Session `t` is session `s` after `line_motion`.
pub open spec fn line_motion_done(s: EditorSession, t: EditorSession, motion: LineMotion) -> bool {
    &&& t.same_but_cursor(&s)
    &&& s.loaded ==> t.placed_at(
        s.cursor_line.0 as int,
        line_motion_col(
            line_content(s.doc@, s.cursor_line.0 as nat),
            s.cursor_col.0 as int,
            motion,
        )
    )
    &&& !s.loaded ==> t == s
}

/// Session `t` is session `s` after `page_up`.
pub open spec fn page_up_done(s: EditorSession, t: EditorSession) -> bool {
    &&& t.same_but_cursor(&s)
    &&& s.loaded ==> t.placed_at(
        line_back(
            s.cursor_line.0 as int,
            if s.viewport_lines > 1 {
                s.viewport_lines - 1
            } else {
                1
            },
        ),
        s.cursor_col.0 as int
    )
    &&& !s.loaded ==> t == s
}

/// Session `t` is session `s` after `page_down`.
pub open spec fn page_down_done(s: EditorSession, t: EditorSession) -> bool {
    &&& t.same_but_cursor(&s)
    &&& s.loaded ==> t.placed_at(
        line_forward(
            s.cursor_line.0 as int,
            if s.viewport_lines > 1 {
                s.viewport_lines - 1
            } else {
                1
            },
            nl_count(s.doc@) as int,
        ),
        s.cursor_col.0 as int
    )
    &&& !s.loaded ==> t == s
}

/// Session `t` is session `s` after `scroll_cursor`.
pub open spec fn scroll_cursor_done(s: EditorSession, t: EditorSession, delta: i32) -> bool {
    &&& t.same_but_cursor(&s)
    &&& s.loaded ==> t.placed_at(
        line_shift(
            s.cursor_line.0 as int,
            delta as int,
            nl_count(s.doc@) as int,
        ),
        s.cursor_col.0 as int
    )
    &&& !s.loaded ==> t == s
}

/// Session `t` is session `s` after `scroll_view`.
pub open spec fn scroll_view_done(s: EditorSession, t: EditorSession, delta: i32) -> bool {
    &&& !s.loaded ==> t == s
    &&& s.loaded ==> ({
        let total = nl_count(s.doc@) as u32;
        let top = spec_scroll_viewport(s.scroll_y, delta, total, s.viewport_lines);
        let line = spec_clamp_cursor_line(
            s.cursor_line.0,
            top as u32,
            total,
            s.viewport_lines,
        );
        &&& t.scroll_y == top
        &&& line == s.cursor_line.0 ==> t.cursor_line == s.cursor_line
            && t.cursor_col == s.cursor_col && t.cursor_byte
            == s.cursor_byte
        &&& line != s.cursor_line.0 ==> t.placed_at(
            line,
            s.cursor_col.0 as int,
        )
    })
    &&& s.loaded ==> t.same_but_cursor(
        &EditorSession { scroll_y: t.scroll_y, ..s }
    )
}

/// Session `t` is session `s` after `resize`.
pub open spec fn resize_done(s: EditorSession, t: EditorSession, height: u16) -> bool {
    &&& t.viewport_lines == if height > 0 {
        height - 1
    } else {
        0
    }
    &&& t.same_but_cursor(
        &EditorSession { viewport_lines: t.viewport_lines, ..s }
    )
    &&& t.cursor_line == s.cursor_line
    &&& t.cursor_col == s.cursor_col
    &&& t.cursor_byte == s.cursor_byte
}

/// Session `t` is session `s` after `insert_char`.
pub open spec fn insert_char_done(s: EditorSession, t: EditorSession, c: char) -> bool {
    &&& !s.loaded ==> t == s
    &&& s.loaded ==> exists|g: Seq<TextDelta>|
    g.len() == 1 && plain_delta(
        g[0],
        s.cursor_byte.0 as int,
        Seq::empty(),
        seq![c],
    ) && #[trigger] edit_done(s, t, g, true, None)
}

/// Session `t` is session `s` after `backspace`.
pub open spec fn backspace_done(s: EditorSession, t: EditorSession) -> bool {
    &&& !s.loaded || s.cursor_byte.0 == 0 ==> t == s
    &&& s.loaded && s.cursor_byte.0 > 0 ==> ({
        let e = s.cursor_byte.0 as int;
        let st = char_start_at(s.doc@, e - 1);
        exists|g: Seq<TextDelta>|
            g.len() == 1 && plain_delta(
                g[0],
                st,
                lossy_text(s.doc@.subrange(st, e)),
                Seq::empty(),
            ) && #[trigger] edit_done(s, t, g, true, None)
    })
}

/// Session `t` is session `s` after `delete_char`.
pub open spec fn delete_char_done(s: EditorSession, t: EditorSession) -> bool {
    &&& !s.loaded || s.cursor_byte.0 >= s.doc@.len() ==> t
        == s
    &&& s.loaded && s.cursor_byte.0 < s.doc@.len() ==> ({
        let at = s.cursor_byte.0 as int;
        let w = char_window(s.doc@, at);
        match first_char_len_from(w, 1) {
            None => {
                &&& t.status_message matches Some(m) && m@
                    == "Delete target is not valid UTF-8"@
                &&& t.same_but_cursor(
                    &EditorSession { status_message: t.status_message, ..s },
                )
                &&& t.cursor_line == s.cursor_line
                &&& t.cursor_col == s.cursor_col
                &&& t.cursor_byte == s.cursor_byte
            },
            Some(k) => exists|g: Seq<TextDelta>|
                g.len() == 1 && plain_delta(g[0], at, decode_utf8(w.take(k)), Seq::empty())
                    && #[trigger] edit_done(s, t, g, true, None),
        }
    })
}

/// Session `t` is session `s` after `delete_to_line_end`.
pub open spec fn delete_to_line_end_done(s: EditorSession, t: EditorSession) -> bool {
    &&& !s.loaded ==> t == s
    &&& s.loaded ==> ({
        let at = s.cursor_byte.0 as int;
        let end = line_content_end(s.doc@, s.cursor_line.0 as nat);
        &&& at >= end ==> {
            &&& t.status_message matches Some(m) && m@ == "Already at end of line"@
            &&& t.same_but_cursor(
                &EditorSession { status_message: t.status_message, ..s },
            )
            &&& t.cursor_line == s.cursor_line
            &&& t.cursor_col == s.cursor_col
            &&& t.cursor_byte == s.cursor_byte
        }
        &&& at < end ==> exists|g: Seq<TextDelta>|
            g.len() == 1 && plain_delta(
                g[0],
                at,
                lossy_text(s.doc@.subrange(at, end)),
                Seq::empty(),
            ) && #[trigger] edit_done(s, t, g, true, None)
    })
}

/// Session `t` is session `s` after `undo`.
pub open spec fn undo_done(s: EditorSession, t: EditorSession) -> bool {
    &&& !s.loaded ==> t == s
    &&& s.loaded && undo_model(s.ledger.model()).1 is None ==> {
        &&& t.ledger.model() == undo_model(s.ledger.model()).0
        &&& t.status_message matches Some(m) && m@ == "Already at oldest change"@
        &&& t.same_but_cursor(
            &EditorSession {
                status_message: t.status_message,
                ledger: t.ledger,
                ..s
            },
        )
        &&& t.cursor_line == s.cursor_line
        &&& t.cursor_col == s.cursor_col
        &&& t.cursor_byte == s.cursor_byte
    }
    &&& s.loaded && undo_model(s.ledger.model()).1 is Some ==> exists|l: UndoLedger|
    l.model() == undo_model(s.ledger.model()).0 && #[trigger] edit_done(
        with_ledger(s, l),
        t,
        undo_model(s.ledger.model()).1.unwrap().0,
        false,
        Some(DocByte(undo_model(s.ledger.model()).1.unwrap().1)),
    )
}

/// Session `t` is session `s` after `redo`.
pub open spec fn redo_done(s: EditorSession, t: EditorSession) -> bool {
    &&& !s.loaded ==> t == s
    &&& s.loaded && redo_model(s.ledger.model()).1 is None ==> {
        &&& t.ledger.model() == redo_model(s.ledger.model()).0
        &&& t.status_message matches Some(m) && m@ == "Already at newest change"@
        &&& t.same_but_cursor(
            &EditorSession {
                status_message: t.status_message,
                ledger: t.ledger,
                ..s
            },
        )
        &&& t.cursor_line == s.cursor_line
        &&& t.cursor_col == s.cursor_col
        &&& t.cursor_byte == s.cursor_byte
    }
    &&& s.loaded && redo_model(s.ledger.model()).1 is Some ==> exists|l: UndoLedger|
    l.model() == redo_model(s.ledger.model()).0 && #[trigger] edit_done(
        with_ledger(s, l),
        t,
        redo_model(s.ledger.model()).1.unwrap().0,
        false,
        Some(DocByte(redo_model(s.ledger.model()).1.unwrap().1)),
    )
}

/// Session `t` is session `s` after `yank_line` returned `clip`.
pub open spec fn yank_line_done(
    s: EditorSession,
    t: EditorSession,
    r: char,
    clip: Option<String>,
) -> bool {
    &&& !s.loaded ==> t == s && clip is None
    &&& s.loaded ==> ({
        let doc = s.doc@;
        let line = s.cursor_line.0 as nat;
        let start = crate::lines::line_start_pos(doc, line);
        let end = crate::lines::line_start_pos(doc, line + 1);
        let text = lossy_text(doc.subrange(start, end));
        &&& forall|k: char|
            (k == '"' || (k == r && r != '+')) ==> (#[trigger] register(
                t.registers@,
                k,
            ) matches Some(x) && x@ == text)
        &&& forall|k: char|
            !(k == '"' || (k == r && r != '+')) ==> #[trigger] register(
                t.registers@,
                k,
            ) == register(s.registers@, k)
        &&& t.yank_flash == Some((DocByte(start as u64), DocByte(end as u64)))
        &&& t.status_message matches Some(m) && yank_message(
            m@,
            (end - start) as nat,
        )
        &&& (clip matches Some(c) ==> c@ == text) && (clip is Some <==> r == '+')
        &&& t.same_but_cursor(
            &EditorSession {
                registers: t.registers,
                yank_flash: t.yank_flash,
                status_message: t.status_message,
                ..s
            },
        )
        &&& t.cursor_line == s.cursor_line
        &&& t.cursor_col == s.cursor_col
        &&& t.cursor_byte == s.cursor_byte
    })
}

/// Session `t` is session `s` after `put`.
pub open spec fn put_done(
    s: EditorSession,
    t: EditorSession,
    r: char,
    clipboard: Option<String>,
) -> bool {
    &&& !s.loaded ==> t == s
    &&& s.loaded ==> match put_source(s.registers@, r, clipboard) {
        None => {
            &&& t.status_message matches Some(m) && m@ == "Register empty"@
            &&& t == (EditorSession {
                status_message: t.status_message,
                ..s
            })
        },
        Some(pt) => {
            let doc = s.doc@;
            let off = landing_byte(doc, s.cursor_line.0 as nat, 0);
            let at = line_end_after(doc, off);
            let needs_break = at == doc.len() && doc.len() > 0 && doc.last() != NL;
            let ins = if needs_break {
                seq!['\n'] + pt@
            } else {
                pt@
            };
            let target = if doc.len() == 0 {
                0
            } else {
                s.cursor_line.0 + 1
            };
            &&& pt@.len() == 0 ==> t == s
            &&& pt@.len() > 0 ==> exists|g: Seq<TextDelta>, mid: EditorSession|
                g.len() == 1 && plain_delta(g[0], at, Seq::empty(), ins)
                    && #[trigger] edit_done(s, mid, g, true, None) && (
                group_fits(doc, g) ==> t.placed_at(
                    clamp_to(target, nl_count(mid.doc@) as int),
                    0,
                ) && t.same_but_cursor(&mid)) && (!group_fits(doc, g)
                    ==> t == mid)
        }
    }
}

/// Session `t` is session `s` after `visual_yank` returned `clip`.
pub open spec fn visual_yank_done(
    s: EditorSession,
    t: EditorSession,
    anchor: DocByte,
    kind: VisualKind,
    clip: Option<String>,
) -> bool {
    &&& !s.loaded ==> t == s && clip is None
    &&& s.loaded ==> exists|rs: Seq<(int, int)>|
        #[trigger] visual_selection(s.doc@, anchor, s.cursor_byte, kind, rs)
            && {
            let text = selection_text(s.doc@, rs, rs.len() as int);
            &&& t.active_visual is None
            &&& rs.len() == 0 ==> {
                &&& clip is None
                &&& t.status_message matches Some(m) && m@ == "Nothing selected"@
                &&& t == (EditorSession {
                    status_message: t.status_message,
                    active_visual: None,
                    ..s
                })
            }
            &&& rs.len() > 0 ==> {
                &&& clip matches Some(c) && c@ == text
                &&& register(t.registers@, '"') matches Some(x) && x@ == text
                &&& forall|k: char|
                    k != '"' ==> #[trigger] register(t.registers@, k) == register(
                        s.registers@,
                        k,
                    )
                &&& t.status_message matches Some(m) && yank_message(
                    m@,
                    vstd::utf8::encode_utf8(text).len(),
                )
                &&& t == (EditorSession {
                    status_message: t.status_message,
                    registers: t.registers,
                    active_visual: None,
                    ..s
                })
            }
        }
}

/// Session `t` is session `s` after `visual_delete`.
pub open spec fn visual_delete_done(
    s: EditorSession,
    t: EditorSession,
    anchor: DocByte,
    kind: VisualKind,
    change: bool,
) -> bool {
    &&& !s.loaded ==> t == s
    &&& s.loaded ==> exists|rs: Seq<(int, int)>|
    #[trigger] visual_selection(s.doc@, anchor, s.cursor_byte, kind, rs)
        && selection_deleted(s, t, rs, change)
}

/// Session `t` is session `s` after `search_start`.
pub open spec fn search_start_done(s: EditorSession, t: EditorSession, pattern: String) -> bool {
    &&& !s.loaded ==> t == s
    &&& s.loaded && !regex_accepts(pattern@, false) ==> {
        &&& t.status_message matches Some(m) && m@ == "Invalid regex: "@
            + regex_error_text(pattern@, false)
        &&& t == (EditorSession {
            status_message: t.status_message,
            ..s
        })
    }
    &&& s.loaded && regex_accepts(pattern@, false) ==> {
        let doc = s.doc@;
        let ms = matches_at(doc, regex_match_spans(pattern@, false, doc));
        &&& t.search_pattern == Some(pattern)
        &&& !t.search_case_insensitive
        &&& t.search_matches@ == ms
        &&& ms.len() == 0 ==> {
            &&& t.status_message matches Some(m) && m@ == "Pattern not found"@
            &&& t.search_match_index is None
            &&& t.search_match_info is None
            &&& t.cursor_line == s.cursor_line
            &&& t.cursor_col == s.cursor_col
            &&& t.cursor_byte == s.cursor_byte
            &&& t.same_but_cursor(
                &EditorSession {
                    status_message: t.status_message,
                    search_pattern: t.search_pattern,
                    search_case_insensitive: false,
                    search_matches: t.search_matches,
                    search_match_index: None,
                    search_match_info: None,
                    ..s
                },
            )
        }
        &&& ms.len() > 0 ==> {
            let idx = first_match_from(
                ms,
                s.cursor_line.0,
                s.cursor_col.0,
                0,
            );
            &&& t.search_match_index == Some(idx as usize)
            &&& on_match(t, ms[idx])
            &&& t.search_match_info matches Some(t) && t@ == match_info(
                (idx + 1) as nat,
                ms.len(),
            )
            &&& t.same_but_cursor(
                &EditorSession {
                    search_pattern: t.search_pattern,
                    search_case_insensitive: false,
                    search_matches: t.search_matches,
                    search_match_index: t.search_match_index,
                    search_match_info: t.search_match_info,
                    ..s
                },
            )
        }
    }
}

/// Session `t` is session `s` after `search_step`.
pub open spec fn search_step_done(s: EditorSession, t: EditorSession, forward: bool) -> bool {
    &&& !s.loaded ==> t == s
    &&& s.loaded && s.search_matches@.len() == 0 ==> {
        &&& t.status_message matches Some(m) && m@ == "No previous search"@
        &&& t == (EditorSession {
            status_message: t.status_message,
            ..s
        })
    }
    &&& s.loaded && s.search_matches@.len() > 0 ==> {
        let ms = s.search_matches@;
        let (idx, wrapped) = match_step(
            s.search_match_index,
            ms.len() as int,
            forward,
        );
        &&& t.search_match_index == Some(idx as usize)
        &&& on_match(t, ms[idx])
        &&& t.search_match_info matches Some(t) && t@ == match_info(
            (idx + 1) as nat,
            ms.len(),
        ) + if wrapped {
            " (wrapped)"@
        } else {
            Seq::<char>::empty()
        }
        &&& t.same_but_cursor(
            &EditorSession {
                search_match_index: t.search_match_index,
                search_match_info: t.search_match_info,
                ..s
            },
        )
    }
}

/// Match `m` starts at or after line `line`, column `col`.
pub open spec fn at_or_after(m: SearchMatch, line: u32, col: u32) -> bool {
    m.line.0 > line || (m.line.0 == line && m.col.0 >= col)
}

proof fn lemma_first_match_from(ms: Seq<SearchMatch>, line: u32, col: u32, i: int)
    requires
        0 <= i <= ms.len(),
    ensures
        ({
            let k = first_match_from(ms, line, col, i);
            &&& (exists|j: int| i <= j < ms.len() && at_or_after(#[trigger] ms[j], line, col)) ==> {
                &&& i <= k < ms.len()
                &&& at_or_after(ms[k], line, col)
                &&& forall|j: int| i <= j < k ==> !at_or_after(#[trigger] ms[j], line, col)
            }
            &&& (forall|j: int| i <= j < ms.len() ==> !at_or_after(#[trigger] ms[j], line, col))
                ==> k == 0
        }),
    decreases ms.len() - i,
{
    if i < ms.len() {
        lemma_first_match_from(ms, line, col, i + 1);
        if !at_or_after(ms[i], line, col) {
            if exists|j: int| i <= j < ms.len() && at_or_after(#[trigger] ms[j], line, col) {
                let j = choose|j: int| i <= j < ms.len() && at_or_after(#[trigger] ms[j], line, col);
                assert(i + 1 <= j);
            }
        }
    }
}

/// A new search puts the cursor on the first match that starts at or after the cursor,
/// and on the first match of the document when every match lies before the cursor.
pub proof fn search_starts_at_the_next_match(s: EditorSession, t: EditorSession, pattern: String)
    requires
        search_start_done(s, t, pattern),
        s.loaded,
        regex_accepts(pattern@, false),
        t.search_matches@.len() > 0,
    ensures
        t.search_match_index matches Some(k) && {
            let ms = t.search_matches@;
            let line = s.cursor_line.0;
            let col = s.cursor_col.0;
            &&& k < ms.len()
            &&& (exists|j: int| 0 <= j < ms.len() && at_or_after(#[trigger] ms[j], line, col)) ==> {
                &&& at_or_after(ms[k as int], line, col)
                &&& forall|j: int| 0 <= j < k ==> !at_or_after(#[trigger] ms[j], line, col)
            }
            &&& (forall|j: int| 0 <= j < ms.len() ==> !at_or_after(#[trigger] ms[j], line, col))
                ==> k == 0
        },
{
    lemma_first_match_from(t.search_matches@, s.cursor_line.0, s.cursor_col.0, 0);
    assert(t.search_matches@.len() == t.search_matches.len());
}

/// The counter a search step shows on match `k` (counted from 0) of `n`.
pub open spec fn step_counter(k: int, n: int, wrapped: bool) -> Seq<char> {
    match_info((k + 1) as nat, n as nat) + if wrapped {
        " (wrapped)"@
    } else {
        Seq::<char>::empty()
    }
}

/// Search steps walk the matches as a ring: from match `i` of `n`, `n` goes to match
/// `(i + 1) mod n` and `N` to match `(i - 1) mod n`, and the counter says "wrapped"
/// exactly when the step went past the last match to the first, or past the first to
/// the last. With no match chosen yet, `n` starts at the first match and `N` at the
/// last, without wrapping.
pub proof fn search_steps_walk_a_ring(s: EditorSession, t: EditorSession, forward: bool)
    requires
        search_step_done(s, t, forward),
        s.loaded,
        s.search_matches@.len() > 0,
        s.search_match_index matches Some(i) ==> i < s.search_matches@.len(),
    ensures
        ({
            let n = s.search_matches@.len() as int;
            match s.search_match_index {
                Some(i) => {
                    let k = if forward {
                        (i + 1) % n
                    } else {
                        (i + n - 1) % n
                    };
                    let wrapped = if forward {
                        i + 1 == n
                    } else {
                        i == 0
                    };
                    &&& t.search_match_index == Some(k as usize)
                    &&& t.search_match_info matches Some(m) && m@ == step_counter(k, n, wrapped)
                },
                None => {
                    let k = if forward {
                        0
                    } else {
                        n - 1
                    };
                    &&& t.search_match_index == Some(k as usize)
                    &&& t.search_match_info matches Some(m) && m@ == step_counter(k, n, false)
                },
            }
        }),
        t.search_matches@ == s.search_matches@,
{
    let n = s.search_matches@.len() as int;
    match s.search_match_index {
        Some(i) => {
            if i + 1 < n {
                vstd::arithmetic::div_mod::lemma_small_mod((i + 1) as nat, n as nat);
            } else {
                vstd::arithmetic::div_mod::lemma_mod_self_0(n);
            }
            if i > 0 {
                assert((i + n - 1) % n == i - 1) by {
                    vstd::arithmetic::div_mod::lemma_mod_add_multiples_vanish((i - 1) as int, n);
                    vstd::arithmetic::div_mod::lemma_small_mod((i - 1) as nat, n as nat);
                }
            } else {
                vstd::arithmetic::div_mod::lemma_small_mod((n - 1) as nat, n as nat);
            }
        },
        None => {},
    }
}

/// A step to the next match followed by a step to the previous one comes back to the
/// match it started from, and so does a step back followed by a step forward.
pub proof fn search_steps_undo_each_other(
    s: EditorSession,
    t: EditorSession,
    u: EditorSession,
    forward: bool,
)
    requires
        search_step_done(s, t, forward),
        search_step_done(t, u, !forward),
        s.loaded,
        s.search_matches@.len() > 0,
        s.search_match_index matches Some(i) && i < s.search_matches@.len(),
    ensures
        u.search_match_index == s.search_match_index,
{
    search_steps_walk_a_ring(s, t, forward);
    let n = s.search_matches@.len() as int;
    let k = t.search_match_index->0;
    assert(s.search_matches@.len() == s.search_matches.len());
    assert(t.loaded);
    assert(k < n) by {
        let i = s.search_match_index->0;
        if forward {
            vstd::arithmetic::div_mod::lemma_mod_pos_bound((i + 1) as int, n);
        } else {
            vstd::arithmetic::div_mod::lemma_mod_pos_bound((i + n - 1) as int, n);
        }
    }
    let i = s.search_match_index->0;
    if forward {
        if i + 1 < n {
            vstd::arithmetic::div_mod::lemma_small_mod((i + 1) as nat, n as nat);
            assert(k == i + 1);
        } else {
            vstd::arithmetic::div_mod::lemma_mod_self_0(n);
            assert(k == 0);
        }
    } else {
        if i > 0 {
            vstd::arithmetic::div_mod::lemma_mod_add_multiples_vanish((i - 1) as int, n);
            vstd::arithmetic::div_mod::lemma_small_mod((i - 1) as nat, n as nat);
            assert(k == i - 1);
        } else {
            vstd::arithmetic::div_mod::lemma_small_mod((n - 1) as nat, n as nat);
            assert(k == n - 1);
        }
    }
    search_steps_walk_a_ring(t, u, !forward);
    if forward {
        if i + 1 < n {
            vstd::arithmetic::div_mod::lemma_mod_add_multiples_vanish(i as int, n);
            vstd::arithmetic::div_mod::lemma_small_mod(i as nat, n as nat);
            assert((k + n - 1) % n == i);
        } else {
            vstd::arithmetic::div_mod::lemma_small_mod((n - 1) as nat, n as nat);
            assert((k + n - 1) % n == i);
        }
    } else {
        if i > 0 {
            vstd::arithmetic::div_mod::lemma_small_mod(i as nat, n as nat);
            assert((k + 1) % n == i);
        } else {
            vstd::arithmetic::div_mod::lemma_mod_self_0(n);
            assert((k + 1) % n == i);
        }
    }
}

/// Session `t` is session `s` after `substitute_all`.
pub open spec fn substitute_all_done(
    s: EditorSession,
    t: EditorSession,
    pattern: String,
    replacement: String,
    range: SubstituteRange,
    flags: SubstituteFlags,
) -> bool {
    &&& !s.loaded ==> t == s
    &&& s.loaded && !regex_accepts(pattern@, flags.case_insensitive) ==> {
        &&& t.status_message matches Some(m) && m@ == "Invalid regex: "@
            + regex_error_text(pattern@, flags.case_insensitive)
        &&& t == (EditorSession {
            status_message: t.status_message,
            ..s
        })
    }
    &&& s.loaded && regex_accepts(pattern@, flags.case_insensitive) ==> {
        let exp = substitutions(
            s.doc@,
            pattern@,
            flags.case_insensitive,
            replacement@,
            range,
            s.cursor_line.0,
        );
        &&& exp.len() == 0 ==> {
            &&& t.status_message matches Some(m) && m@ == "Pattern not found"@
            &&& t == (EditorSession {
                status_message: t.status_message,
                ..s
            })
        }
        &&& exp.len() > 0 ==> exists|g: Seq<TextDelta>, mid: EditorSession|
            #[trigger] edit_done(s, mid, g, true, None) && {
                &&& deltas_replace_matches(g, exp)
                &&& group_fits(s.doc@, g) ==> {
                    &&& t.status_message matches Some(m) && m@ == decimal(
                        exp.len(),
                    ) + " substitution(s)"@
                    &&& t.search_matches@.len() == 0
                    &&& t == (EditorSession {
                        status_message: t.status_message,
                        search_matches: t.search_matches,
                        search_match_index: None,
                        search_match_info: None,
                        ..mid
                    })
                }
                &&& !group_fits(s.doc@, g) ==> t == mid
            }
    }
}

} // verus!
