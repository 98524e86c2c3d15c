use vstd::prelude::*;

use vstd::utf8::{valid_utf8, decode_utf8};

use crate::coords::{DocByte, DocLine, StateId, VisualCol};
use crate::lines::{NL, byte_offset_from_line_col, line_byte_range, line_start_pos, small_doc};
use crate::selection::{landing_byte, lemma_landing_byte};
use crate::text::{char_offset, char_table};
use crate::undo::TextDelta;

verus! {

/// The chars that `String::from_utf8_lossy` makes of `bytes`.
pub uninterp spec fn lossy_text(bytes: Seq<u8>) -> Seq<char>;

/// `String::from_utf8_lossy(bytes).into_owned()`. Its documentation promises that
/// valid UTF-8 comes back unchanged; how invalid sequences become U+FFFD is not
/// restated, only named by `lossy_text`, a function of the bytes alone.
#[verifier::external_body]
pub(crate) fn utf8_lossy(bytes: &[u8]) -> (r: String)
    ensures
        r@ == lossy_text(bytes@),
        valid_utf8(bytes@) ==> r@ == decode_utf8(bytes@),
{
    String::from_utf8_lossy(bytes).into_owned()
}

/// End of the content of line `line`: its last byte before the newline, or the end of
/// the document for the last line.
pub open spec fn line_content_end(doc: Seq<u8>, line: nat) -> int {
    let start = line_start_pos(doc, line);
    let end = line_start_pos(doc, line + 1);
    if end > start && doc[end - 1] == NL {
        end - 1
    } else {
        end
    }
}

/// The delta that deletes from the cursor to the end of its line, keeping the newline.
/// `None` when the cursor already sits at or past the end of the line's content.
pub fn delete_to_line_end_delta(doc: &[u8], cursor_line: DocLine, cursor_col: VisualCol) -> (r:
    Option<TextDelta>)
    requires
        small_doc(doc@),
    ensures
        ({
            let start = landing_byte(doc@, cursor_line.0 as nat, cursor_col.0 as int);
            let end = line_content_end(doc@, cursor_line.0 as nat);
            &&& r is None <==> start >= end
            &&& r matches Some(d) ==> {
                &&& d.global_byte_offset.0 == start
                &&& d.deleted_text@ == lossy_text(doc@.subrange(start, end))
                &&& valid_utf8(doc@.subrange(start, end)) ==> d.deleted_text@ == decode_utf8(
                    doc@.subrange(start, end),
                )
                &&& d.inserted_text@ == Seq::<char>::empty()
                &&& d.state_before.0 == 0
                &&& d.state_after.0 == 0
            }
        }),
{
    let cursor_abs = byte_offset_from_line_col(doc, cursor_line, cursor_col);
    proof {
        lemma_landing_byte(doc@, cursor_line.0 as nat, cursor_col.0 as int, cursor_abs.0 as int);
    }
    let delete_start = cursor_abs.0 as usize;
    let (line_start, line_end_with_newline) = line_byte_range(doc, cursor_line, cursor_line);
    let line_end = if line_end_with_newline > line_start && doc[line_end_with_newline - 1] == NL {
        line_end_with_newline - 1
    } else {
        line_end_with_newline
    };
    if delete_start >= line_end {
        return None;
    }
    let deleted = utf8_lossy(&doc[delete_start..line_end]);
    Some(
        TextDelta {
            global_byte_offset: cursor_abs,
            deleted_text: deleted,
            inserted_text: String::new(),
            state_before: StateId(0),
            state_after: StateId(0),
        },
    )
}

/// Index just past the first newline at or after `i`, or the end of the document.
pub open spec fn line_end_after(doc: Seq<u8>, i: int) -> int
    decreases doc.len() - i,
{
    if i < 0 || i >= doc.len() {
        doc.len() as int
    } else if doc[i] == NL {
        i + 1
    } else {
        line_end_after(doc, i + 1)
    }
}

/// Where a linewise put of `text` below line `cursor_line` inserts, what it inserts,
/// and the line the cursor moves to. At the end of a document that lacks a final newline,
/// a newline is inserted first; on an empty document the cursor stays on the first line.
pub fn linewise_put_insertion(doc: &[u8], cursor_line: DocLine, text: &str) -> (r: (
    usize,
    String,
    DocLine,
))
    requires
        small_doc(doc@),
        doc@.len() > 0 ==> cursor_line.0 < u32::MAX,
    ensures
        ({
            let off = landing_byte(doc@, cursor_line.0 as nat, 0);
            let line_end = line_end_after(doc@, off);
            let needs_break = line_end == doc@.len() && doc@.len() > 0 && doc@.last() != NL;
            &&& r.0 == line_end
            &&& r.1@ == (if needs_break {
                seq!['\n'] + text@
            } else {
                text@
            })
            &&& r.2.0 == (if doc@.len() == 0 {
                0
            } else {
                cursor_line.0 + 1
            })
        }),
{
    let zero = VisualCol(0);
    let global = byte_offset_from_line_col(doc, cursor_line, zero);
    proof {
        assert(zero.0 as int == 0);
        lemma_landing_byte(doc@, cursor_line.0 as nat, zero.0 as int, global.0 as int);
    }
    let off = global.0 as usize;
    let mut i = off;
    while i < doc.len() && doc[i] != NL
        invariant
            off <= i <= doc@.len(),
            line_end_after(doc@, i as int) == line_end_after(doc@, off as int),
        decreases doc@.len() - i,
    {
        i = i + 1;
    }
    let line_end = if i < doc.len() {
        i + 1
    } else {
        doc.len()
    };
    let needs_line_break = line_end == doc.len() && doc.len() > 0 && doc[doc.len() - 1] != NL;
    let inserted_text = if needs_line_break {
        let mut s = String::from_str("\n");
        s.append(text);
        proof {
            reveal_strlit("\n");
        }
        s
    } else {
        String::from_str(text)
    };
    let target = if doc.len() == 0 {
        DocLine(0)
    } else {
        DocLine(cursor_line.0 + 1)
    };
    (line_end, inserted_text, target)
}

/// Number of leading chars, from index `i` on, that `a` and `b` share.
pub open spec fn shared_prefix_from(a: Seq<char>, b: Seq<char>, i: int) -> int
    decreases a.len() - i,
{
    if 0 <= i < a.len() && i < b.len() && a[i] == b[i] {
        shared_prefix_from(a, b, i + 1)
    } else {
        i
    }
}

/// Number of leading chars that `a` and `b` share.
pub open spec fn shared_prefix(a: Seq<char>, b: Seq<char>) -> int {
    shared_prefix_from(a, b, 0)
}

/// Number of trailing chars, counting on from `k`, that `a` and `b` share.
pub open spec fn shared_suffix_from(a: Seq<char>, b: Seq<char>, k: int) -> int
    decreases a.len() - k,
{
    if 0 <= k < a.len() && k < b.len() && a[a.len() - 1 - k] == b[b.len() - 1 - k] {
        shared_suffix_from(a, b, k + 1)
    } else {
        k
    }
}

/// Number of trailing chars that `a` and `b` share.
pub open spec fn shared_suffix(a: Seq<char>, b: Seq<char>) -> int {
    shared_suffix_from(a, b, 0)
}

proof fn lemma_shared_prefix_range(a: Seq<char>, b: Seq<char>, i: int)
    requires
        0 <= i <= a.len(),
        i <= b.len(),
    ensures
        i <= shared_prefix_from(a, b, i) <= a.len(),
        shared_prefix_from(a, b, i) <= b.len(),
    decreases a.len() - i,
{
    if i < a.len() && i < b.len() && a[i] == b[i] {
        lemma_shared_prefix_range(a, b, i + 1);
    }
}

proof fn lemma_shared_suffix_range(a: Seq<char>, b: Seq<char>, k: int)
    requires
        0 <= k <= a.len(),
        k <= b.len(),
    ensures
        k <= shared_suffix_from(a, b, k) <= a.len(),
        shared_suffix_from(a, b, k) <= b.len(),
    decreases a.len() - k,
{
    if k < a.len() && k < b.len() && a[a.len() - 1 - k] == b[b.len() - 1 - k] {
        lemma_shared_suffix_range(a, b, k + 1);
    }
}

/// Leading chars shared by the char sequences `a[from..]` and `b[from..]`, counted
/// from `from`.
fn shared_prefix_len(a: &Vec<char>, b: &Vec<char>) -> (r: usize)
    ensures
        r == shared_prefix(a@, b@),
        r <= a@.len(),
        r <= b@.len(),
{
    proof {
        lemma_shared_prefix_range(a@, b@, 0);
    }
    let mut i: usize = 0;
    while i < a.len() && i < b.len() && a[i] == b[i]
        invariant
            i <= a@.len(),
            i <= b@.len(),
            shared_prefix_from(a@, b@, i as int) == shared_prefix(a@, b@),
        decreases a@.len() - i,
    {
        i = i + 1;
    }
    i
}

/// Trailing chars shared by `a` and `b`.
fn shared_suffix_len(a: &Vec<char>, b: &Vec<char>) -> (r: usize)
    ensures
        r == shared_suffix(a@, b@),
        r <= a@.len(),
        r <= b@.len(),
{
    proof {
        lemma_shared_suffix_range(a@, b@, 0);
    }
    let mut k: usize = 0;
    while k < a.len() && k < b.len() && a[a.len() - 1 - k] == b[b.len() - 1 - k]
        invariant
            k <= a@.len(),
            k <= b@.len(),
            shared_suffix_from(a@, b@, k as int) == shared_suffix(a@, b@),
        decreases a@.len() - k,
    {
        k = k + 1;
    }
    k
}

/// Byte length of the longest common char prefix of `left` and `right`.
pub fn common_char_prefix_len(left: &str, right: &str) -> (r: usize)
    ensures
        r == char_offset(left@, shared_prefix(left@, right@)),
{
    let (lc, loffs) = char_table(left);
    let (rc, roffs) = char_table(right);
    let p = shared_prefix_len(&lc, &rc);
    loffs[p]
}

/// Byte length of the longest common char suffix of `left` and `right`.
pub fn common_char_suffix_len(left: &str, right: &str) -> (r: usize)
    ensures
        r == char_offset(left@, left@.len() as int) - char_offset(
            left@,
            left@.len() - shared_suffix(left@, right@),
        ),
{
    let (lc, loffs) = char_table(left);
    let (rc, roffs) = char_table(right);
    let s = shared_suffix_len(&lc, &rc);
    let n = lc.len();
    proof {
        crate::text::lemma_char_offset_mono(left@, n - s, n as int);
    }
    loffs[n] - loffs[n - s]
}

/// The single replacement that turns `before` into `after`: the longest common char
/// prefix and, after it, the longest common char suffix are kept, and what lies between
/// is replaced. `None` when the texts are equal.
pub fn document_rewrite_delta(before: &str, after: &str) -> (r: Option<(u64, String, String)>)
    ensures
        before@ == after@ <==> r is None,
        r matches Some((offset, deleted, inserted)) ==> {
            let p = shared_prefix(before@, after@);
            let s = shared_suffix(before@.skip(p), after@.skip(p));
            &&& offset == char_offset(before@, p)
            &&& deleted@ == before@.subrange(p, before@.len() - s)
            &&& inserted@ == after@.subrange(p, after@.len() - s)
        },
{
    let ghost b = before@;
    let ghost a = after@;
    let (bc, boffs) = char_table(before);
    let (ac, aoffs) = char_table(after);
    let p = shared_prefix_len(&bc, &ac);
    if p == bc.len() && p == ac.len() {
        proof {
            assert(b =~= a) by {
                assert forall|i: int| 0 <= i < b.len() implies b[i] == a[i] by {
                    lemma_shared_prefix_agrees(b, a, 0, i);
                }
            }
        }
        return None;
    }
    proof {
        if b == a {
            lemma_shared_prefix_full(b);
        }
    }
    let mut brest: Vec<char> = Vec::new();
    let mut arest: Vec<char> = Vec::new();
    let mut i = p;
    while i < bc.len()
        invariant
            p <= i <= bc@.len(),
            bc@ == b,
            brest@ == b.subrange(p as int, i as int),
        decreases bc@.len() - i,
    {
        brest.push(bc[i]);
        i = i + 1;
    }
    let mut i = p;
    while i < ac.len()
        invariant
            p <= i <= ac@.len(),
            ac@ == a,
            arest@ == a.subrange(p as int, i as int),
        decreases ac@.len() - i,
    {
        arest.push(ac[i]);
        i = i + 1;
    }
    proof {
        assert(brest@ =~= b.skip(p as int));
        assert(arest@ =~= a.skip(p as int));
    }
    let s = shared_suffix_len(&brest, &arest);
    let deleted = String::from_str(before.substring_char(p, bc.len() - s));
    let inserted = String::from_str(after.substring_char(p, ac.len() - s));
    Some((boffs[p] as u64, deleted, inserted))
}

proof fn lemma_shared_prefix_agrees(a: Seq<char>, b: Seq<char>, i: int, j: int)
    requires
        0 <= i <= j < shared_prefix_from(a, b, i),
    ensures
        a[j] == b[j],
    decreases a.len() - i,
{
    if i < a.len() && i < b.len() && a[i] == b[i] {
        if i < j {
            lemma_shared_prefix_agrees(a, b, i + 1, j);
        }
    }
}

proof fn lemma_shared_prefix_full(a: Seq<char>)
    ensures
        shared_prefix(a, a) == a.len(),
{
    lemma_shared_prefix_self(a, 0);
}

proof fn lemma_shared_prefix_self(a: Seq<char>, i: int)
    requires
        0 <= i <= a.len(),
    ensures
        shared_prefix_from(a, a, i) == a.len(),
    decreases a.len() - i,
{
    if i < a.len() {
        lemma_shared_prefix_self(a, i + 1);
    }
}

proof fn lemma_shared_suffix_agrees(a: Seq<char>, b: Seq<char>, k0: int, k: int)
    requires
        0 <= k0 <= k < shared_suffix_from(a, b, k0),
    ensures
        a[a.len() - 1 - k] == b[b.len() - 1 - k],
    decreases a.len() - k0,
{
    if 0 <= k0 < a.len() && k0 < b.len() && a[a.len() - 1 - k0] == b[b.len() - 1 - k0] {
        if k0 < k {
            lemma_shared_suffix_agrees(a, b, k0 + 1, k);
        }
    }
}

/// Replaying the rewrite delta on `before` gives `after`: the shared prefix, then the
/// inserted text, then the shared suffix; and the deleted text is exactly what lies
/// between that prefix and suffix in `before`.
pub proof fn rewrite_delta_replays(before: Seq<char>, after: Seq<char>)
    ensures
        ({
            let p = shared_prefix(before, after);
            let s = shared_suffix(before.skip(p), after.skip(p));
            &&& before.take(p) + after.subrange(p, after.len() - s) + before.skip(before.len() - s)
                == after
            &&& before.take(p) + before.subrange(p, before.len() - s) + before.skip(
                before.len() - s,
            ) == before
        }),
{
    let p = shared_prefix(before, after);
    lemma_shared_prefix_range(before, after, 0);
    let bs = before.skip(p);
    let as_ = after.skip(p);
    let s = shared_suffix(bs, as_);
    lemma_shared_suffix_range(bs, as_, 0);
    let lhs = before.take(p) + after.subrange(p, after.len() - s) + before.skip(before.len() - s);
    assert forall|i: int| 0 <= i < after.len() implies lhs[i] == after[i] by {
        if i < p {
            lemma_shared_prefix_agrees(before, after, 0, i);
        } else if i >= after.len() - s {
            let k = after.len() - 1 - i;
            lemma_shared_suffix_agrees(bs, as_, 0, k);
            assert(bs[bs.len() - 1 - k] == before[before.len() - 1 - k]);
            assert(as_[as_.len() - 1 - k] == after[after.len() - 1 - k]);
        }
    }
    assert(lhs =~= after);
    assert(before.take(p) + before.subrange(p, before.len() - s) + before.skip(before.len() - s)
        =~= before);
}

} // verus!
