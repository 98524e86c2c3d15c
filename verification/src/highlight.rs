use vstd::prelude::*;

use crate::coords::DocByte;
use crate::undo::{TextDelta, text_bytes};

verus! {

/// Syntax category of a highlighted span.
#[derive(Debug, Clone, Copy, PartialEq, Eq, Structural, Hash)]
pub enum TokenCategory {
    Keyword,
    String,
    Comment,
    Type,
    Function,
    Number,
    Punctuation,
    Variable,
    Constant,
    Macro,
    Module,
    Lifetime,
    Attribute,
    Operator,
    SelfKeyword,
    BuiltinType,
    MutableVariable,
    Method,
    Crate,
    Whitespace,
    Unclassified,
}

/// Number of token categories.
pub const CATEGORY_COUNT: usize = 21;

/// Position of a category in the declaration order.
pub open spec fn spec_category_index(c: TokenCategory) -> u8 {
    match c {
        TokenCategory::Keyword => 0,
        TokenCategory::String => 1,
        TokenCategory::Comment => 2,
        TokenCategory::Type => 3,
        TokenCategory::Function => 4,
        TokenCategory::Number => 5,
        TokenCategory::Punctuation => 6,
        TokenCategory::Variable => 7,
        TokenCategory::Constant => 8,
        TokenCategory::Macro => 9,
        TokenCategory::Module => 10,
        TokenCategory::Lifetime => 11,
        TokenCategory::Attribute => 12,
        TokenCategory::Operator => 13,
        TokenCategory::SelfKeyword => 14,
        TokenCategory::BuiltinType => 15,
        TokenCategory::MutableVariable => 16,
        TokenCategory::Method => 17,
        TokenCategory::Crate => 18,
        TokenCategory::Whitespace => 19,
        TokenCategory::Unclassified => 20,
    }
}

/// Position of a category in the declaration order.
pub fn category_index(c: TokenCategory) -> (r: u8)
    ensures
        r == spec_category_index(c),
        r < CATEGORY_COUNT,
{
    match c {
        TokenCategory::Keyword => 0,
        TokenCategory::String => 1,
        TokenCategory::Comment => 2,
        TokenCategory::Type => 3,
        TokenCategory::Function => 4,
        TokenCategory::Number => 5,
        TokenCategory::Punctuation => 6,
        TokenCategory::Variable => 7,
        TokenCategory::Constant => 8,
        TokenCategory::Macro => 9,
        TokenCategory::Module => 10,
        TokenCategory::Lifetime => 11,
        TokenCategory::Attribute => 12,
        TokenCategory::Operator => 13,
        TokenCategory::SelfKeyword => 14,
        TokenCategory::BuiltinType => 15,
        TokenCategory::MutableVariable => 16,
        TokenCategory::Method => 17,
        TokenCategory::Crate => 18,
        TokenCategory::Whitespace => 19,
        TokenCategory::Unclassified => 20,
    }
}

/// Index of `TokenCategory::Unclassified`.
pub const UNCLASSIFIED_INDEX: u8 = 20;

/// A highlighted byte range `start..end` of the document.
#[derive(Debug, Clone, Copy, PartialEq, Eq, Structural)]
pub struct HighlightSpan {
    pub start: DocByte,
    pub end: DocByte,
    pub category: TokenCategory,
}

impl HighlightSpan {
    pub fn new(start: DocByte, end: DocByte, category: TokenCategory) -> (r: Self)
        ensures
            r.start == start,
            r.end == end,
            r.category == category,
    {
        HighlightSpan { start, end, category }
    }
}

/// `byte_offset` moved by `shift`, saturating at both ends.
pub open spec fn spec_shift(byte_offset: u64, shift: int) -> u64 {
    if byte_offset + shift < 0 {
        0
    } else if byte_offset + shift > u64::MAX {
        u64::MAX
    } else {
        (byte_offset + shift) as u64
    }
}

/// Moves a byte offset by `shift`, saturating at both ends.
pub fn shift_byte_offset(byte_offset: DocByte, shift: i64) -> (r: DocByte)
    requires
        shift > i64::MIN,
    ensures
        r.0 == spec_shift(byte_offset.0, shift as int),
{
    if shift >= 0 {
        byte_offset.saturating_add(shift as u64)
    } else {
        byte_offset.saturating_sub((-shift) as u64)
    }
}

/// What a span becomes after an edit that replaced `start..end_before` by `shift` more
/// bytes: kept as is before the edit, moved after it, dropped when it touches it.
pub open spec fn rebase_span(span: HighlightSpan, start: u64, end_before: u64, shift: int) -> Option<
    HighlightSpan,
> {
    if span.end.0 <= start {
        Some(span)
    } else if span.start.0 >= end_before {
        Some(
            HighlightSpan {
                start: DocByte(spec_shift(span.start.0, shift)),
                end: DocByte(spec_shift(span.end.0, shift)),
                category: span.category,
            },
        )
    } else {
        None
    }
}

/// All spans rebased, in order, dropping those that the edit touches.
pub open spec fn rebase_spans(spans: Seq<HighlightSpan>, start: u64, end_before: u64, shift: int) -> Seq<
    HighlightSpan,
>
    decreases spans.len(),
{
    if spans.len() == 0 {
        Seq::empty()
    } else {
        let before = rebase_spans(spans.drop_last(), start, end_before, shift);
        match rebase_span(spans.last(), start, end_before, shift) {
            Some(s) => before.push(s),
            None => before,
        }
    }
}

/// The spans after one delta.
pub open spec fn rebase_for_delta(spans: Seq<HighlightSpan>, delta: TextDelta) -> Seq<HighlightSpan> {
    let start = delta.global_byte_offset.0;
    let deleted = text_bytes(delta.deleted_text).len();
    let inserted = text_bytes(delta.inserted_text).len();
    if spans.len() == 0 {
        spans
    } else {
        rebase_spans(spans, start, spec_sat_add(start, deleted as int), inserted - deleted)
    }
}

/// `a + b` saturating at `u64::MAX`.
pub open spec fn spec_sat_add(a: u64, b: int) -> u64 {
    if a + b > u64::MAX {
        u64::MAX
    } else {
        (a + b) as u64
    }
}

/// `x`, stopping at the largest offset.
pub open spec fn capped(x: int) -> int {
    if x > u64::MAX {
        u64::MAX as int
    } else {
        x
    }
}

/// Span `o` is what span `s` rightly becomes after an edit at `start` that replaced the
/// bytes up to `end_before` and grew the text by `shift`: `s` itself when it ends at or
/// before the edit, `s` moved by `shift` when it starts at or after the replaced bytes.
pub open spec fn survives_as(s: HighlightSpan, o: HighlightSpan, start: u64, end_before: int, shift: int) -> bool {
    ||| s.end.0 <= start && o == s
    ||| s.end.0 > start && s.start.0 >= end_before && o.start.0 == capped(s.start.0 + shift)
        && o.end.0 == capped(s.end.0 + shift) && o.category == s.category
}

proof fn lemma_rebase_spans(spans: Seq<HighlightSpan>, start: u64, end_before: u64, shift: int)
    requires
        end_before + shift >= 0,
        forall|i: int| 0 <= i < spans.len() ==> #[trigger] spans[i].start.0 <= spans[i].end.0,
    ensures
        rebase_spans(spans, start, end_before, shift).len() <= spans.len(),
        forall|j: int|
            #![trigger rebase_spans(spans, start, end_before, shift)[j]]
            0 <= j < rebase_spans(spans, start, end_before, shift).len() ==> exists|i: int|
                0 <= i < spans.len() && survives_as(
                    #[trigger] spans[i],
                    rebase_spans(spans, start, end_before, shift)[j],
                    start,
                    end_before as int,
                    shift,
                ),
        forall|i: int|
            #![trigger spans[i]]
            0 <= i < spans.len() && (spans[i].end.0 <= start || spans[i].start.0 >= end_before)
                ==> exists|j: int|
                0 <= j < rebase_spans(spans, start, end_before, shift).len() && survives_as(
                    spans[i],
                    #[trigger] rebase_spans(spans, start, end_before, shift)[j],
                    start,
                    end_before as int,
                    shift,
                ),
    decreases spans.len(),
{
    if spans.len() > 0 {
        let front = spans.drop_last();
        let last = spans.last();
        let n = spans.len() - 1;
        assert forall|i: int| 0 <= i < front.len() implies #[trigger] front[i].start.0
            <= front[i].end.0 by {
            assert(front[i] == spans[i]);
        }
        lemma_rebase_spans(front, start, end_before, shift);
        let before = rebase_spans(front, start, end_before, shift);
        let out = rebase_spans(spans, start, end_before, shift);
        assert(spans[n] == last);
        assert(last.start.0 <= last.end.0);
        let r = rebase_span(last, start, end_before, shift);
        if r is Some {
            assert(survives_as(last, r->0, start, end_before as int, shift));
            assert(out == before.push(r->0));
        } else {
            assert(out == before);
        }
        assert forall|j: int|
            #![trigger out[j]]
            0 <= j < out.len() implies exists|i: int|
                0 <= i < spans.len() && survives_as(
                    #[trigger] spans[i],
                    out[j],
                    start,
                    end_before as int,
                    shift,
                ) by {
            if j < before.len() {
                assert(out[j] == before[j]);
                let i = choose|i: int|
                    0 <= i < front.len() && survives_as(
                        #[trigger] front[i],
                        before[j],
                        start,
                        end_before as int,
                        shift,
                    );
                assert(front[i] == spans[i]);
            } else {
                assert(survives_as(spans[n], out[j], start, end_before as int, shift));
            }
        }
        assert forall|i: int|
            #![trigger spans[i]]
            0 <= i < spans.len() && (spans[i].end.0 <= start || spans[i].start.0 >= end_before)
                implies exists|j: int|
                0 <= j < out.len() && survives_as(
                    spans[i],
                    #[trigger] out[j],
                    start,
                    end_before as int,
                    shift,
                ) by {
            if i < n {
                assert(front[i] == spans[i]);
                let j = choose|j: int|
                    0 <= j < before.len() && survives_as(
                        front[i],
                        #[trigger] before[j],
                        start,
                        end_before as int,
                        shift,
                    );
                assert(out[j] == before[j]);
            } else {
                assert(out[before.len() as int] == r->0);
            }
        }
    }
}

/// After an edit replaces `deleted` bytes at `start` by `inserted` bytes, every cached
/// span that remains comes from a span that lay wholly before the edit, unchanged, or
/// wholly after the deleted bytes, moved by the change in length; no span that
/// overlapped the deleted bytes survives, every span wholly before or after them does,
/// and no span is made up.
pub proof fn rebased_spans_avoid_the_edit(spans: Seq<HighlightSpan>, delta: TextDelta)
    requires
        delta.global_byte_offset.0 + text_bytes(delta.deleted_text).len() <= u64::MAX,
        forall|i: int| 0 <= i < spans.len() ==> #[trigger] spans[i].start.0 <= spans[i].end.0,
    ensures
        ({
            let out = rebase_for_delta(spans, delta);
            let start = delta.global_byte_offset.0;
            let end_before = start + text_bytes(delta.deleted_text).len();
            let shift = text_bytes(delta.inserted_text).len() - text_bytes(delta.deleted_text).len();
            &&& out.len() <= spans.len()
            &&& forall|j: int|
                #![trigger out[j]]
                0 <= j < out.len() ==> exists|i: int|
                    0 <= i < spans.len() && survives_as(#[trigger] spans[i], out[j], start, end_before, shift)
            &&& forall|i: int|
                #![trigger spans[i]]
                0 <= i < spans.len() && (spans[i].end.0 <= start || spans[i].start.0 >= end_before)
                    ==> exists|j: int|
                    0 <= j < out.len() && survives_as(spans[i], #[trigger] out[j], start, end_before, shift)
        }),
{
    let start = delta.global_byte_offset.0;
    let deleted = text_bytes(delta.deleted_text).len();
    let inserted = text_bytes(delta.inserted_text).len();
    if spans.len() > 0 {
        let e = spec_sat_add(start, deleted as int);
        assert(e == start + deleted);
        assert(rebase_for_delta(spans, delta) == rebase_spans(spans, start, e, inserted - deleted));
        lemma_rebase_spans(spans, start, e, inserted - deleted);
    }
}

/// Keeps cached semantic highlights aligned with the text after an edit: spans before the
/// edit stay, spans after it move by the size change, spans that touch it are dropped.
pub fn rebase_semantic_highlights_after_delta(
    semantic_highlights: &mut Vec<HighlightSpan>,
    delta: &TextDelta,
)
    requires
        text_bytes(delta.deleted_text).len() <= i64::MAX,
        text_bytes(delta.inserted_text).len() <= i64::MAX,
    ensures
        final(semantic_highlights)@ == rebase_for_delta(old(semantic_highlights)@, *delta),
{
    if semantic_highlights.len() == 0 {
        return;
    }
    let edit_start = delta.global_byte_offset;
    let deleted_len = delta.deleted_text.as_str().as_bytes().len();
    let inserted_len = delta.inserted_text.as_str().as_bytes().len();
    let edit_end_before = edit_start.saturating_add(deleted_len as u64);
    let shift: i64 = inserted_len as i64 - deleted_len as i64;
    let mut kept: Vec<HighlightSpan> = Vec::new();
    let mut i: usize = 0;
    let ghost spans = semantic_highlights@;
    while i < semantic_highlights.len()
        invariant
            i <= spans.len(),
            spans == semantic_highlights@,
            shift > i64::MIN,
            kept@ == rebase_spans(spans.take(i as int), edit_start.0, edit_end_before.0, shift as int),
        decreases spans.len() - i,
    {
        let span = semantic_highlights[i];
        proof {
            assert(spans.take(i + 1).drop_last() =~= spans.take(i as int));
        }
        if span.end.0 <= edit_start.0 {
            kept.push(span);
        } else if span.start.0 >= edit_end_before.0 {
            kept.push(
                HighlightSpan {
                    start: shift_byte_offset(span.start, shift),
                    end: shift_byte_offset(span.end, shift),
                    category: span.category,
                },
            );
        }
        i = i + 1;
    }
    proof {
        assert(spans.take(i as int) =~= spans);
    }
    *semantic_highlights = kept;
}

} // verus!

verus! {

/// The spans after a sequence of deltas, applied in order.
pub open spec fn rebase_for_deltas(spans: Seq<HighlightSpan>, deltas: Seq<TextDelta>) -> Seq<
    HighlightSpan,
>
    decreases deltas.len(),
{
    if deltas.len() == 0 {
        spans
    } else {
        rebase_for_delta(rebase_for_deltas(spans, deltas.drop_last()), deltas.last())
    }
}

/// Rebases cached semantic highlights over each delta in turn.
pub fn rebase_semantic_highlights_after_deltas(
    semantic_highlights: &mut Vec<HighlightSpan>,
    deltas: &[TextDelta],
)
    requires
        forall|i: int|
            0 <= i < deltas@.len() ==> text_bytes(#[trigger] deltas@[i].deleted_text).len()
                <= i64::MAX && text_bytes(deltas@[i].inserted_text).len() <= i64::MAX,
    ensures
        final(semantic_highlights)@ == rebase_for_deltas(old(semantic_highlights)@, deltas@),
{
    let ghost start = semantic_highlights@;
    let mut i: usize = 0;
    while i < deltas.len()
        invariant
            i <= deltas@.len(),
            forall|k: int|
                0 <= k < deltas@.len() ==> text_bytes(#[trigger] deltas@[k].deleted_text).len()
                    <= i64::MAX && text_bytes(deltas@[k].inserted_text).len() <= i64::MAX,
            semantic_highlights@ == rebase_for_deltas(start, deltas@.take(i as int)),
        decreases deltas@.len() - i,
    {
        proof {
            assert(deltas@.take(i + 1).drop_last() =~= deltas@.take(i as int));
            assert(text_bytes(deltas@[i as int].deleted_text).len() <= i64::MAX);
        }
        rebase_semantic_highlights_after_delta(semantic_highlights, &deltas[i]);
        i = i + 1;
    }
    proof {
        assert(deltas@.take(i as int) =~= deltas@);
    }
}

/// Spans ordered by start.
pub open spec fn starts_sorted(s: Seq<HighlightSpan>) -> bool {
    forall|i: int, j: int| 0 <= i <= j < s.len() ==> s[i].start.0 <= s[j].start.0
}

/// Spans ordered by end.
pub open spec fn ends_sorted(s: Seq<HighlightSpan>) -> bool {
    forall|i: int, j: int| 0 <= i <= j < s.len() ==> s[i].end.0 <= s[j].end.0
}

/// First index, scanning from `i`, whose span starts after byte `b`.
pub open spec fn first_start_after(s: Seq<HighlightSpan>, b: u64, i: int) -> int
    decreases s.len() - i,
{
    if 0 <= i < s.len() && s[i].start.0 <= b {
        first_start_after(s, b, i + 1)
    } else {
        i
    }
}

/// First index, scanning from `i`, whose span ends after byte `b`.
pub open spec fn first_end_after(s: Seq<HighlightSpan>, b: u64, i: int) -> int
    decreases s.len() - i,
{
    if 0 <= i < s.len() && s[i].end.0 <= b {
        first_end_after(s, b, i + 1)
    } else {
        i
    }
}

proof fn lemma_first_start_after(s: Seq<HighlightSpan>, b: u64, lo: int, i: int)
    requires
        0 <= i <= lo <= s.len(),
        forall|k: int| 0 <= k < lo ==> s[k].start.0 <= b,
        lo == s.len() || s[lo].start.0 > b,
    ensures
        first_start_after(s, b, i) == lo,
    decreases lo - i,
{
    if i < lo {
        lemma_first_start_after(s, b, lo, i + 1);
    }
}

proof fn lemma_first_end_after(s: Seq<HighlightSpan>, b: u64, lo: int, i: int)
    requires
        0 <= i <= lo <= s.len(),
        forall|k: int| 0 <= k < lo ==> s[k].end.0 <= b,
        lo == s.len() || s[lo].end.0 > b,
    ensures
        first_end_after(s, b, i) == lo,
    decreases lo - i,
{
    if i < lo {
        lemma_first_end_after(s, b, lo, i + 1);
    }
}

/// Category of the span that covers byte `b`: the last span that starts at or before
/// it, if it has not ended yet.
pub open spec fn spec_category_for_byte(hs: Seq<HighlightSpan>, b: u64) -> TokenCategory {
    let p = first_start_after(hs, b, 0);
    if p > 0 && b < hs[p - 1].end.0 {
        hs[p - 1].category
    } else {
        TokenCategory::Unclassified
    }
}

/// Category of byte `byte_offset` among highlights sorted by start.
pub fn category_for_byte(highlights: &[HighlightSpan], byte_offset: DocByte) -> (r: TokenCategory)
    requires
        starts_sorted(highlights@),
    ensures
        r == spec_category_for_byte(highlights@, byte_offset.0),
{
    let mut lo: usize = 0;
    let mut hi: usize = highlights.len();
    while lo < hi
        invariant
            lo <= hi <= highlights@.len(),
            starts_sorted(highlights@),
            forall|k: int| 0 <= k < lo ==> highlights@[k].start.0 <= byte_offset.0,
            forall|k: int| hi <= k < highlights@.len() ==> highlights@[k].start.0 > byte_offset.0,
        decreases hi - lo,
    {
        let mid = lo + (hi - lo) / 2;
        if highlights[mid].start.0 <= byte_offset.0 {
            lo = mid + 1;
        } else {
            hi = mid;
        }
    }
    proof {
        lemma_first_start_after(highlights@, byte_offset.0, lo as int, 0);
    }
    if lo > 0 {
        let span = highlights[lo - 1];
        if byte_offset.0 < span.end.0 {
            return span.category;
        }
    }
    TokenCategory::Unclassified
}

/// A lexical span gives way when the first semantic span that ends after its start
/// begins before its end.
pub open spec fn overwritten_by(lex: HighlightSpan, semantic: Seq<HighlightSpan>) -> bool {
    let p = first_end_after(semantic, lex.start.0, 0);
    p < semantic.len() && semantic[p].start.0 < lex.end.0
}

/// The lexical spans that no semantic span overwrites, in order.
pub open spec fn kept_lexical(lexical: Seq<HighlightSpan>, semantic: Seq<HighlightSpan>) -> Seq<
    HighlightSpan,
>
    decreases lexical.len(),
{
    if lexical.len() == 0 {
        Seq::empty()
    } else {
        let before = kept_lexical(lexical.drop_last(), semantic);
        if overwritten_by(lexical.last(), semantic) {
            before
        } else {
            before.push(lexical.last())
        }
    }
}

/// Spans `a` and `b` share a byte.
pub open spec fn spans_overlap(a: HighlightSpan, b: HighlightSpan) -> bool {
    a.start.0 < b.end.0 && b.start.0 < a.end.0
}

/// Well-formed spans, each ending at or before the next one starts.
pub open spec fn disjoint_in_order(s: Seq<HighlightSpan>) -> bool {
    &&& forall|i: int| 0 <= i < s.len() ==> #[trigger] s[i].start.0 <= s[i].end.0
    &&& forall|i: int, j: int| 0 <= i < j < s.len() ==> #[trigger] s[i].end.0 <= #[trigger] s[j].start.0
}

proof fn lemma_first_end_after_bounds(s: Seq<HighlightSpan>, b: u64, i: int)
    requires
        0 <= i <= s.len(),
    ensures
        i <= first_end_after(s, b, i) <= s.len(),
        forall|k: int| i <= k < first_end_after(s, b, i) ==> #[trigger] s[k].end.0 <= b,
        first_end_after(s, b, i) < s.len() ==> s[first_end_after(s, b, i)].end.0 > b,
    decreases s.len() - i,
{
    if i < s.len() && s[i].end.0 <= b {
        lemma_first_end_after_bounds(s, b, i + 1);
    }
}

/// Over semantic spans that are disjoint and in order, a lexical span gives way exactly
/// when some semantic span shares a byte with it.
pub proof fn semantic_spans_win_where_they_overlap(lex: HighlightSpan, semantic: Seq<HighlightSpan>)
    requires
        disjoint_in_order(semantic),
    ensures
        overwritten_by(lex, semantic) <==> exists|j: int|
            0 <= j < semantic.len() && spans_overlap(#[trigger] semantic[j], lex),
{
    lemma_first_end_after_bounds(semantic, lex.start.0, 0);
    let p = first_end_after(semantic, lex.start.0, 0);
    if exists|j: int| 0 <= j < semantic.len() && spans_overlap(#[trigger] semantic[j], lex) {
        let j = choose|j: int| 0 <= j < semantic.len() && spans_overlap(#[trigger] semantic[j], lex);
        assert(p <= j);
        if p < j {
            assert(semantic[p].end.0 <= semantic[j].start.0);
            assert(semantic[p].start.0 <= semantic[p].end.0);
        }
    }
    if overwritten_by(lex, semantic) {
        assert(spans_overlap(semantic[p], lex));
    }
}

/// Merging keeps exactly the lexical spans that share no byte with a semantic span, in
/// their order, when the semantic spans are disjoint and in order.
pub proof fn merge_keeps_lexical_spans_clear_of_semantic_ones(
    lexical: Seq<HighlightSpan>,
    semantic: Seq<HighlightSpan>,
)
    requires
        disjoint_in_order(semantic),
    ensures
        kept_lexical(lexical, semantic) == lexical.filter(
            |l: HighlightSpan| !(exists|j: int| 0 <= j < semantic.len() && spans_overlap(#[trigger] semantic[j], l)),
        ),
    decreases lexical.len(),
{
    reveal_with_fuel(Seq::filter, 1);
    if lexical.len() > 0 {
        merge_keeps_lexical_spans_clear_of_semantic_ones(lexical.drop_last(), semantic);
        semantic_spans_win_where_they_overlap(lexical.last(), semantic);
    }
}

/// `slice::sort_unstable_by_key` on the start offset. Its documentation promises a
/// permutation of the spans ordered by start; the order among equal starts is left
/// open, and so it is here.
#[verifier::external_body]
fn sort_spans_by_start(spans: &mut Vec<HighlightSpan>)
    ensures
        final(spans)@.to_multiset() == old(spans)@.to_multiset(),
        starts_sorted(final(spans)@),
{
    spans.sort_unstable_by_key(|span| span.start.0);
}

/// Semantic tags overwrite lexical tags wherever their byte ranges overlap; lexical
/// spans outside every semantic span are kept. The result holds the kept lexical spans
/// and all semantic spans, ordered by start.
pub fn merge_highlights(lexical: &[HighlightSpan], semantic: &[HighlightSpan]) -> (r: Vec<
    HighlightSpan,
>)
    requires
        ends_sorted(semantic@),
    ensures
        r@.to_multiset() == (kept_lexical(lexical@, semantic@) + semantic@).to_multiset(),
        starts_sorted(r@),
{
    let mut merged: Vec<HighlightSpan> = Vec::new();
    let mut i: usize = 0;
    while i < lexical.len()
        invariant
            i <= lexical@.len(),
            ends_sorted(semantic@),
            merged@ == kept_lexical(lexical@.take(i as int), semantic@),
        decreases lexical@.len() - i,
    {
        let lex_span = lexical[i];
        proof {
            assert(lexical@.take(i + 1).drop_last() =~= lexical@.take(i as int));
        }
        let mut lo: usize = 0;
        let mut hi: usize = semantic.len();
        while lo < hi
            invariant
                lo <= hi <= semantic@.len(),
                ends_sorted(semantic@),
                forall|k: int| 0 <= k < lo ==> semantic@[k].end.0 <= lex_span.start.0,
                forall|k: int| hi <= k < semantic@.len() ==> semantic@[k].end.0 > lex_span.start.0,
            decreases hi - lo,
        {
            let mid = lo + (hi - lo) / 2;
            if semantic[mid].end.0 <= lex_span.start.0 {
                lo = mid + 1;
            } else {
                hi = mid;
            }
        }
        proof {
            lemma_first_end_after(semantic@, lex_span.start.0, lo as int, 0);
        }
        let overwritten = lo < semantic.len() && semantic[lo].start.0 < lex_span.end.0;
        if !overwritten {
            merged.push(lex_span);
        }
        i = i + 1;
    }
    proof {
        assert(lexical@.take(i as int) =~= lexical@);
    }
    let ghost kept = merged@;
    let mut k: usize = 0;
    while k < semantic.len()
        invariant
            k <= semantic@.len(),
            merged@ == kept + semantic@.take(k as int),
        decreases semantic@.len() - k,
    {
        merged.push(semantic[k]);
        proof {
            assert(semantic@.take(k + 1) =~= semantic@.take(k as int).push(semantic@[k as int]));
        }
        k = k + 1;
    }
    proof {
        assert(semantic@.take(k as int) =~= semantic@);
    }
    sort_spans_by_start(&mut merged);
    merged
}

} // verus!
