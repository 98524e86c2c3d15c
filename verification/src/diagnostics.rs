use vstd::prelude::*;

use crate::coords::DocByte;
use crate::text::{char_offset, char_table, lemma_char_offset_mono, lemma_char_offset_full};

verus! {

/// How serious a diagnostic is, from least to most.
#[derive(Debug, Clone, Copy, PartialEq, Eq, Structural, PartialOrd, Ord)]
pub enum DiagnosticSeverity {
    WeakWarning,
    Warning,
    Error,
}

/// Rank of a severity in its order.
pub open spec fn severity_rank(s: DiagnosticSeverity) -> int {
    match s {
        DiagnosticSeverity::WeakWarning => 0,
        DiagnosticSeverity::Warning => 1,
        DiagnosticSeverity::Error => 2,
    }
}

/// The more serious of two severities.
pub open spec fn spec_max_severity(a: DiagnosticSeverity, b: DiagnosticSeverity) -> DiagnosticSeverity {
    if severity_rank(a) < severity_rank(b) {
        b
    } else {
        a
    }
}

/// The more serious of two severities.
pub fn max_severity(a: DiagnosticSeverity, b: DiagnosticSeverity) -> (r: DiagnosticSeverity)
    ensures
        r == spec_max_severity(a, b),
{
    let ra: u8 = match a {
        DiagnosticSeverity::WeakWarning => 0,
        DiagnosticSeverity::Warning => 1,
        DiagnosticSeverity::Error => 2,
    };
    let rb: u8 = match b {
        DiagnosticSeverity::WeakWarning => 0,
        DiagnosticSeverity::Warning => 1,
        DiagnosticSeverity::Error => 2,
    };
    if ra < rb {
        b
    } else {
        a
    }
}

/// A diagnostic over the byte range `start..end` of the document.
#[derive(Debug, Clone, Copy, PartialEq, Eq, Structural)]
pub struct DiagnosticSpan {
    pub start: DocByte,
    pub end: DocByte,
    pub severity: DiagnosticSeverity,
}

impl DiagnosticSpan {
    pub fn new(start: DocByte, end: DocByte, severity: DiagnosticSeverity) -> (r: Self)
        ensures
            r.start == start,
            r.end == end,
            r.severity == severity,
    {
        DiagnosticSpan { start, end, severity }
    }
}

/// Spans ordered by start.
pub open spec fn sorted_by_start(s: Seq<DiagnosticSpan>) -> bool {
    forall|i: int, j: int| 0 <= i <= j < s.len() ==> s[i].start.0 <= s[j].start.0
}

/// Where a stable insertion puts `x` into `sorted`: after every span that starts at or
/// before it, scanning from `i`.
pub open spec fn insert_pos(sorted: Seq<DiagnosticSpan>, x: DiagnosticSpan, i: int) -> int
    decreases sorted.len() - i,
{
    if 0 <= i < sorted.len() && sorted[i].start.0 <= x.start.0 {
        insert_pos(sorted, x, i + 1)
    } else {
        i
    }
}

/// `s` stably sorted by start: spans with equal starts keep their order.
pub open spec fn sort_by_start(s: Seq<DiagnosticSpan>) -> Seq<DiagnosticSpan>
    decreases s.len(),
{
    if s.len() == 0 {
        s
    } else {
        let t = sort_by_start(s.drop_last());
        t.insert(insert_pos(t, s.last(), 0), s.last())
    }
}

proof fn lemma_insert_pos(sorted: Seq<DiagnosticSpan>, x: DiagnosticSpan, i: int)
    requires
        0 <= i <= sorted.len(),
        sorted_by_start(sorted),
        forall|k: int| 0 <= k < i ==> sorted[k].start.0 <= x.start.0,
    ensures
        i <= insert_pos(sorted, x, i) <= sorted.len(),
        forall|k: int| 0 <= k < insert_pos(sorted, x, i) ==> sorted[k].start.0 <= x.start.0,
        forall|k: int|
            insert_pos(sorted, x, i) <= k < sorted.len() ==> sorted[k].start.0 > x.start.0,
    decreases sorted.len() - i,
{
    if i < sorted.len() && sorted[i].start.0 <= x.start.0 {
        lemma_insert_pos(sorted, x, i + 1);
    }
}

/// The stable sort is sorted and keeps every span.
pub proof fn lemma_sort_by_start(s: Seq<DiagnosticSpan>)
    ensures
        sorted_by_start(sort_by_start(s)),
        sort_by_start(s).to_multiset() == s.to_multiset(),
        sort_by_start(s).len() == s.len(),
    decreases s.len(),
{
    broadcast use vstd::seq_lib::group_to_multiset_ensures;

    if s.len() > 0 {
        let t = sort_by_start(s.drop_last());
        lemma_sort_by_start(s.drop_last());
        let x = s.last();
        let p = insert_pos(t, x, 0);
        lemma_insert_pos(t, x, 0);
        let u = t.insert(p, x);
        assert forall|i: int, j: int| 0 <= i <= j < u.len() implies u[i].start.0 <= u[j].start.0 by {
            if j < p {
            } else if j == p {
            } else if i < p {
            } else if i == p {
            } else {
                assert(u[i] == t[i - 1] && u[j] == t[j - 1]);
            }
        }
        assert(u.remove(p) =~= t);
        assert(s.drop_last().push(x) =~= s);
        assert(u.to_multiset() =~= u.remove(p).to_multiset().insert(x));
    }
}

/// Whether span `d` overlaps the range `start..end`.
pub open spec fn overlaps(d: DiagnosticSpan, start: u64, end: u64) -> bool {
    d.start.0 < end && d.end.0 > start
}

/// The most serious severity among the first `n` spans of `s` that overlap
/// `start..end`, or `None` when none of them does.
pub open spec fn overlap_severity(s: Seq<DiagnosticSpan>, n: int, start: u64, end: u64) -> Option<
    DiagnosticSeverity,
>
    decreases n,
{
    if n <= 0 || n > s.len() {
        None
    } else {
        let prev = overlap_severity(s, n - 1, start, end);
        if overlaps(s[n - 1], start, end) {
            match prev {
                None => Some(s[n - 1].severity),
                Some(p) => Some(spec_max_severity(p, s[n - 1].severity)),
            }
        } else {
            prev
        }
    }
}

/// Answers "how bad is this range" against a set of diagnostics kept sorted by start.
pub struct DiagnosticProjector {
    spans: Vec<DiagnosticSpan>,
}

impl DiagnosticProjector {
    #[verifier::type_invariant]
    spec fn spans_are_sorted(self) -> bool {
        sorted_by_start(self.spans@)
    }

    /// The diagnostics, ordered by start.
    pub closed spec fn spans(self) -> Seq<DiagnosticSpan> {
        self.spans@
    }

    /// Keeps the diagnostics, stably sorted by start.
    pub fn new(spans: Vec<DiagnosticSpan>) -> (r: Self)
        ensures
            r.spans() == sort_by_start(spans@),
    {
        let mut sorted: Vec<DiagnosticSpan> = Vec::new();
        let mut i: usize = 0;
        while i < spans.len()
            invariant
                i <= spans@.len(),
                sorted@ == sort_by_start(spans@.take(i as int)),
            decreases spans@.len() - i,
        {
            let x = spans[i];
            proof {
                assert(spans@.take(i + 1).drop_last() =~= spans@.take(i as int));
                lemma_sort_by_start(spans@.take(i as int));
                lemma_insert_pos(sorted@, x, 0);
            }
            let mut p: usize = 0;
            while p < sorted.len() && sorted[p].start.0 <= x.start.0
                invariant
                    p <= sorted@.len(),
                    insert_pos(sorted@, x, p as int) == insert_pos(sorted@, x, 0),
                decreases sorted@.len() - p,
            {
                p = p + 1;
            }
            sorted.insert(p, x);
            i = i + 1;
        }
        proof {
            assert(spans@.take(i as int) =~= spans@);
            lemma_sort_by_start(spans@);
        }
        DiagnosticProjector { spans: sorted }
    }

    /// The most serious severity among the diagnostics that overlap `start..end`;
    /// `None` for an empty range or when nothing overlaps.
    pub fn severity_for_range(&self, start: DocByte, end: DocByte) -> (r: Option<DiagnosticSeverity>)
        ensures
            start.0 >= end.0 ==> r is None,
            start.0 < end.0 ==> r == overlap_severity(
                self.spans(),
                self.spans().len() as int,
                start.0,
                end.0,
            ),
    {
        if start.0 >= end.0 {
            return None;
        }
        let mut severity: Option<DiagnosticSeverity> = None;
        let mut i: usize = 0;
        while i < self.spans.len()
            invariant
                i <= self.spans@.len(),
                severity == overlap_severity(self.spans@, i as int, start.0, end.0),
            decreases self.spans@.len() - i,
        {
            let d = self.spans[i];
            if d.start.0 < end.0 && d.end.0 > start.0 {
                severity = match severity {
                    None => Some(d.severity),
                    Some(curr) => Some(max_severity(curr, d.severity)),
                };
            }
            i = i + 1;
        }
        severity
    }
}

/// The severity of a range is that of some overlapping diagnostic, and no overlapping
/// diagnostic is more serious; with no overlapping diagnostic it is `None`.
pub proof fn severity_is_overlap_maximum(s: Seq<DiagnosticSpan>, n: int, start: u64, end: u64)
    requires
        0 <= n <= s.len(),
    ensures
        overlap_severity(s, n, start, end) is None <==> forall|k: int|
            0 <= k < n ==> !overlaps(#[trigger] s[k], start, end),
        overlap_severity(s, n, start, end) matches Some(v) ==> (exists|k: int|
            0 <= k < n && overlaps(#[trigger] s[k], start, end) && s[k].severity == v) && (
        forall|k: int|
            0 <= k < n && overlaps(#[trigger] s[k], start, end) ==> severity_rank(s[k].severity)
                <= severity_rank(v)),
    decreases n,
{
    if n > 0 {
        severity_is_overlap_maximum(s, n - 1, start, end);
    }
}

/// True when byte `b` starts a char of `cs` (or is its end).
pub open spec fn is_char_start(cs: Seq<char>, b: int) -> bool {
    exists|k: int| 0 <= k <= cs.len() && #[trigger] char_offset(cs, k) == b
}

/// Widens an empty diagnostic range to the char after it, or else to the char before
/// it, so that it stays visible. Both ends are first clamped to the content.
pub fn normalize_diagnostic_range(content: &str, start: usize, end: usize) -> (r: Option<
    (usize, usize),
>)
    requires
        ({
            let len = char_offset(content@, content@.len() as int);
            let s = if start < len {
                start as int
            } else {
                len
            };
            let e = if end < len {
                end as int
            } else {
                len
            };
            e <= s ==> is_char_start(content@, s)
        }),
    ensures
        ({
            let cs = content@;
            let len = char_offset(cs, cs.len() as int);
            let s = if start < len {
                start as int
            } else {
                len
            };
            let e = if end < len {
                end as int
            } else {
                len
            };
            if e > s {
                r == Some((s as usize, e as usize))
            } else if s < len {
                exists|k: int|
                    0 <= k < cs.len() && #[trigger] char_offset(cs, k) == s && r == Some(
                        (s as usize, char_offset(cs, k + 1) as usize),
                    )
            } else if s > 0 {
                r == Some((char_offset(cs, cs.len() - 1) as usize, s as usize))
            } else {
                r is None
            }
        }),
{
    let ghost cs = content@;
    let (chars, offs) = char_table(content);
    let n = chars.len();
    let len = offs[n];
    let s = if start < len {
        start
    } else {
        len
    };
    let e = if end < len {
        end
    } else {
        len
    };
    if e > s {
        return Some((s, e));
    }
    if s < len {
        let mut k: usize = 0;
        while k < n && offs[k] < s
            invariant
                k <= n,
                n == cs.len(),
                offs@.len() == n + 1,
                forall|i: int| 0 <= i <= n ==> #[trigger] offs@[i] == char_offset(cs, i),
                forall|i: int| 0 <= i < k ==> char_offset(cs, i) < s,
            decreases n - k,
        {
            k = k + 1;
        }
        proof {
            let w = choose|j: int| 0 <= j <= cs.len() && char_offset(cs, j) == s;
            if w < k {
                assert(char_offset(cs, w) < s);
            }
            if k < w {
                lemma_char_offset_mono(cs, k as int, w);
            }
            assert(k as int == w);
        }
        return Some((s, offs[k + 1]));
    }
    if s > 0 {
        proof {
            assert(n > 0) by {
                if n == 0 {
                    assert(cs.take(0) =~= Seq::<char>::empty());
                }
            }
        }
        return Some((offs[n - 1], s));
    }
    None
}

} // verus!
