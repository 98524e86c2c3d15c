use vstd::prelude::*;

use regex_automata::meta::Regex;

use crate::commands::SubstituteRange;
use crate::coords::{DocByte, DocLine, StateId, VisualCol};
use crate::edits::{lossy_text, utf8_lossy};
use crate::lines::{
    advance_col, lemma_line_col_bound, lemma_line_col_step, lemma_pos_line_bound, line_byte_range,
    line_col_after, line_start_pos, nl_count, small_doc,
};
use crate::minimap::SearchMatch;
use crate::undo::TextDelta;

verus! {

#[verifier::external_type_specification]
#[verifier::external_body]
pub struct ExRegex(Regex);

/// Whether `regex_automata` compiles `pattern` (case-insensitively when asked).
pub uninterp spec fn regex_accepts(pattern: Seq<char>, case_insensitive: bool) -> bool;

/// The text of the error `regex_automata` gives for a pattern it does not compile.
pub uninterp spec fn regex_error_text(pattern: Seq<char>, case_insensitive: bool) -> Seq<char>;

/// Start and end of each match that the compiled `pattern` finds in `haystack`, in
/// order, as `find_iter` yields them.
pub uninterp spec fn regex_match_spans(
    pattern: Seq<char>,
    case_insensitive: bool,
    haystack: Seq<u8>,
) -> Seq<(usize, usize)>;

/// `regex_automata::meta::Regex::builder()` with the case-insensitive syntax flag, then
/// `build(pattern)`: whether the pattern compiles, its error turned into its text. Both
/// are named, by `regex_accepts` and `regex_error_text`.
#[verifier::external_body]
fn compile_pattern(pattern: &str, case_insensitive: bool) -> (r: Result<(), String>)
    ensures
        r is Ok <==> regex_accepts(pattern@, case_insensitive),
        r matches Err(e) ==> e@ == regex_error_text(pattern@, case_insensitive),
{
    Regex::builder().syntax(
        regex_automata::util::syntax::Config::new().case_insensitive(case_insensitive),
    ).build(pattern).map(|_| ()).map_err(|e| e.to_string())
}

/// `find_iter` of the regex that `pattern` compiles to (built as `compile_pattern` builds
/// it) over `haystack`, each match as its start and end. The pattern must compile. The
/// documentation of `regex_automata` promises successive matches that do not overlap,
/// each inside the haystack; which ones they are is named by `regex_match_spans`.
#[verifier::external_body]
fn find_pattern_spans(pattern: &str, case_insensitive: bool, haystack: &[u8]) -> (r: Vec<
    (usize, usize),
>)
    requires
        regex_accepts(pattern@, case_insensitive),
    ensures
        r@ == regex_match_spans(pattern@, case_insensitive, haystack@),
        forall|i: int| 0 <= i < r@.len() ==> #[trigger] r@[i].0 <= r@[i].1 <= haystack@.len(),
        forall|i: int, j: int| 0 <= i < j < r@.len() ==> #[trigger] r@[i].1 <= #[trigger] r@[j].0,
{
    let re = Regex::builder().syntax(
        regex_automata::util::syntax::Config::new().case_insensitive(case_insensitive),
    ).build(pattern).unwrap();
    re.find_iter(haystack).map(|m| (m.start(), m.end())).collect()
}

/// A search pattern that compiles, with the case flag it is matched under.
pub struct SearchRegex {
    pattern: String,
    case_insensitive: bool,
}

impl SearchRegex {
    /// Only patterns that compile are kept.
    #[verifier::type_invariant]
    spec fn compiles(self) -> bool {
        regex_accepts(self.pattern@, self.case_insensitive)
    }

    /// The pattern.
    pub closed spec fn pattern(&self) -> Seq<char> {
        self.pattern@
    }

    /// Whether it matches without regard to case.
    pub closed spec fn case_insensitive(&self) -> bool {
        self.case_insensitive
    }

    /// Start and end of each match in `haystack`, in order.
    pub open spec fn spans(&self, haystack: Seq<u8>) -> Seq<(usize, usize)> {
        regex_match_spans(self.pattern(), self.case_insensitive(), haystack)
    }
}

/// The matches of `re` in `haystack`.
fn find_spans(re: &SearchRegex, haystack: &[u8]) -> (r: Vec<(usize, usize)>)
    ensures
        r@ == re.spans(haystack@),
        forall|i: int| 0 <= i < r@.len() ==> #[trigger] r@[i].0 <= r@[i].1 <= haystack@.len(),
        forall|i: int, j: int| 0 <= i < j < r@.len() ==> #[trigger] r@[i].1 <= #[trigger] r@[j].0,
{
    proof {
        use_type_invariant(re);
    }
    find_pattern_spans(re.pattern.as_str(), re.case_insensitive, haystack)
}

/// Compiles a search pattern; a pattern that does not compile gives `Invalid regex: `
/// and the error.
pub fn build_regex(pattern: &str, case_insensitive: bool) -> (r: Result<SearchRegex, String>)
    ensures
        r is Ok <==> regex_accepts(pattern@, case_insensitive),
        r matches Ok(re) ==> re.pattern() == pattern@ && re.case_insensitive() == case_insensitive,
        r matches Err(e) ==> e@ == "Invalid regex: "@ + regex_error_text(pattern@, case_insensitive),
{
    match compile_pattern(pattern, case_insensitive) {
        Ok(()) => Ok(SearchRegex { pattern: pattern.to_string(), case_insensitive }),
        Err(e) => {
            let mut message = String::from_str("Invalid regex: ");
            message.append(e.as_str());
            Err(message)
        },
    }
}

/// Each match of `spans` placed in `doc`: the line and column where it starts, and its
/// length in bytes.
pub open spec fn matches_at(doc: Seq<u8>, spans: Seq<(usize, usize)>) -> Seq<SearchMatch> {
    spans.map_values(
        |s: (usize, usize)|
            SearchMatch {
                line: DocLine(line_col_after(doc.take(s.0 as int)).0 as u32),
                col: VisualCol(line_col_after(doc.take(s.0 as int)).1 as u32),
                byte_len: (s.1 - s.0) as usize,
            },
    )
}

/// Every match of `re` in the document, with the line and column where it starts.
pub fn find_all_matches(doc_bytes: &[u8], re: &SearchRegex) -> (r: Vec<SearchMatch>)
    requires
        small_doc(doc_bytes@),
    ensures
        r@ == matches_at(doc_bytes@, re.spans(doc_bytes@)),
        forall|i: int| 0 <= i < r@.len() ==> #[trigger] r@[i].line.0 <= nl_count(doc_bytes@),
{
    let ghost d = doc_bytes@;
    let spans = find_spans(re, doc_bytes);
    let mut matches: Vec<SearchMatch> = Vec::new();
    let mut line = DocLine(0);
    let mut col = VisualCol(0);
    let mut pos: usize = 0;
    let mut k: usize = 0;
    assert(d.take(0) =~= Seq::<u8>::empty());
    while k < spans.len()
        invariant
            d == doc_bytes@,
            small_doc(d),
            spans@ == re.spans(d),
            forall|i: int| 0 <= i < spans@.len() ==> #[trigger] spans@[i].0 <= spans@[i].1 <= d.len(),
            forall|i: int, j: int|
                0 <= i < j < spans@.len() ==> #[trigger] spans@[i].1 <= #[trigger] spans@[j].0,
            k <= spans@.len(),
            pos <= d.len(),
            k > 0 ==> pos == spans@[k - 1].1,
            k == 0 ==> pos == 0,
            (line.0 as nat, col.0 as int) == line_col_after(d.take(pos as int)),
            matches@ == matches_at(d, spans@.take(k as int)),
            forall|i: int| 0 <= i < matches@.len() ==> #[trigger] matches@[i].line.0 <= nl_count(d),
        decreases spans@.len() - k,
    {
        let (start, end) = spans[k];
        if k > 0 {
            assert(spans@[k - 1].1 <= spans@[k as int].0);
        }
        while pos < start
            invariant
                d == doc_bytes@,
                small_doc(d),
                pos <= start <= d.len(),
                (line.0 as nat, col.0 as int) == line_col_after(d.take(pos as int)),
            decreases start - pos,
        {
            proof {
                lemma_line_col_step(d, pos as int);
                lemma_line_col_bound(d.take(pos as int));
            }
            advance_col(doc_bytes[pos], &mut line, &mut col);
            pos = pos + 1;
        }
        proof {
            lemma_pos_line_bound(d, pos as int);
        }
        matches.push(SearchMatch { line, col, byte_len: end - start });
        proof {
            assert(spans@.take(k + 1) =~= spans@.take(k as int).push(spans@[k as int]));
            assert(matches_at(d, spans@.take(k + 1)) =~= matches_at(d, spans@.take(k as int)).push(
                matches_at(d, spans@.take(k + 1))[k as int],
            ));
        }
        while pos < end
            invariant
                d == doc_bytes@,
                small_doc(d),
                pos <= end <= d.len(),
                (line.0 as nat, col.0 as int) == line_col_after(d.take(pos as int)),
            decreases end - pos,
        {
            proof {
                lemma_line_col_step(d, pos as int);
                lemma_line_col_bound(d.take(pos as int));
            }
            advance_col(doc_bytes[pos], &mut line, &mut col);
            pos = pos + 1;
        }
        k = k + 1;
    }
    assert(spans@.take(k as int) =~= spans@);
    matches
}

/// The bytes a substitution applies to: nothing (the whole file) for `%`, else the
/// lines it names, from the start of the first through the newline of the last.
pub fn resolve_byte_range(range: SubstituteRange, doc: &[u8], cursor_line: DocLine) -> (r: Option<
    (usize, usize),
>)
    requires
        doc@.len() <= u32::MAX,
    ensures
        match range {
            SubstituteRange::WholeFile => r is None,
            SubstituteRange::CurrentLine => r matches Some((s, e)) && (s, e) == line_byte_range_spec(
                doc@,
                cursor_line.0,
                cursor_line.0,
            ),
            SubstituteRange::SingleLine(n) => r matches Some((s, e)) && (s, e) == line_byte_range_spec(
                doc@,
                n.0,
                n.0,
            ),
            SubstituteRange::LineRange(a, b) => r matches Some((s, e)) && (s, e)
                == line_byte_range_spec(doc@, a.0, b.0),
        },
        r matches Some((s, e)) ==> e <= doc@.len(),
        (range matches SubstituteRange::LineRange(a, b) ==> a.0 <= b.0 + 1) ==> (r matches Some(
            (s, e),
        ) ==> s <= e),
{
    match range {
        SubstituteRange::WholeFile => None,
        SubstituteRange::CurrentLine => Some(line_byte_range(doc, cursor_line, cursor_line)),
        SubstituteRange::SingleLine(n) => Some(line_byte_range(doc, n, n)),
        SubstituteRange::LineRange(a, b) => Some(line_byte_range(doc, a, b)),
    }
}

/// Byte range of lines `a..=b` as `line_byte_range` gives it.
pub open spec fn line_byte_range_spec(doc: Seq<u8>, a: u32, b: u32) -> (usize, usize) {
    (
        (if a <= b + 1 {
            line_start_pos(doc, a as nat)
        } else if crate::lines::nl_count(doc) > b {
            0
        } else {
            doc.len() as int
        }) as usize,
        line_start_pos(doc, (b + 1) as nat) as usize,
    )
}

/// A replacement of each match in `doc[start..]`, `spans` placed from `start`, last
/// match first.
pub open spec fn replacement_deltas(
    doc: Seq<u8>,
    start: int,
    spans: Seq<(usize, usize)>,
    replacement: Seq<char>,
) -> Seq<(u64, Seq<char>, Seq<char>)> {
    spans.map_values(
        |s: (usize, usize)|
            (
                (start + s.0) as u64,
                lossy_text(doc.subrange(start + s.0, start + s.1)),
                replacement,
            ),
    ).reverse()
}

/// The bytes a substitution looks at: `byte_range`, or the whole document.
pub open spec fn window_of(byte_range: Option<(usize, usize)>, len: nat) -> (int, int) {
    match byte_range {
        Some((s, e)) => (s as int, e as int),
        None => (0, len as int),
    }
}

/// `deltas` are the edits `expected` lists: offset, deleted text and inserted text,
/// with no undo states attached.
pub open spec fn deltas_replace_matches(
    deltas: Seq<TextDelta>,
    expected: Seq<(u64, Seq<char>, Seq<char>)>,
) -> bool {
    &&& deltas.len() == expected.len()
    &&& forall|i: int|
        0 <= i < deltas.len() ==> {
            &&& #[trigger] deltas[i].global_byte_offset.0 == expected[i].0
            &&& deltas[i].deleted_text@ == expected[i].1
            &&& deltas[i].inserted_text@ == expected[i].2
            &&& deltas[i].state_before == StateId(0)
            &&& deltas[i].state_after == StateId(0)
        }
}

/// The edits of a substitution: each match of `re` inside `byte_range` (the whole
/// document when `None`) replaced by `replacement`, from the last match to the first so
/// that earlier offsets stay valid.
#[verifier::spinoff_prover]
pub fn substitute_text_deltas(
    doc: &[u8],
    re: &SearchRegex,
    replacement: &str,
    byte_range: Option<(usize, usize)>,
) -> (r: Vec<TextDelta>)
    requires
        byte_range matches Some((s, e)) ==> s <= e <= doc@.len(),
        doc@.len() <= u64::MAX,
    ensures
        deltas_replace_matches(
            r@,
            replacement_deltas(
                doc@,
                window_of(byte_range, doc@.len()).0,
                re.spans(doc@.subrange(window_of(byte_range, doc@.len()).0, window_of(byte_range, doc@.len()).1)),
                replacement@,
            ),
        ),
{
    let (start, end) = match byte_range {
        Some((s, e)) => (s, e),
        None => (0, doc.len()),
    };
    let window = &doc[start..end];
    let spans = find_spans(re, window);
    let ghost expected = replacement_deltas(doc@, start as int, spans@, replacement@);
    let mut deltas: Vec<TextDelta> = Vec::new();
    let mut k = spans.len();
    while k > 0
        invariant
            k <= spans@.len(),
            start <= end <= doc@.len(),
            window@ == doc@.subrange(start as int, end as int),
            forall|i: int| 0 <= i < spans@.len() ==> #[trigger] spans@[i].0 <= spans@[i].1 <= window@.len(),
            expected == replacement_deltas(doc@, start as int, spans@, replacement@),
            expected.len() == spans@.len(),
            deltas@.len() == spans@.len() - k,
            forall|i: int|
                0 <= i < deltas@.len() ==> {
                    &&& #[trigger] deltas@[i].global_byte_offset.0 == expected[i].0
                    &&& deltas@[i].deleted_text@ == expected[i].1
                    &&& deltas@[i].inserted_text@ == expected[i].2
                    &&& deltas@[i].state_before == StateId(0)
                    &&& deltas@[i].state_after == StateId(0)
                },
        decreases k,
    {
        k = k - 1;
        let (s, e) = spans[k];
        let match_start = start + s;
        let match_end = start + e;
        let deleted = utf8_lossy(&doc[match_start..match_end]);
        let ghost i = deltas@.len() as int;
        proof {
            assert(expected[i] == (
                (start + s) as u64,
                lossy_text(doc@.subrange(start + s, start + e)),
                replacement@,
            ));
            assert(doc@.subrange(match_start as int, match_end as int) =~= doc@.subrange(
                start + s,
                start + e,
            ));
        }
        deltas.push(
            TextDelta {
                global_byte_offset: DocByte(match_start as u64),
                deleted_text: deleted,
                inserted_text: String::from_str(replacement),
                state_before: StateId(0),
                state_after: StateId(0),
            },
        );
    }
    proof {
        assert(window@ =~= doc@.subrange(start as int, end as int));
        assert(spans@ == re.spans(doc@.subrange(start as int, end as int)));
        assert(start as int == (match byte_range {
            Some((s, e)) => s as int,
            None => 0,
        }));
        assert(end as int == (match byte_range {
            Some((s, e)) => e as int,
            None => doc@.len() as int,
        }));
        assert(deltas@.len() == expected.len());
        assert(expected == replacement_deltas(
            doc@,
            start as int,
            re.spans(doc@.subrange(start as int, end as int)),
            replacement@,
        ));
        assert(window_of(byte_range, doc@.len()) == (start as int, end as int));
        assert(deltas_replace_matches(deltas@, expected));
    }
    deltas
}

} // verus!
