use vstd::prelude::*;

use crate::text::{char_offset, char_table, lemma_char_offset_mono, lemma_char_offset_full};

verus! {

/// Lexical class of a char, as word motions see it.
#[derive(Debug, Clone, Copy, PartialEq, Eq, Structural)]
pub enum LexClass {
    Whitespace,
    Keyword,
    Punctuation,
}

/// Whether `c` is alphabetic or numeric in the Unicode sense.
pub uninterp spec fn unicode_alphanumeric(c: char) -> bool;

/// `char::is_alphanumeric`: true when the char has the Unicode `Alphabetic` or
/// `Numeric` property. The tables behind it are not restated here; the result is
/// named by `unicode_alphanumeric`, a function of the char alone. On ASCII the
/// documentation is plain: letters and digits are alphanumeric, nothing else is.
#[verifier::external_body]
fn is_alphanumeric(c: char) -> (r: bool)
    ensures
        r == unicode_alphanumeric(c),
        ('a' <= c <= 'z' || 'A' <= c <= 'Z' || '0' <= c <= '9') ==> r,
        (c as u32) < 128 && !('a' <= c <= 'z' || 'A' <= c <= 'Z' || '0' <= c <= '9') ==> !r,
{
    c.is_alphanumeric()
}

/// Space, tab and newline are whitespace; letters, digits and `_` make words; the
/// rest is punctuation.
pub open spec fn lex_class(c: char) -> LexClass {
    if c == ' ' || c == '\t' || c == '\n' {
        LexClass::Whitespace
    } else if unicode_alphanumeric(c) || c == '_' {
        LexClass::Keyword
    } else {
        LexClass::Punctuation
    }
}

pub fn classify_lex_char(ch: char) -> (r: LexClass)
    ensures
        r == lex_class(ch),
{
    if ch == ' ' || ch == '\t' || ch == '\n' {
        LexClass::Whitespace
    } else if is_alphanumeric(ch) || ch == '_' {
        LexClass::Keyword
    } else {
        LexClass::Punctuation
    }
}

/// First index at or after `j` whose char is not of class `cls`.
pub open spec fn skip_class(cs: Seq<char>, j: int, cls: LexClass) -> int
    decreases cs.len() - j,
{
    if 0 <= j < cs.len() && lex_class(cs[j]) == cls {
        skip_class(cs, j + 1, cls)
    } else {
        j
    }
}

/// Moving back from `j` over whitespace: the first non-whitespace index, if any.
pub open spec fn back_skip_whitespace(cs: Seq<char>, j: int) -> Option<int>
    decreases j,
{
    if j < 0 || j >= cs.len() {
        None
    } else if lex_class(cs[j]) != LexClass::Whitespace {
        Some(j)
    } else if j == 0 {
        None
    } else {
        back_skip_whitespace(cs, j - 1)
    }
}

/// Moving back from `j` while the previous char has class `cls`.
pub open spec fn back_extend(cs: Seq<char>, j: int, cls: LexClass) -> int
    decreases j,
{
    if 0 < j <= cs.len() && lex_class(cs[j - 1]) == cls {
        back_extend(cs, j - 1, cls)
    } else {
        j
    }
}

/// Scans char boundaries forward from `k` while the next one is still at or before `b`.
pub open spec fn scan_boundary(cs: Seq<char>, b: int, k: int) -> int
    decreases cs.len() - k,
{
    if 0 <= k < cs.len() && char_offset(cs, k + 1) <= b {
        scan_boundary(cs, b, k + 1)
    } else {
        k
    }
}

/// Index of the last char boundary at or before byte `b`.
pub open spec fn boundary_index(cs: Seq<char>, b: int) -> int {
    scan_boundary(cs, b, 0)
}

/// Char index reached by a "next word start" motion from char `k`.
pub open spec fn next_word_start_index(cs: Seq<char>, k: int) -> int {
    if k >= cs.len() {
        cs.len() as int
    } else {
        skip_class(cs, skip_class(cs, k, lex_class(cs[k])), LexClass::Whitespace)
    }
}

/// Char index reached by a "previous word start" motion from char `k`.
pub open spec fn prev_word_start_index(cs: Seq<char>, k: int) -> int {
    if k <= 0 {
        0
    } else {
        match back_skip_whitespace(cs, k - 1) {
            None => 0,
            Some(j) => back_extend(cs, j, lex_class(cs[j])),
        }
    }
}

/// Char index reached by a "next word end" motion from char `k`.
pub open spec fn next_word_end_index(cs: Seq<char>, k: int) -> int {
    if k >= cs.len() {
        k
    } else {
        let j = skip_class(cs, k + 1, LexClass::Whitespace);
        if j >= cs.len() {
            k
        } else {
            skip_class(cs, j, lex_class(cs[j])) - 1
        }
    }
}

proof fn lemma_scan_boundary(cs: Seq<char>, b: int, k: int)
    requires
        0 <= k <= cs.len(),
        char_offset(cs, k) <= b,
    ensures
        k <= scan_boundary(cs, b, k) <= cs.len(),
        char_offset(cs, scan_boundary(cs, b, k)) <= b,
        scan_boundary(cs, b, k) == cs.len() || char_offset(cs, scan_boundary(cs, b, k) + 1) > b,
    decreases cs.len() - k,
{
    if k < cs.len() && char_offset(cs, k + 1) <= b {
        lemma_scan_boundary(cs, b, k + 1);
    }
}

proof fn lemma_skip_class_range(cs: Seq<char>, j: int, cls: LexClass)
    requires
        0 <= j <= cs.len(),
    ensures
        j <= skip_class(cs, j, cls) <= cs.len(),
        skip_class(cs, j, cls) < cs.len() ==> lex_class(cs[skip_class(cs, j, cls)]) != cls,
    decreases cs.len() - j,
{
    if j < cs.len() && lex_class(cs[j]) == cls {
        lemma_skip_class_range(cs, j + 1, cls);
    }
}

proof fn lemma_back_extend_range(cs: Seq<char>, j: int, cls: LexClass)
    requires
        0 <= j <= cs.len(),
    ensures
        0 <= back_extend(cs, j, cls) <= j,
    decreases j,
{
    if 0 < j && lex_class(cs[j - 1]) == cls {
        lemma_back_extend_range(cs, j - 1, cls);
    }
}

proof fn lemma_back_skip_range(cs: Seq<char>, j: int)
    requires
        0 <= j < cs.len(),
    ensures
        back_skip_whitespace(cs, j) matches Some(i) ==> 0 <= i <= j && lex_class(cs[i])
            != LexClass::Whitespace,
    decreases j,
{
    if lex_class(cs[j]) == LexClass::Whitespace && j > 0 {
        lemma_back_skip_range(cs, j - 1);
    }
}

/// Char index of the last boundary at or before `byte`, read off the offset table.
fn index_at_byte(offs: &Vec<usize>, byte: usize, Ghost(cs): Ghost<Seq<char>>) -> (k: usize)
    requires
        offs@.len() == cs.len() + 1,
        forall|i: int| 0 <= i <= cs.len() ==> #[trigger] offs@[i] == char_offset(cs, i),
    ensures
        k == boundary_index(cs, byte as int),
        k <= cs.len(),
{
    proof {
        assert(char_offset(cs, 0) == 0) by {
            assert(cs.take(0) =~= Seq::<char>::empty());
        }
    }
    let n = offs.len() - 1;
    let mut k: usize = 0;
    while k < n && offs[k + 1] <= byte
        invariant
            n == cs.len(),
            offs@.len() == cs.len() + 1,
            forall|i: int| 0 <= i <= cs.len() ==> #[trigger] offs@[i] == char_offset(cs, i),
            k <= n,
            scan_boundary(cs, byte as int, k as int) == boundary_index(cs, byte as int),
        decreases n - k,
    {
        k = k + 1;
    }
    k
}

/// The largest char boundary of `doc` at or before `byte` (the end of `doc` when
/// `byte` is past it).
pub fn clamp_to_char_boundary(doc: &str, byte: usize) -> (r: usize)
    ensures
        r == char_offset(doc@, boundary_index(doc@, byte as int)),
        0 <= boundary_index(doc@, byte as int) <= doc@.len(),
        r <= byte,
        boundary_index(doc@, byte as int) == doc@.len() || char_offset(
            doc@,
            boundary_index(doc@, byte as int) + 1,
        ) > byte,
{
    let (chars, offs) = char_table(doc);
    let k = index_at_byte(&offs, byte, Ghost(doc@));
    proof {
        assert(char_offset(doc@, 0) == 0) by {
            assert(doc@.take(0) =~= Seq::<char>::empty());
        }
        lemma_scan_boundary(doc@, byte as int, 0);
    }
    offs[k]
}

/// Byte offset of the start of the next word: past the run of chars that share the
/// class of the char under the cursor, then past any whitespace.
pub fn next_word_start(doc: &str, current_byte: usize) -> (r: usize)
    ensures
        r == char_offset(doc@, next_word_start_index(doc@, boundary_index(doc@, current_byte as int))),
{
    let ghost cs = doc@;
    let (chars, offs) = char_table(doc);
    let n = chars.len();
    let mut k = index_at_byte(&offs, current_byte, Ghost(cs));
    if k >= n {
        return offs[n];
    }
    let start_class = classify_lex_char(chars[k]);
    let ghost k0 = k as int;
    while k < n && classify_lex_char(chars[k]) == start_class
        invariant
            chars@ == cs,
            n == cs.len(),
            k0 <= k <= n,
            skip_class(cs, k as int, start_class) == skip_class(cs, k0, start_class),
        decreases n - k,
    {
        k = k + 1;
    }
    let ghost k1 = k as int;
    while k < n && classify_lex_char(chars[k]) == LexClass::Whitespace
        invariant
            chars@ == cs,
            n == cs.len(),
            k1 <= k <= n,
            skip_class(cs, k as int, LexClass::Whitespace) == skip_class(
                cs,
                k1,
                LexClass::Whitespace,
            ),
        decreases n - k,
    {
        k = k + 1;
    }
    offs[k]
}

/// Byte offset of the start of the previous word: back over whitespace, then back to
/// the start of the run of chars that share the class of the char reached.
pub fn prev_word_start(doc: &str, current_byte: usize) -> (r: usize)
    ensures
        r == char_offset(doc@, prev_word_start_index(doc@, boundary_index(doc@, current_byte as int))),
{
    let ghost cs = doc@;
    let (chars, offs) = char_table(doc);
    let n = chars.len();
    let k = index_at_byte(&offs, current_byte, Ghost(cs));
    proof {
        assert(char_offset(cs, 0) == 0) by {
            assert(cs.take(0) =~= Seq::<char>::empty());
        }
    }
    if k == 0 {
        return 0;
    }
    let mut j = k - 1;
    while classify_lex_char(chars[j]) == LexClass::Whitespace
        invariant
            chars@ == cs,
            n == cs.len(),
            j < n,
            0 < k <= n,
            k == boundary_index(cs, current_byte as int),
            char_offset(cs, 0) == 0,
            cs == doc@,
            back_skip_whitespace(cs, j as int) == back_skip_whitespace(cs, k - 1),
        decreases j,
    {
        if j == 0 {
            return 0;
        }
        j = j - 1;
    }
    let target = classify_lex_char(chars[j]);
    let ghost j0 = j as int;
    while j > 0 && classify_lex_char(chars[j - 1]) == target
        invariant
            chars@ == cs,
            n == cs.len(),
            j <= j0 < n,
            back_extend(cs, j as int, target) == back_extend(cs, j0, target),
        decreases j,
    {
        j = j - 1;
    }
    offs[j]
}

/// Byte offset of the last char of the next word: one char forward, over whitespace,
/// then to the last char of the run that shares the class of the char reached. Stays
/// put when no word follows.
pub fn next_word_end(doc: &str, current_byte: usize) -> (r: usize)
    ensures
        r == char_offset(doc@, next_word_end_index(doc@, boundary_index(doc@, current_byte as int))),
{
    let ghost cs = doc@;
    let (chars, offs) = char_table(doc);
    let n = chars.len();
    let k = index_at_byte(&offs, current_byte, Ghost(cs));
    if k >= n {
        return offs[k];
    }
    let mut j = k + 1;
    while j < n && classify_lex_char(chars[j]) == LexClass::Whitespace
        invariant
            chars@ == cs,
            n == cs.len(),
            k < j <= n,
            skip_class(cs, j as int, LexClass::Whitespace) == skip_class(
                cs,
                k + 1,
                LexClass::Whitespace,
            ),
        decreases n - j,
    {
        j = j + 1;
    }
    if j >= n {
        return offs[k];
    }
    let target = classify_lex_char(chars[j]);
    let ghost j0 = j as int;
    while j < n && classify_lex_char(chars[j]) == target
        invariant
            chars@ == cs,
            n == cs.len(),
            j0 <= j <= n,
            j0 < n,
            lex_class(cs[j0]) == target,
            skip_class(cs, j as int, target) == skip_class(cs, j0, target),
        decreases n - j,
    {
        j = j + 1;
    }
    offs[j - 1]
}

/// Word motions stay inside the text and move the way they say: from the char at or
/// before byte `b`, the next word start is further on (unless the text has ended), the
/// previous word start further back (unless at the start), and the next word end no
/// further back. Each lands on a char index of the text, so the byte offset that the
/// motion returns is a char boundary.
pub proof fn lemma_word_motions_in_bounds(cs: Seq<char>, b: int)
    requires
        b >= 0,
    ensures
        ({
            let k = boundary_index(cs, b);
            &&& 0 <= k <= cs.len()
            &&& k <= next_word_start_index(cs, k) <= cs.len()
            &&& k < cs.len() ==> k < next_word_start_index(cs, k)
            &&& 0 <= prev_word_start_index(cs, k) <= k
            &&& 0 < k ==> prev_word_start_index(cs, k) < k
            &&& k <= next_word_end_index(cs, k) <= cs.len()
        }),
{
    assert(char_offset(cs, 0) == 0) by {
        assert(cs.take(0) =~= Seq::<char>::empty());
    }
    lemma_scan_boundary(cs, b, 0);
    let k = boundary_index(cs, b);
    if k < cs.len() {
        let cls = lex_class(cs[k]);
        lemma_skip_class_range(cs, k + 1, cls);
        assert(skip_class(cs, k, cls) == skip_class(cs, k + 1, cls));
        lemma_skip_class_range(cs, skip_class(cs, k, cls), LexClass::Whitespace);
        lemma_skip_class_range(cs, k + 1, LexClass::Whitespace);
        let j = skip_class(cs, k + 1, LexClass::Whitespace);
        if j < cs.len() {
            let cj = lex_class(cs[j]);
            lemma_skip_class_range(cs, j + 1, cj);
            assert(skip_class(cs, j, cj) == skip_class(cs, j + 1, cj));
        }
    }
    if k > 0 {
        lemma_back_skip_range(cs, k - 1);
        match back_skip_whitespace(cs, k - 1) {
            Some(j) => {
                lemma_back_extend_range(cs, j, lex_class(cs[j]));
            },
            None => {},
        }
    }
}

} // verus!
