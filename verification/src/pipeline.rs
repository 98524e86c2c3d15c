use vstd::prelude::*;

use vstd::utf8::{valid_utf8, decode_utf8, encode_utf8};

use ra_ap_syntax::{AstNode, Edition, SourceFile};

use crate::coords::DocByte;
use crate::highlight::{starts_sorted, HighlightSpan, TokenCategory};
use crate::lines::NL;

verus! {

/// A window of document bytes read from `global_offset` on.
pub struct ViewportChunk {
    pub global_offset: DocByte,
    pub buffer: Vec<u8>,
}

/// `std::str::from_utf8`: the bytes as text when they are valid UTF-8.
#[verifier::external_body]
pub(crate) fn str_from_utf8(bytes: &[u8]) -> (r: Option<&str>)
    ensures
        r is Some <==> valid_utf8(bytes@),
        r matches Some(s) ==> s@ == decode_utf8(bytes@),
{
    std::str::from_utf8(bytes).ok()
}

/// End of the longest valid UTF-8 prefix of `buffer[start..end]`, retracting `end`.
pub open spec fn retract_to_valid(buffer: Seq<u8>, start: int, end: int) -> int
    decreases end - start,
{
    if end > start && !valid_utf8(buffer.subrange(start, end)) {
        retract_to_valid(buffer, start, end - 1)
    } else {
        end
    }
}

/// A blank line break (`\n\n`) starts at byte `i`.
pub open spec fn blank_break_at(buffer: Seq<u8>, i: int) -> bool {
    0 <= i && i + 1 < buffer.len() && buffer[i] == NL && buffer[i + 1] == NL
}

/// Index just past the first blank line break (`\n\n`), or 0 when there is none.
pub open spec fn first_paragraph_start(buffer: Seq<u8>) -> int {
    if exists|i: int| #[trigger] blank_break_at(buffer, i) {
        let i = choose|i: int|
            #[trigger] blank_break_at(buffer, i) && forall|k: int|
                0 <= k < i ==> !#[trigger] blank_break_at(buffer, k);
        i + 2
    } else {
        0
    }
}

fn valid_end_from(buffer: &[u8], start: usize) -> (end: usize)
    requires
        start <= buffer@.len(),
    ensures
        end == retract_to_valid(buffer@, start as int, buffer@.len() as int),
        start <= end <= buffer@.len(),
        end > start ==> valid_utf8(buffer@.subrange(start as int, end as int)),
{
    let mut end = buffer.len();
    let mut valid = false;
    while end > start && !valid
        invariant
            start <= end <= buffer@.len(),
            valid ==> end > start && valid_utf8(buffer@.subrange(start as int, end as int)),
            retract_to_valid(buffer@, start as int, end as int) == retract_to_valid(
                buffer@,
                start as int,
                buffer@.len() as int,
            ),
        decreases end - start + (if valid { 0int } else { 1int }),
    {
        let slice = &buffer[start..end];
        assert(slice@ =~= buffer@.subrange(start as int, end as int));
        if str_from_utf8(slice).is_some() {
            valid = true;
        } else {
            end = end - 1;
        }
    }
    end
}

/// Bounds of the part of `buffer` that is safe to parse: it starts after the first blank
/// line break (or at 0 when there is none) and ends where the bytes from the start on
/// are valid UTF-8, retracting over a char cut in half at the end. `None` when that
/// leaves nothing.
pub fn find_safe_parse_boundaries(buffer: &[u8]) -> (r: Option<(usize, usize)>)
    ensures
        ({
            let start = first_paragraph_start(buffer@);
            let end = retract_to_valid(buffer@, start, buffer@.len() as int);
            &&& r is None <==> start >= end
            &&& r matches Some((s, e)) ==> s == start && e == end
        }),
        r matches Some((s, e)) ==> s < e <= buffer@.len() && valid_utf8(buffer@.subrange(s as int, e as int)),
{
    let mut start: usize = 0;
    let mut i: usize = 0;
    let mut found = false;
    while i < buffer.len() && i < buffer.len() - 1 && !found
        invariant
            i <= buffer@.len(),
            !found ==> start == 0 && forall|k: int| 0 <= k < i ==> !#[trigger] blank_break_at(buffer@, k),
            found ==> {
                &&& i >= 1
                &&& start == i + 1
                &&& blank_break_at(buffer@, i - 1)
                &&& forall|k: int| 0 <= k < i - 1 ==> !#[trigger] blank_break_at(buffer@, k)
            },
        decreases buffer@.len() - i + (if found { 0int } else { 1int }),
    {
        if buffer[i] == NL && buffer[i + 1] == NL {
            start = i + 2;
            found = true;
        }
        i = i + 1;
    }
    proof {
        if found {
            let w = (i - 1) as int;
            let c = choose|c: int|
                #[trigger] blank_break_at(buffer@, c) && forall|k: int|
                    0 <= k < c ==> !#[trigger] blank_break_at(buffer@, k);
            assert(blank_break_at(buffer@, w));
            if c < w {
                assert(blank_break_at(buffer@, c));
            }
            if w < c {
                assert(!blank_break_at(buffer@, w));
            }
            assert(first_paragraph_start(buffer@) == start);
        } else {
            if exists|c: int| #[trigger] blank_break_at(buffer@, c) {
                let c = choose|c: int| #[trigger] blank_break_at(buffer@, c);
                assert(!blank_break_at(buffer@, c));
            }
        }
    }
    if start > buffer.len() {
        return None;
    }
    let end = valid_end_from(buffer, start);
    if start >= end {
        return None;
    }
    proof {
        lemma_retract_to_valid(buffer@, start as int, buffer@.len() as int);
    }
    Some((start, end))
}

/// Retracting the end of a window to valid UTF-8 stays inside the window and leaves a
/// window that is valid UTF-8.
pub proof fn lemma_retract_to_valid(buffer: Seq<u8>, start: int, end: int)
    requires
        0 <= start <= end <= buffer.len(),
    ensures
        start <= retract_to_valid(buffer, start, end) <= end,
        valid_utf8(buffer.subrange(start, retract_to_valid(buffer, start, end))),
    decreases end - start,
{
    if end > start && !valid_utf8(buffer.subrange(start, end)) {
        lemma_retract_to_valid(buffer, start, end - 1);
    } else if end == start {
        assert(buffer.subrange(start, end).len() == 0);
    }
}

/// The tokens among `elements` come in text order: each ends at or before the start
/// of every later token.
pub open spec fn tokens_in_order(elements: Seq<(u16, u32, u32, bool)>) -> bool {
    forall|i: int, j: int|
        0 <= i < j < elements.len() && #[trigger] elements[i].3 && #[trigger] elements[j].3
            ==> elements[i].2 <= elements[j].1
}

/// Kind code, start, end and token flag of each element of the syntax tree that
/// `SourceFile::parse` builds for `text`, in preorder.
pub uninterp spec fn rust_syntax_elements(text: Seq<char>) -> Seq<(u16, u32, u32, bool)>;

/// A space, tab, line feed, carriage return, vertical tab or form feed.
pub open spec fn is_blank_byte(b: u8) -> bool {
    b == 32 || b == 9 || b == 10 || b == 13 || b == 11 || b == 12
}

/// An ASCII letter, digit or underscore.
pub open spec fn is_word_byte(b: u8) -> bool {
    (48 <= b <= 57) || (65 <= b <= 90) || (97 <= b <= 122) || b == 95
}

/// Byte `i` of `s` begins a piece: a byte that is not blank and either is not a word
/// byte or begins a run of word bytes.
pub open spec fn starts_piece(s: Seq<u8>, i: int) -> bool {
    !is_blank_byte(s[i]) && (!is_word_byte(s[i]) || i == 0 || !is_word_byte(s[i - 1]))
}

/// The number of pieces of `s`: runs of word bytes count once, every other byte that is
/// not blank counts once. No text holds more Rust tokens than pieces: every token
/// other than whitespace has a byte that is not blank, and a run of word bytes never
/// holds two tokens.
pub open spec fn parse_weight(s: Seq<u8>) -> nat
    decreases s.len(),
{
    if s.len() == 0 {
        0
    } else {
        parse_weight(s.drop_last()) + if starts_piece(s, s.len() - 1) {
            1nat
        } else {
            0nat
        }
    }
}

/// The most pieces a text handed to the parser may have.
pub const PARSE_WEIGHT_LIMIT: u32 = 256;

/// Parses `text` as a Rust 2024 source file with `ra_ap_syntax::SourceFile::parse` and
/// lists the elements of the tree in preorder (`descendants_with_tokens`), each as its
/// raw `SyntaxKind` code, its text range, and whether it is a token. Which elements the
/// parser builds is named by `rust_syntax_elements`, a function of the text alone; the
/// tree covers the text, so every range lies within it, and the preorder walk meets the
/// tokens (the leaves) in text order, each ending where a later one starts or before.
/// Text sizes are `u32` in the parser, which panics on longer text. The grammar of
/// `ra_ap_parser` descends recursively with no limit of its own, a bounded number of
/// frames for each token it consumes (nested parentheses, prefix operators, closures,
/// `else if` chains, nested items), so deep enough text overflows the stack; the text
/// is held to `PARSE_WEIGHT_LIMIT` pieces, and so to as many tokens. Texts of twice
/// that many pieces, nested in the costliest of those forms, were parsed within a 2 MiB
/// thread stack; four times that many overflowed it.
#[verifier::external_body]
pub(crate) fn syntax_elements(text: &str) -> (r: Vec<(u16, u32, u32, bool)>)
    requires
        encode_utf8(text@).len() <= u32::MAX,
        parse_weight(encode_utf8(text@)) <= PARSE_WEIGHT_LIMIT,
    ensures
        r@ == rust_syntax_elements(text@),
        forall|i: int|
            0 <= i < r@.len() ==> #[trigger] r@[i].1 <= r@[i].2 && r@[i].2 <= encode_utf8(
                text@,
            ).len(),
        tokens_in_order(r@),
{
    let parse = SourceFile::parse(text, Edition::Edition2024);
    let mut out = Vec::new();
    for element in parse.tree().syntax().descendants_with_tokens() {
        let range = element.text_range();
        let is_token = element.as_token().is_some();
        out.push((u16::from(element.kind()), u32::from(range.start()), u32::from(range.end()), is_token));
    }
    out
}

/// The elements of `bytes` parsed as Rust: none when the bytes are not UTF-8 or have
/// more pieces than the parser is given.
pub open spec fn parsed_elements(bytes: Seq<u8>) -> Seq<(u16, u32, u32, bool)> {
    if valid_utf8(bytes) && parse_weight(bytes) <= PARSE_WEIGHT_LIMIT {
        rust_syntax_elements(decode_utf8(bytes))
    } else {
        Seq::empty()
    }
}

/// A longer prefix has at least as many pieces.
proof fn lemma_parse_weight_monotone(s: Seq<u8>, j: int, k: int)
    requires
        0 <= j <= k <= s.len(),
    ensures
        parse_weight(s.take(j)) <= parse_weight(s.take(k)),
    decreases k - j,
{
    if j < k {
        assert(s.take(k).drop_last() =~= s.take(k - 1));
        lemma_parse_weight_monotone(s, j, k - 1);
    }
}

fn is_blank(b: u8) -> (r: bool)
    ensures
        r == is_blank_byte(b),
{
    b == 32 || b == 9 || b == 10 || b == 13 || b == 11 || b == 12
}

fn is_word(b: u8) -> (r: bool)
    ensures
        r == is_word_byte(b),
{
    (48 <= b && b <= 57) || (65 <= b && b <= 90) || (97 <= b && b <= 122) || b == 95
}

/// Whether `bytes` has at most `PARSE_WEIGHT_LIMIT` pieces.
fn parse_weight_fits(bytes: &[u8]) -> (r: bool)
    ensures
        r == (parse_weight(bytes@) <= PARSE_WEIGHT_LIMIT),
{
    let mut w: u32 = 0;
    let mut i: usize = 0;
    while i < bytes.len()
        invariant
            i <= bytes@.len(),
            w == parse_weight(bytes@.take(i as int)),
            w <= PARSE_WEIGHT_LIMIT,
        decreases bytes@.len() - i,
    {
        let b = bytes[i];
        let starts = !is_blank(b) && (!is_word(b) || i == 0 || !is_word(bytes[i - 1]));
        proof {
            let t = bytes@.take(i + 1);
            assert(t.drop_last() =~= bytes@.take(i as int));
            assert(t[i as int] == b);
            if i > 0 {
                assert(t[i - 1] == bytes@[i - 1]);
            }
            assert(starts == starts_piece(t, i as int));
        }
        if starts {
            if w == PARSE_WEIGHT_LIMIT {
                proof {
                    lemma_parse_weight_monotone(bytes@, i + 1, bytes@.len() as int);
                    assert(bytes@.take(bytes@.len() as int) =~= bytes@);
                }
                return false;
            }
            w = w + 1;
        }
        i = i + 1;
    }
    assert(bytes@.take(i as int) =~= bytes@);
    true
}

/// `bytes` parsed as Rust, as `parsed_elements` describes; the parser is not called on
/// bytes that are not UTF-8 or have too many pieces.
pub(crate) fn parse_rust(bytes: &[u8]) -> (r: Vec<(u16, u32, u32, bool)>)
    requires
        bytes@.len() <= u32::MAX,
    ensures
        r@ == parsed_elements(bytes@),
        forall|i: int| 0 <= i < r@.len() ==> #[trigger] r@[i].1 <= r@[i].2 && r@[i].2 <= bytes@.len(),
        tokens_in_order(r@),
{
    match str_from_utf8(bytes) {
        Some(text) => {
            proof {
                vstd::utf8::decode_utf8_encode_utf8(bytes@);
            }
            if parse_weight_fits(bytes) {
                syntax_elements(text)
            } else {
                Vec::new()
            }
        },
        None => Vec::new(),
    }
}

/// A parsed fragment of a chunk: the elements of its syntax tree, with what it takes to
/// place their local ranges in the document.
pub struct ViewportTree {
    pub global_chunk_offset: u64,
    pub fragment_start: usize,
    pub elements: Vec<(u16, u32, u32, bool)>,
}

/// Document offset of the fragment's first byte.
pub open spec fn fragment_base(t: ViewportTree) -> int {
    t.global_chunk_offset + t.fragment_start
}

/// A tree whose ranges all map into the document without overflow.
pub open spec fn tree_fits(t: ViewportTree) -> bool {
    forall|i: int|
        0 <= i < t.elements@.len() ==> fragment_base(t) + #[trigger] t.elements@[i].2 <= u64::MAX
            && t.elements@[i].1 <= t.elements@[i].2
}

impl ViewportTree {
    /// Document range of a range local to the fragment.
    pub fn local_to_global(&self, local_range: (u32, u32)) -> (r: (u64, u64))
        requires
            fragment_base(*self) + local_range.0 <= u64::MAX,
            fragment_base(*self) + local_range.1 <= u64::MAX,
        ensures
            r.0 == fragment_base(*self) + local_range.0,
            r.1 == fragment_base(*self) + local_range.1,
    {
        let base = self.global_chunk_offset + self.fragment_start as u64;
        (base + local_range.0 as u64, base + local_range.1 as u64)
    }
}

/// Parses `chunk.buffer[start..end]` as Rust; nothing comes of bytes that are not UTF-8
/// or too heavy for the parser.
pub fn parse_fragment(chunk: &ViewportChunk, bounds: (usize, usize)) -> (r: ViewportTree)
    requires
        bounds.0 <= bounds.1 <= chunk.buffer@.len(),
        bounds.1 - bounds.0 <= u32::MAX,
    ensures
        r.global_chunk_offset == chunk.global_offset.0,
        r.fragment_start == bounds.0,
        r.elements@ == parsed_elements(chunk.buffer@.subrange(bounds.0 as int, bounds.1 as int)),
        forall|i: int|
            0 <= i < r.elements@.len() ==> #[trigger] r.elements@[i].1 <= r.elements@[i].2
                && r.elements@[i].2 <= bounds.1 - bounds.0,
        tokens_in_order(r.elements@),
{
    let (start, end) = bounds;
    let bytes = &chunk.buffer[start..end];
    assert(bytes@ =~= chunk.buffer@.subrange(start as int, end as int));
    let elements = parse_rust(bytes);
    ViewportTree { global_chunk_offset: chunk.global_offset.0, fragment_start: start, elements }
}

} // verus!

verus! {

/// Raw `SyntaxKind` codes of `ra_ap_syntax` 0.0.300 that highlighting tells apart.
pub const FN_KW: u16 = 69;
pub const LET_KW: u16 = 74;
pub const MUT_KW: u16 = 80;
pub const IF_KW: u16 = 71;
pub const ELSE_KW: u16 = 64;
pub const MATCH_KW: u16 = 77;
pub const WHILE_KW: u16 = 99;
pub const FOR_KW: u16 = 70;
pub const LOOP_KW: u16 = 75;
pub const BREAK_KW: u16 = 59;
pub const CONTINUE_KW: u16 = 61;
pub const RETURN_KW: u16 = 85;
pub const STRUCT_KW: u16 = 88;
pub const ENUM_KW: u16 = 65;
pub const TRAIT_KW: u16 = 90;
pub const IMPL_KW: u16 = 72;
pub const PUB_KW: u16 = 83;
pub const USE_KW: u16 = 96;
pub const MOD_KW: u16 = 78;
pub const CONST_KW: u16 = 60;
pub const STATIC_KW: u16 = 87;
pub const TYPE_KW: u16 = 92;
pub const ASYNC_KW: u16 = 102;
pub const AWAIT_KW: u16 = 105;
pub const DYN_KW: u16 = 109;
pub const STRING: u16 = 141;
pub const BYTE_STRING: u16 = 136;
pub const COMMENT: u16 = 142;
pub const INT_NUMBER: u16 = 140;
pub const FLOAT_NUMBER: u16 = 139;
pub const IDENT: u16 = 145;

/// Whether `kind` is one of the keywords that highlighting colours.
pub open spec fn is_highlighted_keyword(kind: u16) -> bool {
    kind == FN_KW || kind == LET_KW || kind == MUT_KW || kind == IF_KW || kind == ELSE_KW
        || kind == MATCH_KW || kind == WHILE_KW || kind == FOR_KW || kind == LOOP_KW || kind
        == BREAK_KW || kind == CONTINUE_KW || kind == RETURN_KW || kind == STRUCT_KW || kind
        == ENUM_KW || kind == TRAIT_KW || kind == IMPL_KW || kind == PUB_KW || kind == USE_KW
        || kind == MOD_KW || kind == CONST_KW || kind == STATIC_KW || kind == TYPE_KW || kind
        == ASYNC_KW || kind == AWAIT_KW || kind == DYN_KW
}

/// Whether `kind` is a punctuation token: brackets, separators and operators
/// (`SyntaxKind` codes 3 to 53 of `ra_ap_syntax` 0.0.300, apart from those it does not
/// colour: `~`, `#`, `..`, `...`, `..=`, `::`, `==`, `!=`, `&&`, `||`).
pub open spec fn is_punctuation(kind: u16) -> bool {
    (3 <= kind <= 13) || (16 <= kind <= 25) || kind == 29 || kind == 31 || kind == 33 || kind
        == 34 || (36 <= kind <= 47) || (50 <= kind <= 53)
}

/// Category that lexical highlighting gives a token kind.
pub open spec fn spec_classify_token(kind: u16) -> TokenCategory {
    if is_highlighted_keyword(kind) {
        TokenCategory::Keyword
    } else if kind == STRING || kind == BYTE_STRING {
        TokenCategory::String
    } else if kind == COMMENT {
        TokenCategory::Comment
    } else if kind == INT_NUMBER || kind == FLOAT_NUMBER {
        TokenCategory::Number
    } else if is_punctuation(kind) {
        TokenCategory::Punctuation
    } else if kind == IDENT {
        TokenCategory::Variable
    } else {
        TokenCategory::Unclassified
    }
}

/// Category that lexical highlighting gives a token kind. Names fall back to
/// `Variable`, so that text at an edit does not flash uncoloured while semantic
/// highlighting catches up.
pub fn classify_token(kind: u16) -> (r: TokenCategory)
    ensures
        r == spec_classify_token(kind),
{
    if kind == FN_KW || kind == LET_KW || kind == MUT_KW || kind == IF_KW || kind == ELSE_KW
        || kind == MATCH_KW || kind == WHILE_KW || kind == FOR_KW || kind == LOOP_KW || kind
        == BREAK_KW || kind == CONTINUE_KW || kind == RETURN_KW || kind == STRUCT_KW || kind
        == ENUM_KW || kind == TRAIT_KW || kind == IMPL_KW || kind == PUB_KW || kind == USE_KW
        || kind == MOD_KW || kind == CONST_KW || kind == STATIC_KW || kind == TYPE_KW || kind
        == ASYNC_KW || kind == AWAIT_KW || kind == DYN_KW {
        TokenCategory::Keyword
    } else if kind == STRING || kind == BYTE_STRING {
        TokenCategory::String
    } else if kind == COMMENT {
        TokenCategory::Comment
    } else if kind == INT_NUMBER || kind == FLOAT_NUMBER {
        TokenCategory::Number
    } else if (3 <= kind && kind <= 13) || (16 <= kind && kind <= 25) || kind == 29 || kind == 31
        || kind == 33 || kind == 34 || (36 <= kind && kind <= 47) || (50 <= kind && kind <= 53) {
        TokenCategory::Punctuation
    } else if kind == IDENT {
        TokenCategory::Variable
    } else {
        TokenCategory::Unclassified
    }
}

/// Document ranges and categories of the coloured tokens among `elements`, in order.
pub open spec fn token_highlights(elements: Seq<(u16, u32, u32, bool)>, base: int) -> Seq<
    (u64, u64, TokenCategory),
>
    decreases elements.len(),
{
    if elements.len() == 0 {
        Seq::empty()
    } else {
        let before = token_highlights(elements.drop_last(), base);
        let e = elements.last();
        if e.3 && spec_classify_token(e.0) != TokenCategory::Unclassified {
            before.push(((base + e.1) as u64, (base + e.2) as u64, spec_classify_token(e.0)))
        } else {
            before
        }
    }
}

/// Every coloured token of `es` ends at or before `base + m` when every token of `es`
/// ends at or before `m`.
proof fn lemma_token_highlights_end_bound(es: Seq<(u16, u32, u32, bool)>, base: int, m: int)
    requires
        base >= 0,
        forall|i: int| 0 <= i < es.len() && #[trigger] es[i].3 ==> es[i].2 <= m,
        forall|i: int| 0 <= i < es.len() ==> base + #[trigger] es[i].2 <= u64::MAX,
    ensures
        forall|k: int|
            0 <= k < token_highlights(es, base).len() ==> #[trigger] token_highlights(es, base)[k].1
                <= base + m,
    decreases es.len(),
{
    if es.len() > 0 {
        let init = es.drop_last();
        assert forall|i: int| 0 <= i < init.len() && #[trigger] init[i].3 implies init[i].2 <= m by {
            assert(init[i] == es[i]);
        }
        assert forall|i: int| 0 <= i < init.len() implies base + #[trigger] init[i].2 <= u64::MAX by {
            assert(init[i] == es[i]);
        }
        lemma_token_highlights_end_bound(init, base, m);
        let e = es.last();
        assert(e == es[es.len() - 1]);
        let th = token_highlights(es, base);
        let before = token_highlights(init, base);
        assert forall|k: int| 0 <= k < th.len() implies #[trigger] th[k].1 <= base + m by {
            if k < before.len() {
                assert(th[k] == before[k]);
            } else {
                assert(e.3);
                assert(th[k].1 == (base + e.2) as u64);
            }
        }
    }
}

/// The coloured tokens of elements whose tokens come in text order come in text order
/// too: each ends at or before the start of every later one.
proof fn lemma_token_highlights_ordered(es: Seq<(u16, u32, u32, bool)>, base: int)
    requires
        base >= 0,
        tokens_in_order(es),
        forall|i: int| 0 <= i < es.len() ==> #[trigger] es[i].1 <= es[i].2,
        forall|i: int| 0 <= i < es.len() ==> base + #[trigger] es[i].2 <= u64::MAX,
    ensures
        forall|i: int, j: int|
            0 <= i < j < token_highlights(es, base).len() ==> #[trigger] token_highlights(es, base)[i].1
                <= #[trigger] token_highlights(es, base)[j].0,
        forall|i: int|
            0 <= i < token_highlights(es, base).len() ==> #[trigger] token_highlights(es, base)[i].0
                <= token_highlights(es, base)[i].1,
    decreases es.len(),
{
    if es.len() > 0 {
        let init = es.drop_last();
        let e = es.last();
        assert(e == es[es.len() - 1]);
        assert forall|i: int, j: int|
            0 <= i < j < init.len() && #[trigger] init[i].3 && #[trigger] init[j].3 implies init[i].2
                <= init[j].1 by {
            assert(init[i] == es[i] && init[j] == es[j]);
        }
        assert forall|i: int| 0 <= i < init.len() implies #[trigger] init[i].1 <= init[i].2 by {
            assert(init[i] == es[i]);
        }
        assert forall|i: int| 0 <= i < init.len() implies base + #[trigger] init[i].2 <= u64::MAX by {
            assert(init[i] == es[i]);
        }
        lemma_token_highlights_ordered(init, base);
        if e.3 {
            assert forall|i: int| 0 <= i < init.len() && #[trigger] init[i].3 implies init[i].2
                <= e.1 by {
                assert(init[i] == es[i]);
                assert(es[i].3 && es[es.len() - 1].3);
            }
            lemma_token_highlights_end_bound(init, base, e.1 as int);
        }
        let th = token_highlights(es, base);
        let before = token_highlights(init, base);
        assert forall|i: int| 0 <= i < th.len() implies #[trigger] th[i].0 <= th[i].1 by {
            if i < before.len() {
                assert(th[i] == before[i]);
            } else {
                assert(th[i].0 == (base + e.1) as u64 && th[i].1 == (base + e.2) as u64);
            }
        }
        assert forall|i: int, j: int| 0 <= i < j < th.len() implies #[trigger] th[i].1
            <= #[trigger] th[j].0 by {
            assert(th[i] == before[i]);
            if j < before.len() {
                assert(th[j] == before[j]);
            } else {
                assert(e.3);
                assert(th[j].0 == (base + e.1) as u64);
                assert(before[i].1 <= base + e.1);
            }
        }
    }
}

/// The coloured tokens of a parsed fragment, placed in the document.
pub fn highlight_viewport(viewport: &ViewportTree) -> (r: Vec<(u64, u64, TokenCategory)>)
    requires
        tree_fits(*viewport),
    ensures
        r@ == token_highlights(viewport.elements@, fragment_base(*viewport)),
{
    let mut highlights: Vec<(u64, u64, TokenCategory)> = Vec::new();
    let mut i: usize = 0;
    while i < viewport.elements.len()
        invariant
            i <= viewport.elements@.len(),
            tree_fits(*viewport),
            highlights@ == token_highlights(
                viewport.elements@.take(i as int),
                fragment_base(*viewport),
            ),
        decreases viewport.elements@.len() - i,
    {
        let (kind, start, end, is_token) = viewport.elements[i];
        proof {
            assert(viewport.elements@.take(i + 1).drop_last() =~= viewport.elements@.take(i as int));
            assert(viewport.elements@[i as int] == (kind, start, end, is_token));
        }
        if is_token {
            let category = classify_token(kind);
            if category != TokenCategory::Unclassified {
                let (global_start, global_end) = viewport.local_to_global((start, end));
                highlights.push((global_start, global_end, category));
            }
        }
        i = i + 1;
    }
    proof {
        assert(viewport.elements@.take(i as int) =~= viewport.elements@);
    }
    highlights
}

/// Syntax highlighting of one window of the document.
pub struct SvpPipeline;

/// Highlight spans of the document window `buffer` read at `global_offset`: the bytes
/// from the start of the window up to where they stop being valid UTF-8, parsed as Rust.
pub open spec fn viewport_highlights(global_offset: u64, buffer: Seq<u8>) -> Seq<HighlightSpan> {
    let end = retract_to_valid(buffer, 0, buffer.len() as int);
    if end <= 0 {
        Seq::empty()
    } else {
        token_highlights(
            parsed_elements(buffer.subrange(0, end)),
            global_offset as int,
        ).map_values(
            |t: (u64, u64, TokenCategory)|
                HighlightSpan { start: DocByte(t.0), end: DocByte(t.1), category: t.2 },
        )
    }
}

impl SvpPipeline {
    /// Lexical highlights of a window of the document, from its first byte on.
    pub fn process_viewport(global_offset: DocByte, buffer: &[u8]) -> (r: Vec<HighlightSpan>)
        requires
            buffer@.len() <= u32::MAX,
            global_offset.0 + buffer@.len() <= u64::MAX,
        ensures
            r@ == viewport_highlights(global_offset.0, buffer@),
            starts_sorted(r@),
    {
        let end = valid_end_from(buffer, 0);
        if end == 0 {
            return Vec::new();
        }
        let mut copy: Vec<u8> = Vec::new();
        let mut i: usize = 0;
        while i < buffer.len()
            invariant
                i <= buffer@.len(),
                copy@ == buffer@.take(i as int),
            decreases buffer@.len() - i,
        {
            copy.push(buffer[i]);
            i = i + 1;
        }
        assert(buffer@.take(i as int) =~= buffer@);
        let chunk = ViewportChunk { global_offset, buffer: copy };
        let tree = parse_fragment(&chunk, (0, end));
        assert forall|j: int| 0 <= j < tree.elements@.len() implies fragment_base(tree)
            + #[trigger] tree.elements@[j].2 <= u64::MAX && tree.elements@[j].1
            <= tree.elements@[j].2 by {
            assert(tree.elements@[j].1 <= tree.elements@[j].2);
        }
        let tokens = highlight_viewport(&tree);
        proof {
            lemma_token_highlights_ordered(tree.elements@, fragment_base(tree));
        }
        let mut spans: Vec<HighlightSpan> = Vec::new();
        let mut k: usize = 0;
        while k < tokens.len()
            invariant
                k <= tokens@.len(),
                spans@ == tokens@.take(k as int).map_values(
                    |t: (u64, u64, TokenCategory)|
                        HighlightSpan { start: DocByte(t.0), end: DocByte(t.1), category: t.2 },
                ),
            decreases tokens@.len() - k,
        {
            let (s, e, c) = tokens[k];
            spans.push(HighlightSpan { start: DocByte(s), end: DocByte(e), category: c });
            proof {
                assert(tokens@.take(k + 1) =~= tokens@.take(k as int).push(tokens@[k as int]));
            }
            k = k + 1;
        }
        proof {
            assert(tokens@.take(k as int) =~= tokens@);
            assert forall|i: int, j: int| 0 <= i <= j < spans@.len() implies spans@[i].start.0
                <= spans@[j].start.0 by {
                assert(spans@[i].start.0 == tokens@[i].0 && spans@[j].start.0 == tokens@[j].0);
                assert(tokens@[i].0 <= tokens@[i].1);
            }
        }
        spans
    }
}

/// Moving the document offset of a window moves every highlight by the same amount and
/// changes nothing else, when the elements lie within the first `m` bytes.
pub proof fn highlights_shift_with_offset(es: Seq<(u16, u32, u32, bool)>, base: int, m: int)
    requires
        base >= 0,
        base + m <= u64::MAX,
        forall|i: int| 0 <= i < es.len() ==> #[trigger] es[i].1 <= es[i].2 <= m,
    ensures
        token_highlights(es, base).len() == token_highlights(es, 0).len(),
        forall|i: int|
            0 <= i < token_highlights(es, base).len() ==> {
                &&& #[trigger] token_highlights(es, base)[i].0 == token_highlights(es, 0)[i].0 + base
                &&& token_highlights(es, base)[i].1 == token_highlights(es, 0)[i].1 + base
                &&& token_highlights(es, base)[i].2 == token_highlights(es, 0)[i].2
            },
    decreases es.len(),
{
    if es.len() > 0 {
        let front = es.drop_last();
        assert forall|i: int| 0 <= i < front.len() implies #[trigger] front[i].1 <= front[i].2 <= m by {
            assert(front[i] == es[i]);
        }
        highlights_shift_with_offset(front, base, m);
        let n: int = es.len() - 1;
        assert(es[n].1 <= es[n].2 <= m);
        let e = es[n];
        assert(es.last() == e);
        let a = token_highlights(front, base);
        let b = token_highlights(front, 0);
        assert(e.1 <= e.2 <= m);
        assert forall|i: int|
            0 <= i < token_highlights(es, base).len() implies {
                &&& #[trigger] token_highlights(es, base)[i].0 == token_highlights(es, 0)[i].0 + base
                &&& token_highlights(es, base)[i].1 == token_highlights(es, 0)[i].1 + base
                &&& token_highlights(es, base)[i].2 == token_highlights(es, 0)[i].2
            } by {
            if i < a.len() {
                assert(token_highlights(es, base)[i] == a[i]);
                assert(token_highlights(es, 0)[i] == b[i]);
            }
        }
    }
}

} // verus!
