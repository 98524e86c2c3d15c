use vstd::prelude::*;

use ra_ap_syntax::{Edition, SyntaxKind};

use crate::pipeline::IDENT;

verus! {

/// Raw `SyntaxKind` code of whitespace in `ra_ap_syntax` 0.0.300.
pub const WHITESPACE: u16 = 149;

/// Largest raw `SyntaxKind` code of `ra_ap_syntax` 0.0.300.
pub const LAST_KIND: u16 = 305;

/// Whether `SyntaxKind::is_keyword(Edition2024)` holds of the kind with code `k`.
pub uninterp spec fn keyword_kind(k: u16) -> bool;

/// The literal kinds of `ra_ap_syntax` 0.0.300: `BYTE`, `BYTE_STRING`, `CHAR`,
/// `C_STRING`, `FLOAT_NUMBER`, `INT_NUMBER` and `STRING`, whose codes run from 135 to 141.
pub open spec fn literal_kind(k: u16) -> bool {
    135 <= k <= 141
}

/// Whether `SyntaxKind::is_punct` holds of the kind with code `k`.
pub uninterp spec fn punct_kind(k: u16) -> bool;

/// `SyntaxKind::from(k).is_keyword(Edition::Edition2024)`: whether the kind is a keyword
/// of the 2024 edition. `From<u16>` asserts that the code is a kind, hence the bound.
#[verifier::external_body]
fn is_keyword_kind(k: u16) -> (r: bool)
    requires
        k <= LAST_KIND,
    ensures
        r == keyword_kind(k),
{
    SyntaxKind::from(k).is_keyword(Edition::Edition2024)
}

/// `SyntaxKind::from(k).is_literal()`: whether the kind is one of the seven literal
/// kinds, which its source lists.
#[verifier::external_body]
fn is_literal_kind(k: u16) -> (r: bool)
    requires
        k <= LAST_KIND,
    ensures
        r == literal_kind(k),
{
    SyntaxKind::from(k).is_literal()
}

/// `SyntaxKind::from(k).is_punct()`: whether the kind is punctuation.
#[verifier::external_body]
fn is_punct_kind(k: u16) -> (r: bool)
    requires
        k <= LAST_KIND,
    ensures
        r == punct_kind(k),
{
    SyntaxKind::from(k).is_punct()
}

/// A token that a word object takes: an identifier, a keyword or a literal.
pub open spec fn structural(k: u16) -> bool {
    k <= LAST_KIND && (k == IDENT || keyword_kind(k) || literal_kind(k))
}

/// A token that the search for a word object passes over: whitespace or punctuation.
pub open spec fn passable(k: u16) -> bool {
    k == WHITESPACE || (k <= LAST_KIND && punct_kind(k))
}

/// Whether token kind `k` makes a word object.
pub fn is_structural(k: u16) -> (r: bool)
    ensures
        r == structural(k),
{
    k <= LAST_KIND && (k == IDENT || is_keyword_kind(k) || is_literal_kind(k))
}

/// Whether the search for a word object passes over token kind `k`.
pub fn is_passable(k: u16) -> (r: bool)
    ensures
        r == passable(k),
{
    k == WHITESPACE || (k <= LAST_KIND && is_punct_kind(k))
}

/// Index of the first token, from index `i` on, that is not empty and touches `off`
/// (starts at or before it and ends at or after it).
pub open spec fn touching_from(ts: Seq<(u16, u32, u32)>, off: int, i: int) -> Option<int>
    decreases ts.len() - i,
{
    if i < 0 || i >= ts.len() {
        None
    } else if ts[i].1 < ts[i].2 && ts[i].1 <= off <= ts[i].2 {
        Some(i)
    } else {
        touching_from(ts, off, i + 1)
    }
}

/// From token `i` forward: the first word token, passing over whitespace and
/// punctuation.
pub open spec fn seek_next(ts: Seq<(u16, u32, u32)>, i: int) -> Option<int>
    decreases ts.len() - i,
{
    if i < 0 || i >= ts.len() {
        None
    } else if structural(ts[i].0) {
        Some(i)
    } else if passable(ts[i].0) {
        seek_next(ts, i + 1)
    } else {
        None
    }
}

/// From token `i` backward: the first word token, passing over whitespace and
/// punctuation.
pub open spec fn seek_prev(ts: Seq<(u16, u32, u32)>, i: int) -> Option<int>
    decreases i + 1,
{
    if i < 0 || i >= ts.len() {
        None
    } else if structural(ts[i].0) {
        Some(i)
    } else if passable(ts[i].0) {
        seek_prev(ts, i - 1)
    } else {
        None
    }
}

/// `a`, or else `b`.
pub open spec fn or_else(a: Option<int>, b: Option<int>) -> Option<int> {
    if a is Some {
        a
    } else {
        b
    }
}

/// The word token a word object at byte `off` takes, among the tokens `ts` in text order:
/// with one token at `off`, that token if it is a word, else the nearest word after it
/// (passing whitespace and punctuation), else the nearest before. Between two tokens:
/// the right one if it is a word; the word after right-hand whitespace; the left one if
/// it is a word; the word after right-hand punctuation; else the nearest word before.
pub open spec fn word_token_at(ts: Seq<(u16, u32, u32)>, off: int) -> Option<int> {
    match touching_from(ts, off, 0) {
        None => None,
        Some(l) => match touching_from(ts, off, l + 1) {
            None => if structural(ts[l].0) {
                Some(l)
            } else {
                or_else(seek_next(ts, l), seek_prev(ts, l))
            },
            Some(r) => if structural(ts[r].0) {
                Some(r)
            } else if ts[r].0 == WHITESPACE && seek_next(ts, r) is Some {
                seek_next(ts, r)
            } else if structural(ts[l].0) {
                Some(l)
            } else if ts[r].0 <= LAST_KIND && punct_kind(ts[r].0) && seek_next(ts, r) is Some {
                seek_next(ts, r)
            } else {
                seek_prev(ts, l)
            },
        },
    }
}

/// A touching token found from index `i` on lies at or after `i`, inside the sequence.
proof fn lemma_touching_range(ts: Seq<(u16, u32, u32)>, off: int, i: int)
    ensures
        touching_from(ts, off, i) matches Some(j) ==> i <= j < ts.len() && 0 <= j,
    decreases ts.len() - i,
{
    if 0 <= i < ts.len() {
        lemma_touching_range(ts, off, i + 1);
    }
}

/// What a forward search finds lies at or after its start, inside the sequence.
proof fn lemma_seek_next_range(ts: Seq<(u16, u32, u32)>, i: int)
    ensures
        seek_next(ts, i) matches Some(j) ==> i <= j < ts.len() && 0 <= j,
    decreases ts.len() - i,
{
    if 0 <= i < ts.len() {
        lemma_seek_next_range(ts, i + 1);
    }
}

/// What a backward search finds lies at or before its start, inside the sequence.
proof fn lemma_seek_prev_range(ts: Seq<(u16, u32, u32)>, i: int)
    ensures
        seek_prev(ts, i) matches Some(j) ==> 0 <= j <= i < ts.len(),
    decreases i + 1,
{
    if 0 <= i < ts.len() {
        lemma_seek_prev_range(ts, i - 1);
    }
}

/// The word token picked lies inside the sequence.
pub proof fn lemma_word_token_range(ts: Seq<(u16, u32, u32)>, off: int)
    ensures
        word_token_at(ts, off) matches Some(j) ==> 0 <= j < ts.len(),
{
    lemma_touching_range(ts, off, 0);
    if let Some(l) = touching_from(ts, off, 0) {
        lemma_touching_range(ts, off, l + 1);
        lemma_seek_next_range(ts, l);
        lemma_seek_prev_range(ts, l);
        if let Some(r) = touching_from(ts, off, l + 1) {
            lemma_seek_next_range(ts, r);
        }
    }
}

fn touching_exec(ts: &Vec<(u16, u32, u32)>, off: u64, from: usize) -> (r: Option<usize>)
    requires
        from <= ts@.len(),
    ensures
        match touching_from(ts@, off as int, from as int) {
            None => r is None,
            Some(i) => r == Some(i as usize),
        },
        r matches Some(i) ==> i < ts@.len(),
{
    let mut i = from;
    while i < ts.len()
        invariant
            from <= i <= ts@.len(),
            touching_from(ts@, off as int, from as int) == touching_from(ts@, off as int, i as int),
        decreases ts@.len() - i,
    {
        let (_, s, e) = ts[i];
        if s < e && s as u64 <= off && off <= e as u64 {
            return Some(i);
        }
        i = i + 1;
    }
    None
}

fn seek_next_exec(ts: &Vec<(u16, u32, u32)>, from: usize) -> (r: Option<usize>)
    ensures
        match seek_next(ts@, from as int) {
            None => r is None,
            Some(i) => r == Some(i as usize),
        },
        r matches Some(i) ==> i < ts@.len(),
{
    let mut i = from;
    while i < ts.len()
        invariant
            from <= i,
            seek_next(ts@, from as int) == seek_next(ts@, i as int),
        decreases ts@.len() - i,
    {
        let k = ts[i].0;
        if is_structural(k) {
            return Some(i);
        }
        if !is_passable(k) {
            return None;
        }
        i = i + 1;
    }
    None
}

fn seek_prev_exec(ts: &Vec<(u16, u32, u32)>, from: usize) -> (r: Option<usize>)
    ensures
        match seek_prev(ts@, from as int) {
            None => r is None,
            Some(i) => r == Some(i as usize),
        },
        r matches Some(i) ==> i < ts@.len(),
{
    if from >= ts.len() {
        return None;
    }
    let mut i = from;
    loop
        invariant
            i < ts@.len(),
            seek_prev(ts@, from as int) == seek_prev(ts@, i as int),
        decreases i,
    {
        let k = ts[i].0;
        if is_structural(k) {
            return Some(i);
        }
        if !is_passable(k) || i == 0 {
            assert(seek_prev(ts@, -1) is None);
            return None;
        }
        i = i - 1;
    }
}

/// The word token a word object at byte `off` takes; see `word_token_at`.
pub fn select_word_token(ts: &Vec<(u16, u32, u32)>, off: u64) -> (r: Option<usize>)
    ensures
        match word_token_at(ts@, off as int) {
            None => r is None,
            Some(i) => r == Some(i as usize),
        },
        r matches Some(i) ==> i < ts@.len(),
{
    let n = ts.len();
    let l = match touching_exec(ts, off, 0) {
        None => {
            return None;
        },
        Some(l) => l,
    };
    assert(l < n);
    proof {
        lemma_touching_range(ts@, off as int, 0);
        lemma_touching_range(ts@, off as int, l + 1);
    }
    match touching_exec(ts, off, l + 1) {
        None => {
            if is_structural(ts[l].0) {
                Some(l)
            } else {
                match seek_next_exec(ts, l) {
                    Some(i) => Some(i),
                    None => seek_prev_exec(ts, l),
                }
            }
        },
        Some(right) => {
            let rk = ts[right].0;
            if is_structural(rk) {
                return Some(right);
            }
            if rk == WHITESPACE {
                if let Some(i) = seek_next_exec(ts, right) {
                    return Some(i);
                }
            }
            if is_structural(ts[l].0) {
                return Some(l);
            }
            if rk <= LAST_KIND && is_punct_kind(rk) {
                if let Some(i) = seek_next_exec(ts, right) {
                    return Some(i);
                }
            }
            seek_prev_exec(ts, l)
        },
    }
}

/// The tokens among the elements of a syntax tree, as kind, start and end, in order.
pub open spec fn tokens_of(es: Seq<(u16, u32, u32, bool)>) -> Seq<(u16, u32, u32)>
    decreases es.len(),
{
    if es.len() == 0 {
        Seq::empty()
    } else {
        let e = es.last();
        let before = tokens_of(es.drop_last());
        if e.3 {
            before.push((e.0, e.1, e.2))
        } else {
            before
        }
    }
}

/// The tokens among `es`.
pub fn collect_tokens(es: &Vec<(u16, u32, u32, bool)>) -> (r: Vec<(u16, u32, u32)>)
    ensures
        r@ == tokens_of(es@),
{
    let mut out: Vec<(u16, u32, u32)> = Vec::new();
    let mut i: usize = 0;
    while i < es.len()
        invariant
            i <= es@.len(),
            out@ == tokens_of(es@.take(i as int)),
        decreases es@.len() - i,
    {
        let (k, s, e, is_token) = es[i];
        proof {
            assert(es@.take(i + 1).drop_last() =~= es@.take(i as int));
        }
        if is_token {
            out.push((k, s, e));
        }
        i = i + 1;
    }
    proof {
        assert(es@.take(es@.len() as int) =~= es@);
    }
    out
}

} // verus!
