use vstd::prelude::*;

use vstd::utf8::{encode_utf8, encode_scalar, char_is_scalar};

verus! {

/// Byte offset, in the UTF-8 encoding of `cs`, of the char at index `k`.
pub open spec fn char_offset(cs: Seq<char>, k: int) -> int {
    encode_utf8(cs.take(k)).len() as int
}

/// UTF-8 encoding distributes over concatenation.
pub proof fn lemma_encode_concat(a: Seq<char>, b: Seq<char>)
    ensures
        encode_utf8(a + b) == encode_utf8(a) + encode_utf8(b),
    decreases a.len(),
{
    if a.len() == 0 {
        assert(a + b =~= b);
        assert(encode_utf8(a) =~= Seq::<u8>::empty());
        assert(encode_utf8(a) + encode_utf8(b) =~= encode_utf8(b));
    } else {
        assert((a + b).drop_first() =~= a.drop_first() + b);
        assert((a + b)[0] == a[0]);
        lemma_encode_concat(a.drop_first(), b);
        assert(encode_utf8(a + b) =~= encode_scalar(a[0] as u32) + (encode_utf8(a.drop_first())
            + encode_utf8(b)));
    }
}

/// The encoding of a single char is that of its scalar value.
pub proof fn lemma_encode_single(c: char)
    ensures
        encode_utf8(seq![c]) == encode_scalar(c as u32),
{
    let s = seq![c];
    assert(s.drop_first() =~= Seq::<char>::empty());
    assert(encode_utf8(s.drop_first()) =~= Seq::<u8>::empty());
    assert(encode_utf8(s) =~= encode_scalar(c as u32));
}

/// Offsets grow by the width of each char.
pub proof fn lemma_char_offset_step(cs: Seq<char>, k: int)
    requires
        0 <= k < cs.len(),
    ensures
        char_offset(cs, k + 1) == char_offset(cs, k) + encode_utf8(seq![cs[k]]).len(),
{
    assert(cs.take(k + 1) =~= cs.take(k) + seq![cs[k]]);
    lemma_encode_concat(cs.take(k), seq![cs[k]]);
}

/// Offsets are strictly increasing in the char index.
pub proof fn lemma_char_offset_mono(cs: Seq<char>, i: int, j: int)
    requires
        0 <= i <= j <= cs.len(),
    ensures
        char_offset(cs, i) <= char_offset(cs, j),
        i < j ==> char_offset(cs, i) < char_offset(cs, j),
    decreases j - i,
{
    if i < j {
        lemma_char_offset_mono(cs, i, j - 1);
        lemma_char_offset_step(cs, j - 1);
        lemma_width_positive(cs[j - 1]);
    }
}

/// Every char takes at least one byte.
pub proof fn lemma_width_positive(c: char)
    ensures
        encode_utf8(seq![c]).len() >= 1,
{
    lemma_encode_single(c);
}

/// The full offset is the encoded length.
pub proof fn lemma_char_offset_full(cs: Seq<char>)
    ensures
        char_offset(cs, cs.len() as int) == encode_utf8(cs).len(),
{
    assert(cs.take(cs.len() as int) =~= cs);
}

/// Number of bytes in the UTF-8 encoding of `c`.
pub fn utf8_width(c: char) -> (r: usize)
    ensures
        r == encode_utf8(seq![c]).len(),
        1 <= r <= 4,
{
    proof {
        lemma_encode_single(c);
        char_is_scalar(c);
    }
    let v = c as u32;
    if v < 0x80 {
        1
    } else if v < 0x800 {
        2
    } else if v < 0x10000 {
        3
    } else {
        4
    }
}

/// The chars of `doc` with the byte offset at which each starts, followed by the
/// length of `doc`.
pub fn char_table(doc: &str) -> (r: (Vec<char>, Vec<usize>))
    ensures
        r.0@ == doc@,
        r.1@.len() == doc@.len() + 1,
        forall|k: int| 0 <= k <= doc@.len() ==> #[trigger] r.1@[k] == char_offset(doc@, k),
{
    let ghost cs = doc@;
    let mut chars: Vec<char> = Vec::new();
    let mut offs: Vec<usize> = Vec::new();
    let mut pos: usize = 0;
    let total = doc.as_bytes().len();
    assert(total == encode_utf8(cs).len());
    offs.push(0);
    proof {
        assert(cs.take(0) =~= Seq::<char>::empty());
        assert(encode_utf8(Seq::<char>::empty()) =~= Seq::<u8>::empty());
    }
    for c in it: doc.chars()
        invariant
            cs == doc@,
            it.seq() == cs,
            chars@ == cs.take(it.index() as int),
            offs@.len() == it.index() + 1,
            pos == offs@[it.index() as int],
            forall|k: int| 0 <= k <= it.index() ==> #[trigger] offs@[k] == char_offset(cs, k),
            char_offset(cs, it.index() as int) <= encode_utf8(cs).len(),
            encode_utf8(cs).len() <= usize::MAX,
    {
        let ghost k = it.index() as int;
        let w = utf8_width(c);
        proof {
            lemma_char_offset_step(cs, k);
            lemma_char_offset_mono(cs, k + 1, cs.len() as int);
            lemma_char_offset_full(cs);
        }
        pos = pos + w;
        chars.push(c);
        offs.push(pos);
        proof {
            assert(cs.take(k + 1) =~= cs.take(k).push(c));
        }
    }
    proof {
        assert(cs.take(cs.len() as int) =~= cs);
    }
    (chars, offs)
}

} // verus!
