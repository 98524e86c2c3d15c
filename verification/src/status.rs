use vstd::prelude::*;
use crate::prompt::push_char;

verus! {

/// The char of decimal digit `d`.
pub open spec fn digit_char(d: int) -> char {
    (48 + d) as char
}

/// Decimal digits of `n`, most significant first, without leading zeros.
pub open spec fn decimal(n: nat) -> Seq<char>
    decreases n,
{
    if n < 10 {
        seq![digit_char(n as int)]
    } else {
        decimal(n / 10).push(digit_char((n % 10) as int))
    }
}

/// The decimal digits of an integer, as `format!("{}", n)` writes them.
pub(crate) fn decimal_text(n: u128) -> (r: String)
    ensures
        r@ == decimal(n as nat),
    decreases n,
{
    let d: u8 = (n % 10) as u8;
    let c: char = (48u8 + d) as char;
    let mut s = if n < 10 {
        String::new()
    } else {
        decimal_text(n / 10)
    };
    push_char(&mut s, c);
    s
}

/// `2` to the power `k`.
pub open spec fn two_to(k: nat) -> nat
    decreases k,
{
    if k == 0 {
        1
    } else {
        2 * two_to((k - 1) as nat)
    }
}

/// Number of binary digits of `n`.
pub open spec fn bit_len(n: nat) -> nat
    decreases n,
{
    if n == 0 {
        0
    } else {
        1 + bit_len(n / 2)
    }
}

/// `q` plus one when the remainder `r` of a division by `d` is past half of `d`, or
/// exactly half with `q` odd: rounding to nearest, ties to even.
pub open spec fn round_half_even(q: int, r: int, d: int) -> int {
    if 2 * r > d || (2 * r == d && q % 2 == 1) {
        q + 1
    } else {
        q
    }
}

/// The value `n as f64` holds: `n` itself up to 53 significant bits, else `n` rounded
/// to 53 significant bits, to nearest with ties to even.
pub open spec fn f64_value(n: u64) -> int {
    let l = bit_len(n as nat);
    if l <= 53 {
        n as int
    } else {
        let p = two_to((l - 53) as nat) as int;
        round_half_even((n as int) / p, (n as int) % p, p) * p
    }
}

/// Tenths of `v / unit`, as `{:.1}` prints them: rounded to nearest, ties to even.
pub open spec fn tenths_of(v: int, unit: int) -> int {
    round_half_even((v * 10) / unit, (v * 10) % unit, unit)
}

/// A file size for humans: bytes below a KiB, else KB, MB or GB with one decimal.
pub open spec fn spec_file_size(bytes: u64) -> Seq<char> {
    if bytes < 1024 {
        decimal(bytes as nat) + seq![' ', 'B']
    } else {
        let unit: int = if bytes >= 1073741824 {
            1073741824
        } else if bytes >= 1048576 {
            1048576
        } else {
            1024
        };
        let t = tenths_of(f64_value(bytes), unit);
        let suffix = if bytes >= 1073741824 {
            seq![' ', 'G', 'B']
        } else if bytes >= 1048576 {
            seq![' ', 'M', 'B']
        } else {
            seq![' ', 'K', 'B']
        };
        decimal((t / 10) as nat) + seq!['.'] + decimal((t % 10) as nat) + suffix
    }
}

proof fn lemma_bit_len_bound(n: nat, l: nat)
    requires
        n < two_to(l),
    ensures
        bit_len(n) <= l,
    decreases l,
{
    if l > 0 && n > 0 {
        lemma_bit_len_bound(n / 2, (l - 1) as nat);
    }
}

proof fn lemma_two_to_positive(k: nat)
    ensures
        two_to(k) >= 1,
    decreases k,
{
    if k > 0 {
        lemma_two_to_positive((k - 1) as nat);
    }
}

proof fn lemma_two_to_mono(i: nat, j: nat)
    requires
        i <= j,
    ensures
        two_to(i) <= two_to(j),
    decreases j - i,
{
    if i < j {
        lemma_two_to_mono(i, (j - 1) as nat);
        lemma_two_to_positive((j - 1) as nat);
    }
}

proof fn lemma_bit_len_low(n: nat)
    requires
        n > 0,
    ensures
        bit_len(n) >= 1,
        n >= two_to((bit_len(n) - 1) as nat),
    decreases n,
{
    if n >= 2 {
        lemma_bit_len_low(n / 2);
        let k = bit_len(n / 2);
        assert(bit_len(n) == 1 + k);
        assert(two_to(k) == 2 * two_to((k - 1) as nat));
    } else {
        assert(bit_len(n / 2) == 0);
    }
}

proof fn lemma_two_to_values()
    ensures
        two_to(10) == 1024,
        two_to(11) == 2048,
        two_to(64) == 0x1_0000_0000_0000_0000,
{
    reveal_with_fuel(two_to, 65);
}

/// `n as f64`, as an exact integer.
fn f64_of(n: u64) -> (r: u128)
    ensures
        r == f64_value(n),
        r <= 2 * (n as int),
{
    let mut l: u32 = 0;
    let mut m: u64 = n;
    proof {
        lemma_two_to_values();
    }
    while m > 0
        invariant
            bit_len(n as nat) == l + bit_len(m as nat),
            l <= 64,
            m < two_to((64 - l) as nat),
        decreases m,
    {
        m = m / 2;
        l = l + 1;
    }
    if l <= 53 {
        return n as u128;
    }
    let s = l - 53;
    let mut p: u128 = 1;
    let mut k: u32 = 0;
    proof {
        lemma_two_to_values();
    }
    while k < s
        invariant
            k <= s,
            s <= 11,
            p == two_to(k as nat),
            two_to(10) == 1024,
        decreases s - k,
    {
        proof {
            lemma_two_to_mono(k as nat, 10);
        }
        p = p * 2;
        k = k + 1;
    }
    proof {
        lemma_two_to_positive(s as nat);
        lemma_two_to_mono(s as nat, 11);
        lemma_bit_len_low(n as nat);
        lemma_two_to_mono(s as nat, (l - 1) as nat);
    }
    let q = (n as u128) / p;
    let rem = (n as u128) % p;
    let q2 = if 2 * rem > p || (2 * rem == p && q % 2 == 1) {
        q + 1
    } else {
        q
    };
    proof {
        lemma_two_to_positive(s as nat);
        assert(q2 * p <= 2 * (n as int)) by (nonlinear_arith)
            requires
                p >= 1,
                q == (n as int) / (p as int),
                q2 <= q + 1,
                (n as int) >= p * 1,
        {
        }
    }
    q2 * p
}

/// Human-readable file size: bytes below a KiB, else KB, MB or GB with one decimal,
/// rounded as `{:.1}` rounds the size in floating point.
pub fn format_file_size(bytes: u64) -> (r: String)
    ensures
        r@ == spec_file_size(bytes),
{
    if bytes < 1024 {
        let mut s = decimal_text(bytes as u128);
        s.append(" B");
        proof {
            reveal_strlit(" B");
        }
        return s;
    }
    let unit: u128 = if bytes >= 1073741824 {
        1073741824
    } else if bytes >= 1048576 {
        1048576
    } else {
        1024
    };
    let v = f64_of(bytes);
    let q = (v * 10) / unit;
    let rem = (v * 10) % unit;
    let t = if 2 * rem > unit || (2 * rem == unit && q % 2 == 1) {
        q + 1
    } else {
        q
    };
    let mut s = decimal_text(t / 10);
    s.append(".");
    let tenth = decimal_text(t % 10);
    s.append(tenth.as_str());
    if bytes >= 1073741824 {
        s.append(" GB");
    } else if bytes >= 1048576 {
        s.append(" MB");
    } else {
        s.append(" KB");
    }
    proof {
        reveal_strlit(".");
        reveal_strlit(" GB");
        reveal_strlit(" MB");
        reveal_strlit(" KB");
    }
    s
}

/// The right side of the status bar: search position if any, wrap state, file size,
/// encoding and cursor position.
pub open spec fn spec_status_right_text(
    search_info: Option<Seq<char>>,
    wrap_enabled: bool,
    file_size: u64,
    cursor_line: u32,
    cursor_col: u32,
) -> Seq<char> {
    let sep = seq![' ', '|', ' '];
    let wrap_label = if wrap_enabled {
        seq!['W', 'R', 'A', 'P']
    } else {
        seq!['N', 'O', 'W', 'R', 'A', 'P']
    };
    let tail = wrap_label + sep + spec_file_size(file_size) + sep + seq!['U', 'T', 'F', '-', '8']
        + sep + decimal(cursor_line as nat) + seq![':'] + decimal(cursor_col as nat) + seq![' '];
    match search_info {
        Some(info) => info + sep + tail,
        None => tail,
    }
}

/// The part of the status text from the wrap label on.
fn status_tail(wrap_enabled: bool, file_size: u64, cursor_line: u32, cursor_col: u32) -> (r: String)
    ensures
        r@ == spec_status_right_text(None, wrap_enabled, file_size, cursor_line, cursor_col),
{
    proof {
        reveal_strlit(" | ");
        reveal_strlit("WRAP");
        reveal_strlit("NOWRAP");
        reveal_strlit("UTF-8");
        reveal_strlit(":");
        reveal_strlit(" ");
    }
    let mut s = if wrap_enabled {
        String::from_str("WRAP")
    } else {
        String::from_str("NOWRAP")
    };
    s.append(" | ");
    let size = format_file_size(file_size);
    s.append(size.as_str());
    s.append(" | ");
    s.append("UTF-8");
    s.append(" | ");
    let ghost head = s@;
    let line = decimal_text(cursor_line as u128);
    let col = decimal_text(cursor_col as u128);
    let mut pos = String::from_str(line.as_str());
    pos.append(":");
    pos.append(col.as_str());
    pos.append(" ");
    s.append(pos.as_str());
    proof {
        let sep = seq![' ', '|', ' '];
        let wrap_label = if wrap_enabled {
            seq!['W', 'R', 'A', 'P']
        } else {
            seq!['N', 'O', 'W', 'R', 'A', 'P']
        };
        assert(head =~= wrap_label + sep + spec_file_size(file_size) + sep + seq!['U', 'T', 'F', '-', '8'] + sep);
        assert(pos@ =~= decimal(cursor_line as nat) + seq![':'] + decimal(cursor_col as nat) + seq![' ']);
        assert(s@ =~= wrap_label + sep + spec_file_size(file_size) + sep + seq!['U', 'T', 'F', '-', '8']
            + sep + decimal(cursor_line as nat) + seq![':'] + decimal(cursor_col as nat) + seq![' ']);
    }
    s
}

pub fn status_right_text(
    search_info: Option<&str>,
    wrap_enabled: bool,
    file_size: u64,
    cursor_line: u32,
    cursor_col: u32,
) -> (r: String)
    ensures
        r@ == spec_status_right_text(
            match search_info {
                Some(s) => Some(s@),
                None => None,
            },
            wrap_enabled,
            file_size,
            cursor_line,
            cursor_col,
        ),
{
    let tail = status_tail(wrap_enabled, file_size, cursor_line, cursor_col);
    match search_info {
        Some(info) => {
            let mut s = String::from_str(info);
            s.append(" | ");
            s.append(tail.as_str());
            proof {
                reveal_strlit(" | ");
                assert(s@ =~= info@ + seq![' ', '|', ' '] + tail@);
            }
            s
        },
        None => tail,
    }
}

/// The preview image stands in for the text snapshot; the snapshot is drawn only when
/// no preview was drawn and none is on its way.
pub fn should_render_preview_snapshot_fallback(rendered_preview: bool, preview_pending: bool) -> (r:
    bool)
    ensures
        r == (!rendered_preview && !preview_pending),
{
    !rendered_preview && !preview_pending
}

/// Whether `start..start + len` (saturating) meets any of the half-open `ranges`.
pub fn segment_overlaps(ranges: &[(usize, usize)], start: usize, len: usize) -> (r: bool)
    ensures
        ({
            let end = if start + len > usize::MAX {
                usize::MAX as int
            } else {
                start + len
            };
            r == exists|i: int|
                0 <= i < ranges@.len() && #[trigger] ranges@[i].0 < end && ranges@[i].1 > start
        }),
{
    let end = start.saturating_add(len);
    let mut i: usize = 0;
    while i < ranges.len()
        invariant
            i <= ranges@.len(),
            end == (if start + len > usize::MAX {
                usize::MAX as int
            } else {
                start + len
            }),
            forall|k: int| 0 <= k < i ==> !(#[trigger] ranges@[k].0 < end && ranges@[k].1 > start),
        decreases ranges@.len() - i,
    {
        let (range_start, range_end) = ranges[i];
        if range_start < end && range_end > start {
            return true;
        }
        i = i + 1;
    }
    false
}

} // verus!
