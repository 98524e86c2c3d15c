use vstd::prelude::*;

use crate::status::{decimal, decimal_text};
use crate::prompt::{join_path, joined_path};
use crate::text::char_table;

verus! {

/// Theme used when the settings name none, or an unknown one.
pub const DEFAULT_THEME_NAME: &'static str = "onedark";

/// Whether the minimap shows when the settings do not say.
pub const DEFAULT_MINIMAP_ENABLED: bool = true;

/// Whether long lines wrap when the settings do not say.
pub const DEFAULT_WRAP_ENABLED: bool = true;

/// What a settings file says, each entry only if present.
#[derive(Debug, Clone, PartialEq, Eq)]
pub struct ParsedSettings {
    pub theme_name: Option<String>,
    pub minimap_enabled: Option<bool>,
    pub wrap_enabled: Option<bool>,
}

/// The settings as plain values.
pub open spec fn settings_view(p: ParsedSettings) -> (Option<Seq<char>>, Option<bool>, Option<bool>) {
    (
        match p.theme_name {
            Some(t) => Some(t@),
            None => None,
        },
        p.minimap_enabled,
        p.wrap_enabled,
    )
}

/// `char::is_whitespace`: the chars with the Unicode `White_Space` property.
pub open spec fn is_white_space(c: char) -> bool {
    ||| ('\u{9}' <= c && c <= '\u{d}')
    ||| c == ' '
    ||| c == '\u{85}'
    ||| c == '\u{a0}'
    ||| c == '\u{1680}'
    ||| ('\u{2000}' <= c && c <= '\u{200a}')
    ||| c == '\u{2028}'
    ||| c == '\u{2029}'
    ||| c == '\u{202f}'
    ||| c == '\u{205f}'
    ||| c == '\u{3000}'
}

fn white_space(c: char) -> (r: bool)
    ensures
        r == is_white_space(c),
{
    ('\u{9}' <= c && c <= '\u{d}') || c == ' ' || c == '\u{85}' || c == '\u{a0}' || c == '\u{1680}'
        || ('\u{2000}' <= c && c <= '\u{200a}') || c == '\u{2028}' || c == '\u{2029}' || c
        == '\u{202f}' || c == '\u{205f}' || c == '\u{3000}'
}

/// First index in `i..end` that is not white space, or `end`.
pub open spec fn skip_white_fwd(cs: Seq<char>, i: int, end: int) -> int
    decreases end - i,
{
    if i < end && is_white_space(cs[i]) {
        skip_white_fwd(cs, i + 1, end)
    } else {
        i
    }
}

/// End of `start..j` once trailing white space is dropped.
pub open spec fn skip_white_back(cs: Seq<char>, start: int, j: int) -> int
    decreases j - start,
{
    if j > start && is_white_space(cs[j - 1]) {
        skip_white_back(cs, start, j - 1)
    } else {
        j
    }
}

/// First index in `i..end` holding `c`, or `end`.
pub open spec fn find_in(cs: Seq<char>, c: char, i: int, end: int) -> int
    decreases end - i,
{
    if i < end && cs[i] != c {
        find_in(cs, c, i + 1, end)
    } else {
        i
    }
}

/// The search stays inside its range.
pub proof fn lemma_find_in_range(cs: Seq<char>, c: char, i: int, end: int)
    requires
        i <= end,
    ensures
        i <= find_in(cs, c, i, end) <= end,
        find_in(cs, c, i, end) < end ==> cs[find_in(cs, c, i, end)] == c,
    decreases end - i,
{
    if i < end && cs[i] != c {
        lemma_find_in_range(cs, c, i + 1, end);
    }
}

/// Where a TOML comment starts in `i..end`: the first `#` outside a quoted string
/// (backslash escapes inside), or `end`.
pub open spec fn comment_cut(cs: Seq<char>, i: int, end: int, in_string: bool, escaped: bool) -> int
    decreases end - i,
{
    if i >= end {
        end
    } else if in_string {
        if escaped {
            comment_cut(cs, i + 1, end, true, false)
        } else if cs[i] == '\\' {
            comment_cut(cs, i + 1, end, true, true)
        } else if cs[i] == '"' {
            comment_cut(cs, i + 1, end, false, false)
        } else {
            comment_cut(cs, i + 1, end, true, false)
        }
    } else if cs[i] == '"' {
        comment_cut(cs, i + 1, end, true, false)
    } else if cs[i] == '#' {
        i
    } else {
        comment_cut(cs, i + 1, end, false, false)
    }
}

/// `line N: message`.
pub open spec fn line_message(line_no: nat, msg: Seq<char>) -> Seq<char> {
    seq!['l', 'i', 'n', 'e', ' '] + decimal(line_no) + seq![':', ' '] + msg
}

/// The text of a TOML basic string in `k..end` after its opening quote, the escapes
/// `\"`, `\\`, `\n`, `\r`, `\t` decoded, with nothing but white space after the closing
/// quote.
pub open spec fn string_scan(
    cs: Seq<char>,
    k: int,
    end: int,
    escaped: bool,
    acc: Seq<char>,
    line_no: nat,
) -> Result<Seq<char>, Seq<char>>
    decreases end - k,
{
    if k >= end {
        Err(line_message(line_no, "unterminated string"@))
    } else if escaped {
        let c = cs[k];
        if c == '"' {
            string_scan(cs, k + 1, end, false, acc.push('"'), line_no)
        } else if c == '\\' {
            string_scan(cs, k + 1, end, false, acc.push('\\'), line_no)
        } else if c == 'n' {
            string_scan(cs, k + 1, end, false, acc.push('\n'), line_no)
        } else if c == 'r' {
            string_scan(cs, k + 1, end, false, acc.push('\r'), line_no)
        } else if c == 't' {
            string_scan(cs, k + 1, end, false, acc.push('\t'), line_no)
        } else {
            Err(line_message(line_no, "unsupported escape \\"@.push(c)))
        }
    } else if cs[k] == '\\' {
        string_scan(cs, k + 1, end, true, acc, line_no)
    } else if cs[k] == '"' {
        if skip_white_fwd(cs, k + 1, end) == end {
            Ok(acc)
        } else {
            Err(line_message(line_no, "unexpected trailing content"@))
        }
    } else {
        string_scan(cs, k + 1, end, false, acc.push(cs[k]), line_no)
    }
}

/// The theme value in `a..b`: a quoted string.
pub open spec fn string_value(cs: Seq<char>, a: int, b: int, line_no: nat) -> Result<
    Seq<char>,
    Seq<char>,
> {
    if a >= b || cs[a] != '"' {
        Err(line_message(line_no, "theme must be a quoted string"@))
    } else {
        string_scan(cs, a + 1, b, false, Seq::empty(), line_no)
    }
}

/// A boolean value in `a..b`: `true` or `false`.
pub open spec fn bool_value(cs: Seq<char>, a: int, b: int, line_no: nat) -> Result<bool, Seq<char>> {
    if cs.subrange(a, b) == "true"@ {
        Ok(true)
    } else if cs.subrange(a, b) == "false"@ {
        Ok(false)
    } else {
        Err(line_message(line_no, "minimap must be true or false"@))
    }
}

/// The settings read so far.
pub type SettingsAcc = (Option<Seq<char>>, Option<bool>, Option<bool>);

/// Index of the newline that ends the line starting at `i`, or the end of the text.
pub open spec fn line_break(cs: Seq<char>, i: int) -> int {
    find_in(cs, '\n', i, cs.len() as int)
}

/// Reads the settings from the line starting at `i` (line number `line_no`) on, inside
/// the `[ui]` section or not, with `acc` read before.
pub open spec fn settings_from(
    cs: Seq<char>,
    i: int,
    line_no: nat,
    in_ui: bool,
    acc: SettingsAcc,
) -> Result<SettingsAcc, Seq<char>>
    decreases cs.len() + 1 - i,
{
    if i < 0 || i >= cs.len() {
        Ok(acc)
    } else {
        proof {
            lemma_find_in_range(cs, '\n', i, cs.len() as int);
        }
        let nl = line_break(cs, i);
        let raw_end = if nl < cs.len() && nl > i && cs[nl - 1] == '\r' {
            nl - 1
        } else {
            nl
        };
        let cut = comment_cut(cs, i, raw_end, false, false);
        let a = skip_white_fwd(cs, i, cut);
        let b = skip_white_back(cs, a, cut);
        let next = nl + 1;
        if a == b {
            settings_from(cs, next, line_no + 1, in_ui, acc)
        } else if cs[a] == '[' {
            if b - a >= 2 && cs[b - 1] == ']' {
                let sa = skip_white_fwd(cs, a + 1, b - 1);
                let sb = skip_white_back(cs, sa, b - 1);
                settings_from(cs, next, line_no + 1, cs.subrange(sa, sb) == "ui"@, acc)
            } else {
                Err(line_message(line_no, "invalid section header"@))
            }
        } else if !in_ui {
            settings_from(cs, next, line_no + 1, in_ui, acc)
        } else {
            let e = find_in(cs, '=', a, b);
            if e >= b {
                Err(line_message(line_no, "expected key = value"@))
            } else {
                let ka = skip_white_fwd(cs, a, e);
                let kb = skip_white_back(cs, ka, e);
                let va = skip_white_fwd(cs, e + 1, b);
                let vb = skip_white_back(cs, va, b);
                let key = cs.subrange(ka, kb);
                if key == "theme"@ {
                    match string_value(cs, va, vb, line_no) {
                        Ok(t) => settings_from(cs, next, line_no + 1, in_ui, (Some(t), acc.1, acc.2)),
                        Err(m) => Err(m),
                    }
                } else if key == "minimap"@ {
                    match bool_value(cs, va, vb, line_no) {
                        Ok(v) => settings_from(cs, next, line_no + 1, in_ui, (acc.0, Some(v), acc.2)),
                        Err(m) => Err(m),
                    }
                } else if key == "wrap"@ {
                    match bool_value(cs, va, vb, line_no) {
                        Ok(v) => settings_from(cs, next, line_no + 1, in_ui, (acc.0, acc.1, Some(v))),
                        Err(m) => Err(m),
                    }
                } else {
                    settings_from(cs, next, line_no + 1, in_ui, acc)
                }
            }
        }
    }
}

proof fn lemma_skip_fwd_range(cs: Seq<char>, i: int, end: int)
    requires
        i <= end,
    ensures
        i <= skip_white_fwd(cs, i, end) <= end,
    decreases end - i,
{
    if i < end && is_white_space(cs[i]) {
        lemma_skip_fwd_range(cs, i + 1, end);
    }
}

proof fn lemma_skip_back_range(cs: Seq<char>, start: int, j: int)
    requires
        start <= j,
    ensures
        start <= skip_white_back(cs, start, j) <= j,
    decreases j - start,
{
    if j > start && is_white_space(cs[j - 1]) {
        lemma_skip_back_range(cs, start, j - 1);
    }
}

proof fn lemma_comment_cut_range(cs: Seq<char>, i: int, end: int, in_string: bool, escaped: bool)
    requires
        i <= end,
    ensures
        i <= comment_cut(cs, i, end, in_string, escaped) <= end,
    decreases end - i,
{
    if i < end {
        if in_string {
            if escaped {
                lemma_comment_cut_range(cs, i + 1, end, true, false);
            } else if cs[i] == '\\' {
                lemma_comment_cut_range(cs, i + 1, end, true, true);
            } else if cs[i] == '"' {
                lemma_comment_cut_range(cs, i + 1, end, false, false);
            } else {
                lemma_comment_cut_range(cs, i + 1, end, true, false);
            }
        } else if cs[i] == '"' {
            lemma_comment_cut_range(cs, i + 1, end, true, false);
        } else if cs[i] != '#' {
            lemma_comment_cut_range(cs, i + 1, end, false, false);
        }
    }
}

fn find_in_exec(cs: &Vec<char>, c: char, i: usize, end: usize) -> (r: usize)
    requires
        i <= end <= cs@.len(),
    ensures
        r == find_in(cs@, c, i as int, end as int),
        i <= r <= end,
{
    proof {
        lemma_find_in_range(cs@, c, i as int, end as int);
    }
    let mut k = i;
    while k < end && cs[k] != c
        invariant
            i <= k <= end <= cs@.len(),
            find_in(cs@, c, k as int, end as int) == find_in(cs@, c, i as int, end as int),
        decreases end - k,
    {
        k = k + 1;
    }
    k
}

pub(crate) fn skip_white_fwd_exec(cs: &Vec<char>, i: usize, end: usize) -> (r: usize)
    requires
        i <= end <= cs@.len(),
    ensures
        r == skip_white_fwd(cs@, i as int, end as int),
        i <= r <= end,
{
    proof {
        lemma_skip_fwd_range(cs@, i as int, end as int);
    }
    let mut k = i;
    while k < end && white_space(cs[k])
        invariant
            i <= k <= end <= cs@.len(),
            skip_white_fwd(cs@, k as int, end as int) == skip_white_fwd(cs@, i as int, end as int),
        decreases end - k,
    {
        k = k + 1;
    }
    k
}

pub(crate) fn skip_white_back_exec(cs: &Vec<char>, start: usize, j: usize) -> (r: usize)
    requires
        start <= j <= cs@.len(),
    ensures
        r == skip_white_back(cs@, start as int, j as int),
        start <= r <= j,
{
    proof {
        lemma_skip_back_range(cs@, start as int, j as int);
    }
    let mut k = j;
    while k > start && white_space(cs[k - 1])
        invariant
            start <= k <= j <= cs@.len(),
            skip_white_back(cs@, start as int, k as int) == skip_white_back(
                cs@,
                start as int,
                j as int,
            ),
        decreases k,
    {
        k = k - 1;
    }
    k
}

fn comment_cut_exec(cs: &Vec<char>, i: usize, end: usize) -> (r: usize)
    requires
        i <= end <= cs@.len(),
    ensures
        r == comment_cut(cs@, i as int, end as int, false, false),
        i <= r <= end,
{
    proof {
        lemma_comment_cut_range(cs@, i as int, end as int, false, false);
    }
    let mut k = i;
    let mut in_string = false;
    let mut escaped = false;
    while k < end
        invariant
            i <= k <= end <= cs@.len(),
            !in_string ==> !escaped,
            comment_cut(cs@, k as int, end as int, in_string, escaped) == comment_cut(
                cs@,
                i as int,
                end as int,
                false,
                false,
            ),
        decreases end - k,
    {
        let c = cs[k];
        if in_string {
            if escaped {
                escaped = false;
            } else if c == '\\' {
                escaped = true;
            } else if c == '"' {
                in_string = false;
            }
        } else if c == '"' {
            in_string = true;
        } else if c == '#' {
            return k;
        }
        k = k + 1;
    }
    end
}

/// Whether chars `a..b` of `cs` spell `lit`.
pub(crate) fn range_equals(cs: &Vec<char>, a: usize, b: usize, lit: &str) -> (r: bool)
    requires
        a <= b <= cs@.len(),
    ensures
        r == (cs@.subrange(a as int, b as int) == lit@),
{
    let (lc, _) = char_table(lit);
    if b - a != lc.len() {
        return false;
    }
    let mut k: usize = 0;
    while k < lc.len()
        invariant
            b - a == lc@.len(),
            a <= b <= cs@.len(),
            lc@ == lit@,
            k <= lc@.len(),
            forall|j: int| 0 <= j < k ==> cs@[a + j] == lc@[j],
        decreases lc@.len() - k,
    {
        if cs[a + k] != lc[k] {
            proof {
                assert(cs@.subrange(a as int, b as int)[k as int] != lit@[k as int]);
            }
            return false;
        }
        k = k + 1;
    }
    assert(cs@.subrange(a as int, b as int) =~= lit@);
    true
}

/// `line N: message`.
fn line_message_text(line_no: usize, msg: &str) -> (r: String)
    ensures
        r@ == line_message(line_no as nat, msg@),
{
    let mut s = String::from_str("line ");
    let n = decimal_text(line_no as u128);
    s.append(n.as_str());
    s.append(": ");
    s.append(msg);
    proof {
        reveal_strlit("line ");
        reveal_strlit(": ");
    }
    s
}

fn string_value_exec(text: &str, cs: &Vec<char>, a: usize, b: usize, line_no: usize) -> (r: Result<
    String,
    String,
>)
    requires
        cs@ == text@,
        a <= b <= cs@.len(),
    ensures
        match string_value(cs@, a as int, b as int, line_no as nat) {
            Ok(t) => r matches Ok(s) && s@ == t,
            Err(m) => r matches Err(e) && e@ == m,
        },
{
    if a >= b || cs[a] != '"' {
        return Err(line_message_text(line_no, "theme must be a quoted string"));
    }
    let mut result = String::new();
    let mut escaped = false;
    let mut k = a + 1;
    while k < b
        invariant
            cs@ == text@,
            a < k <= b <= cs@.len(),
            string_scan(cs@, k as int, b as int, escaped, result@, line_no as nat) == string_value(
                cs@,
                a as int,
                b as int,
                line_no as nat,
            ),
        decreases b - k,
    {
        let c = cs[k];
        let ghost prev = result@;
        if escaped {
            proof {
                reveal_strlit("\"");
                reveal_strlit("\\");
                reveal_strlit("\n");
                reveal_strlit("\r");
                reveal_strlit("\t");
            }
            if c == '"' {
                result.append("\"");
                assert(result@ =~= prev.push('"'));
            } else if c == '\\' {
                result.append("\\");
                assert(result@ =~= prev.push('\\'));
            } else if c == 'n' {
                result.append("\n");
                assert(result@ =~= prev.push('\n'));
            } else if c == 'r' {
                result.append("\r");
                assert(result@ =~= prev.push('\r'));
            } else if c == 't' {
                result.append("\t");
                assert(result@ =~= prev.push('\t'));
            } else {
                let mut msg = String::from_str("unsupported escape \\");
                msg.append(text.substring_char(k, k + 1));
                proof {
                    reveal_strlit("unsupported escape \\");
                    assert(text@.subrange(k as int, k + 1) =~= seq![c]);
                }
                return Err(line_message_text(line_no, msg.as_str()));
            }
            escaped = false;
        } else if c == '\\' {
            escaped = true;
        } else if c == '"' {
            let rest = skip_white_fwd_exec(cs, k + 1, b);
            if rest == b {
                return Ok(result);
            } else {
                return Err(line_message_text(line_no, "unexpected trailing content"));
            }
        } else {
            result.append(text.substring_char(k, k + 1));
            proof {
                assert(text@.subrange(k as int, k + 1) =~= seq![c]);
                assert(result@ =~= prev.push(c));
            }
        }
        k = k + 1;
    }
    Err(line_message_text(line_no, "unterminated string"))
}

fn bool_value_exec(cs: &Vec<char>, a: usize, b: usize, line_no: usize) -> (r: Result<bool, String>)
    requires
        a <= b <= cs@.len(),
    ensures
        match bool_value(cs@, a as int, b as int, line_no as nat) {
            Ok(v) => r == Ok::<bool, String>(v),
            Err(m) => r matches Err(e) && e@ == m,
        },
{
    if range_equals(cs, a, b, "true") {
        Ok(true)
    } else if range_equals(cs, a, b, "false") {
        Ok(false)
    } else {
        Err(line_message_text(line_no, "minimap must be true or false"))
    }
}

/// Reads the `[ui]` section of a settings file: `theme` (a quoted string), `minimap`
/// and `wrap` (booleans). Comments start with `#` outside strings; other sections and
/// keys are ignored. Errors name the line they were found on.
pub fn parse_settings(contents: &str) -> (r: Result<ParsedSettings, String>)
    ensures
        match settings_from(contents@, 0, 1, false, (None, None, None)) {
            Ok(v) => r matches Ok(p) && settings_view(p) == v,
            Err(m) => r matches Err(e) && e@ == m,
        },
{
    let ghost cs = contents@;
    let (chars, offs) = char_table(contents);
    let n = chars.len();
    let n_offsets = offs.len();
    assert(n_offsets == n + 1);
    let mut i: usize = 0;
    let mut line_no: usize = 1;
    let mut in_ui = false;
    let mut parsed = ParsedSettings { theme_name: None, minimap_enabled: None, wrap_enabled: None };
    proof {
        reveal_strlit("ui");
        reveal_strlit("theme");
        reveal_strlit("minimap");
        reveal_strlit("wrap");
    }
    while i < n
        invariant
            chars@ == cs,
            cs == contents@,
            n == cs.len(),
            n < usize::MAX,
            1 <= line_no <= i + 1,
            i <= n,
            settings_from(cs, i as int, line_no as nat, in_ui, settings_view(parsed))
                == settings_from(cs, 0, 1, false, (None, None, None)),
        decreases n - i,
    {
        let ghost i0 = i as int;
        let ghost line0 = line_no as nat;
        let ghost ui0 = in_ui;
        let ghost acc0 = settings_view(parsed);
        let nl = find_in_exec(&chars, '\n', i, n);
        let raw_end = if nl < n && nl > i && chars[nl - 1] == '\r' {
            nl - 1
        } else {
            nl
        };
        let cut = comment_cut_exec(&chars, i, raw_end);
        let a = skip_white_fwd_exec(&chars, i, cut);
        let b = skip_white_back_exec(&chars, a, cut);
        let next = if nl < n {
            nl + 1
        } else {
            n
        };
        if a == b {
        } else if chars[a] == '[' {
            if b - a >= 2 && chars[b - 1] == ']' {
                let sa = skip_white_fwd_exec(&chars, a + 1, b - 1);
                let sb = skip_white_back_exec(&chars, sa, b - 1);
                in_ui = range_equals(&chars, sa, sb, "ui");
            } else {
                return Err(line_message_text(line_no, "invalid section header"));
            }
        } else if !in_ui {
        } else {
            let e = find_in_exec(&chars, '=', a, b);
            if e >= b {
                return Err(line_message_text(line_no, "expected key = value"));
            }
            let ka = skip_white_fwd_exec(&chars, a, e);
            let kb = skip_white_back_exec(&chars, ka, e);
            let va = skip_white_fwd_exec(&chars, e + 1, b);
            let vb = skip_white_back_exec(&chars, va, b);
            if range_equals(&chars, ka, kb, "theme") {
                match string_value_exec(contents, &chars, va, vb, line_no) {
                    Ok(t) => {
                        parsed.theme_name = Some(t);
                    },
                    Err(m) => {
                        return Err(m);
                    },
                }
            } else if range_equals(&chars, ka, kb, "minimap") {
                match bool_value_exec(&chars, va, vb, line_no) {
                    Ok(v) => {
                        parsed.minimap_enabled = Some(v);
                    },
                    Err(m) => {
                        return Err(m);
                    },
                }
            } else if range_equals(&chars, ka, kb, "wrap") {
                match bool_value_exec(&chars, va, vb, line_no) {
                    Ok(v) => {
                        parsed.wrap_enabled = Some(v);
                    },
                    Err(m) => {
                        return Err(m);
                    },
                }
            }
        }
        proof {
            assert(settings_from(cs, i0, line0, ui0, acc0) == settings_from(
                cs,
                nl + 1,
                line0 + 1,
                in_ui,
                settings_view(parsed),
            ));
            if nl >= n {
                assert(settings_from(cs, nl + 1, line0 + 1, in_ui, settings_view(parsed))
                    == settings_from(cs, next as int, line0 + 1, in_ui, settings_view(parsed)));
            }
        }
        i = next;
        line_no = line_no + 1;
    }
    Ok(parsed)
}

/// How one char is written inside a TOML basic string.
pub open spec fn escape_char(c: char) -> Seq<char> {
    if c == '"' {
        seq!['\\', '"']
    } else if c == '\\' {
        seq!['\\', '\\']
    } else if c == '\n' {
        seq!['\\', 'n']
    } else if c == '\r' {
        seq!['\\', 'r']
    } else if c == '\t' {
        seq!['\\', 't']
    } else {
        seq![c]
    }
}

/// `s` written inside a TOML basic string.
pub open spec fn escape_chars(s: Seq<char>) -> Seq<char>
    decreases s.len(),
{
    if s.len() == 0 {
        Seq::empty()
    } else {
        escape_chars(s.drop_last()) + escape_char(s.last())
    }
}

/// Escapes quotes, backslashes, newlines, carriage returns and tabs for a TOML string.
pub fn escape_toml_string(value: &str) -> (r: String)
    ensures
        r@ == escape_chars(value@),
{
    let (chars, _) = char_table(value);
    let mut escaped = String::new();
    let mut k: usize = 0;
    proof {
        reveal_strlit("\\\"");
        reveal_strlit("\\\\");
        reveal_strlit("\\n");
        reveal_strlit("\\r");
        reveal_strlit("\\t");
        assert(value@.take(0) =~= Seq::<char>::empty());
    }
    while k < chars.len()
        invariant
            chars@ == value@,
            k <= chars@.len(),
            escaped@ == escape_chars(value@.take(k as int)),
        decreases chars@.len() - k,
    {
        let c = chars[k];
        let ghost prev = escaped@;
        proof {
            reveal_strlit("\\\"");
            reveal_strlit("\\\\");
            reveal_strlit("\\n");
            reveal_strlit("\\r");
            reveal_strlit("\\t");
        }
        if c == '"' {
            escaped.append("\\\"");
        } else if c == '\\' {
            escaped.append("\\\\");
        } else if c == '\n' {
            escaped.append("\\n");
        } else if c == '\r' {
            escaped.append("\\r");
        } else if c == '\t' {
            escaped.append("\\t");
        } else {
            escaped.append(value.substring_char(k, k + 1));
            assert(value@.subrange(k as int, k + 1) =~= seq![c]);
        }
        proof {
            assert(value@.take(k + 1).drop_last() =~= value@.take(k as int));
            assert(escaped@ =~= prev + escape_char(c));
        }
        k = k + 1;
    }
    assert(value@.take(k as int) =~= value@);
    escaped
}

/// The text of a boolean setting.
pub open spec fn bool_text(b: bool) -> Seq<char> {
    if b {
        seq!['t', 'r', 'u', 'e']
    } else {
        seq!['f', 'a', 'l', 's', 'e']
    }
}

/// The canonical settings file for the given preferences.
pub open spec fn spec_render_settings(theme: Seq<char>, minimap: bool, wrap: bool) -> Seq<char> {
    "[ui]\ntheme = \""@ + escape_chars(theme) + "\"\nminimap = "@ + bool_text(minimap)
        + "\nwrap = "@ + bool_text(wrap) + "\n"@
}

/// The canonical settings file for the given preferences.
pub fn render_settings(theme_name: &str, minimap_enabled: bool, wrap_enabled: bool) -> (r: String)
    ensures
        r@ == spec_render_settings(theme_name@, minimap_enabled, wrap_enabled),
{
    proof {
        reveal_strlit("true");
        reveal_strlit("false");
    }
    let mut s = String::from_str("[ui]\ntheme = \"");
    let escaped = escape_toml_string(theme_name);
    s.append(escaped.as_str());
    s.append("\"\nminimap = ");
    if minimap_enabled {
        s.append("true");
    } else {
        s.append("false");
    }
    s.append("\nwrap = ");
    if wrap_enabled {
        s.append("true");
    } else {
        s.append("false");
    }
    s.append("\n");
    s
}

/// The search for `c` in `i..end` stops at `j` when `c` first occurs there (or `j` is
/// `end` and `c` does not occur).
proof fn lemma_find_in_first(cs: Seq<char>, c: char, i: int, j: int, end: int)
    requires
        i <= j <= end,
        forall|k: int| i <= k < j ==> cs[k] != c,
        j == end || cs[j] == c,
    ensures
        find_in(cs, c, i, end) == j,
    decreases j - i,
{
    if i < j {
        lemma_find_in_first(cs, c, i + 1, j, end);
    }
}

/// Outside strings, a stretch without quotes or `#` holds no comment.
proof fn lemma_comment_cut_plain(cs: Seq<char>, i: int, j: int, end: int)
    requires
        i <= j <= end,
        forall|k: int| i <= k < j ==> cs[k] != '"' && cs[k] != '#',
    ensures
        comment_cut(cs, i, end, false, false) == comment_cut(cs, j, end, false, false),
    decreases j - i,
{
    if i < j {
        lemma_comment_cut_plain(cs, i + 1, j, end);
    }
}

/// Escaping distributes over concatenation.
proof fn lemma_escape_chars_add(a: Seq<char>, b: Seq<char>)
    ensures
        escape_chars(a + b) == escape_chars(a) + escape_chars(b),
    decreases b.len(),
{
    if b.len() == 0 {
        assert(a + b =~= a);
        assert(escape_chars(a) + escape_chars(b) =~= escape_chars(a));
    } else {
        lemma_escape_chars_add(a, b.drop_last());
        assert((a + b).drop_last() =~= a + b.drop_last());
        assert((a + b).last() == b.last());
        assert(escape_chars(a) + escape_chars(b) =~= escape_chars(a) + escape_chars(b.drop_last())
            + escape_char(b.last()));
    }
}

/// The escape of a non-empty text starts with the escape of its first char.
proof fn lemma_escape_chars_front(t: Seq<char>)
    requires
        t.len() > 0,
    ensures
        escape_chars(t) == escape_char(t[0]) + escape_chars(t.skip(1)),
{
    let head = seq![t[0]];
    assert(t =~= head + t.skip(1));
    lemma_escape_chars_add(head, t.skip(1));
    assert(head.drop_last() =~= Seq::<char>::empty());
    assert(escape_chars(Seq::<char>::empty()) =~= Seq::<char>::empty());
    assert(head.last() == t[0]);
    assert(escape_chars(head) =~= escape_char(t[0]));
}

/// An escaped text holds no newline.
proof fn lemma_escape_chars_no_newline(t: Seq<char>)
    ensures
        forall|k: int| 0 <= k < escape_chars(t).len() ==> escape_chars(t)[k] != '\n',
    decreases t.len(),
{
    if t.len() > 0 {
        lemma_escape_chars_no_newline(t.drop_last());
        let e = escape_chars(t);
        let p = escape_chars(t.drop_last());
        let q = escape_char(t.last());
        assert(e =~= p + q);
        assert forall|k: int| 0 <= k < e.len() implies e[k] != '\n' by {
            if k >= p.len() {
                assert(e[k] == q[k - p.len()]);
            } else {
                assert(e[k] == p[k]);
            }
        }
    }
}

/// Inside a string, the comment scan passes over an escaped text.
proof fn lemma_comment_cut_escaped(cs: Seq<char>, k: int, t: Seq<char>, end: int)
    requires
        0 <= k,
        k + escape_chars(t).len() <= end <= cs.len(),
        cs.subrange(k, k + escape_chars(t).len()) == escape_chars(t),
    ensures
        comment_cut(cs, k, end, true, false) == comment_cut(
            cs,
            k + escape_chars(t).len(),
            end,
            true,
            false,
        ),
    decreases t.len(),
{
    if t.len() > 0 {
        lemma_escape_chars_front(t);
        let c = t[0];
        let e = escape_char(c);
        let rest = t.skip(1);
        let n = escape_chars(t).len();
        assert(cs.subrange(k, k + e.len()) =~= e) by {
            assert forall|j: int| 0 <= j < e.len() implies cs[k + j] == e[j] by {
                assert(cs.subrange(k, k + n)[j] == escape_chars(t)[j]);
            }
        }
        assert(cs.subrange(k + e.len(), k + n) =~= escape_chars(rest)) by {
            assert forall|j: int| 0 <= j < escape_chars(rest).len() implies cs[k + e.len() + j]
                == escape_chars(rest)[j] by {
                assert(cs.subrange(k, k + n)[e.len() + j] == escape_chars(t)[e.len() + j]);
            }
        }
        lemma_comment_cut_escaped(cs, k + e.len(), rest, end);
        if c == '"' || c == '\\' || c == '\n' || c == '\r' || c == '\t' {
            assert(cs.subrange(k, k + e.len())[0] == cs[k]);
            assert(cs[k] == '\\');
            assert(comment_cut(cs, k + 1, end, true, true) == comment_cut(cs, k + 2, end, true, false));
        } else {
            assert(e =~= seq![c]);
            assert(cs.subrange(k, k + e.len())[0] == cs[k]);
            assert(cs[k] == c);
        }
    }
}

/// Reading a string passes over an escaped text and gets the text back.
proof fn lemma_string_scan_escaped(
    cs: Seq<char>,
    k: int,
    t: Seq<char>,
    end: int,
    acc: Seq<char>,
    line_no: nat,
)
    requires
        0 <= k,
        k + escape_chars(t).len() <= end <= cs.len(),
        cs.subrange(k, k + escape_chars(t).len()) == escape_chars(t),
    ensures
        string_scan(cs, k, end, false, acc, line_no) == string_scan(
            cs,
            k + escape_chars(t).len(),
            end,
            false,
            acc + t,
            line_no,
        ),
    decreases t.len(),
{
    if t.len() == 0 {
        assert(acc + t =~= acc);
    } else {
        lemma_escape_chars_front(t);
        let c = t[0];
        let e = escape_char(c);
        let rest = t.skip(1);
        let n = escape_chars(t).len();
        assert(cs.subrange(k, k + e.len()) =~= e) by {
            assert forall|j: int| 0 <= j < e.len() implies cs[k + j] == e[j] by {
                assert(cs.subrange(k, k + n)[j] == escape_chars(t)[j]);
            }
        }
        assert(cs.subrange(k + e.len(), k + n) =~= escape_chars(rest)) by {
            assert forall|j: int| 0 <= j < escape_chars(rest).len() implies cs[k + e.len() + j]
                == escape_chars(rest)[j] by {
                assert(cs.subrange(k, k + n)[e.len() + j] == escape_chars(t)[e.len() + j]);
            }
        }
        lemma_string_scan_escaped(cs, k + e.len(), rest, end, acc.push(c), line_no);
        assert(acc.push(c) + rest =~= acc + t);
        if c == '"' || c == '\\' || c == '\n' || c == '\r' || c == '\t' {
            assert(cs.subrange(k, k + e.len())[0] == cs[k]);
            assert(cs.subrange(k, k + e.len())[1] == cs[k + 1]);
            assert(cs[k] == '\\');
            assert(cs[k + 1] == e[1]);
            assert(e.len() == 2);
            assert(string_scan(cs, k, end, false, acc, line_no) == string_scan(
                cs,
                k + 1,
                end,
                true,
                acc,
                line_no,
            ));
            if c == '"' {
                assert(e[1] == '"');
            } else if c == '\\' {
                assert(e[1] == '\\');
            } else if c == '\n' {
                assert(e[1] == 'n');
            } else if c == '\r' {
                assert(e[1] == 'r');
            } else {
                assert(e[1] == 't');
            }
            assert(string_scan(cs, k + 1, end, true, acc, line_no) == string_scan(
                cs,
                k + 2,
                end,
                false,
                acc.push(c),
                line_no,
            ));
        } else {
            assert(e =~= seq![c]);
            assert(cs.subrange(k, k + e.len())[0] == cs[k]);
            assert(cs[k] == c);
        }
    }
}

/// A `[ui]` line at `i` opens the `ui` section.
#[verifier::spinoff_prover]
#[verifier::rlimit(40)]
proof fn lemma_header_line(cs: Seq<char>, i: int, line_no: nat, in_ui: bool, acc: SettingsAcc)
    requires
        0 <= i,
        i + 5 <= cs.len(),
        cs[i] == '[' && cs[i + 1] == 'u' && cs[i + 2] == 'i' && cs[i + 3] == ']' && cs[i + 4] == '\n',
    ensures
        settings_from(cs, i, line_no, in_ui, acc) == settings_from(cs, i + 5, line_no + 1, true, acc),
{
    reveal_strlit("ui");
    let nl = i + 4;
    lemma_find_in_first(cs, '\n', i, nl, cs.len() as int);
    lemma_comment_cut_plain(cs, i, nl, nl);
    assert(skip_white_fwd(cs, i, nl) == i);
    assert(skip_white_back(cs, i, nl) == nl);
    assert(skip_white_fwd(cs, i + 1, i + 3) == i + 1);
    assert(skip_white_back(cs, i + 1, i + 3) == i + 3);
    assert(cs.subrange(i + 1, i + 3) =~= "ui"@);
}

/// A line `KEY = true` or `KEY = false` at `i`, for `KEY` `minimap` or `wrap`, records
/// the value under that key.
#[verifier::spinoff_prover]
#[verifier::rlimit(40)]
proof fn lemma_bool_line(
    cs: Seq<char>,
    i: int,
    key: Seq<char>,
    v: bool,
    line_no: nat,
    acc: SettingsAcc,
)
    requires
        key == "minimap"@ || key == "wrap"@,
        0 <= i,
        i + key.len() + 3 + bool_text(v).len() < cs.len(),
        cs.subrange(i, i + key.len()) == key,
        cs[i + key.len()] == ' ' && cs[i + key.len() + 1] == '=' && cs[i + key.len() + 2] == ' ',
        cs.subrange(i + key.len() + 3, i + key.len() + 3 + bool_text(v).len()) == bool_text(v),
        cs[i + key.len() + 3 + bool_text(v).len()] == '\n',
    ensures
        settings_from(cs, i, line_no, true, acc) == settings_from(
            cs,
            i + key.len() + 4 + bool_text(v).len(),
            line_no + 1,
            true,
            if key == "minimap"@ {
                (acc.0, Some(v), acc.2)
            } else {
                (acc.0, acc.1, Some(v))
            },
        ),
{
    reveal_strlit("minimap");
    reveal_strlit("wrap");
    reveal_strlit("theme");
    reveal_strlit("true");
    reveal_strlit("false");
    let kl = key.len() as int;
    let bt = bool_text(v);
    let bl = bt.len() as int;
    let nl = i + kl + 3 + bl;
    let e = i + kl + 1;
    assert forall|k: int| i <= k < i + kl implies cs[k] == key[k - i] by {
        assert(cs.subrange(i, i + kl)[k - i] == cs[k]);
    }
    assert forall|k: int| i + kl + 3 <= k < nl implies cs[k] == bt[k - (i + kl + 3)] by {
        assert(cs.subrange(i + kl + 3, nl)[k - (i + kl + 3)] == cs[k]);
    }
    assert forall|k: int| i <= k < nl implies cs[k] != '\n' && cs[k] != '"' && cs[k] != '#' by {
        if k < i + kl {
            assert(cs[k] == key[k - i]);
        } else if k >= i + kl + 3 {
            assert(cs[k] == bt[k - (i + kl + 3)]);
        }
    }
    lemma_find_in_first(cs, '\n', i, nl, cs.len() as int);
    assert(cs[nl - 1] == bt[bl - 1]);
    lemma_comment_cut_plain(cs, i, nl, nl);
    assert(cs[i] == key[0]);
    assert(skip_white_fwd(cs, i, nl) == i);
    assert(skip_white_back(cs, i, nl) == nl);
    assert forall|k: int| i <= k < e implies cs[k] != '=' by {
        if k < i + kl {
            assert(cs[k] == key[k - i]);
        }
    }
    lemma_find_in_first(cs, '=', i, e, nl);
    assert(skip_white_fwd(cs, i, e) == i);
    assert(cs[e - 2] == key[kl - 1]);
    assert(skip_white_back(cs, i, e - 1) == e - 1);
    assert(skip_white_back(cs, i, e) == e - 1);
    assert(cs[e + 2] == bt[0]);
    assert(skip_white_fwd(cs, e + 2, nl) == e + 2);
    assert(skip_white_fwd(cs, e + 1, nl) == e + 2);
    assert(skip_white_back(cs, e + 2, nl) == nl);
    assert(cs.subrange(i, e - 1) == key);
    assert(cs.subrange(e + 2, nl) == bt);
    if v {
        assert(bt =~= "true"@);
    } else {
        assert(bt =~= "false"@);
        assert(bt != "true"@) by {
            assert(bt.len() != "true"@.len());
        }
    }
    assert(key != "theme"@) by {
        if key == "minimap"@ {
            assert(key.len() != "theme"@.len());
        } else {
            assert(key[0] != "theme"@[0]);
        }
    }
    if key == "minimap"@ {
    } else {
        assert(key != "minimap"@) by {
            assert(key.len() != "minimap"@.len());
        }
    }
}

/// A line `theme = "ESCAPED"` at `i` records the unescaped theme name.
#[verifier::spinoff_prover]
#[verifier::rlimit(40)]
proof fn lemma_theme_line(cs: Seq<char>, i: int, theme: Seq<char>, line_no: nat, acc: SettingsAcc)
    requires
        0 <= i,
        i + 10 + escape_chars(theme).len() < cs.len(),
        cs.subrange(i, i + 9) == "theme = \""@,
        cs.subrange(i + 9, i + 9 + escape_chars(theme).len()) == escape_chars(theme),
        cs[i + 9 + escape_chars(theme).len()] == '"',
        cs[i + 10 + escape_chars(theme).len()] == '\n',
    ensures
        settings_from(cs, i, line_no, true, acc) == settings_from(
            cs,
            i + 11 + escape_chars(theme).len(),
            line_no + 1,
            true,
            (Some(theme), acc.1, acc.2),
        ),
{
    reveal_strlit("theme = \"");
    reveal_strlit("theme");
    let m = escape_chars(theme).len() as int;
    let nl = i + 10 + m;
    let e = i + 6;
    let lit = "theme = \""@;
    assert forall|k: int| i <= k < i + 9 implies cs[k] == lit[k - i] by {
        assert(cs.subrange(i, i + 9)[k - i] == cs[k]);
    }
    lemma_escape_chars_no_newline(theme);
    assert forall|k: int| i <= k < nl implies cs[k] != '\n' by {
        if i + 9 <= k < i + 9 + m {
            assert(cs.subrange(i + 9, i + 9 + m)[k - (i + 9)] == cs[k]);
        }
    }
    lemma_find_in_first(cs, '\n', i, nl, cs.len() as int);
    lemma_comment_cut_plain(cs, i, i + 8, nl);
    lemma_comment_cut_escaped(cs, i + 9, theme, nl);
    assert(comment_cut(cs, i + 8, nl, false, false) == comment_cut(cs, i + 9, nl, true, false));
    assert(comment_cut(cs, i + 9 + m, nl, true, false) == comment_cut(cs, nl, nl, false, false));
    assert(skip_white_fwd(cs, i, nl) == i);
    assert(skip_white_back(cs, i, nl) == nl);
    lemma_find_in_first(cs, '=', i, e, nl);
    assert(skip_white_fwd(cs, i, e) == i);
    assert(skip_white_back(cs, i, e - 1) == e - 1);
    assert(skip_white_back(cs, i, e) == e - 1);
    assert(skip_white_fwd(cs, e + 2, nl) == e + 2);
    assert(skip_white_fwd(cs, e + 1, nl) == e + 2);
    assert(skip_white_back(cs, e + 2, nl) == nl);
    assert(cs.subrange(i, e - 1) =~= "theme"@);
    lemma_string_scan_escaped(cs, i + 9, theme, nl, Seq::empty(), line_no);
    assert(Seq::<char>::empty() + theme =~= theme);
    assert(skip_white_fwd(cs, nl, nl) == nl);
}

/// Where the pieces of a rendered settings file sit.
#[verifier::spinoff_prover]
#[verifier::rlimit(40)]
proof fn lemma_render_layout(theme: Seq<char>, minimap: bool, wrap: bool)
    ensures
        ({
            let cs = spec_render_settings(theme, minimap, wrap);
            let m = escape_chars(theme).len() as int;
            let lm = bool_text(minimap).len() as int;
            let lw = bool_text(wrap).len() as int;
            &&& cs.len() == 35 + m + lm + lw
            &&& cs[0] == '[' && cs[1] == 'u' && cs[2] == 'i' && cs[3] == ']' && cs[4] == '\n'
            &&& cs.subrange(5, 14) == "theme = \""@
            &&& cs.subrange(14, 14 + m) == escape_chars(theme)
            &&& cs[14 + m] == '"' && cs[15 + m] == '\n'
            &&& cs.subrange(16 + m, 23 + m) == "minimap"@
            &&& cs[23 + m] == ' ' && cs[24 + m] == '=' && cs[25 + m] == ' '
            &&& cs.subrange(26 + m, 26 + m + lm) == bool_text(minimap)
            &&& cs[26 + m + lm] == '\n'
            &&& cs.subrange(27 + m + lm, 31 + m + lm) == "wrap"@
            &&& cs[31 + m + lm] == ' ' && cs[32 + m + lm] == '=' && cs[33 + m + lm] == ' '
            &&& cs.subrange(34 + m + lm, 34 + m + lm + lw) == bool_text(wrap)
            &&& cs[34 + m + lm + lw] == '\n'
        }),
{
    reveal_strlit("[ui]\ntheme = \"");
    reveal_strlit("\"\nminimap = ");
    reveal_strlit("\nwrap = ");
    reveal_strlit("\n");
    reveal_strlit("theme = \"");
    reveal_strlit("minimap");
    reveal_strlit("wrap");
    let a = "[ui]\ntheme = \""@;
    let b = "\"\nminimap = "@;
    let c = "\nwrap = "@;
    let d = "\n"@;
    let e = escape_chars(theme);
    let mt = bool_text(minimap);
    let wt = bool_text(wrap);
    let m = e.len() as int;
    let lm = mt.len() as int;
    let lw = wt.len() as int;
    let cs = spec_render_settings(theme, minimap, wrap);
    let p1 = a + e;
    let p2 = p1 + b;
    let p3 = p2 + mt;
    let p4 = p3 + c;
    let p5 = p4 + wt;
    assert(cs == p5 + d);
    assert(a.len() == 14 && b.len() == 12 && c.len() == 8 && d.len() == 1);
    assert forall|k: int| 0 <= k < 14 implies cs[k] == a[k] by {
        assert(cs[k] == p5[k] && p5[k] == p4[k] && p4[k] == p3[k] && p3[k] == p2[k] && p2[k]
            == p1[k]);
    }
    assert forall|k: int| 14 <= k < 14 + m implies cs[k] == e[k - 14] by {
        assert(cs[k] == p5[k] && p5[k] == p4[k] && p4[k] == p3[k] && p3[k] == p2[k] && p2[k]
            == p1[k]);
    }
    assert forall|k: int| 14 + m <= k < 26 + m implies cs[k] == b[k - 14 - m] by {
        assert(cs[k] == p5[k] && p5[k] == p4[k] && p4[k] == p3[k] && p3[k] == p2[k]);
    }
    assert forall|k: int| 26 + m <= k < 26 + m + lm implies cs[k] == mt[k - 26 - m] by {
        assert(cs[k] == p5[k] && p5[k] == p4[k] && p4[k] == p3[k]);
    }
    assert forall|k: int| 26 + m + lm <= k < 34 + m + lm implies cs[k] == c[k - 26 - m - lm] by {
        assert(cs[k] == p5[k] && p5[k] == p4[k]);
    }
    assert forall|k: int| 34 + m + lm <= k < 34 + m + lm + lw implies cs[k] == wt[k - 34 - m - lm] by {
        assert(cs[k] == p5[k]);
    }
    assert(cs[0] == a[0] && cs[1] == a[1] && cs[2] == a[2] && cs[3] == a[3] && cs[4] == a[4]);
    assert(cs.subrange(5, 14) =~= "theme = \""@);
    assert(cs.subrange(14, 14 + m) =~= e);
    assert(cs[14 + m] == b[0] && cs[15 + m] == b[1]);
    assert(cs.subrange(16 + m, 23 + m) =~= "minimap"@);
    assert(cs[23 + m] == b[9] && cs[24 + m] == b[10] && cs[25 + m] == b[11]);
    assert(cs.subrange(26 + m, 26 + m + lm) =~= mt);
    assert(cs[26 + m + lm] == c[0]);
    assert(cs.subrange(27 + m + lm, 31 + m + lm) =~= "wrap"@);
    assert(cs[31 + m + lm] == c[5] && cs[32 + m + lm] == c[6] && cs[33 + m + lm] == c[7]);
    assert(cs.subrange(34 + m + lm, 34 + m + lm + lw) =~= wt);
}

/// Reading back the canonical settings file written for some preferences gives those
/// preferences, whatever the theme name holds.
#[verifier::spinoff_prover]
#[verifier::rlimit(40)]
pub proof fn lemma_render_then_parse(theme: Seq<char>, minimap: bool, wrap: bool)
    ensures
        settings_from(spec_render_settings(theme, minimap, wrap), 0, 1, false, (None, None, None))
            == Ok::<SettingsAcc, Seq<char>>((Some(theme), Some(minimap), Some(wrap))),
{
    reveal_strlit("minimap");
    reveal_strlit("wrap");
    let cs = spec_render_settings(theme, minimap, wrap);
    let m = escape_chars(theme).len() as int;
    let lm = bool_text(minimap).len() as int;
    let lw = bool_text(wrap).len() as int;
    lemma_render_layout(theme, minimap, wrap);
    lemma_header_line(cs, 0, 1, false, (None, None, None));
    lemma_theme_line(cs, 5, theme, 2, (None, None, None));
    lemma_bool_line(cs, 16 + m, "minimap"@, minimap, 3, (Some(theme), None, None));
    assert("wrap"@ != "minimap"@) by {
        assert("wrap"@.len() != "minimap"@.len());
    }
    lemma_bool_line(cs, 27 + m + lm, "wrap"@, wrap, 4, (Some(theme), Some(minimap), None));
    assert(settings_from(cs, 35 + m + lm + lw, 5, true, (Some(theme), Some(minimap), Some(wrap)))
        == Ok::<SettingsAcc, Seq<char>>((Some(theme), Some(minimap), Some(wrap))));
}
/// The settings in force once the settings file has been read.
#[derive(Debug)]
pub struct LoadedSettings {
    pub theme_name: String,
    pub minimap_enabled: bool,
    pub wrap_enabled: bool,
    pub startup_status: Option<String>,
}

/// The default settings, with nothing to report: when there is no settings file.
pub fn default_loaded_settings() -> (r: LoadedSettings)
    ensures
        r.theme_name@ == DEFAULT_THEME_NAME@,
        r.minimap_enabled == DEFAULT_MINIMAP_ENABLED,
        r.wrap_enabled == DEFAULT_WRAP_ENABLED,
        r.startup_status is None,
{
    LoadedSettings {
        theme_name: String::from_str(DEFAULT_THEME_NAME),
        minimap_enabled: DEFAULT_MINIMAP_ENABLED,
        wrap_enabled: DEFAULT_WRAP_ENABLED,
        startup_status: None,
    }
}

/// The settings in force after the settings file was read and parsed (`parsed`), when
/// `theme_known` tells whether the theme it names exists: the file's preferences with
/// defaults for what it leaves out; an unknown theme gives way to the default one with
/// a message; a file that could not be read or parsed gives the defaults and its error.
pub fn resolve_loaded_settings(parsed: Result<ParsedSettings, String>, theme_known: bool) -> (r:
    LoadedSettings)
    ensures
        match parsed {
            Ok(p) => {
                &&& r.minimap_enabled == match p.minimap_enabled {
                    Some(v) => v,
                    None => DEFAULT_MINIMAP_ENABLED,
                }
                &&& r.wrap_enabled == match p.wrap_enabled {
                    Some(v) => v,
                    None => DEFAULT_WRAP_ENABLED,
                }
                &&& match p.theme_name {
                    Some(t) => if theme_known {
                        r.theme_name@ == t@ && r.startup_status is None
                    } else {
                        &&& r.theme_name@ == DEFAULT_THEME_NAME@
                        &&& r.startup_status matches Some(m)
                        &&& r.startup_status->0@ == "Invalid theme in settings.toml; using "@
                            + DEFAULT_THEME_NAME@
                    },
                    None => r.theme_name@ == DEFAULT_THEME_NAME@ && r.startup_status is None,
                }
            },
            Err(e) => {
                &&& r.theme_name@ == DEFAULT_THEME_NAME@
                &&& r.minimap_enabled == DEFAULT_MINIMAP_ENABLED
                &&& r.wrap_enabled == DEFAULT_WRAP_ENABLED
                &&& r.startup_status matches Some(m)
                &&& r.startup_status->0@ == "Settings error: "@ + e@
            },
        },
{
    match parsed {
        Ok(p) => {
            let minimap_enabled = match p.minimap_enabled {
                Some(v) => v,
                None => DEFAULT_MINIMAP_ENABLED,
            };
            let wrap_enabled = match p.wrap_enabled {
                Some(v) => v,
                None => DEFAULT_WRAP_ENABLED,
            };
            match p.theme_name {
                Some(theme_name) => {
                    if theme_known {
                        LoadedSettings { theme_name, minimap_enabled, wrap_enabled, startup_status: None }
                    } else {
                        let mut message = String::from_str("Invalid theme in settings.toml; using ");
                        message.append(DEFAULT_THEME_NAME);
                        LoadedSettings {
                            theme_name: String::from_str(DEFAULT_THEME_NAME),
                            minimap_enabled,
                            wrap_enabled,
                            startup_status: Some(message),
                        }
                    }
                },
                None => LoadedSettings {
                    theme_name: String::from_str(DEFAULT_THEME_NAME),
                    minimap_enabled,
                    wrap_enabled,
                    startup_status: None,
                },
            }
        },
        Err(e) => {
            let mut message = String::from_str("Settings error: ");
            message.append(e.as_str());
            LoadedSettings {
                theme_name: String::from_str(DEFAULT_THEME_NAME),
                minimap_enabled: DEFAULT_MINIMAP_ENABLED,
                wrap_enabled: DEFAULT_WRAP_ENABLED,
                startup_status: Some(message),
            }
        },
    }
}

/// Where the settings file lives: `$XDG_CONFIG_HOME/baryon/settings.toml` when that
/// variable is set and not empty, else `$HOME/.config/baryon/settings.toml` when `HOME`
/// is, else nowhere.
pub fn default_settings_path_from_env(xdg_config_home: Option<&str>, home: Option<&str>) -> (r:
    Option<String>)
    ensures
        match xdg_config_home {
            Some(x) if x@.len() > 0 => r matches Some(p) && p@ == joined_path(
                joined_path(x@, "baryon"@),
                "settings.toml"@,
            ),
            _ => match home {
                Some(h) if h@.len() > 0 => r matches Some(p) && p@ == joined_path(
                    joined_path(joined_path(h@, ".config"@), "baryon"@),
                    "settings.toml"@,
                ),
                _ => r is None,
            },
        },
{
    match xdg_config_home {
        Some(x) => {
            if x.unicode_len() > 0 {
                let dir = join_path(x, "baryon");
                return Some(join_path(dir.as_str(), "settings.toml"));
            }
        },
        None => {},
    }
    match home {
        Some(h) => {
            if h.unicode_len() > 0 {
                let config = join_path(h, ".config");
                let dir = join_path(config.as_str(), "baryon");
                return Some(join_path(dir.as_str(), "settings.toml"));
            }
        },
        None => {},
    }
    None
}

} // verus!
