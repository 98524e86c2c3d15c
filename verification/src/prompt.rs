use vstd::prelude::*;

use crate::commands::{
    parse_substitute, parse_u32_chars, parse_u32_spec, substitute_marker_from,
    substitute_offset_overflows, substitute_spec, EditorCommand, SubstituteFlags,
    SubstituteRange,
};
use crate::commands::{history_texts, push_history_entry, recall_history_down, recall_history_up, EditorMode};
use crate::coords::DocLine;
use crate::keys::{just, quit_effect, Key, KeyEffect, KeyState};
use crate::settings::{range_equals, skip_white_back, skip_white_back_exec, skip_white_fwd, skip_white_fwd_exec};
use crate::text::char_table;

verus! {

/// Text of `Path::new(base).join(tail)`.
pub uninterp spec fn joined_path(base: Seq<char>, tail: Seq<char>) -> Seq<char>;

/// `Path::new(base).join(tail)`, as text. The standard library documents that an
/// absolute `tail` replaces `base` and that a relative one is added to `base` after a
/// separator; the other cases (an empty `base`, or one that already ends in `/`) are
/// left to `joined_path`.
#[verifier::external_body]
pub(crate) fn join_path(base: &str, tail: &str) -> (r: String)
    ensures
        r@ == joined_path(base@, tail@),
        tail@.len() > 0 && tail@[0] == '/' ==> r@ == tail@,
        !(tail@.len() > 0 && tail@[0] == '/') && base@.len() > 0 && base@.last() != '/' ==> r@
            == base@ + seq!['/'] + tail@,
{
    std::path::Path::new(base).join(tail).to_string_lossy().into_owned()
}

/// Whether `s` begins with `prefix`.
pub open spec fn starts_with(s: Seq<char>, prefix: Seq<char>) -> bool {
    prefix.len() <= s.len() && s.take(prefix.len() as int) == prefix
}

/// `s` without leading and trailing white space.
pub open spec fn trimmed(s: Seq<char>) -> Seq<char> {
    let a = skip_white_fwd(s, 0, s.len() as int);
    s.subrange(a, skip_white_back(s, a, s.len() as int))
}

/// The texts inside an optional string.
pub open spec fn opt_text(o: Option<&str>) -> Option<Seq<char>> {
    match o {
        Some(s) => Some(s@),
        None => None,
    }
}

/// `~/rest` below the home directory and `~` as the home directory itself, when the
/// home directory is known; any other path as it is.
pub open spec fn expanded_path(path: Seq<char>, home: Option<Seq<char>>) -> Seq<char> {
    if path.len() >= 2 && path[0] == '~' && path[1] == '/' {
        match home {
            Some(h) => joined_path(h, path.skip(2)),
            None => path,
        }
    } else if path == seq!['~'] {
        match home {
            Some(h) => h,
            None => path,
        }
    } else {
        path
    }
}

/// Removes leading and trailing white space.
pub fn trim_text(s: &str) -> (r: String)
    ensures
        r@ == trimmed(s@),
{
    let (cs, _) = char_table(s);
    let n = cs.len();
    let a = skip_white_fwd_exec(&cs, 0, n);
    let b = skip_white_back_exec(&cs, a, n);
    String::from_str(s.substring_char(a, b))
}

/// Expands a leading `~` to the home directory `home` (the value of `HOME`, if set).
pub fn expand_path(path: &str, home: Option<&str>) -> (r: String)
    ensures
        r@ == expanded_path(path@, opt_text(home)),
{
    let (cs, _) = char_table(path);
    let n = cs.len();
    if n >= 2 && cs[0] == '~' && cs[1] == '/' {
        match home {
            Some(h) => {
                let rest = path.substring_char(2, n);
                assert(rest@ == path@.skip(2));
                return join_path(h, rest);
            },
            None => {
                return String::from_str(path);
            },
        }
    }
    if n == 1 && cs[0] == '~' {
        assert(path@ == seq!['~']);
        match home {
            Some(h) => {
                return String::from_str(h);
            },
            None => {
                return String::from_str(path);
            },
        }
    }
    assert(path@ != seq!['~']) by {
        if path@ == seq!['~'] {
            assert(cs@[0] == '~');
        }
    }
    String::from_str(path)
}

/// What an entered command line asks for.
pub enum LineAction {
    Write,
    WriteAs(Seq<char>),
    WriteAndQuit,
    Load(Seq<char>),
    Theme(Seq<char>),
    ToggleWrap,
    NoWrap,
    Goto(DocLine),
    Quit,
    Substitute(Seq<char>, Seq<char>, SubstituteFlags, SubstituteRange),
    BadSubstitute,
    Unknown,
    Nothing,
}

/// The command line `b`, typed with the cursor on `cursor_line` and home directory
/// `home`: `w`, `w PATH`, `x` or `wq`, `e PATH`, `theme NAME`, `wrap`, `nowrap`, a
/// line number, `q`, a substitution, and otherwise an unknown command (when `b` is not
/// empty). The first that matches wins.
pub open spec fn command_line_action(b: Seq<char>, cursor_line: u32, home: Option<Seq<char>>) -> LineAction {
    if b == "w"@ {
        LineAction::Write
    } else if starts_with(b, "w "@) {
        LineAction::WriteAs(expanded_path(trimmed(b.skip(2)), home))
    } else if b == "x"@ || b == "wq"@ {
        LineAction::WriteAndQuit
    } else if starts_with(b, "e "@) {
        LineAction::Load(expanded_path(trimmed(b.skip(2)), home))
    } else if starts_with(b, "theme "@) {
        LineAction::Theme(trimmed(b.skip(6)))
    } else if b == "wrap"@ {
        LineAction::ToggleWrap
    } else if b == "nowrap"@ {
        LineAction::NoWrap
    } else if parse_u32_spec(b) is Some {
        let n = parse_u32_spec(b)->0;
        LineAction::Goto(DocLine(if n == 0 { 0 } else { (n - 1) as u32 }))
    } else if b == "q"@ {
        LineAction::Quit
    } else if substitute_marker_from(b, 0) is Some {
        match substitute_spec(b, cursor_line) {
            Some((p, q, f, g)) => LineAction::Substitute(p, q, f, g),
            None => LineAction::BadSubstitute,
        }
    } else if b.len() > 0 {
        LineAction::Unknown
    } else {
        LineAction::Nothing
    }
}

/// What an entered command line does: the command it sends, whether the editor
/// quits, and the status message it shows.
#[derive(Debug)]
pub struct CommandLineOutcome {
    pub command: Option<EditorCommand>,
    pub quit: bool,
    pub status: Option<String>,
}

/// Whether `command` is the command that `a` sends.
pub open spec fn sends(command: Option<EditorCommand>, a: LineAction) -> bool {
    match a {
        LineAction::Write => command matches Some(EditorCommand::WriteFile),
        LineAction::WriteAs(p) => command matches Some(EditorCommand::WriteFileAs(s)) && s@ == p,
        LineAction::WriteAndQuit => command matches Some(EditorCommand::WriteAndQuit),
        LineAction::Load(p) => command matches Some(EditorCommand::LoadFile(s)) && s@ == p,
        LineAction::Theme(t) => command matches Some(EditorCommand::SetTheme(s)) && s@ == t,
        LineAction::ToggleWrap => command matches Some(EditorCommand::ToggleWrap),
        LineAction::NoWrap => command matches Some(EditorCommand::SetWrap(on)) && !on,
        LineAction::Goto(line) => command matches Some(EditorCommand::GotoLine(l)) && l == line,
        LineAction::Quit => command matches Some(EditorCommand::Quit),
        LineAction::Substitute(p, q, f, g) => if f.confirm {
            command matches Some(
                EditorCommand::SubstituteConfirm { pattern, replacement, range, flags },
            ) && pattern@ == p && replacement@ == q && range == g && flags == f
        } else {
            command matches Some(
                EditorCommand::SubstituteAll { pattern, replacement, range, flags },
            ) && pattern@ == p && replacement@ == q && range == g && flags == f
        },
        _ => command is None,
    }
}

/// The status message that `a` shows for the command line `b`, if any.
pub open spec fn line_status(a: LineAction, b: Seq<char>) -> Option<Seq<char>> {
    match a {
        LineAction::BadSubstitute => Some("Invalid substitution syntax"@),
        LineAction::Unknown => Some("Unknown command: "@ + b),
        _ => None,
    }
}

/// Whether `r` is what the command line `b` asks for as `a`.
pub open spec fn outcome_matches(r: CommandLineOutcome, a: LineAction, b: Seq<char>) -> bool {
    &&& sends(r.command, a)
    &&& r.quit == (a is Quit)
    &&& match line_status(a, b) {
        Some(m) => r.status matches Some(s) && s@ == m,
        None => r.status is None,
    }
}

fn sending(command: EditorCommand) -> (r: CommandLineOutcome)
    ensures
        r.command == Some(command),
        !r.quit,
        r.status is None,
{
    CommandLineOutcome { command: Some(command), quit: false, status: None }
}

/// Interprets an entered command line, typed with the cursor on `cursor_line`;
/// `home` is the home directory used to expand `~` in paths.
pub fn interpret_command_line(line: &str, cursor_line: DocLine, home: Option<&str>) -> (r:
    CommandLineOutcome)
    requires
        !substitute_offset_overflows(line@, cursor_line.0),
    ensures
        outcome_matches(r, command_line_action(line@, cursor_line.0, opt_text(home)), line@),
{
    let (cs, _) = char_table(line);
    let n = cs.len();
    proof {
        reveal_strlit("w ");
        reveal_strlit("e ");
        reveal_strlit("theme ");
        assert(cs@.subrange(0, n as int) =~= line@);
        assert(line@.subrange(2, n as int) =~= line@.skip(2));
        assert(line@.subrange(6, n as int) =~= line@.skip(6));
    }
    if range_equals(&cs, 0, n, "w") {
        return sending(EditorCommand::WriteFile);
    }
    if n >= 2 && range_equals(&cs, 0, 2, "w ") {
        let path = trim_text(line.substring_char(2, n));
        return sending(EditorCommand::WriteFileAs(expand_path(path.as_str(), home)));
    }
    if range_equals(&cs, 0, n, "x") || range_equals(&cs, 0, n, "wq") {
        return sending(EditorCommand::WriteAndQuit);
    }
    if n >= 2 && range_equals(&cs, 0, 2, "e ") {
        let path = trim_text(line.substring_char(2, n));
        return sending(EditorCommand::LoadFile(expand_path(path.as_str(), home)));
    }
    if n >= 6 && range_equals(&cs, 0, 6, "theme ") {
        let name = trim_text(line.substring_char(6, n));
        return sending(EditorCommand::SetTheme(name));
    }
    if range_equals(&cs, 0, n, "wrap") {
        return sending(EditorCommand::ToggleWrap);
    }
    if range_equals(&cs, 0, n, "nowrap") {
        return sending(EditorCommand::SetWrap(false));
    }
    match parse_u32_chars(&cs, 0, n) {
        Some(number) => {
            let target = if number == 0 {
                0
            } else {
                number - 1
            };
            return sending(EditorCommand::GotoLine(DocLine(target)));
        },
        None => {},
    }
    if range_equals(&cs, 0, n, "q") {
        return CommandLineOutcome { command: Some(EditorCommand::Quit), quit: true, status: None };
    }
    let mut s: usize = 0;
    while s < n && s + 1 < n && !(cs[s] == 's' && cs[s + 1] == '/')
        invariant
            s <= n,
            cs@ == line@,
            n == line@.len(),
            substitute_marker_from(line@, s as int) == substitute_marker_from(line@, 0),
        decreases n - s,
    {
        s = s + 1;
    }
    if s < n && s + 1 < n {
        match parse_substitute(line, cursor_line) {
            Some((pattern, replacement, flags, range)) => {
                if flags.confirm {
                    return sending(
                        EditorCommand::SubstituteConfirm { pattern, replacement, range, flags },
                    );
                } else {
                    return sending(
                        EditorCommand::SubstituteAll { pattern, replacement, range, flags },
                    );
                }
            },
            None => {
                return CommandLineOutcome {
                    command: None,
                    quit: false,
                    status: Some(String::from_str("Invalid substitution syntax")),
                };
            },
        }
    }
    if n > 0 {
        let mut message = String::from_str("Unknown command: ");
        message.append(line);
        return CommandLineOutcome { command: None, quit: false, status: Some(message) };
    }
    CommandLineOutcome { command: None, quit: false, status: None }
}

/// `String::push`: appends `c`.
#[verifier::external_body]
pub(crate) fn push_char(s: &mut String, c: char)
    ensures
        final(s)@ == old(s)@.push(c),
{
    s.push(c);
}

/// What a key other than Enter and Ctrl-Z does to a prompt line `b0` with history `h`
/// and history position `i0`, in state `s0`: Esc leaves the prompt, Up and Down browse
/// the history, Backspace deletes the last char or, on an empty line, leaves the
/// prompt, and a char is typed.
pub open spec fn prompt_edited(
    key: Key,
    s0: KeyState,
    s1: KeyState,
    b0: Seq<char>,
    b1: Seq<char>,
    h: Seq<Seq<char>>,
    i0: Option<usize>,
    i1: Option<usize>,
) -> bool {
    match key {
        Key::Esc => s1 == KeyState { mode: EditorMode::Normal, ..s0 } && b1 == b0 && i1 is None,
        Key::Up => s1 == s0 && if h.len() == 0 {
            b1 == b0 && i1 == i0
        } else {
            let ni: int = match i0 {
                Some(i) => if i == 0 {
                    0
                } else {
                    i - 1
                },
                None => h.len() - 1,
            };
            i1 == Some(ni as usize) && b1 == h[ni]
        },
        Key::Down => s1 == s0 && match i0 {
            None => b1 == b0 && i1 is None,
            Some(i) => if i + 1 < h.len() {
                i1 == Some((i + 1) as usize) && b1 == h[i + 1]
            } else {
                i1 is None && b1 == Seq::<char>::empty()
            },
        },
        Key::Backspace => if b0.len() == 0 {
            s1 == KeyState { mode: EditorMode::Normal, ..s0 } && b1 == b0 && i1 is None
        } else {
            s1 == s0 && b1 == b0.drop_last() && i1 == i0
        },
        Key::Char(c) => s1 == s0 && b1 == b0.push(c) && i1 == i0,
        _ => s1 == s0 && b1 == b0 && i1 == i0,
    }
}

fn edit_prompt(
    state: &mut KeyState,
    buffer: &mut String,
    history: &Vec<String>,
    history_index: &mut Option<usize>,
    key: Key,
)
    requires
        key != Key::Enter,
        *old(history_index) matches Some(i) ==> i < history@.len(),
    ensures
        prompt_edited(
            key,
            *old(state),
            *final(state),
            old(buffer)@,
            final(buffer)@,
            history_texts(history@),
            *old(history_index),
            *final(history_index),
        ),
        *final(history_index) matches Some(i) ==> i < history@.len(),
{
    match key {
        Key::Esc => {
            *history_index = None;
            state.mode = EditorMode::Normal;
        },
        Key::Up => {
            recall_history_up(buffer, history.as_slice(), history_index);
        },
        Key::Down => {
            recall_history_down(buffer, history.as_slice(), history_index);
        },
        Key::Backspace => {
            let n = buffer.as_str().unicode_len();
            if n == 0 {
                *history_index = None;
                state.mode = EditorMode::Normal;
            } else {
                let shorter = String::from_str(buffer.as_str().substring_char(0, n - 1));
                assert(shorter@ =~= old(buffer)@.drop_last());
                *buffer = shorter;
            }
        },
        Key::Char(c) => {
            push_char(buffer, c);
        },
        _ => {},
    }
}

/// The history after a line `b` is entered: `b` is added unless it is empty or
/// repeats the last entry.
pub open spec fn history_after(h: Seq<Seq<char>>, b: Seq<char>) -> Seq<Seq<char>> {
    if b.len() > 0 && (h.len() == 0 || h.last() != b) {
        h.push(b)
    } else {
        h
    }
}

/// Handles a key while a command line is typed after `:`. Enter interprets the line
/// (see `command_line_action`), shows its status message, records it in the history
/// and returns to normal mode, except that `q` quits at once; Ctrl-Z quits; other
/// keys edit the line (see `prompt_edited`). `cursor_line` is the cursor's line and
/// `home` the home directory.
pub fn handle_command_key(
    state: &mut KeyState,
    buffer: &mut String,
    history: &mut Vec<String>,
    history_index: &mut Option<usize>,
    status: &mut Option<String>,
    key: Key,
    control: bool,
    cursor_line: DocLine,
    home: Option<&str>,
) -> (r: KeyEffect)
    requires
        *old(history_index) matches Some(i) ==> i < old(history)@.len(),
        key == Key::Enter ==> !substitute_offset_overflows(old(buffer)@, cursor_line.0),
    ensures
        *final(history_index) matches Some(i) ==> i < final(history)@.len(),
        key == Key::Char('z') && control ==> {
            &&& r == quit_effect()
            &&& *final(state) == *old(state)
            &&& final(buffer)@ == old(buffer)@
            &&& final(history)@ == old(history)@
            &&& *final(history_index) == *old(history_index)
            &&& *final(status) == *old(status)
        },
        key == Key::Enter ==> {
            let a = command_line_action(old(buffer)@, cursor_line.0, opt_text(home));
            &&& sends(r.command, a)
            &&& r.quit == (a is Quit)
            &&& r.stop == (a is Quit)
            &&& !r.restyle_cursor && !r.clear_command_buffer && !r.clear_search_buffer
            &&& final(buffer)@ == old(buffer)@
            &&& match line_status(a, old(buffer)@) {
                Some(m) => *final(status) matches Some(s) && s@ == m,
                None => *final(status) == *old(status),
            }
            &&& if a is Quit {
                &&& *final(state) == *old(state)
                &&& final(history)@ == old(history)@
                &&& *final(history_index) == *old(history_index)
            } else {
                &&& *final(state) == KeyState { mode: EditorMode::Normal, ..*old(state) }
                &&& history_texts(final(history)@) == history_after(
                    history_texts(old(history)@),
                    old(buffer)@,
                )
                &&& *final(history_index) is None
            }
        },
        key != Key::Enter && !(key == Key::Char('z') && control) ==> {
            &&& r == just(None)
            &&& final(history)@ == old(history)@
            &&& *final(status) == *old(status)
            &&& prompt_edited(
                key,
                *old(state),
                *final(state),
                old(buffer)@,
                final(buffer)@,
                history_texts(old(history)@),
                *old(history_index),
                *final(history_index),
            )
        },
{
    let none = KeyEffect {
        command: None,
        quit: false,
        stop: false,
        restyle_cursor: false,
        clear_command_buffer: false,
        clear_search_buffer: false,
    };
    if key == Key::Char('z') && control {
        return KeyEffect { command: Some(EditorCommand::Quit), quit: true, stop: true, ..none };
    }
    if key == Key::Enter {
        let outcome = interpret_command_line(buffer.as_str(), cursor_line, home);
        if outcome.quit {
            return KeyEffect { command: outcome.command, quit: true, stop: true, ..none };
        }
        match outcome.status {
            Some(message) => {
                *status = Some(message);
            },
            None => {},
        }
        push_history_entry(buffer.as_str(), history, history_index);
        state.mode = EditorMode::Normal;
        return KeyEffect { command: outcome.command, ..none };
    }
    edit_prompt(state, buffer, history, history_index, key);
    none
}

/// Handles a key while a search pattern is typed after `/`. Enter starts a search for
/// the line when it is not empty, records it in the history and returns to normal
/// mode; Ctrl-Z quits; other keys edit the line (see `prompt_edited`).
pub fn handle_search_key(
    state: &mut KeyState,
    buffer: &mut String,
    history: &mut Vec<String>,
    history_index: &mut Option<usize>,
    key: Key,
    control: bool,
) -> (r: KeyEffect)
    requires
        *old(history_index) matches Some(i) ==> i < old(history)@.len(),
    ensures
        *final(history_index) matches Some(i) ==> i < final(history)@.len(),
        key == Key::Char('z') && control ==> {
            &&& r == quit_effect()
            &&& *final(state) == *old(state)
            &&& final(buffer)@ == old(buffer)@
            &&& final(history)@ == old(history)@
            &&& *final(history_index) == *old(history_index)
        },
        key == Key::Enter ==> {
            &&& if old(buffer)@.len() > 0 {
                r.command matches Some(EditorCommand::SearchStart(p)) && p@ == old(buffer)@
            } else {
                r.command is None
            }
            &&& !r.quit && !r.stop && !r.restyle_cursor && !r.clear_command_buffer
                && !r.clear_search_buffer
            &&& final(buffer)@ == old(buffer)@
            &&& *final(state) == KeyState { mode: EditorMode::Normal, ..*old(state) }
            &&& history_texts(final(history)@) == history_after(
                history_texts(old(history)@),
                old(buffer)@,
            )
            &&& *final(history_index) is None
        },
        key != Key::Enter && !(key == Key::Char('z') && control) ==> {
            &&& r == just(None)
            &&& final(history)@ == old(history)@
            &&& prompt_edited(
                key,
                *old(state),
                *final(state),
                old(buffer)@,
                final(buffer)@,
                history_texts(old(history)@),
                *old(history_index),
                *final(history_index),
            )
        },
{
    let none = KeyEffect {
        command: None,
        quit: false,
        stop: false,
        restyle_cursor: false,
        clear_command_buffer: false,
        clear_search_buffer: false,
    };
    if key == Key::Char('z') && control {
        return KeyEffect { command: Some(EditorCommand::Quit), quit: true, stop: true, ..none };
    }
    if key == Key::Enter {
        let command = if buffer.as_str().unicode_len() > 0 {
            Some(EditorCommand::SearchStart(buffer.clone()))
        } else {
            None
        };
        push_history_entry(buffer.as_str(), history, history_index);
        state.mode = EditorMode::Normal;
        return KeyEffect { command, ..none };
    }
    edit_prompt(state, buffer, history, history_index, key);
    none
}

/// After a non-empty line is entered, Up at a fresh prompt brings it back.
pub proof fn lemma_entered_line_is_recalled(
    h: Seq<Seq<char>>,
    b: Seq<char>,
    s0: KeyState,
    s1: KeyState,
    b0: Seq<char>,
    b1: Seq<char>,
    i1: Option<usize>,
)
    requires
        b.len() > 0,
        prompt_edited(Key::Up, s0, s1, b0, b1, history_after(h, b), None, i1),
    ensures
        b1 == b,
        s1 == s0,
        i1 == Some((history_after(h, b).len() - 1) as usize),
{
    let h2 = history_after(h, b);
    if h.len() == 0 || h.last() != b {
        assert(h2 == h.push(b));
    } else {
        assert(h2 == h);
        assert(h2[h2.len() - 1] == h.last());
    }
}

} // verus!
