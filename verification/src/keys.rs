use vstd::prelude::*;

use crate::commands::{ConfirmAction, EditorCommand, EditorMode, MoveDirection};
use crate::coords::{CursorPosition, DocByte, DocLine, VisualCol};
use crate::layout::{decimal_digit_count, decimal_digits};
use crate::selection::VisualKind;

verus! {

/// A key as the editor tells keys apart.
#[derive(Debug, Clone, Copy, PartialEq, Eq, Structural)]
pub enum Key {
    Char(char),
    Enter,
    Tab,
    Backspace,
    Delete,
    Up,
    Down,
    Left,
    Right,
    Home,
    End,
    PageUp,
    PageDown,
    Esc,
    Other,
}

/// An operator waiting for its object (`d` or `c` before `iw`).
#[derive(Debug, Clone, Copy, PartialEq, Eq, Structural)]
pub enum PendingOperator {
    Delete,
    Change,
}

/// What the key handlers remember between keys.
#[derive(Debug, Clone, Copy, PartialEq, Eq, Structural)]
pub struct KeyState {
    pub mode: EditorMode,
    pub g_prefix: bool,
    pub y_prefix: bool,
    pub pending_operator: Option<PendingOperator>,
    pub awaiting_inner_word: bool,
    pub pending_register: Option<char>,
}

/// What a key asks of the rest of the editor: a command for the engine, whether to
/// quit, whether to stop reading queued keys, and what to reset in the interface.
#[derive(Debug)]
pub struct KeyEffect {
    pub command: Option<EditorCommand>,
    pub quit: bool,
    pub stop: bool,
    pub restyle_cursor: bool,
    pub clear_command_buffer: bool,
    pub clear_search_buffer: bool,
}

/// An effect with nothing in it but `command`.
pub open spec fn just(command: Option<EditorCommand>) -> KeyEffect {
    KeyEffect {
        command,
        quit: false,
        stop: false,
        restyle_cursor: false,
        clear_command_buffer: false,
        clear_search_buffer: false,
    }
}

fn effect(command: Option<EditorCommand>) -> (r: KeyEffect)
    ensures
        r == just(command),
{
    KeyEffect {
        command,
        quit: false,
        stop: false,
        restyle_cursor: false,
        clear_command_buffer: false,
        clear_search_buffer: false,
    }
}

/// Quitting on Ctrl-Z.
pub open spec fn quit_effect() -> KeyEffect {
    KeyEffect { quit: true, stop: true, ..just(Some(EditorCommand::Quit)) }
}

/// The state with every prefix forgotten.
pub open spec fn cleared(s: KeyState) -> KeyState {
    KeyState {
        g_prefix: false,
        y_prefix: false,
        pending_operator: None,
        awaiting_inner_word: false,
        pending_register: None,
        ..s
    }
}

/// The motion that a key names in normal and visual mode, if any.
pub open spec fn motion_of(key: Key) -> Option<MoveDirection> {
    match key {
        Key::Char(c) => if c == 'h' {
            Some(MoveDirection::Left)
        } else if c == 'j' {
            Some(MoveDirection::Down)
        } else if c == 'k' {
            Some(MoveDirection::Up)
        } else if c == 'l' {
            Some(MoveDirection::Right)
        } else if c == 'w' {
            Some(MoveDirection::NextWord)
        } else if c == 'b' {
            Some(MoveDirection::PrevWord)
        } else if c == 'e' {
            Some(MoveDirection::NextWordEnd)
        } else if c == 'G' {
            Some(MoveDirection::Bottom)
        } else {
            None
        },
        Key::Up => Some(MoveDirection::Up),
        Key::Down => Some(MoveDirection::Down),
        Key::Left => Some(MoveDirection::Left),
        Key::Right => Some(MoveDirection::Right),
        _ => None,
    }
}

fn motion_for(key: Key) -> (r: Option<MoveDirection>)
    ensures
        r == motion_of(key),
{
    match key {
        Key::Char(c) => if c == 'h' {
            Some(MoveDirection::Left)
        } else if c == 'j' {
            Some(MoveDirection::Down)
        } else if c == 'k' {
            Some(MoveDirection::Up)
        } else if c == 'l' {
            Some(MoveDirection::Right)
        } else if c == 'w' {
            Some(MoveDirection::NextWord)
        } else if c == 'b' {
            Some(MoveDirection::PrevWord)
        } else if c == 'e' {
            Some(MoveDirection::NextWordEnd)
        } else if c == 'G' {
            Some(MoveDirection::Bottom)
        } else {
            None
        },
        Key::Up => Some(MoveDirection::Up),
        Key::Down => Some(MoveDirection::Down),
        Key::Left => Some(MoveDirection::Left),
        Key::Right => Some(MoveDirection::Right),
        _ => None,
    }
}

/// The command that a key sends on its own, clearing the prefixes, in normal mode
/// (apart from motions): line and page jumps, deletion, undo and search steps.
pub open spec fn normal_simple_command(key: Key, control: bool, register: char) -> Option<
    EditorCommand,
> {
    match key {
        Key::Char(c) => if c == '0' {
            Some(EditorCommand::LineStart)
        } else if c == '^' {
            Some(EditorCommand::FirstNonWhitespace)
        } else if c == '$' {
            Some(EditorCommand::LineEnd)
        } else if c == 'D' {
            Some(EditorCommand::DeleteToLineEnd)
        } else if c == 'p' {
            Some(EditorCommand::Put { register })
        } else if c == 'u' {
            Some(EditorCommand::Undo)
        } else if c == 'r' && control {
            Some(EditorCommand::Redo)
        } else if c == 'n' {
            Some(EditorCommand::SearchNext)
        } else if c == 'N' {
            Some(EditorCommand::SearchPrev)
        } else {
            None
        },
        Key::Backspace | Key::Delete => Some(EditorCommand::Backspace),
        Key::Home => Some(EditorCommand::SmartHome),
        Key::End => Some(EditorCommand::LineEnd),
        Key::PageUp => Some(EditorCommand::PageUp),
        Key::PageDown => Some(EditorCommand::PageDown),
        _ => None,
    }
}

fn normal_simple(key: Key, control: bool, register: char) -> (r: Option<EditorCommand>)
    ensures
        r == normal_simple_command(key, control, register),
{
    match key {
        Key::Char(c) => if c == '0' {
            Some(EditorCommand::LineStart)
        } else if c == '^' {
            Some(EditorCommand::FirstNonWhitespace)
        } else if c == '$' {
            Some(EditorCommand::LineEnd)
        } else if c == 'D' {
            Some(EditorCommand::DeleteToLineEnd)
        } else if c == 'p' {
            Some(EditorCommand::Put { register })
        } else if c == 'u' {
            Some(EditorCommand::Undo)
        } else if c == 'r' && control {
            Some(EditorCommand::Redo)
        } else if c == 'n' {
            Some(EditorCommand::SearchNext)
        } else if c == 'N' {
            Some(EditorCommand::SearchPrev)
        } else {
            None
        },
        Key::Backspace | Key::Delete => Some(EditorCommand::Backspace),
        Key::Home => Some(EditorCommand::SmartHome),
        Key::End => Some(EditorCommand::LineEnd),
        Key::PageUp => Some(EditorCommand::PageUp),
        Key::PageDown => Some(EditorCommand::PageDown),
        _ => None,
    }
}

/// Normal mode once the register and operator prefixes are dealt with; `view` is the
/// cursor byte and the start byte of its line, when a view is on screen.
pub open spec fn normal_main(
    s: KeyState,
    key: Key,
    control: bool,
    view: Option<(DocByte, DocByte)>,
) -> (KeyState, KeyEffect) {
    let register = match s.pending_register {
        Some(r) => r,
        None => '"',
    };
    if key == Key::Char('z') && control {
        (s, quit_effect())
    } else if key == Key::Char('"') {
        (KeyState { pending_register: Some('\0'), ..s }, just(None))
    } else if key == Key::Char(':') {
        (
            KeyState { mode: EditorMode::Command, ..cleared(s) },
            KeyEffect { clear_command_buffer: true, ..just(None) },
        )
    } else if key == Key::Char('g') {
        if s.g_prefix {
            (cleared(s), just(Some(EditorCommand::MoveCursor(MoveDirection::Top))))
        } else {
            (KeyState { g_prefix: true, y_prefix: false, pending_register: None, ..s }, just(None))
        }
    } else if motion_of(key) is Some {
        (cleared(s), just(Some(EditorCommand::MoveCursor(motion_of(key)->0))))
    } else if key == Key::Char('d') {
        (KeyState { pending_operator: Some(PendingOperator::Delete), ..cleared(s) }, just(None))
    } else if key == Key::Char('c') {
        (KeyState { pending_operator: Some(PendingOperator::Change), ..cleared(s) }, just(None))
    } else if key == Key::Char('v') || key == Key::Char('V') {
        match view {
            None => (s, just(None)),
            Some((cursor_byte, line_start)) => {
                let (anchor, kind) = if key == Key::Char('V') {
                    (line_start, VisualKind::Line)
                } else if control {
                    (cursor_byte, VisualKind::Block)
                } else {
                    (cursor_byte, VisualKind::Char)
                };
                (
                    KeyState { mode: EditorMode::Visual { anchor, kind }, ..cleared(s) },
                    KeyEffect {
                        restyle_cursor: true,
                        ..just(Some(EditorCommand::SetVisualSelection { anchor, kind }))
                    },
                )
            },
        }
    } else if key == Key::Char('y') {
        if s.y_prefix {
            (cleared(s), just(Some(EditorCommand::YankLine { register })))
        } else {
            (KeyState { y_prefix: true, g_prefix: false, ..s }, just(None))
        }
    } else if key == Key::Char('i') {
        (KeyState { mode: EditorMode::Insert, ..cleared(s) }, KeyEffect { restyle_cursor: true, ..just(None) })
    } else if key == Key::Char('/') {
        (
            KeyState { mode: EditorMode::Search, ..cleared(s) },
            KeyEffect { clear_search_buffer: true, ..just(None) },
        )
    } else {
        (cleared(s), just(normal_simple_command(key, control, register)))
    }
}

/// Normal mode: `"x` picks register `x`; `d`/`c` followed by `iw` act on the word under
/// the cursor; `gg`, `yy` and the other keys as in vi.
pub open spec fn normal_key(s: KeyState, key: Key, control: bool, view: Option<(DocByte, DocByte)>) -> (
    KeyState,
    KeyEffect,
) {
    if s.pending_register == Some('\0') {
        match key {
            Key::Char(c) => (KeyState { pending_register: Some(c), ..s }, just(None)),
            _ => (cleared(s), just(None)),
        }
    } else {
        match s.pending_operator {
            Some(op) => if s.awaiting_inner_word {
                if key == Key::Char('w') {
                    (
                        cleared(s),
                        just(
                            Some(
                                match op {
                                    PendingOperator::Delete => EditorCommand::DeleteInnerWord,
                                    PendingOperator::Change => EditorCommand::ChangeInnerWord,
                                },
                            ),
                        ),
                    )
                } else {
                    normal_main(
                        KeyState { pending_operator: None, awaiting_inner_word: false, ..s },
                        key,
                        control,
                        view,
                    )
                }
            } else if key == Key::Char('i') {
                (KeyState { awaiting_inner_word: true, ..s }, just(None))
            } else {
                normal_main(
                    KeyState { pending_operator: None, awaiting_inner_word: false, ..s },
                    key,
                    control,
                    view,
                )
            },
            None => normal_main(s, key, control, view),
        }
    }
}

fn normal_main_exec(state: &mut KeyState, key: Key, control: bool, view: Option<(DocByte, DocByte)>) -> (r:
    KeyEffect)
    ensures
        (*final(state), r) == normal_main(*old(state), key, control, view),
{
    let register = match state.pending_register {
        Some(r) => r,
        None => '"',
    };
    if key == Key::Char('z') && control {
        return KeyEffect { quit: true, stop: true, ..effect(Some(EditorCommand::Quit)) };
    }
    if key == Key::Char('"') {
        state.pending_register = Some('\0');
        return effect(None);
    }
    if key == Key::Char(':') {
        clear_prefixes(state);
        state.mode = EditorMode::Command;
        return KeyEffect { clear_command_buffer: true, ..effect(None) };
    }
    if key == Key::Char('g') {
        if state.g_prefix {
            clear_prefixes(state);
            return effect(Some(EditorCommand::MoveCursor(MoveDirection::Top)));
        } else {
            state.g_prefix = true;
            state.y_prefix = false;
            state.pending_register = None;
            return effect(None);
        }
    }
    match motion_for(key) {
        Some(m) => {
            clear_prefixes(state);
            return effect(Some(EditorCommand::MoveCursor(m)));
        },
        None => {},
    }
    if key == Key::Char('d') {
        clear_prefixes(state);
        state.pending_operator = Some(PendingOperator::Delete);
        return effect(None);
    }
    if key == Key::Char('c') {
        clear_prefixes(state);
        state.pending_operator = Some(PendingOperator::Change);
        return effect(None);
    }
    if key == Key::Char('v') || key == Key::Char('V') {
        match view {
            None => {
                return effect(None);
            },
            Some((cursor_byte, line_start)) => {
                let (anchor, kind) = if key == Key::Char('V') {
                    (line_start, VisualKind::Line)
                } else if control {
                    (cursor_byte, VisualKind::Block)
                } else {
                    (cursor_byte, VisualKind::Char)
                };
                clear_prefixes(state);
                state.mode = EditorMode::Visual { anchor, kind };
                return KeyEffect {
                    restyle_cursor: true,
                    ..effect(Some(EditorCommand::SetVisualSelection { anchor, kind }))
                };
            },
        }
    }
    if key == Key::Char('y') {
        if state.y_prefix {
            clear_prefixes(state);
            return effect(Some(EditorCommand::YankLine { register }));
        } else {
            state.y_prefix = true;
            state.g_prefix = false;
            return effect(None);
        }
    }
    if key == Key::Char('i') {
        clear_prefixes(state);
        state.mode = EditorMode::Insert;
        return KeyEffect { restyle_cursor: true, ..effect(None) };
    }
    if key == Key::Char('/') {
        clear_prefixes(state);
        state.mode = EditorMode::Search;
        return KeyEffect { clear_search_buffer: true, ..effect(None) };
    }
    let command = normal_simple(key, control, register);
    clear_prefixes(state);
    effect(command)
}

/// Forgets every prefix.
pub fn clear_prefixes(state: &mut KeyState)
    ensures
        *final(state) == cleared(*old(state)),
{
    state.g_prefix = false;
    state.y_prefix = false;
    state.pending_operator = None;
    state.awaiting_inner_word = false;
    state.pending_register = None;
}

/// Forgets a pending operator.
pub fn clear_operator_pending(state: &mut KeyState)
    ensures
        *final(state) == (KeyState {
            pending_operator: None,
            awaiting_inner_word: false,
            ..*old(state)
        }),
{
    state.pending_operator = None;
    state.awaiting_inner_word = false;
}

/// Handles a key in normal mode.
pub fn handle_normal_key(
    state: &mut KeyState,
    key: Key,
    control: bool,
    view: Option<(DocByte, DocByte)>,
) -> (r: KeyEffect)
    ensures
        (*final(state), r) == normal_key(*old(state), key, control, view),
{
    if state.pending_register == Some('\0') {
        match key {
            Key::Char(c) => {
                state.pending_register = Some(c);
            },
            _ => {
                clear_prefixes(state);
            },
        }
        return effect(None);
    }
    match state.pending_operator {
        Some(op) => {
            if state.awaiting_inner_word {
                if key == Key::Char('w') {
                    let command = match op {
                        PendingOperator::Delete => EditorCommand::DeleteInnerWord,
                        PendingOperator::Change => EditorCommand::ChangeInnerWord,
                    };
                    clear_prefixes(state);
                    return effect(Some(command));
                }
                clear_operator_pending(state);
            } else if key == Key::Char('i') {
                state.awaiting_inner_word = true;
                return effect(None);
            } else {
                clear_operator_pending(state);
            }
        },
        None => {},
    }
    normal_main_exec(state, key, control, view)
}

/// The command a key sends in insert mode, if any.
pub open spec fn insert_command(key: Key) -> Option<EditorCommand> {
    match key {
        Key::Enter => Some(EditorCommand::InsertChar('\n')),
        Key::Tab => Some(EditorCommand::InsertChar('\t')),
        Key::Backspace => Some(EditorCommand::Backspace),
        Key::Delete => Some(EditorCommand::Delete),
        Key::Up => Some(EditorCommand::MoveCursor(MoveDirection::Up)),
        Key::Down => Some(EditorCommand::MoveCursor(MoveDirection::Down)),
        Key::Left => Some(EditorCommand::MoveCursor(MoveDirection::Left)),
        Key::Right => Some(EditorCommand::MoveCursor(MoveDirection::Right)),
        Key::Home => Some(EditorCommand::SmartHome),
        Key::End => Some(EditorCommand::LineEnd),
        Key::PageUp => Some(EditorCommand::PageUp),
        Key::PageDown => Some(EditorCommand::PageDown),
        Key::Char(c) => Some(EditorCommand::InsertChar(c)),
        _ => None,
    }
}

/// Insert mode: Ctrl-Z quits, Esc returns to normal mode, other keys edit or move.
pub open spec fn insert_key(s: KeyState, key: Key, control: bool) -> (KeyState, KeyEffect) {
    if key == Key::Char('z') && control {
        (s, quit_effect())
    } else if key == Key::Esc {
        (KeyState { mode: EditorMode::Normal, ..s }, KeyEffect { restyle_cursor: true, ..just(None) })
    } else {
        (s, just(insert_command(key)))
    }
}

/// Handles a key in insert mode.
pub fn handle_insert_key(state: &mut KeyState, key: Key, control: bool) -> (r: KeyEffect)
    ensures
        (*final(state), r) == insert_key(*old(state), key, control),
{
    if key == Key::Char('z') && control {
        return KeyEffect { quit: true, stop: true, ..effect(Some(EditorCommand::Quit)) };
    }
    let command = match key {
        Key::Esc => {
            state.mode = EditorMode::Normal;
            return KeyEffect { restyle_cursor: true, ..effect(None) };
        },
        Key::Enter => Some(EditorCommand::InsertChar('\n')),
        Key::Tab => Some(EditorCommand::InsertChar('\t')),
        Key::Backspace => Some(EditorCommand::Backspace),
        Key::Delete => Some(EditorCommand::Delete),
        Key::Up => Some(EditorCommand::MoveCursor(MoveDirection::Up)),
        Key::Down => Some(EditorCommand::MoveCursor(MoveDirection::Down)),
        Key::Left => Some(EditorCommand::MoveCursor(MoveDirection::Left)),
        Key::Right => Some(EditorCommand::MoveCursor(MoveDirection::Right)),
        Key::Home => Some(EditorCommand::SmartHome),
        Key::End => Some(EditorCommand::LineEnd),
        Key::PageUp => Some(EditorCommand::PageUp),
        Key::PageDown => Some(EditorCommand::PageDown),
        Key::Char(c) => Some(EditorCommand::InsertChar(c)),
        Key::Other => None,
    };
    effect(command)
}

/// The command a key sends in visual mode without leaving it, if any.
pub open spec fn visual_move_command(key: Key) -> Option<EditorCommand> {
    if key == Key::Char('G') {
        Some(EditorCommand::MoveCursor(MoveDirection::Bottom))
    } else if motion_of(key) is Some {
        Some(EditorCommand::MoveCursor(motion_of(key)->0))
    } else {
        match key {
            Key::Char(c) => if c == '0' {
                Some(EditorCommand::LineStart)
            } else if c == '^' {
                Some(EditorCommand::FirstNonWhitespace)
            } else if c == '$' {
                Some(EditorCommand::LineEnd)
            } else {
                None
            },
            Key::End => Some(EditorCommand::LineEnd),
            Key::Home => Some(EditorCommand::SmartHome),
            Key::PageUp => Some(EditorCommand::PageUp),
            Key::PageDown => Some(EditorCommand::PageDown),
            _ => None,
        }
    }
}

/// Visual mode: `y`, `d` and `c` act on the selection and end it, Esc ends it, `gg`
/// jumps to the top, other keys move the cursor and so the selection.
pub open spec fn visual_key(s: KeyState, key: Key, control: bool) -> (KeyState, KeyEffect) {
    match s.mode {
        EditorMode::Visual { anchor, kind } => if s.g_prefix {
            (
                KeyState { g_prefix: false, ..s },
                just(
                    if key == Key::Char('g') {
                        Some(EditorCommand::MoveCursor(MoveDirection::Top))
                    } else {
                        None
                    },
                ),
            )
        } else if key == Key::Char('z') && control {
            (s, quit_effect())
        } else if key == Key::Esc {
            (
                KeyState { mode: EditorMode::Normal, ..cleared(s) },
                KeyEffect { restyle_cursor: true, ..just(Some(EditorCommand::ClearVisualSelection)) },
            )
        } else if key == Key::Char('y') || key == Key::Char('d') || key == Key::Char('c') {
            (
                KeyState { mode: EditorMode::Normal, ..cleared(s) },
                KeyEffect {
                    restyle_cursor: true,
                    ..just(
                        Some(
                            if key == Key::Char('y') {
                                EditorCommand::VisualYank { anchor, kind }
                            } else if key == Key::Char('d') {
                                EditorCommand::VisualDelete { anchor, kind }
                            } else {
                                EditorCommand::VisualChange { anchor, kind }
                            },
                        ),
                    )
                },
            )
        } else if key == Key::Char('g') {
            (KeyState { g_prefix: true, ..s }, just(None))
        } else {
            (s, just(visual_move_command(key)))
        },
        _ => (s, just(None)),
    }
}

/// Handles a key in visual mode.
pub fn handle_visual_key(state: &mut KeyState, key: Key, control: bool) -> (r: KeyEffect)
    ensures
        (*final(state), r) == visual_key(*old(state), key, control),
{
    let (anchor, kind) = match state.mode {
        EditorMode::Visual { anchor, kind } => (anchor, kind),
        _ => {
            return effect(None);
        },
    };
    if state.g_prefix {
        state.g_prefix = false;
        if key == Key::Char('g') {
            return effect(Some(EditorCommand::MoveCursor(MoveDirection::Top)));
        }
        return effect(None);
    }
    if key == Key::Char('z') && control {
        return KeyEffect { quit: true, stop: true, ..effect(Some(EditorCommand::Quit)) };
    }
    if key == Key::Esc {
        clear_prefixes(state);
        state.mode = EditorMode::Normal;
        return KeyEffect {
            restyle_cursor: true,
            ..effect(Some(EditorCommand::ClearVisualSelection))
        };
    }
    if key == Key::Char('y') || key == Key::Char('d') || key == Key::Char('c') {
        let command = if key == Key::Char('y') {
            EditorCommand::VisualYank { anchor, kind }
        } else if key == Key::Char('d') {
            EditorCommand::VisualDelete { anchor, kind }
        } else {
            EditorCommand::VisualChange { anchor, kind }
        };
        clear_prefixes(state);
        state.mode = EditorMode::Normal;
        return KeyEffect { restyle_cursor: true, ..effect(Some(command)) };
    }
    if key == Key::Char('g') {
        state.g_prefix = true;
        return effect(None);
    }
    if key == Key::Char('G') {
        return effect(Some(EditorCommand::MoveCursor(MoveDirection::Bottom)));
    }
    match motion_for(key) {
        Some(m) => {
            return effect(Some(EditorCommand::MoveCursor(m)));
        },
        None => {},
    }
    let command = match key {
        Key::Char(c) => if c == '0' {
            Some(EditorCommand::LineStart)
        } else if c == '^' {
            Some(EditorCommand::FirstNonWhitespace)
        } else if c == '$' {
            Some(EditorCommand::LineEnd)
        } else {
            None
        },
        Key::End => Some(EditorCommand::LineEnd),
        Key::Home => Some(EditorCommand::SmartHome),
        Key::PageUp => Some(EditorCommand::PageUp),
        Key::PageDown => Some(EditorCommand::PageDown),
        _ => None,
    };
    effect(command)
}

/// The answer a key gives to a substitution prompt, if any.
pub open spec fn confirm_answer(key: Key) -> Option<ConfirmAction> {
    match key {
        Key::Char(c) => if c == 'y' {
            Some(ConfirmAction::Yes)
        } else if c == 'n' {
            Some(ConfirmAction::No)
        } else if c == 'a' {
            Some(ConfirmAction::All)
        } else if c == 'q' {
            Some(ConfirmAction::Quit)
        } else {
            None
        },
        Key::Esc => Some(ConfirmAction::Quit),
        _ => None,
    }
}

/// Handles a key while a substitution asks for confirmation: `y`, `n`, `a`, and `q` or
/// Esc to stop; Ctrl-Z quits the editor.
pub fn handle_confirm_key(key: Key, control: bool) -> (r: KeyEffect)
    ensures
        key == Key::Char('z') && control ==> r == quit_effect(),
        !(key == Key::Char('z') && control) ==> r == just(
            match confirm_answer(key) {
                Some(a) => Some(EditorCommand::ConfirmResponse(a)),
                None => None,
            },
        ),
{
    if key == Key::Char('z') && control {
        return KeyEffect { quit: true, stop: true, ..effect(Some(EditorCommand::Quit)) };
    }
    let answer = match key {
        Key::Char(c) => if c == 'y' {
            Some(ConfirmAction::Yes)
        } else if c == 'n' {
            Some(ConfirmAction::No)
        } else if c == 'a' {
            Some(ConfirmAction::All)
        } else if c == 'q' {
            Some(ConfirmAction::Quit)
        } else {
            None
        },
        Key::Esc => Some(ConfirmAction::Quit),
        _ => None,
    };
    match answer {
        Some(a) => effect(Some(EditorCommand::ConfirmResponse(a))),
        None => effect(None),
    }
}

/// A mouse event as the editor tells them apart.
#[derive(Debug, Clone, Copy, PartialEq, Eq, Structural)]
pub enum MouseInput {
    ScrollUp,
    ScrollDown,
    LeftDown { column: u16, row: u16 },
    Other,
}

/// Width of the line-number gutter when lines `scroll_y..` fill `line_count` rows.
pub open spec fn click_gutter_width(scroll_y: u32, line_count: u32) -> int {
    let last = scroll_y + line_count - 1;
    (decimal_digits(if last < 1 {
        1nat
    } else {
        last as nat
    }) + 1) as int
}

/// What a mouse event does: the wheel scrolls three lines; a left click on the text of
/// a shown line (`view` holds the first line on screen and the number of lines shown,
/// on a terminal `screen_height` rows high, its last row the status line) moves the
/// cursor to the clicked line and column; the rest does nothing. The flag tells whether
/// the screen needs drawing again.
pub open spec fn mouse_effect(
    input: MouseInput,
    view: Option<(u32, u32)>,
    screen_height: u16,
) -> (Option<EditorCommand>, bool) {
    match input {
        MouseInput::ScrollUp => (Some(EditorCommand::ScrollViewport(-3i32)), true),
        MouseInput::ScrollDown => (Some(EditorCommand::ScrollViewport(3i32)), true),
        MouseInput::LeftDown { column, row } => match view {
            None => (None, false),
            Some((scroll_y, line_count)) => {
                let count: u32 = if line_count == 0 {
                    1
                } else {
                    line_count
                };
                let usable: int = if screen_height == 0 {
                    0
                } else {
                    screen_height - 1
                };
                let shown = if count < usable {
                    count as int
                } else {
                    usable
                };
                let gutter = click_gutter_width(scroll_y, count);
                if row >= shown || column < gutter {
                    (None, false)
                } else {
                    (
                        Some(
                            EditorCommand::ClickCursor(
                                CursorPosition {
                                    line: DocLine((scroll_y + row) as u32),
                                    col: VisualCol((column - gutter) as u32),
                                },
                            ),
                        ),
                        true,
                    )
                }
            },
        },
        MouseInput::Other => (None, false),
    }
}

/// Handles a mouse event; `view` holds the first line on screen and the number of
/// lines shown, when a view is on screen.
pub fn handle_mouse(input: MouseInput, view: Option<(u32, u32)>, screen_height: u16) -> (r: (
    Option<EditorCommand>,
    bool,
))
    requires
        view matches Some((s, n)) ==> s + n <= u32::MAX,
    ensures
        r == mouse_effect(input, view, screen_height),
{
    match input {
        MouseInput::ScrollUp => (Some(EditorCommand::ScrollViewport(-3)), true),
        MouseInput::ScrollDown => (Some(EditorCommand::ScrollViewport(3)), true),
        MouseInput::LeftDown { column, row } => {
            let (scroll_y, line_count) = match view {
                Some(v) => v,
                None => {
                    return (None, false);
                },
            };
            let count = if line_count == 0 {
                1
            } else {
                line_count
            };
            let usable: u32 = if screen_height == 0 {
                0
            } else {
                (screen_height - 1) as u32
            };
            let shown: u32 = if count < usable {
                count
            } else {
                usable
            };
            if row as u32 >= shown {
                return (None, false);
            }
            let last = scroll_y + (count - 1);
            let digits = decimal_digit_count(if last < 1 {
                1
            } else {
                last
            });
            let gutter = digits as u16 + 1;
            if column < gutter {
                return (None, false);
            }
            let line = scroll_y + row as u32;
            (
                Some(
                    EditorCommand::ClickCursor(
                        CursorPosition::new(DocLine(line), VisualCol((column - gutter) as u32)),
                    ),
                ),
                true,
            )
        },
        MouseInput::Other => (None, false),
    }
}

/// In normal mode, unless a register name or the object of an operator is awaited, `n`
/// steps to the next search match and `N` to the previous one, whatever the modifiers:
/// the two keys search in opposite directions, and both forget the prefixes.
pub proof fn search_keys_go_opposite_ways(
    s: KeyState,
    control: bool,
    view: Option<(DocByte, DocByte)>,
)
    requires
        s.pending_register != Some('\0'),
        s.pending_operator is None,
    ensures
        normal_key(s, Key::Char('n'), control, view).1.command == Some(EditorCommand::SearchNext),
        normal_key(s, Key::Char('N'), control, view).1.command == Some(EditorCommand::SearchPrev),
        normal_key(s, Key::Char('n'), control, view).0 == cleared(s),
        normal_key(s, Key::Char('N'), control, view).0 == cleared(s),
{
}

/// In visual mode, with no `g` pending, `y` yanks the selection, `d` deletes it and `c`
/// changes it, each with the selection's own anchor and shape, and each ends visual
/// mode. No other key, in any mode, asks to delete or change a selection, and only `y`
/// asks to yank one.
pub proof fn visual_operators_act_on_the_selection(
    s: KeyState,
    key: Key,
    control: bool,
    anchor: DocByte,
    kind: VisualKind,
)
    ensures
        s.mode == (EditorMode::Visual { anchor, kind }) && !s.g_prefix ==> {
            &&& visual_key(s, Key::Char('y'), control).1.command == Some(
                EditorCommand::VisualYank { anchor, kind },
            )
            &&& visual_key(s, Key::Char('d'), control).1.command == Some(
                EditorCommand::VisualDelete { anchor, kind },
            )
            &&& visual_key(s, Key::Char('c'), control).1.command == Some(
                EditorCommand::VisualChange { anchor, kind },
            )
            &&& visual_key(s, Key::Char('y'), control).0.mode == EditorMode::Normal
            &&& visual_key(s, Key::Char('d'), control).0.mode == EditorMode::Normal
            &&& visual_key(s, Key::Char('c'), control).0.mode == EditorMode::Normal
        },
        visual_key(s, key, control).1.command matches Some(EditorCommand::VisualYank { .. })
            ==> key == Key::Char('y'),
        visual_key(s, key, control).1.command matches Some(EditorCommand::VisualDelete { .. })
            ==> key == Key::Char('d'),
        visual_key(s, key, control).1.command matches Some(EditorCommand::VisualChange { .. })
            ==> key == Key::Char('c'),
{
}

/// Outside any pending prefix, the letter keys `h`, `j`, `k`, `l` move the cursor the
/// same way as the arrow keys Left, Down, Up, Right, in normal and in visual mode
/// alike, and insert mode's arrow keys move it the same way too.
pub proof fn letter_and_arrow_motions_agree(
    s: KeyState,
    v: KeyState,
    control: bool,
    view: Option<(DocByte, DocByte)>,
)
    requires
        s.pending_register != Some('\0'),
        s.pending_operator is None,
        v.mode is Visual,
        !v.g_prefix,
    ensures
        normal_key(s, Key::Char('h'), control, view).1.command == Some(
            EditorCommand::MoveCursor(MoveDirection::Left),
        ),
        normal_key(s, Key::Char('j'), control, view).1.command == Some(
            EditorCommand::MoveCursor(MoveDirection::Down),
        ),
        normal_key(s, Key::Char('k'), control, view).1.command == Some(
            EditorCommand::MoveCursor(MoveDirection::Up),
        ),
        normal_key(s, Key::Char('l'), control, view).1.command == Some(
            EditorCommand::MoveCursor(MoveDirection::Right),
        ),
        normal_key(s, Key::Char('h'), control, view).1.command == normal_key(s, Key::Left, control, view).1.command,
        normal_key(s, Key::Char('j'), control, view).1.command == normal_key(s, Key::Down, control, view).1.command,
        normal_key(s, Key::Char('k'), control, view).1.command == normal_key(s, Key::Up, control, view).1.command,
        normal_key(s, Key::Char('l'), control, view).1.command == normal_key(s, Key::Right, control, view).1.command,
        visual_key(v, Key::Char('h'), control).1.command == normal_key(s, Key::Char('h'), control, view).1.command,
        visual_key(v, Key::Char('j'), control).1.command == normal_key(s, Key::Char('j'), control, view).1.command,
        visual_key(v, Key::Char('k'), control).1.command == normal_key(s, Key::Char('k'), control, view).1.command,
        visual_key(v, Key::Char('l'), control).1.command == normal_key(s, Key::Char('l'), control, view).1.command,
        insert_key(s, Key::Left, control).1.command == normal_key(s, Key::Left, control, view).1.command,
        insert_key(s, Key::Right, control).1.command == normal_key(s, Key::Right, control, view).1.command,
        insert_key(s, Key::Up, control).1.command == normal_key(s, Key::Up, control, view).1.command,
        insert_key(s, Key::Down, control).1.command == normal_key(s, Key::Down, control, view).1.command,
{
}

/// Outside any pending prefix, `u` undoes and Ctrl-R redoes, in normal mode.
pub proof fn undo_and_redo_keys(s: KeyState, control: bool, view: Option<(DocByte, DocByte)>)
    requires
        s.pending_register != Some('\0'),
        s.pending_operator is None,
    ensures
        normal_key(s, Key::Char('u'), control, view).1.command == Some(EditorCommand::Undo),
        normal_key(s, Key::Char('r'), true, view).1.command == Some(EditorCommand::Redo),
        normal_key(s, Key::Char('r'), false, view).1.command is None,
{
}

/// At a substitution prompt, `y` accepts the match, `n` skips it, `a` accepts it and
/// every later one, and `q` and Esc both stop; no other key answers.
pub proof fn confirm_keys_answer_the_prompt(key: Key)
    ensures
        confirm_answer(Key::Char('y')) == Some(ConfirmAction::Yes),
        confirm_answer(Key::Char('n')) == Some(ConfirmAction::No),
        confirm_answer(Key::Char('a')) == Some(ConfirmAction::All),
        confirm_answer(Key::Char('q')) == Some(ConfirmAction::Quit),
        confirm_answer(Key::Esc) == confirm_answer(Key::Char('q')),
        confirm_answer(key) is Some ==> key == Key::Char('y') || key == Key::Char('n') || key
            == Key::Char('a') || key == Key::Char('q') || key == Key::Esc,
{
}

} // verus!
