use baryon::commands::{ConfirmAction, EditorCommand, EditorMode, MoveDirection, SubstituteRange};
use baryon::coords::{DocByte, DocLine};
use baryon::keys::{
    handle_confirm_key, handle_insert_key, handle_mouse, handle_normal_key, handle_visual_key, Key,
    KeyState, MouseInput, PendingOperator,
};
use baryon::prompt::{expand_path, handle_command_key, handle_search_key, interpret_command_line, trim_text};
use baryon::selection::VisualKind;

fn state(mode: EditorMode) -> KeyState {
    KeyState {
        mode,
        g_prefix: false,
        y_prefix: false,
        pending_operator: None,
        awaiting_inner_word: false,
        pending_register: None,
    }
}

fn enter_command(line: &str) -> (KeyState, baryon::keys::KeyEffect, Vec<String>, Option<String>) {
    let mut s = state(EditorMode::Command);
    let mut buffer = line.to_string();
    let mut history = Vec::new();
    let mut index = None;
    let mut status = None;
    let effect = handle_command_key(
        &mut s,
        &mut buffer,
        &mut history,
        &mut index,
        &mut status,
        Key::Enter,
        false,
        DocLine::new(4),
        Some("/home/test"),
    );
    (s, effect, history, status)
}

#[test]
fn wrap_command_toggles_wrap() {
    let (s, effect, _, _) = enter_command("wrap");
    assert!(!effect.stop);
    assert!(matches!(effect.command.expect(":wrap should send a command"), EditorCommand::ToggleWrap));
    assert_eq!(s.mode, EditorMode::Normal);
}

#[test]
fn nowrap_command_forces_wrap_off() {
    let (_, effect, _, _) = enter_command("nowrap");
    assert!(!effect.stop);
    assert!(matches!(
        effect.command.expect(":nowrap should send a command"),
        EditorCommand::SetWrap(false)
    ));
}

#[test]
fn quit_command_stops_without_leaving_command_mode() {
    let (s, effect, history, _) = enter_command("q");
    assert!(effect.quit && effect.stop);
    assert!(matches!(effect.command, Some(EditorCommand::Quit)));
    assert_eq!(s.mode, EditorMode::Command);
    assert!(history.is_empty());
}

#[test]
fn write_as_expands_home_and_trims() {
    let (_, effect, history, _) = enter_command("w   ~/notes.txt  ");
    match effect.command {
        Some(EditorCommand::WriteFileAs(path)) => assert_eq!(path, "/home/test/notes.txt"),
        other => panic!("unexpected {:?}", other),
    }
    assert_eq!(history, vec!["w   ~/notes.txt  ".to_string()]);
}

#[test]
fn line_number_command_goes_to_zero_based_line() {
    let (_, effect, _, _) = enter_command("12");
    assert!(matches!(effect.command, Some(EditorCommand::GotoLine(line)) if line == DocLine::new(11)));
    let (_, effect, _, _) = enter_command("0");
    assert!(matches!(effect.command, Some(EditorCommand::GotoLine(line)) if line == DocLine::new(0)));
}

#[test]
fn unknown_and_bad_substitute_commands_report_status() {
    let (_, effect, _, status) = enter_command("frobnicate");
    assert!(effect.command.is_none());
    assert_eq!(status, Some("Unknown command: frobnicate".to_string()));
    let (_, effect, _, status) = enter_command("s//x/");
    assert!(effect.command.is_none());
    assert_eq!(status, Some("Invalid substitution syntax".to_string()));
}

#[test]
fn substitute_command_with_confirm_flag_asks() {
    let (_, effect, _, _) = enter_command("%s/a/b/gc");
    match effect.command {
        Some(EditorCommand::SubstituteConfirm { pattern, replacement, range, flags }) => {
            assert_eq!(pattern, "a");
            assert_eq!(replacement, "b");
            assert_eq!(range, SubstituteRange::WholeFile);
            assert!(flags.global && flags.confirm && !flags.case_insensitive);
        },
        other => panic!("unexpected {:?}", other),
    }
    let (_, effect, _, _) = enter_command(".,+2s/x/y/");
    match effect.command {
        Some(EditorCommand::SubstituteAll { range, .. }) => {
            assert_eq!(range, SubstituteRange::LineRange(DocLine::new(4), DocLine::new(6)))
        },
        other => panic!("unexpected {:?}", other),
    }
}

#[test]
fn interpret_command_line_reads_theme_and_edit() {
    let outcome = interpret_command_line("theme  gruvbox ", DocLine::new(0), None);
    assert!(matches!(outcome.command, Some(EditorCommand::SetTheme(ref n)) if n == "gruvbox"));
    let outcome = interpret_command_line("e ~", DocLine::new(0), Some("/root"));
    assert!(matches!(outcome.command, Some(EditorCommand::LoadFile(ref p)) if p == "/root"));
    let outcome = interpret_command_line("wq", DocLine::new(0), None);
    assert!(matches!(outcome.command, Some(EditorCommand::WriteAndQuit)));
    let outcome = interpret_command_line("", DocLine::new(0), None);
    assert!(outcome.command.is_none() && outcome.status.is_none() && !outcome.quit);
}

#[test]
fn expand_path_uses_home_only_for_tilde() {
    assert_eq!(expand_path("~/a/b", Some("/home/u")), "/home/u/a/b");
    assert_eq!(expand_path("~", Some("/home/u")), "/home/u");
    assert_eq!(expand_path("~/a", None), "~/a");
    assert_eq!(expand_path("~user/a", Some("/home/u")), "~user/a");
    assert_eq!(expand_path("rel/x", Some("/home/u")), "rel/x");
    assert_eq!(expand_path("~//abs", Some("/home/u")), "/abs");
    assert_eq!(trim_text("\t x y \n"), "x y");
}

#[test]
fn command_prompt_edits_and_browses_history() {
    let mut s = state(EditorMode::Command);
    let mut buffer = String::new();
    let mut history = vec!["first".to_string(), "second".to_string()];
    let mut index = None;
    let mut status = None;
    let mut press = |key: Key, s: &mut KeyState, buffer: &mut String, history: &mut Vec<String>, index: &mut Option<usize>| {
        handle_command_key(s, buffer, history, index, &mut status, key, false, DocLine::new(0), None)
    };
    press(Key::Char('a'), &mut s, &mut buffer, &mut history, &mut index);
    press(Key::Char('b'), &mut s, &mut buffer, &mut history, &mut index);
    assert_eq!(buffer, "ab");
    press(Key::Backspace, &mut s, &mut buffer, &mut history, &mut index);
    assert_eq!(buffer, "a");
    press(Key::Up, &mut s, &mut buffer, &mut history, &mut index);
    assert_eq!((buffer.as_str(), index), ("second", Some(1)));
    press(Key::Up, &mut s, &mut buffer, &mut history, &mut index);
    press(Key::Up, &mut s, &mut buffer, &mut history, &mut index);
    assert_eq!((buffer.as_str(), index), ("first", Some(0)));
    press(Key::Down, &mut s, &mut buffer, &mut history, &mut index);
    assert_eq!((buffer.as_str(), index), ("second", Some(1)));
    press(Key::Down, &mut s, &mut buffer, &mut history, &mut index);
    assert_eq!((buffer.as_str(), index), ("", None));
    press(Key::Backspace, &mut s, &mut buffer, &mut history, &mut index);
    assert_eq!(s.mode, EditorMode::Normal);
}

#[test]
fn search_enter_starts_search_and_records_history() {
    let mut s = state(EditorMode::Search);
    let mut buffer = "needle".to_string();
    let mut history = vec!["needle".to_string()];
    let mut index = None;
    let effect = handle_search_key(&mut s, &mut buffer, &mut history, &mut index, Key::Enter, false);
    assert!(matches!(effect.command, Some(EditorCommand::SearchStart(ref p)) if p == "needle"));
    assert_eq!(history.len(), 1);
    assert_eq!(s.mode, EditorMode::Normal);
    let mut s = state(EditorMode::Search);
    let mut empty = String::new();
    let effect = handle_search_key(&mut s, &mut empty, &mut history, &mut index, Key::Enter, false);
    assert!(effect.command.is_none());
    let effect = handle_search_key(&mut s, &mut empty, &mut history, &mut index, Key::Char('z'), true);
    assert!(effect.quit && effect.stop);
}

#[test]
fn normal_mode_prefixes_build_commands() {
    let mut s = state(EditorMode::Normal);
    let e = handle_normal_key(&mut s, Key::Char('g'), false, None);
    assert!(e.command.is_none() && s.g_prefix);
    let e = handle_normal_key(&mut s, Key::Char('g'), false, None);
    assert!(matches!(e.command, Some(EditorCommand::MoveCursor(MoveDirection::Top))));
    assert!(!s.g_prefix);

    handle_normal_key(&mut s, Key::Char('"'), false, None);
    handle_normal_key(&mut s, Key::Char('a'), false, None);
    handle_normal_key(&mut s, Key::Char('y'), false, None);
    let e = handle_normal_key(&mut s, Key::Char('y'), false, None);
    assert!(matches!(e.command, Some(EditorCommand::YankLine { register: 'a' })));
    assert_eq!(s.pending_register, None);

    handle_normal_key(&mut s, Key::Char('d'), false, None);
    assert_eq!(s.pending_operator, Some(PendingOperator::Delete));
    handle_normal_key(&mut s, Key::Char('i'), false, None);
    let e = handle_normal_key(&mut s, Key::Char('w'), false, None);
    assert!(matches!(e.command, Some(EditorCommand::DeleteInnerWord)));

    let e = handle_normal_key(&mut s, Key::Char('p'), false, None);
    assert!(matches!(e.command, Some(EditorCommand::Put { register: '"' })));
    let e = handle_normal_key(&mut s, Key::Char('r'), true, None);
    assert!(matches!(e.command, Some(EditorCommand::Redo)));
}

#[test]
fn normal_mode_switches_modes() {
    let mut s = state(EditorMode::Normal);
    let e = handle_normal_key(&mut s, Key::Char(':'), false, None);
    assert!(e.clear_command_buffer);
    assert_eq!(s.mode, EditorMode::Command);

    let mut s = state(EditorMode::Normal);
    let e = handle_normal_key(&mut s, Key::Char('v'), false, None);
    assert!(e.command.is_none());
    assert_eq!(s.mode, EditorMode::Normal);
    let e = handle_normal_key(&mut s, Key::Char('V'), false, Some((DocByte::new(7), DocByte::new(3))));
    assert!(e.restyle_cursor);
    assert_eq!(s.mode, EditorMode::Visual { anchor: DocByte::new(3), kind: VisualKind::Line });

    let mut s = state(EditorMode::Normal);
    let e = handle_normal_key(&mut s, Key::Char('z'), true, None);
    assert!(e.quit && e.stop);
}

#[test]
fn insert_and_visual_keys() {
    let mut s = state(EditorMode::Insert);
    let e = handle_insert_key(&mut s, Key::Tab, false);
    assert!(matches!(e.command, Some(EditorCommand::InsertChar('\t'))));
    let e = handle_insert_key(&mut s, Key::Esc, false);
    assert!(e.restyle_cursor && e.command.is_none());
    assert_eq!(s.mode, EditorMode::Normal);

    let mut s = state(EditorMode::Visual { anchor: DocByte::new(2), kind: VisualKind::Char });
    let e = handle_visual_key(&mut s, Key::Char('j'), false);
    assert!(matches!(e.command, Some(EditorCommand::MoveCursor(MoveDirection::Down))));
    let e = handle_visual_key(&mut s, Key::Char('d'), false);
    assert!(matches!(
        e.command,
        Some(EditorCommand::VisualDelete { anchor, kind: VisualKind::Char }) if anchor == DocByte::new(2)
    ));
    assert_eq!(s.mode, EditorMode::Normal);
}

#[test]
fn confirm_keys_answer_the_prompt() {
    assert!(matches!(
        handle_confirm_key(Key::Char('a'), false).command,
        Some(EditorCommand::ConfirmResponse(ConfirmAction::All))
    ));
    assert!(matches!(
        handle_confirm_key(Key::Esc, false).command,
        Some(EditorCommand::ConfirmResponse(ConfirmAction::Quit))
    ));
    assert!(handle_confirm_key(Key::Char('x'), false).command.is_none());
    assert!(handle_confirm_key(Key::Char('z'), true).quit);
}

#[test]
fn mouse_clicks_land_on_text_and_wheel_scrolls() {
    let view = Some((10, 20));
    let (command, redraw) = handle_mouse(MouseInput::LeftDown { column: 5, row: 2 }, view, 30);
    assert!(redraw);
    match command {
        Some(EditorCommand::ClickCursor(pos)) => {
            assert_eq!(pos.line, DocLine::new(12));
            assert_eq!(pos.col.get(), 2);
        },
        other => panic!("unexpected {:?}", other),
    }
    assert!(handle_mouse(MouseInput::LeftDown { column: 2, row: 2 }, view, 30).0.is_none());
    assert!(handle_mouse(MouseInput::LeftDown { column: 5, row: 20 }, view, 30).0.is_none());
    assert!(handle_mouse(MouseInput::LeftDown { column: 5, row: 2 }, None, 30).0.is_none());
    assert!(matches!(
        handle_mouse(MouseInput::ScrollUp, None, 30),
        (Some(EditorCommand::ScrollViewport(-3)), true)
    ));
    assert!(matches!(handle_mouse(MouseInput::Other, view, 30), (None, false)));
}
