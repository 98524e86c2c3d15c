use baryon::commands::{ConfirmAction, MoveDirection, SubstituteFlags, SubstituteRange};
use baryon::coords::{CursorPosition, DocByte, DocLine, VisualCol};
use baryon::selection::VisualKind;
use baryon::session::{EditorSession, LineMotion};

fn session_with(text: &str) -> EditorSession {
    let mut s = EditorSession::new(10);
    s.load_document("doc.rs".to_string(), Some(text.as_bytes().to_vec()));
    s
}

fn text_of(s: &EditorSession) -> String {
    String::from_utf8(s.doc.clone()).unwrap()
}

fn cursor(s: &EditorSession) -> (u32, u32, u64) {
    (s.cursor_line.get(), s.cursor_col.get(), s.cursor_byte.get())
}

#[test]
fn commands_without_a_document_change_nothing() {
    let mut s = EditorSession::new(10);
    s.move_cursor(MoveDirection::Down);
    s.insert_char('x');
    s.undo();
    assert!(!s.loaded);
    assert!(s.doc.is_empty());
    assert_eq!(cursor(&s), (0, 0, 0));
    assert!(s.status_message.is_none());
}

#[test]
fn cursor_moves_by_line_and_character() {
    let mut s = session_with("abc\nd\n\tx");
    s.move_cursor(MoveDirection::Right);
    s.move_cursor(MoveDirection::Right);
    assert_eq!(cursor(&s), (0, 2, 2));
    // Down to a shorter line snaps to its end.
    s.move_cursor(MoveDirection::Down);
    assert_eq!(cursor(&s), (1, 1, 5));
    // A tab is one step of four columns.
    s.move_cursor(MoveDirection::Down);
    assert_eq!(cursor(&s), (2, 4, 7));
    s.move_cursor(MoveDirection::Left);
    assert_eq!(cursor(&s), (2, 0, 6));
    s.move_cursor(MoveDirection::Down);
    assert_eq!(cursor(&s).0, 2);
    s.move_cursor(MoveDirection::Top);
    assert_eq!(cursor(&s), (0, 0, 0));
    s.move_cursor(MoveDirection::Bottom);
    assert_eq!(cursor(&s), (2, 0, 6));
}

#[test]
fn word_motions_follow_word_starts() {
    let mut s = session_with("let value = 1;\nnext");
    s.move_cursor(MoveDirection::NextWord);
    assert_eq!(cursor(&s), (0, 4, 4));
    s.move_cursor(MoveDirection::NextWordEnd);
    assert_eq!(cursor(&s), (0, 8, 8));
    s.move_cursor(MoveDirection::PrevWord);
    assert_eq!(cursor(&s), (0, 4, 4));
}

#[test]
fn line_motions_and_paging() {
    let mut s = session_with("    indented text\nb\nc\nd\ne\nf\ng\nh\ni\nj\nk\nl\n");
    s.line_motion(LineMotion::End);
    assert_eq!(cursor(&s).1, 17);
    s.line_motion(LineMotion::SmartHome);
    assert_eq!(cursor(&s).1, 4);
    s.line_motion(LineMotion::SmartHome);
    assert_eq!(cursor(&s).1, 0);
    s.line_motion(LineMotion::FirstNonWhitespace);
    assert_eq!(cursor(&s).1, 4);
    s.line_motion(LineMotion::Start);
    s.page_down();
    assert_eq!(cursor(&s).0, 9);
    s.page_down();
    assert_eq!(cursor(&s).0, 12);
    s.page_up();
    assert_eq!(cursor(&s).0, 3);
    s.goto_line(DocLine::new(100));
    assert_eq!(cursor(&s).0, 12);
    s.click_cursor(CursorPosition::new(DocLine::new(1), VisualCol::new(9)));
    assert_eq!(cursor(&s), (1, 1, 19));
    s.scroll_cursor(-5);
    assert_eq!(cursor(&s).0, 0);
    s.resize(6);
    assert_eq!(s.viewport_lines, 5);
}

#[test]
fn scrolling_the_view_pulls_the_cursor_along() {
    let mut s = session_with("0\n1\n2\n3\n4\n5\n6\n7\n8\n9\n10\n11\n12\n13\n14\n15\n16\n17\n18\n19\n");
    s.scroll_view(5);
    assert_eq!(s.scroll_y, 5);
    assert_eq!(cursor(&s).0, 5);
    s.scroll_view(-100);
    assert_eq!(s.scroll_y, 0);
    assert_eq!(cursor(&s).0, 5);
}

#[test]
fn typing_then_undo_restores_the_document() {
    let mut s = session_with("ab");
    s.move_cursor(MoveDirection::Right);
    s.insert_char('é');
    assert_eq!(text_of(&s), "aéb");
    assert_eq!(cursor(&s), (0, 3, 3));
    s.undo();
    assert_eq!(text_of(&s), "ab");
    assert_eq!(cursor(&s).2, 1);
    s.redo();
    assert_eq!(text_of(&s), "aéb");
    s.undo();
    s.undo();
    assert_eq!(s.status_message.as_deref(), Some("Already at oldest change"));
    s.redo();
    s.redo();
    assert_eq!(s.status_message.as_deref(), Some("Already at newest change"));
}

#[test]
fn backspace_removes_a_whole_character() {
    let mut s = session_with("xé");
    s.move_cursor(MoveDirection::Bottom);
    s.line_motion(LineMotion::End);
    assert_eq!(cursor(&s).2, 3);
    s.backspace();
    assert_eq!(text_of(&s), "x");
    s.backspace();
    s.backspace();
    assert_eq!(text_of(&s), "");
}

#[test]
fn delete_removes_the_character_under_the_cursor() {
    let mut s = session_with("é!");
    s.delete_char();
    assert_eq!(text_of(&s), "!");
    s.line_motion(LineMotion::End);
    s.delete_char();
    assert_eq!(text_of(&s), "!");
    let mut broken = EditorSession::new(5);
    broken.load_document("bin".to_string(), Some(vec![0xff, 0x41]));
    broken.delete_char();
    assert_eq!(broken.status_message.as_deref(), Some("Delete target is not valid UTF-8"));
    assert_eq!(broken.doc, vec![0xff, 0x41]);
}

#[test]
fn delete_to_line_end_keeps_the_newline() {
    let mut s = session_with("hello world\nnext");
    s.click_cursor(CursorPosition::new(DocLine::new(0), VisualCol::new(5)));
    s.delete_to_line_end();
    assert_eq!(text_of(&s), "hello\nnext");
    s.delete_to_line_end();
    assert_eq!(s.status_message.as_deref(), Some("Already at end of line"));
}

#[test]
fn yank_and_put_a_line() {
    let mut s = session_with("one\ntwo\n");
    assert_eq!(s.yank_line('a'), None);
    assert_eq!(s.register_text('"').as_deref(), Some("one\n"));
    assert_eq!(s.register_text('a').as_deref(), Some("one\n"));
    assert_eq!(s.yank_flash, Some((DocByte::new(0), DocByte::new(4))));
    assert_eq!(s.status_message.as_deref(), Some("4 bytes yanked"));
    s.clear_flash();
    assert_eq!(s.yank_flash, None);
    s.move_cursor(MoveDirection::Down);
    s.put('a', None);
    assert_eq!(text_of(&s), "one\ntwo\none\n");
    assert_eq!(cursor(&s), (2, 0, 8));
    assert_eq!(s.yank_line('+').as_deref(), Some("one\n"));
    s.put('z', None);
    assert_eq!(text_of(&s), "one\ntwo\none\none\n");
    s.put('+', Some("clip\n".to_string()));
    assert_eq!(text_of(&s), "one\ntwo\none\none\nclip\n");
    let mut empty = session_with("x");
    empty.put('q', None);
    assert_eq!(empty.status_message.as_deref(), Some("Register empty"));
}

#[test]
fn visual_selections_yank_and_delete() {
    let mut s = session_with("abcdef\nghij\n");
    s.set_visual(DocByte::new(1), VisualKind::Char);
    assert!(s.active_visual.is_some());
    s.click_cursor(CursorPosition::new(DocLine::new(0), VisualCol::new(3)));
    assert_eq!(s.visual_yank(DocByte::new(1), VisualKind::Char).as_deref(), Some("bcd"));
    assert!(s.active_visual.is_none());
    assert_eq!(s.status_message.as_deref(), Some("3 bytes yanked"));
    s.visual_delete(DocByte::new(1), VisualKind::Char, true);
    assert_eq!(text_of(&s), "aef\nghij\n");
    assert_eq!(s.register_text('"').as_deref(), Some("bcd"));
    assert!(s.mode_override.is_some());
    s.visual_delete(DocByte::new(5), VisualKind::Line, false);
    assert_eq!(text_of(&s), "");
    let mut empty = session_with("");
    empty.visual_delete(DocByte::new(0), VisualKind::Char, false);
    assert_eq!(empty.status_message.as_deref(), Some("Nothing selected"));
}

#[test]
fn search_finds_matches_and_wraps() {
    let mut s = session_with("foo bar\nbar foo\n");
    s.click_cursor(CursorPosition::new(DocLine::new(0), VisualCol::new(2)));
    s.search_start("foo".to_string());
    assert_eq!(s.search_matches.len(), 2);
    assert_eq!(s.search_match_index, Some(1));
    assert_eq!(cursor(&s), (1, 4, 12));
    assert_eq!(s.search_match_info.as_deref(), Some("[2/2]"));
    s.search_step(true);
    assert_eq!(s.search_match_info.as_deref(), Some("[1/2] (wrapped)"));
    assert_eq!(cursor(&s), (0, 0, 0));
    s.search_step(false);
    assert_eq!(s.search_match_info.as_deref(), Some("[2/2] (wrapped)"));
    s.search_start("zzz".to_string());
    assert_eq!(s.status_message.as_deref(), Some("Pattern not found"));
    s.search_step(true);
    assert_eq!(s.status_message.as_deref(), Some("No previous search"));
    s.search_start("(".to_string());
    assert!(s.status_message.as_deref().unwrap().starts_with("Invalid regex: "));
}

#[test]
fn substitute_all_replaces_every_match_as_one_change() {
    let mut s = session_with("a1 a2\na3\n");
    s.substitute_all(
        "a".to_string(),
        "bb".to_string(),
        SubstituteRange::WholeFile,
        SubstituteFlags::default(),
    );
    assert_eq!(text_of(&s), "bb1 bb2\nbb3\n");
    assert_eq!(s.status_message.as_deref(), Some("3 substitution(s)"));
    s.undo();
    assert_eq!(text_of(&s), "a1 a2\na3\n");
    s.substitute_all(
        "a".to_string(),
        "".to_string(),
        SubstituteRange::SingleLine(DocLine::new(1)),
        SubstituteFlags::default(),
    );
    assert_eq!(text_of(&s), "a1 a2\n3\n");
    s.substitute_all(
        "q".to_string(),
        "".to_string(),
        SubstituteRange::CurrentLine,
        SubstituteFlags::default(),
    );
    assert_eq!(s.status_message.as_deref(), Some("Pattern not found"));
}

#[test]
fn writes_report_their_target_and_outcome() {
    let mut s = EditorSession::new(10);
    assert_eq!(s.write_target(None), Err("No file to write".to_string()));
    s.load_document("a.txt".to_string(), None);
    assert_eq!(s.write_target(None), Ok("a.txt".to_string()));
    assert_eq!(s.write_target(Some("b.txt".to_string())), Ok("b.txt".to_string()));
    s.insert_char('x');
    assert!(s.ledger.is_dirty());
    assert!(s.write_finished("b.txt".to_string(), Ok(1), true, true));
    assert_eq!(s.status_message.as_deref(), Some("\"b.txt\" 1B written"));
    assert_eq!(s.file_path.as_deref(), Some("b.txt"));
    assert!(!s.ledger.is_dirty());
    assert!(!s.write_finished("b.txt".to_string(), Err("disk full".to_string()), false, true));
    assert_eq!(s.status_message.as_deref(), Some("disk full"));
}

#[test]
fn interactive_substitution_answers_yes_no_and_all() {
    let mut s = session_with("a1 a2 a3\n");
    s.substitute_confirm(
        "a".to_string(),
        "b".to_string(),
        SubstituteRange::WholeFile,
        SubstituteFlags::default(),
    );
    assert_eq!(s.status_message.as_deref(), Some("Replace? [y/n/a/q] (1/3)"));
    assert_eq!(s.search_matches.len(), 3);
    s.confirm_response(ConfirmAction::Yes);
    assert_eq!(text_of(&s), "b1 a2 a3\n");
    assert_eq!(s.status_message.as_deref(), Some("Replace? [y/n/a/q] (2/3)"));
    assert_eq!(cursor(&s), (0, 3, 3));
    s.confirm_response(ConfirmAction::No);
    assert_eq!(cursor(&s), (0, 6, 6));
    assert_eq!(s.status_message.as_deref(), Some("Replace? [y/n/a/q] (2/3)"));
    s.confirm_response(ConfirmAction::All);
    assert_eq!(text_of(&s), "b1 a2 b3\n");
    assert_eq!(s.status_message.as_deref(), Some("2 substitution(s)"));
    assert!(s.confirm_state.is_none());
    assert!(s.search_matches.is_empty());
    s.undo();
    assert_eq!(text_of(&s), "b1 a2 a3\n");
    s.undo();
    assert_eq!(text_of(&s), "a1 a2 a3\n");
}

#[test]
fn interactive_substitution_can_be_quit() {
    let mut s = session_with("xa\n");
    s.substitute_confirm(
        "a".to_string(),
        "".to_string(),
        SubstituteRange::CurrentLine,
        SubstituteFlags::default(),
    );
    s.confirm_response(ConfirmAction::Quit);
    assert_eq!(s.status_message.as_deref(), Some("0 substitution(s)"));
    assert!(s.confirm_state.is_none());
    assert_eq!(text_of(&s), "xa\n");
    // Without a substitution under way an answer changes nothing.
    s.confirm_response(ConfirmAction::Yes);
    assert_eq!(text_of(&s), "xa\n");
    s.substitute_confirm(
        "a".to_string(),
        "".to_string(),
        SubstituteRange::WholeFile,
        SubstituteFlags::default(),
    );
    s.confirm_response(ConfirmAction::Yes);
    assert_eq!(text_of(&s), "x\n");
    assert_eq!(s.status_message.as_deref(), Some("1 substitution(s)"));
}

#[test]
fn saving_then_editing_and_undoing_tracks_dirtiness() {
    let mut s = session_with("a");
    s.write_finished("doc.rs".to_string(), Ok(1), false, false);
    assert!(!s.ledger.is_dirty());
    s.insert_char('b');
    assert!(s.ledger.is_dirty());
    s.undo();
    assert!(!s.ledger.is_dirty());
    s.redo();
    assert!(s.ledger.is_dirty());
}

#[test]
fn theme_switches_are_reported() {
    let mut s = session_with("x");
    s.theme_applied("onedark".to_string(), Ok(()));
    assert_eq!(s.status_message.as_deref(), Some("Theme set to onedark"));
    s.theme_applied("nope".to_string(), Err("Unknown theme: nope".to_string()));
    assert_eq!(s.status_message.as_deref(), Some("Unknown theme: nope"));
}

#[test]
fn word_objects_delete_the_token_at_or_after_the_cursor() {
    let mut s = session_with("let value = 1;");
    s.click_cursor(CursorPosition::new(DocLine::new(0), VisualCol::new(5)));
    s.delete_inner_word(false);
    assert_eq!(text_of(&s), "let  = 1;");
    assert!(s.mode_override.is_none());
    let mut s = session_with("let value = 1;");
    s.click_cursor(CursorPosition::new(DocLine::new(0), VisualCol::new(3)));
    s.delete_inner_word(true);
    assert_eq!(text_of(&s), "let  = 1;");
    assert!(s.mode_override.is_some());
    let mut s = session_with("   ");
    s.delete_inner_word(false);
    assert_eq!(s.status_message.as_deref(), Some("No structural word at cursor"));
}

#[test]
fn word_objects_need_a_document_the_parser_can_take() {
    let mut text = String::from("fn f(){");
    text.push_str(&"(".repeat(300));
    let mut s = session_with(&text);
    s.delete_inner_word(false);
    assert_eq!(s.status_message.as_deref(), Some("No structural word at cursor"));
    assert_eq!(text_of(&s), text);
}
