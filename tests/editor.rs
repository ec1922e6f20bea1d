use hyperion::editor::{Editor, StatusMessage};

fn editor_with(text: &str) -> Editor {
    let mut editor = Editor::new(80, 24);
    editor.load_document("doc.txt", text);
    editor
}

#[test]
fn new_editor_is_empty() {
    let editor = Editor::new(80, 24);
    assert_eq!(editor.buffer().line_count(), 1);
    assert_eq!(editor.buffer().line_length(0), 0);
    assert_eq!(editor.cursor_position(), (0, 0));
    assert_eq!(editor.state_msg, StatusMessage::Default);
    assert_eq!(editor.filename, None);
}

#[test]
fn go_to_missing_line_is_refused() {
    let mut editor = editor_with("one\ntwo");
    editor.move_right();
    editor.go_to_line((7, 0));
    assert_eq!(editor.cursor_position(), (0, 1));
    assert_eq!(
        editor.state_msg,
        StatusMessage::LineMissing { line_index: 7, line_count: 3 }
    );
}

#[test]
fn go_to_line_clamps_column() {
    let mut editor = editor_with("one\ntwo");
    editor.go_to_line((1, 9));
    assert_eq!(editor.cursor_position(), (1, 3));
    assert_eq!(
        editor.state_msg,
        StatusMessage::ColumnOutOfRange { column_index: 9, line_length: 3 }
    );
    editor.go_to_line((0, 1));
    assert_eq!(editor.cursor_position(), (0, 1));
    assert_eq!(
        editor.state_msg,
        StatusMessage::PositionedAt { line_index: 0, column_index: 1 }
    );
}

#[test]
fn typing_and_backspace() {
    let mut editor = Editor::new(80, 24);
    editor.insert_char('h');
    editor.insert_char('i');
    assert_eq!(editor.buffer().line(0), "hi");
    assert_eq!(editor.cursor_position(), (0, 2));
    editor.new_line();
    assert_eq!(editor.cursor_position(), (1, 0));
    editor.insert_char('x');
    editor.delete_char();
    assert_eq!(editor.cursor_position(), (1, 0));
    editor.delete_char();
    assert_eq!(editor.cursor_position(), (0, 2));
    assert_eq!(editor.buffer().line_count(), 1);
    editor.delete_char();
    assert_eq!(editor.buffer().line(0), "h");
    editor.insert_char('\n');
    assert_eq!(editor.cursor_position(), (1, 0));
    assert_eq!(editor.buffer().line_count(), 2);
}

#[test]
fn vertical_moves_clamp_column() {
    let mut editor = editor_with("long line\nab\nlonger line");
    editor.go_to_line((0, 8));
    editor.move_down();
    assert_eq!(editor.cursor_position(), (1, 2));
    editor.move_down();
    assert_eq!(editor.cursor_position(), (2, 2));
    editor.move_up();
    editor.move_up();
    assert_eq!(editor.cursor_position(), (0, 2));
    editor.move_up();
    assert_eq!(editor.cursor_position(), (0, 2));
}

#[test]
fn horizontal_moves_wrap_lines() {
    let mut editor = editor_with("ab\nc");
    editor.move_left();
    assert_eq!(editor.cursor_position(), (0, 0));
    editor.move_right();
    editor.move_right();
    editor.move_right();
    assert_eq!(editor.cursor_position(), (1, 0));
    editor.move_left();
    assert_eq!(editor.cursor_position(), (0, 2));
}

#[test]
fn search_moves_cursor_and_cycles() {
    let mut editor = editor_with("xa\nbab");
    editor.search("b");
    assert_eq!(editor.cursor_position(), (1, 0));
    assert_eq!(
        editor.state_msg,
        StatusMessage::MatchesFound { count: 2, query: "b".to_string() }
    );
    editor.next_match();
    assert_eq!(editor.cursor_position(), (1, 2));
    assert_eq!(
        editor.state_msg,
        StatusMessage::MatchPosition { index: 1, total: 2, query: "b".to_string() }
    );
    editor.next_match();
    assert_eq!(editor.cursor_position(), (1, 0));
    editor.previous_match();
    assert_eq!(editor.cursor_position(), (1, 2));
}

#[test]
fn search_without_match_and_cancel() {
    let mut editor = editor_with("abc");
    editor.search("zz");
    assert_eq!(editor.state_msg, StatusMessage::NotFound("zz".to_string()));
    editor.next_match();
    assert_eq!(editor.state_msg, StatusMessage::NoActiveSearch);
    editor.search("");
    assert_eq!(editor.state_msg, StatusMessage::SearchCancelled);
    assert!(!editor.search_state().is_active());
}

#[test]
fn copy_and_paste_lines() {
    let mut editor = editor_with("ab");
    editor.paste_clipboard();
    assert_eq!(editor.state_msg, StatusMessage::EmptyClipboard);
    editor.copy_line();
    assert_eq!(editor.state_msg, StatusMessage::LineCopied);
    assert_eq!(editor.clipboard(), "ab");
    editor.move_right();
    editor.paste_clipboard();
    assert_eq!(editor.buffer().line(0), "aabb");
    assert_eq!(editor.cursor_position(), (0, 3));
    editor.move_down();
    editor.copy_line();
    assert_eq!(editor.state_msg, StatusMessage::EmptyLineCopied);
}

#[test]
fn paste_with_line_breaks_moves_to_end_of_paste() {
    let mut editor = editor_with("hello\nxy\nz");
    editor.go_to_line((1, 0));
    editor.copy_line();
    editor.go_to_line((2, 0));
    editor.insert_char('\n');
    editor.go_to_line((1, 1));
    editor.copy_line();
    editor.insert_char('\n');
    editor.delete_char();
    editor.paste_clipboard();
    assert_eq!(editor.buffer().line(1), "xxyy");
    assert_eq!(editor.cursor_position(), (1, 3));
}

#[test]
fn adjust_scroll_reveals_cursor() {
    let mut editor = Editor::new(20, 7);
    let text: String = (0..30).map(|i| format!("line {}\n", i)).collect();
    editor.load_document("f", &text);
    editor.go_to_line((12, 0));
    editor.adjust_scroll();
    assert_eq!(editor.scroll_offsets(), (8, 0));
    editor.go_to_line((3, 0));
    editor.adjust_scroll();
    assert_eq!(editor.scroll_offsets(), (3, 0));
}

#[test]
fn adjust_scroll_horizontal() {
    let mut editor = Editor::new(10, 24);
    editor.load_document("f", "0123456789abcdef");
    editor.go_to_line((0, 12));
    editor.adjust_scroll();
    // two lines -> gutter 3, seven text columns
    assert_eq!(editor.scroll_offsets(), (0, 6));
    editor.go_to_line((0, 2));
    editor.adjust_scroll();
    assert_eq!(editor.scroll_offsets(), (0, 2));
}

#[test]
fn narrow_window_disables_horizontal_scroll() {
    let mut editor = Editor::new(2, 24);
    editor.load_document("f", "abcdef");
    editor.go_to_line((0, 5));
    editor.adjust_scroll();
    assert_eq!(editor.scroll_offsets(), (0, 0));
}

#[test]
fn resize_pulls_offsets_back() {
    let mut editor = Editor::new(80, 7);
    let text: String = (0..10).map(|i| format!("{}\n", i)).collect();
    editor.load_document("f", &text);
    editor.go_to_line((10, 0));
    editor.adjust_scroll();
    assert_eq!(editor.scroll_offsets(), (6, 0));
    editor.update_window_size(80, 40);
    assert_eq!(editor.window_size(), (80, 40));
    assert_eq!(editor.scroll_offsets(), (0, 0));
}

#[test]
fn load_and_save_document_text() {
    let mut editor = editor_with("a\nb");
    assert_eq!(editor.document_text(), "a\nb\n");
    assert_eq!(editor.state_msg, StatusMessage::FileLoaded("doc.txt".to_string()));
    editor.mark_saved("out.txt");
    assert_eq!(editor.filename, Some("out.txt".to_string()));
    assert_eq!(editor.state_msg, StatusMessage::FileSaved("out.txt".to_string()));
}

#[test]
fn visible_line_range_follows_window() {
    let mut editor = Editor::new(80, 5);
    let text: String = (0..10).map(|i| format!("{}\n", i)).collect();
    editor.load_document("f", &text);
    assert_eq!(editor.visible_line_range(), Some((0, 3)));
    editor.go_to_line((9, 0));
    editor.adjust_scroll();
    assert_eq!(editor.visible_line_range(), Some((7, 10)));
    editor.go_to_line((10, 0));
    editor.adjust_scroll();
    assert_eq!(editor.visible_line_range(), Some((8, 11)));
    editor.update_window_size(80, 2);
    assert_eq!(editor.visible_line_range(), None);
    editor.update_window_size(0, 30);
    assert_eq!(editor.visible_line_range(), None);
}
