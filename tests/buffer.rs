use hyperion::buffer::TextBuffer;

#[test]
fn test_new_buffer_has_one_line() {
    let buffer = TextBuffer::new();
    assert_eq!(buffer.line_count(), 1);
    assert_eq!(buffer.line_length(0), 0);
}

#[test]
fn test_insert_char() {
    let mut buffer = TextBuffer::new();
    buffer.insert_char(0, 0, 'h');
    buffer.insert_char(0, 1, 'i');

    assert_eq!(buffer.line(0), "hi");
}

#[test]
fn test_delete_char() {
    let mut buffer = TextBuffer::new();
    buffer.insert_char(0, 0, 'h');
    buffer.insert_char(0, 1, 'i');

    let deleted = buffer.delete_char(0, 2);
    assert!(deleted);
    assert_eq!(buffer.line(0), "h");
}

#[test]
fn test_split_line() {
    let mut buffer = TextBuffer::new();
    buffer.insert_char(0, 0, 'h');
    buffer.insert_char(0, 1, 'e');
    buffer.insert_char(0, 2, 'l');
    buffer.insert_char(0, 3, 'l');
    buffer.insert_char(0, 4, 'o');

    let (new_line, new_col) = buffer.split_line(0, 2);

    assert_eq!(buffer.line_count(), 2);
    assert_eq!(buffer.line(0), "he");
    assert_eq!(buffer.line(1), "llo");
    assert_eq!(new_line, 1);
    assert_eq!(new_col, 0);
}

#[test]
fn test_join_with_previous() {
    let mut buffer = TextBuffer::new();
    buffer.insert_char(0, 0, 'h');
    buffer.insert_char(0, 1, 'i');
    buffer.split_line(0, 2);
    buffer.insert_char(1, 0, 'b');
    buffer.insert_char(1, 1, 'y');

    let prev_len = buffer.join_with_previous(1);

    assert_eq!(buffer.line_count(), 1);
    assert_eq!(buffer.line(0), "hiby");
    assert_eq!(prev_len, 2);
}

#[test]
fn load_adds_final_newline_and_save_round_trips() {
    let buffer = TextBuffer::from_text("ab\ncd");
    assert_eq!(buffer.line_count(), 3);
    assert_eq!(buffer.line(0), "ab");
    assert_eq!(buffer.line(1), "cd");
    assert_eq!(buffer.line(2), "");
    assert_eq!(buffer.to_text(), "ab\ncd\n");

    let again = TextBuffer::from_text(&buffer.to_text());
    assert_eq!(again.to_text(), "ab\ncd\n");
    assert_eq!(again.iter_lines(), buffer.iter_lines());
}

#[test]
fn load_keeps_existing_final_newline() {
    let buffer = TextBuffer::from_text("x\n");
    assert_eq!(buffer.to_text(), "x\n");
    assert_eq!(buffer.line_count(), 2);
}

#[test]
fn load_empty_text_gives_newline() {
    let buffer = TextBuffer::from_text("");
    assert_eq!(buffer.to_text(), "\n");
    assert_eq!(buffer.line_count(), 2);
    assert_eq!(buffer.line_length(0), 0);
}

#[test]
fn lines_are_counted_in_chars_not_bytes() {
    let buffer = TextBuffer::from_text("ñandú\r\nb");
    assert_eq!(buffer.line_length(0), 6);
    assert_eq!(buffer.line(0), "ñandú\r");
    assert_eq!(buffer.line_length(1), 1);
}

#[test]
fn insert_char_clamps_column_to_line_end() {
    let mut buffer = TextBuffer::from_text("ab");
    buffer.insert_char(0, 99, 'é');
    assert_eq!(buffer.line(0), "abé");
    buffer.insert_char(0, 1, 'x');
    assert_eq!(buffer.line(0), "axbé");
}

#[test]
fn insert_newline_char_cuts_line() {
    let mut buffer = TextBuffer::from_text("abc");
    buffer.insert_char(0, 1, '\n');
    assert_eq!(buffer.line(0), "a");
    assert_eq!(buffer.line(1), "bc");
}

#[test]
fn insert_str_with_line_breaks_adds_lines() {
    let mut buffer = TextBuffer::from_text("hello");
    buffer.insert_str(0, 2, "X\nY\nZ");
    assert_eq!(buffer.line_count(), 4);
    assert_eq!(buffer.line(0), "heX");
    assert_eq!(buffer.line(1), "Y");
    assert_eq!(buffer.line(2), "Zllo");
}

#[test]
fn delete_char_refuses_column_zero_and_past_end() {
    let mut buffer = TextBuffer::from_text("ab");
    assert!(!buffer.delete_char(0, 0));
    assert!(!buffer.delete_char(0, 3));
    assert_eq!(buffer.line(0), "ab");
    assert!(buffer.delete_char(0, 1));
    assert_eq!(buffer.line(0), "b");
}

#[test]
fn join_first_line_is_no_op() {
    let mut buffer = TextBuffer::from_text("a\nb");
    assert_eq!(buffer.join_with_previous(0), 0);
    assert_eq!(buffer.line_count(), 3);
}

#[test]
fn split_then_join_restores_line() {
    let mut buffer = TextBuffer::from_text("hello world");
    let (line, col) = buffer.split_line(0, 50);
    assert_eq!((line, col), (1, 0));
    assert_eq!(buffer.line(0), "hello world");
    assert_eq!(buffer.line(1), "");
    let prev = buffer.join_with_previous(1);
    assert_eq!(prev, 11);
    assert_eq!(buffer.line(0), "hello world");

    buffer.split_line(0, 5);
    buffer.join_with_previous(1);
    assert_eq!(buffer.line(0), "hello world");
    assert_eq!(buffer.line_length(0), 11);
}

#[test]
fn clamp_column_and_valid_lines() {
    let buffer = TextBuffer::from_text("abc");
    assert_eq!(buffer.clamp_column(0, 10), 3);
    assert_eq!(buffer.clamp_column(0, buffer.clamp_column(0, 10)), 3);
    assert_eq!(buffer.clamp_column(0, 2), 2);
    assert!(buffer.is_valid_line(1));
    assert!(!buffer.is_valid_line(2));
}

#[test]
fn default_buffer_is_empty() {
    let buffer = TextBuffer::default();
    assert_eq!(buffer.line_count(), 1);
    assert_eq!(buffer.to_text(), "");
}
