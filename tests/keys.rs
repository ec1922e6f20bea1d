use hyperion::keys::{
    command_for, is_goto_line, is_next_match, is_open, is_prev_match, is_quit, is_save,
    is_search, Command, Key, KeyPress, PromptAction, PromptInput,
};

fn ctrl(c: char) -> KeyPress {
    KeyPress { code: Key::Char(c), ctrl: true }
}

fn plain(code: Key) -> KeyPress {
    KeyPress { code, ctrl: false }
}

#[test]
fn control_key_predicates() {
    assert!(is_quit(&ctrl('q')));
    assert!(!is_quit(&plain(Key::Char('q'))));
    assert!(is_save(&ctrl('s')));
    assert!(is_open(&ctrl('o')));
    assert!(is_search(&ctrl('f')));
    assert!(is_next_match(&ctrl('n')));
    assert!(is_prev_match(&ctrl('p')));
    assert!(is_goto_line(&ctrl('g')));
    assert!(!is_goto_line(&ctrl('h')));
}

#[test]
fn keys_map_to_commands() {
    assert_eq!(command_for(&ctrl('q')), Command::Quit);
    assert_eq!(command_for(&ctrl('s')), Command::Save);
    assert_eq!(command_for(&ctrl('g')), Command::GoToLine);
    assert_eq!(command_for(&ctrl('x')), Command::Ignore);
    assert_eq!(command_for(&plain(Key::Char('x'))), Command::Insert('x'));
    assert_eq!(command_for(&plain(Key::Char('\n'))), Command::NewLine);
    assert_eq!(command_for(&plain(Key::Enter)), Command::NewLine);
    assert_eq!(command_for(&plain(Key::Backspace)), Command::DeleteChar);
    assert_eq!(command_for(&plain(Key::Up)), Command::MoveUp);
    assert_eq!(command_for(&plain(Key::Right)), Command::MoveRight);
    assert_eq!(command_for(&plain(Key::Other)), Command::Ignore);
}

#[test]
fn prompt_collects_typed_chars() {
    let mut input = PromptInput::new();
    assert_eq!(input.handle_key(Key::Backspace), PromptAction::Nothing);
    assert_eq!(input.handle_key(Key::Char('a')), PromptAction::Echo('a'));
    assert_eq!(input.handle_key(Key::Char('ñ')), PromptAction::Echo('ñ'));
    assert_eq!(input.handle_key(Key::Char('c')), PromptAction::Echo('c'));
    assert_eq!(input.handle_key(Key::Backspace), PromptAction::Erase);
    assert_eq!(input.handle_key(Key::Up), PromptAction::Nothing);
    assert_eq!(input.handle_key(Key::Enter), PromptAction::Submit);
    assert_eq!(input.chars(), &['a', 'ñ']);
}
