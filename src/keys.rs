//! Key presses as the editor sees them, and what each one asks for.

use vstd::prelude::*;

verus! {

/// A key, as far as the editor tells keys apart.
#[derive(Clone, Copy, Debug, PartialEq, Eq, Structural)]
pub enum Key {
    Char(char),
    Enter,
    Backspace,
    Up,
    Down,
    Left,
    Right,
    /// Any other key.
    Other,
}

/// A key press: the key, and whether Ctrl was held.
#[derive(Clone, Copy, Debug, PartialEq, Eq, Structural)]
pub struct KeyPress {
    pub code: Key,
    pub ctrl: bool,
}

/// What a key press asks the editor to do.
#[derive(Clone, Copy, Debug, PartialEq, Eq, Structural)]
pub enum Command {
    Quit,
    Save,
    Open,
    Search,
    NextMatch,
    PreviousMatch,
    GoToLine,
    MoveUp,
    MoveDown,
    MoveLeft,
    MoveRight,
    NewLine,
    DeleteChar,
    Insert(char),
    Ignore,
}

/// Ctrl held with the letter `c`.
pub open spec fn is_ctrl_with(key: KeyPress, c: char) -> bool {
    key.code == Key::Char(c) && key.ctrl
}

fn ctrl_with(key: &KeyPress, c: char) -> (r: bool)
    ensures
        r == is_ctrl_with(*key, c),
{
    key.code == Key::Char(c) && key.ctrl
}

/// Ctrl+Q.
pub fn is_quit(key: &KeyPress) -> (r: bool)
    ensures
        r == is_ctrl_with(*key, 'q'),
{
    ctrl_with(key, 'q')
}

/// Ctrl+S.
pub fn is_save(key: &KeyPress) -> (r: bool)
    ensures
        r == is_ctrl_with(*key, 's'),
{
    ctrl_with(key, 's')
}

/// Ctrl+O.
pub fn is_open(key: &KeyPress) -> (r: bool)
    ensures
        r == is_ctrl_with(*key, 'o'),
{
    ctrl_with(key, 'o')
}

/// Ctrl+F.
pub fn is_search(key: &KeyPress) -> (r: bool)
    ensures
        r == is_ctrl_with(*key, 'f'),
{
    ctrl_with(key, 'f')
}

/// Ctrl+N.
pub fn is_next_match(key: &KeyPress) -> (r: bool)
    ensures
        r == is_ctrl_with(*key, 'n'),
{
    ctrl_with(key, 'n')
}

/// Ctrl+P.
pub fn is_prev_match(key: &KeyPress) -> (r: bool)
    ensures
        r == is_ctrl_with(*key, 'p'),
{
    ctrl_with(key, 'p')
}

/// Ctrl+G.
pub fn is_goto_line(key: &KeyPress) -> (r: bool)
    ensures
        r == is_ctrl_with(*key, 'g'),
{
    ctrl_with(key, 'g')
}

/// The command a key press asks for.
pub open spec fn command_spec(key: KeyPress) -> Command {
    if is_ctrl_with(key, 'q') {
        Command::Quit
    } else if is_ctrl_with(key, 's') {
        Command::Save
    } else if is_ctrl_with(key, 'o') {
        Command::Open
    } else if is_ctrl_with(key, 'f') {
        Command::Search
    } else if is_ctrl_with(key, 'n') {
        Command::NextMatch
    } else if is_ctrl_with(key, 'p') {
        Command::PreviousMatch
    } else if is_ctrl_with(key, 'g') {
        Command::GoToLine
    } else {
        match key.code {
            Key::Up => Command::MoveUp,
            Key::Down => Command::MoveDown,
            Key::Left => Command::MoveLeft,
            Key::Right => Command::MoveRight,
            Key::Enter => Command::NewLine,
            Key::Char(c) => if key.ctrl {
                Command::Ignore
            } else if c == '\n' {
                Command::NewLine
            } else {
                Command::Insert(c)
            },
            Key::Backspace => Command::DeleteChar,
            Key::Other => Command::Ignore,
        }
    }
}

/// Ctrl with Q, S, O, F, N, P or G names a command; the arrows move; Enter
/// cuts the line; Backspace deletes; a char typed without Ctrl is inserted;
/// anything else is ignored.
pub fn command_for(key: &KeyPress) -> (r: Command)
    ensures
        r == command_spec(*key),
{
    if is_quit(key) {
        Command::Quit
    } else if is_save(key) {
        Command::Save
    } else if is_open(key) {
        Command::Open
    } else if is_search(key) {
        Command::Search
    } else if is_next_match(key) {
        Command::NextMatch
    } else if is_prev_match(key) {
        Command::PreviousMatch
    } else if is_goto_line(key) {
        Command::GoToLine
    } else {
        match key.code {
            Key::Up => Command::MoveUp,
            Key::Down => Command::MoveDown,
            Key::Left => Command::MoveLeft,
            Key::Right => Command::MoveRight,
            Key::Enter => Command::NewLine,
            Key::Char(c) => if key.ctrl {
                Command::Ignore
            } else if c == '\n' {
                Command::NewLine
            } else {
                Command::Insert(c)
            },
            Key::Backspace => Command::DeleteChar,
            Key::Other => Command::Ignore,
        }
    }
}

/// What the terminal shows for one key typed at a prompt.
#[derive(Clone, Copy, Debug, PartialEq, Eq, Structural)]
pub enum PromptAction {
    /// The entry is done.
    Submit,
    /// The char was added: echo it.
    Echo(char),
    /// The last char was taken out: erase it on screen.
    Erase,
    /// Nothing changed.
    Nothing,
}

/// The text typed so far at a prompt.
pub struct PromptInput {
    chars: Vec<char>,
}

impl View for PromptInput {
    type V = Seq<char>;

    closed spec fn view(&self) -> Seq<char> {
        self.chars@
    }
}

impl PromptInput {
    pub fn new() -> (r: Self)
        ensures
            r@ == Seq::<char>::empty(),
    {
        PromptInput { chars: Vec::new() }
    }

    /// Takes one key: Enter submits, a char is added, Backspace takes the
    /// last char out if there is one; other keys do nothing.
    pub fn handle_key(&mut self, key: Key) -> (r: PromptAction)
        ensures
            key == Key::Enter ==> r == PromptAction::Submit && final(self)@ == old(self)@,
            key matches Key::Char(c) ==> r == PromptAction::Echo(c) && final(self)@ == old(
                self,
            )@.push(c),
            key == Key::Backspace ==> if old(self)@.len() > 0 {
                r == PromptAction::Erase && final(self)@ == old(self)@.drop_last()
            } else {
                r == PromptAction::Nothing && final(self)@ == old(self)@
            },
            !(key == Key::Enter || key == Key::Backspace || key is Char) ==> r
                == PromptAction::Nothing && final(self)@ == old(self)@,
    {
        match key {
            Key::Enter => PromptAction::Submit,
            Key::Char(c) => {
                self.chars.push(c);
                PromptAction::Echo(c)
            },
            Key::Backspace => {
                if self.chars.len() > 0 {
                    self.chars.pop();
                    PromptAction::Erase
                } else {
                    PromptAction::Nothing
                }
            },
            _ => PromptAction::Nothing,
        }
    }

    /// The chars typed so far.
    pub fn chars(&self) -> (r: &[char])
        ensures
            r@ == self@,
    {
        self.chars.as_slice()
    }
}

} // verus!
