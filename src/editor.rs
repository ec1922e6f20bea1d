//! The editor: one document, one cursor, a viewport over the document, a
//! search, a one-line clipboard, and the status message that the last
//! command left for the user.

use crate::buffer::{insert_at, join_at, split_line_at, TextBuffer};
use crate::search::{all_matches, line_views, next_index, previous_index, Match, SearchState};
use crate::text::{
    chars_of, clamp, has_no_newline, lemma_split_nonempty, lemma_split_surround, split_lines,
};
use crate::ui::{calculate_line_number_width, gutter_width, saturating_diff};
use vstd::prelude::*;

verus! {

/// What the last command has to tell the user. Line and column numbers are
/// the zero-based indices; they are shown to the user counted from 1.
#[derive(Clone, Debug, PartialEq, Eq)]
pub enum StatusMessage {
    /// The key help shown when nothing else is to be said.
    Default,
    FileLoaded(String),
    FileSaved(String),
    /// Reading the file failed; the words of the failure.
    OpenFailed(String),
    /// Writing the file failed; the words of the failure.
    SaveFailed(String),
    SaveCancelled,
    OpenCancelled,
    SearchCancelled,
    MatchesFound { count: usize, query: String },
    NotFound(String),
    /// Match `index` of `total` is current.
    MatchPosition { index: usize, total: usize, query: String },
    NoActiveSearch,
    /// A go-to asked for line `line_index`; the document has `line_count` lines.
    LineMissing { line_index: usize, line_count: usize },
    /// A go-to asked for a column past the end of a line of `line_length` chars.
    ColumnOutOfRange { column_index: usize, line_length: usize },
    PositionedAt { line_index: usize, column_index: usize },
    /// A go-to entry that is not `line,column`.
    InvalidFormat,
    /// A go-to entry whose parts are not numbers.
    InvalidNumbers,
    /// A go-to entry with a line or column 0.
    LinesStartAtOne,
    EmptyLineCopied,
    LineCopied,
    EmptyClipboard,
}

/// `min(line, count - 1)`: a line index clamped to a document of `count` lines.
pub open spec fn clamp_line(line: int, count: int) -> int {
    if line < count {
        line
    } else {
        count - 1
    }
}

/// The rows left for text in a window `height` rows high: two are kept for
/// the status bar and the message line; at least one row is counted.
pub open spec fn visible_rows(height: int) -> int {
    if height > 2 {
        height - 2
    } else {
        1
    }
}

/// The columns left for text in a window `width` columns wide, once the
/// gutter of a document of `line_count` lines is drawn.
pub open spec fn visible_cols(width: int, line_count: nat) -> int {
    saturating_diff(width, gutter_width(line_count) as int)
}

/// The smallest move of `offset` that brings `pos` into the `visible`
/// positions that start at `offset`.
pub open spec fn scroll_into_view(pos: int, offset: int, visible: int) -> int {
    if pos < offset {
        pos
    } else if pos >= offset + visible {
        pos - visible + 1
    } else {
        offset
    }
}

/// An offset pulled down to the cursor position and to `max_offset`.
pub open spec fn clamp_offset(offset: int, pos: int, max_offset: int) -> int {
    let o = if offset > pos {
        pos
    } else {
        offset
    };
    if o > max_offset {
        max_offset
    } else {
        o
    }
}

/// Where the cursor lands after a paste of `clip` at column `col` of line
/// `line`: just after the pasted text.
pub open spec fn cursor_after_paste(line: int, col: int, clip: Seq<char>) -> (int, int) {
    let pieces = split_lines(clip);
    if pieces.len() == 1 {
        (line, col + clip.len())
    } else {
        (line + pieces.len() - 1, pieces.last().len() as int)
    }
}

/// Where the cursor goes to show match `m`: its line and start column,
/// clamped to the document.
pub open spec fn match_cursor(ls: Seq<Seq<char>>, m: Match) -> (int, int) {
    let y = clamp_line(m.line as int, ls.len() as int);
    (y, clamp(m.start_col as int, ls[y].len() as int))
}

/// The text of an optional query; nothing when there is none.
pub open spec fn query_text(q: Option<Seq<char>>) -> Seq<char> {
    match q {
        Some(s) => s,
        None => Seq::<char>::empty(),
    }
}

pub struct Editor {
    buffer: TextBuffer,
    cursor_x: usize,
    cursor_y: usize,
    /// The file the document was loaded from or saved to.
    pub filename: Option<String>,
    pub state_msg: StatusMessage,
    window_sizes: (u16, u16),
    offset_row: usize,
    offset_col: usize,
    search: SearchState,
    clipboard: String,
}

impl Editor {
    /// The lines of the document.
    pub closed spec fn lines(&self) -> Seq<Seq<char>> {
        self.buffer@
    }

    /// The cursor's line index.
    pub closed spec fn cursor_line(&self) -> usize {
        self.cursor_y
    }

    /// The cursor's column.
    pub closed spec fn cursor_col(&self) -> usize {
        self.cursor_x
    }

    /// The first line and first column that the viewport shows.
    pub closed spec fn offsets(&self) -> (usize, usize) {
        (self.offset_row, self.offset_col)
    }

    /// The last known width and height of the window.
    pub closed spec fn window(&self) -> (u16, u16) {
        self.window_sizes
    }

    pub closed spec fn search_view(&self) -> SearchState {
        self.search
    }

    pub closed spec fn clipboard_view(&self) -> Seq<char> {
        self.clipboard@
    }

    /// The message left by the last command.
    pub closed spec fn status(&self) -> StatusMessage {
        self.state_msg
    }

    /// The name of the file the document belongs to.
    pub closed spec fn file_name(&self) -> Option<String> {
        self.filename
    }

    /// The cursor stands on a line of the document, at most just past its
    /// last char, and the search state is consistent.
    pub open spec fn wf(&self) -> bool {
        &&& self.cursor_line() < self.lines().len()
        &&& self.cursor_col() <= self.lines()[self.cursor_line() as int].len()
        &&& self.search_view().wf()
    }

    /// The viewport, window, search, clipboard and file name are those of `before`.
    pub open spec fn same_settings(&self, before: &Self) -> bool {
        &&& self.offsets() == before.offsets()
        &&& self.window() == before.window()
        &&& self.search_view() == before.search_view()
        &&& self.clipboard_view() == before.clipboard_view()
        &&& self.file_name() == before.file_name()
    }

    /// The document, cursor, search, clipboard, file name and message are
    /// those of `before`.
    pub open spec fn same_content(&self, before: &Self) -> bool {
        &&& self.lines() == before.lines()
        &&& self.cursor_line() == before.cursor_line()
        &&& self.cursor_col() == before.cursor_col()
        &&& self.search_view() == before.search_view()
        &&& self.clipboard_view() == before.clipboard_view()
        &&& self.file_name() == before.file_name()
        &&& self.status() == before.status()
    }

    /// The cursor stands on match `i` and the message gives its position.
    pub open spec fn shows_match(&self, i: int) -> bool {
        let ms = self.search_view().matches_view();
        let at = match_cursor(self.lines(), ms[i]);
        &&& self.cursor_line() == at.0
        &&& self.cursor_col() == at.1
        &&& self.status() matches StatusMessage::MatchPosition { index, total, query }
            && index == i && total == ms.len() && query@ == query_text(
            self.search_view().query_view(),
        )
    }

    /// The viewport, window, clipboard and file name are those of `before`.
    pub open spec fn same_settings_but_search(&self, before: &Self) -> bool {
        &&& self.offsets() == before.offsets()
        &&& self.window() == before.window()
        &&& self.clipboard_view() == before.clipboard_view()
        &&& self.file_name() == before.file_name()
    }

    /// Only the cursor differs from `before`.
    pub open spec fn moved_from(&self, before: &Self) -> bool {
        &&& self.same_settings(before)
        &&& self.lines() == before.lines()
        &&& self.status() == before.status()
    }

    /// An empty document in a window `width` columns wide and `height` rows
    /// high, the cursor at its start, nothing searched, nothing copied.
    pub fn new(width: u16, height: u16) -> (r: Self)
        ensures
            r.wf(),
            r.lines() == seq![Seq::<char>::empty()],
            r.cursor_line() == 0,
            r.cursor_col() == 0,
            r.offsets() == (0usize, 0usize),
            r.window() == (width, height),
            r.file_name() is None,
            r.status() == StatusMessage::Default,
            r.search_view().query_view() is None,
            r.search_view().matches_view().len() == 0,
            r.clipboard_view().len() == 0,
    {
        Editor {
            buffer: TextBuffer::new(),
            cursor_x: 0,
            cursor_y: 0,
            filename: None,
            state_msg: StatusMessage::Default,
            window_sizes: (width, height),
            offset_row: 0,
            offset_col: 0,
            search: SearchState::new(),
            clipboard: String::new(),
        }
    }

    /// The cursor's line index and column.
    pub fn cursor_position(&self) -> (r: (usize, usize))
        ensures
            r.0 == self.cursor_line(),
            r.1 == self.cursor_col(),
    {
        (self.cursor_y, self.cursor_x)
    }

    /// The first line and first column that the viewport shows.
    pub fn scroll_offsets(&self) -> (r: (usize, usize))
        ensures
            r == self.offsets(),
    {
        (self.offset_row, self.offset_col)
    }

    pub fn window_size(&self) -> (r: (u16, u16))
        ensures
            r == self.window(),
    {
        self.window_sizes
    }

    pub fn buffer(&self) -> (r: &TextBuffer)
        ensures
            r@ == self.lines(),
    {
        &self.buffer
    }

    pub fn search_state(&self) -> (r: &SearchState)
        ensures
            *r == self.search_view(),
    {
        &self.search
    }

    pub fn clipboard(&self) -> (r: &String)
        ensures
            r@ == self.clipboard_view(),
    {
        &self.clipboard
    }

    /// Replaces the document by `content`, read from the file `path`: the
    /// cursor and the viewport go back to the start.
    pub fn load_document(&mut self, path: &str, content: &str)
        requires
            old(self).wf(),
        ensures
            final(self).wf(),
            final(self).lines() == TextBuffer::from_text_view(content@),
            final(self).cursor_line() == 0,
            final(self).cursor_col() == 0,
            final(self).offsets() == (0usize, 0usize),
            final(self).file_name() matches Some(f) && f@ == path@,
            final(self).status() matches StatusMessage::FileLoaded(f) && f@ == path@,
            final(self).window() == old(self).window(),
            final(self).search_view() == old(self).search_view(),
            final(self).clipboard_view() == old(self).clipboard_view(),
    {
        self.buffer = TextBuffer::from_text(content);
        proof {
            self.buffer.lemma_well_formed();
        }
        self.filename = Some(path.to_owned());
        self.cursor_x = 0;
        self.cursor_y = 0;
        self.offset_row = 0;
        self.offset_col = 0;
        self.state_msg = StatusMessage::FileLoaded(path.to_owned());
    }

    /// The document as the text to write to a file.
    pub fn document_text(&self) -> (r: String)
        ensures
            r@ == crate::text::join_lines(self.lines()),
    {
        self.buffer.to_text()
    }

    /// Records that the document was written to the file `path`.
    pub fn mark_saved(&mut self, path: &str)
        ensures
            final(self).file_name() matches Some(f) && f@ == path@,
            final(self).status() matches StatusMessage::FileSaved(f) && f@ == path@,
            final(self).lines() == old(self).lines(),
            final(self).cursor_line() == old(self).cursor_line(),
            final(self).cursor_col() == old(self).cursor_col(),
            final(self).offsets() == old(self).offsets(),
            final(self).window() == old(self).window(),
            final(self).search_view() == old(self).search_view(),
            final(self).clipboard_view() == old(self).clipboard_view(),
    {
        self.filename = Some(path.to_owned());
        self.state_msg = StatusMessage::FileSaved(path.to_owned());
    }

    /// Types `c` at the cursor, which moves just past it. A `'\n'` cuts the
    /// line there, as `new_line` does.
    pub fn insert_char(&mut self, c: char)
        requires
            old(self).wf(),
        ensures
            final(self).wf(),
            final(self).same_settings(old(self)),
            final(self).status() == old(self).status(),
            c != '\n' ==> {
                &&& final(self).lines() == old(self).lines().update(
                    old(self).cursor_line() as int,
                    old(self).lines()[old(self).cursor_line() as int].insert(
                        old(self).cursor_col() as int,
                        c,
                    ),
                )
                &&& final(self).cursor_line() == old(self).cursor_line()
                &&& final(self).cursor_col() == old(self).cursor_col() + 1
            },
            c == '\n' ==> {
                &&& final(self).lines() == split_line_at(
                    old(self).lines(),
                    old(self).cursor_line() as int,
                    old(self).cursor_col() as int,
                )
                &&& final(self).cursor_line() == old(self).cursor_line() + 1
                &&& final(self).cursor_col() == 0
            },
    {
        if c == '\n' {
            self.new_line();
            return ;
        }
        self.buffer.insert_char(self.cursor_y, self.cursor_x, c);
        // The grown line's length is a usize, so the next column fits in one.
        let _len = self.buffer.line_length(self.cursor_y);
        self.cursor_x += 1;
    }

    /// Cuts the line at the cursor; the cursor goes to the start of the new
    /// second line.
    pub fn new_line(&mut self)
        requires
            old(self).wf(),
        ensures
            final(self).wf(),
            final(self).same_settings(old(self)),
            final(self).status() == old(self).status(),
            final(self).lines() == split_line_at(
                old(self).lines(),
                old(self).cursor_line() as int,
                old(self).cursor_col() as int,
            ),
            final(self).cursor_line() == old(self).cursor_line() + 1,
            final(self).cursor_col() == 0,
    {
        let (new_y, new_x) = self.buffer.split_line(self.cursor_y, self.cursor_x);
        self.cursor_y = new_y;
        self.cursor_x = new_x;
    }

    /// Backspace: deletes the char before the cursor; at the start of a line
    /// other than the first, joins the line onto the one above, and the
    /// cursor goes to the join point.
    pub fn delete_char(&mut self)
        requires
            old(self).wf(),
        ensures
            final(self).wf(),
            final(self).same_settings(old(self)),
            final(self).status() == old(self).status(),
            old(self).cursor_col() > 0 ==> {
                &&& final(self).lines() == old(self).lines().update(
                    old(self).cursor_line() as int,
                    old(self).lines()[old(self).cursor_line() as int].remove(
                        old(self).cursor_col() - 1,
                    ),
                )
                &&& final(self).cursor_line() == old(self).cursor_line()
                &&& final(self).cursor_col() == old(self).cursor_col() - 1
            },
            old(self).cursor_col() == 0 && old(self).cursor_line() > 0 ==> {
                &&& final(self).lines() == join_at(old(self).lines(), old(self).cursor_line() as int)
                &&& final(self).cursor_line() == old(self).cursor_line() - 1
                &&& final(self).cursor_col() == old(self).lines()[old(self).cursor_line() - 1].len()
            },
            old(self).cursor_col() == 0 && old(self).cursor_line() == 0 ==> {
                &&& final(self).lines() == old(self).lines()
                &&& final(self).cursor_line() == 0
                &&& final(self).cursor_col() == 0
            },
    {
        if self.buffer.delete_char(self.cursor_y, self.cursor_x) {
            self.cursor_x -= 1;
        } else if self.cursor_y > 0 {
            let prev_len = self.buffer.join_with_previous(self.cursor_y);
            self.cursor_y -= 1;
            self.cursor_x = prev_len;
        }
    }

    /// Moves the cursor one line up, its column pulled back to the length of
    /// that line; nothing happens on the first line.
    pub fn move_up(&mut self)
        requires
            old(self).wf(),
        ensures
            final(self).wf(),
            final(self).moved_from(old(self)),
            old(self).cursor_line() > 0 ==> {
                &&& final(self).cursor_line() == old(self).cursor_line() - 1
                &&& final(self).cursor_col() == clamp(
                    old(self).cursor_col() as int,
                    old(self).lines()[old(self).cursor_line() - 1].len() as int,
                )
            },
            old(self).cursor_line() == 0 ==> final(self).cursor_line() == 0
                && final(self).cursor_col() == old(self).cursor_col(),
    {
        if self.cursor_y > 0 {
            self.cursor_y -= 1;
            self.cursor_x = self.buffer.clamp_column(self.cursor_y, self.cursor_x);
        }
    }

    /// Moves the cursor one line down, its column pulled back to the length
    /// of that line; nothing happens on the last line.
    pub fn move_down(&mut self)
        requires
            old(self).wf(),
        ensures
            final(self).wf(),
            final(self).moved_from(old(self)),
            old(self).cursor_line() + 1 < old(self).lines().len() ==> {
                &&& final(self).cursor_line() == old(self).cursor_line() + 1
                &&& final(self).cursor_col() == clamp(
                    old(self).cursor_col() as int,
                    old(self).lines()[old(self).cursor_line() + 1].len() as int,
                )
            },
            old(self).cursor_line() + 1 == old(self).lines().len() ==> final(self).cursor_line()
                == old(self).cursor_line() && final(self).cursor_col() == old(self).cursor_col(),
    {
        if self.cursor_y < self.buffer.line_count() - 1 {
            self.cursor_y += 1;
            self.cursor_x = self.buffer.clamp_column(self.cursor_y, self.cursor_x);
        }
    }

    /// Moves the cursor one char left; from the start of a line, to the end
    /// of the line above; nothing happens at the start of the document.
    pub fn move_left(&mut self)
        requires
            old(self).wf(),
        ensures
            final(self).wf(),
            final(self).moved_from(old(self)),
            old(self).cursor_col() > 0 ==> final(self).cursor_line() == old(self).cursor_line()
                && final(self).cursor_col() == old(self).cursor_col() - 1,
            old(self).cursor_col() == 0 && old(self).cursor_line() > 0 ==> final(self).cursor_line()
                == old(self).cursor_line() - 1 && final(self).cursor_col() == old(
                self,
            ).lines()[old(self).cursor_line() - 1].len(),
            old(self).cursor_col() == 0 && old(self).cursor_line() == 0 ==> final(self).cursor_line()
                == 0 && final(self).cursor_col() == 0,
    {
        if self.cursor_x > 0 {
            self.cursor_x -= 1;
        } else if self.cursor_y > 0 {
            self.cursor_y -= 1;
            self.cursor_x = self.buffer.line_length(self.cursor_y);
        }
    }

    /// Moves the cursor one char right; from the end of a line, to the start
    /// of the line below; nothing happens at the end of the document.
    pub fn move_right(&mut self)
        requires
            old(self).wf(),
        ensures
            final(self).wf(),
            final(self).moved_from(old(self)),
            ({
                let y = old(self).cursor_line() as int;
                let x = old(self).cursor_col() as int;
                let ls = old(self).lines();
                if x < ls[y].len() {
                    final(self).cursor_line() == y && final(self).cursor_col() == x + 1
                } else if y + 1 < ls.len() {
                    final(self).cursor_line() == y + 1 && final(self).cursor_col() == 0
                } else {
                    final(self).cursor_line() == y && final(self).cursor_col() == x
                }
            }),
    {
        let line_length = self.buffer.line_length(self.cursor_y);
        if self.cursor_x < line_length {
            self.cursor_x += 1;
        } else if self.cursor_y < self.buffer.line_count() - 1 {
            self.cursor_y += 1;
            self.cursor_x = 0;
        }
    }

    /// Goes to line `coords.0`, column `coords.1` (both zero-based). A line
    /// that does not exist is refused: the cursor stays and the message says
    /// so. A column past the end of the line puts the cursor at its end.
    pub fn go_to_line(&mut self, coords: (usize, usize))
        requires
            old(self).wf(),
        ensures
            final(self).wf(),
            final(self).same_settings(old(self)),
            final(self).lines() == old(self).lines(),
            coords.0 >= old(self).lines().len() ==> {
                &&& final(self).cursor_line() == old(self).cursor_line()
                &&& final(self).cursor_col() == old(self).cursor_col()
                &&& final(self).status() == StatusMessage::LineMissing {
                    line_index: coords.0,
                    line_count: old(self).lines().len() as usize,
                }
            },
            coords.0 < old(self).lines().len() ==> {
                let n = old(self).lines()[coords.0 as int].len();
                &&& final(self).cursor_line() == coords.0
                &&& final(self).cursor_col() == clamp(coords.1 as int, n as int)
                &&& coords.1 >= n ==> final(self).status() == StatusMessage::ColumnOutOfRange {
                    column_index: coords.1,
                    line_length: n as usize,
                }
                &&& coords.1 < n ==> final(self).status() == StatusMessage::PositionedAt {
                    line_index: coords.0,
                    column_index: coords.1,
                }
            },
    {
        if !self.buffer.is_valid_line(coords.0) {
            self.state_msg = StatusMessage::LineMissing {
                line_index: coords.0,
                line_count: self.buffer.line_count(),
            };
            return ;
        }
        self.cursor_y = coords.0;
        let line_length = self.buffer.line_length(self.cursor_y);
        if coords.1 >= line_length {
            self.cursor_x = line_length;
            self.state_msg = StatusMessage::ColumnOutOfRange {
                column_index: coords.1,
                line_length,
            };
        } else {
            self.cursor_x = coords.1;
            self.state_msg = StatusMessage::PositionedAt {
                line_index: self.cursor_y,
                column_index: self.cursor_x,
            };
        }
    }

    /// Copies the cursor's line into the clipboard.
    pub fn copy_line(&mut self)
        requires
            old(self).wf(),
        ensures
            final(self).wf(),
            final(self).clipboard_view() == old(self).lines()[old(self).cursor_line() as int],
            final(self).status() == if final(self).clipboard_view().len() == 0 {
                StatusMessage::EmptyLineCopied
            } else {
                StatusMessage::LineCopied
            },
            final(self).lines() == old(self).lines(),
            final(self).cursor_line() == old(self).cursor_line(),
            final(self).cursor_col() == old(self).cursor_col(),
            final(self).offsets() == old(self).offsets(),
            final(self).window() == old(self).window(),
            final(self).search_view() == old(self).search_view(),
            final(self).file_name() == old(self).file_name(),
    {
        self.clipboard = self.buffer.line(self.cursor_y);
        if self.clipboard.as_str().is_empty() {
            self.state_msg = StatusMessage::EmptyLineCopied;
        } else {
            self.state_msg = StatusMessage::LineCopied;
        }
    }

    /// Scrolls as little as needed to show the cursor: the rows are those
    /// of the window less the status and message rows, the columns those
    /// of the window less the gutter. With no column left, the horizontal
    /// offset is 0.
    pub fn adjust_scroll(&mut self)
        requires
            old(self).wf(),
        ensures
            final(self).wf(),
            final(self).same_content(old(self)),
            final(self).window() == old(self).window(),
            ({
                let y = old(self).cursor_line() as int;
                let x = old(self).cursor_col() as int;
                let rows = visible_rows(old(self).window().1 as int);
                let cols = visible_cols(old(self).window().0 as int, old(self).lines().len());
                let (row, col) = final(self).offsets();
                &&& row == scroll_into_view(y, old(self).offsets().0 as int, rows)
                &&& col == if cols == 0 {
                    0
                } else {
                    scroll_into_view(x, old(self).offsets().1 as int, cols)
                }
                &&& row <= y < row + rows
                &&& cols > 0 ==> col <= x < col + cols
            }),
    {
        let height = self.window_sizes.1;
        let visible_lines: usize = if height > 2 {
            (height - 2) as usize
        } else {
            1
        };
        if self.cursor_y < self.offset_row {
            self.offset_row = self.cursor_y;
        } else if self.cursor_y - self.offset_row >= visible_lines {
            self.offset_row = self.cursor_y - visible_lines + 1;
        }
        let line_num_width = calculate_line_number_width(self.buffer.line_count());
        let width = self.window_sizes.0 as usize;
        let visible_cols = width.saturating_sub(line_num_width);
        if self.cursor_x < self.offset_col {
            self.offset_col = self.cursor_x;
        }
        if visible_cols == 0 {
            self.offset_col = 0;
            return ;
        }
        if self.cursor_x - self.offset_col >= visible_cols {
            self.offset_col = self.cursor_x - visible_cols + 1;
        }
    }

    /// Records a new window size and pulls each offset down, to the cursor
    /// and to the largest offset that still fills the window, so that a
    /// shrink never leaves the view past the document.
    pub fn update_window_size(&mut self, width: u16, height: u16)
        requires
            old(self).wf(),
        ensures
            final(self).wf(),
            final(self).same_content(old(self)),
            final(self).window() == (width, height),
            ({
                let y = old(self).cursor_line() as int;
                let x = old(self).cursor_col() as int;
                let count = old(self).lines().len();
                let rows = visible_rows(height as int);
                let c = visible_cols(width as int, count);
                let cols = if c > 0 {
                    c
                } else {
                    1
                };
                let max_row = saturating_diff(count as int, rows);
                let max_col = saturating_diff(old(self).lines()[y].len() as int, cols);
                &&& final(self).offsets().0 == clamp_offset(old(self).offsets().0 as int, y, max_row)
                &&& final(self).offsets().1 == clamp_offset(old(self).offsets().1 as int, x, max_col)
            }),
    {
        self.window_sizes = (width, height);
        let visible_lines = height.saturating_sub(2) as usize;
        let line_count = self.buffer.line_count();
        let max_visible_lines = if visible_lines > 1 {
            visible_lines
        } else {
            1
        };
        let max_offset_row = line_count.saturating_sub(max_visible_lines);
        if self.offset_row > self.cursor_y {
            self.offset_row = self.cursor_y;
        }
        if self.offset_row > max_offset_row {
            self.offset_row = max_offset_row;
        }
        let line_num_width = calculate_line_number_width(line_count);
        let text_cols = (width as usize).saturating_sub(line_num_width);
        let visible_cols = if text_cols > 1 {
            text_cols
        } else {
            1
        };
        let line_length = self.buffer.line_length(self.cursor_y);
        let max_offset_col = line_length.saturating_sub(visible_cols);
        if self.offset_col > self.cursor_x {
            self.offset_col = self.cursor_x;
        }
        if self.offset_col > max_offset_col {
            self.offset_col = max_offset_col;
        }
    }

    /// Puts the cursor on the current match, if there is one, and says
    /// which match it is.
    pub fn jump_to_current_match(&mut self)
        requires
            old(self).wf(),
        ensures
            final(self).wf(),
            final(self).same_settings(old(self)),
            final(self).lines() == old(self).lines(),
            old(self).search_view().current_view() matches Some(i) ==> final(self).shows_match(
                i as int,
            ),
            old(self).search_view().current_view() is None ==> final(self).moved_from(old(self))
                && final(self).cursor_line() == old(self).cursor_line() && final(self).cursor_col()
                == old(self).cursor_col(),
    {
        let target = match self.search.current_match() {
            Some(m) => Some(*m),
            None => None,
        };
        if let Some(m) = target {
            let count = self.buffer.line_count();
            let line = if m.line < count {
                m.line
            } else {
                count - 1
            };
            self.cursor_y = line;
            self.cursor_x = self.buffer.clamp_column(line, m.start_col);
            if let Some(idx) = self.search.current_index() {
                let query = match self.search.query() {
                    Some(q) => q.clone(),
                    None => String::new(),
                };
                self.state_msg = StatusMessage::MatchPosition {
                    index: idx,
                    total: self.search.match_count(),
                    query,
                };
            }
        }
    }

    /// Searches the document for `query`. An empty query cancels the search.
    /// Otherwise, when there are matches, the cursor goes to the first one
    /// and the message gives their number; when there is none, the message
    /// says so and the cursor stays.
    pub fn search(&mut self, query: &str)
        requires
            old(self).wf(),
        ensures
            final(self).wf(),
            final(self).lines() == old(self).lines(),
            final(self).offsets() == old(self).offsets(),
            final(self).window() == old(self).window(),
            final(self).clipboard_view() == old(self).clipboard_view(),
            final(self).file_name() == old(self).file_name(),
            query@.len() == 0 ==> {
                &&& final(self).search_view().query_view() is None
                &&& final(self).search_view().matches_view().len() == 0
                &&& final(self).status() == StatusMessage::SearchCancelled
                &&& final(self).cursor_line() == old(self).cursor_line()
                &&& final(self).cursor_col() == old(self).cursor_col()
            },
            query@.len() > 0 ==> {
                let ms = all_matches(old(self).lines(), query@, old(self).lines().len() as int);
                &&& final(self).search_view().query_view() == Some(query@)
                &&& final(self).search_view().matches_view() == ms
                &&& ms.len() > 0 ==> {
                    &&& final(self).search_view().current_view() == Some(0usize)
                    &&& final(self).cursor_line() == ms[0].line
                    &&& final(self).cursor_col() == ms[0].start_col
                    &&& final(self).status() matches StatusMessage::MatchesFound { count, query: q }
                        && count == ms.len() && q@ == query@
                }
                &&& ms.len() == 0 ==> {
                    &&& final(self).search_view().current_view() is None
                    &&& final(self).cursor_line() == old(self).cursor_line()
                    &&& final(self).cursor_col() == old(self).cursor_col()
                    &&& final(self).status() matches StatusMessage::NotFound(q) && q@ == query@
                }
            },
    {
        let lines = self.buffer.iter_lines();
        proof {
            assert(line_views(lines@) =~= self.buffer@);
        }
        let count = self.search.search(query, lines.as_slice());
        proof {
            if count > 0 {
                let m = self.search.matches_view()[0];
                assert(crate::search::match_fits(m, self.buffer@, query@.len()));
            }
        }
        if query.is_empty() {
            self.state_msg = StatusMessage::SearchCancelled;
            return ;
        }
        if count > 0 {
            self.jump_to_current_match();
            self.state_msg = StatusMessage::MatchesFound { count, query: query.to_owned() };
        } else {
            self.state_msg = StatusMessage::NotFound(query.to_owned());
        }
    }

    /// Goes to the next match, from the last back to the first; with no
    /// match, the message says that no search is active.
    pub fn next_match(&mut self)
        requires
            old(self).wf(),
        ensures
            final(self).wf(),
            final(self).same_settings_but_search(old(self)),
            final(self).lines() == old(self).lines(),
            final(self).search_view().matches_view() == old(self).search_view().matches_view(),
            final(self).search_view().query_view() == old(self).search_view().query_view(),
            old(self).search_view().matches_view().len() == 0 ==> {
                &&& final(self).status() == StatusMessage::NoActiveSearch
                &&& final(self).cursor_line() == old(self).cursor_line()
                &&& final(self).cursor_col() == old(self).cursor_col()
            },
            old(self).search_view().matches_view().len() > 0 ==> {
                let i = next_index(
                    old(self).search_view().current_view()->0 as int,
                    old(self).search_view().matches_view().len() as int,
                );
                &&& final(self).search_view().current_view() == Some(i as usize)
                &&& final(self).shows_match(i)
            },
    {
        if self.search.next_match().is_some() {
            self.jump_to_current_match();
        } else {
            self.state_msg = StatusMessage::NoActiveSearch;
        }
    }

    /// Goes to the previous match, from the first back to the last; with no
    /// match, the message says that no search is active.
    pub fn previous_match(&mut self)
        requires
            old(self).wf(),
        ensures
            final(self).wf(),
            final(self).same_settings_but_search(old(self)),
            final(self).lines() == old(self).lines(),
            final(self).search_view().matches_view() == old(self).search_view().matches_view(),
            final(self).search_view().query_view() == old(self).search_view().query_view(),
            old(self).search_view().matches_view().len() == 0 ==> {
                &&& final(self).status() == StatusMessage::NoActiveSearch
                &&& final(self).cursor_line() == old(self).cursor_line()
                &&& final(self).cursor_col() == old(self).cursor_col()
            },
            old(self).search_view().matches_view().len() > 0 ==> {
                let i = previous_index(
                    old(self).search_view().current_view()->0 as int,
                    old(self).search_view().matches_view().len() as int,
                );
                &&& final(self).search_view().current_view() == Some(i as usize)
                &&& final(self).shows_match(i)
            },
    {
        if self.search.previous_match().is_some() {
            self.jump_to_current_match();
        } else {
            self.state_msg = StatusMessage::NoActiveSearch;
        }
    }

    /// Pastes the clipboard at the cursor; each `'\n'` in it starts a new
    /// line, and the cursor goes just past the pasted text. An empty
    /// clipboard changes nothing but the message.
    pub fn paste_clipboard(&mut self)
        requires
            old(self).wf(),
        ensures
            final(self).wf(),
            final(self).same_settings(old(self)),
            old(self).clipboard_view().len() == 0 ==> {
                &&& final(self).status() == StatusMessage::EmptyClipboard
                &&& final(self).lines() == old(self).lines()
                &&& final(self).cursor_line() == old(self).cursor_line()
                &&& final(self).cursor_col() == old(self).cursor_col()
            },
            old(self).clipboard_view().len() > 0 ==> {
                let y = old(self).cursor_line() as int;
                let x = old(self).cursor_col() as int;
                let at = cursor_after_paste(y, x, old(self).clipboard_view());
                &&& final(self).status() == old(self).status()
                &&& final(self).lines() == insert_at(old(self).lines(), y, x, old(self).clipboard_view())
                &&& final(self).cursor_line() == at.0
                &&& final(self).cursor_col() == at.1
            },
    {
        if self.clipboard.as_str().is_empty() {
            self.state_msg = StatusMessage::EmptyClipboard;
            return ;
        }
        let chars = chars_of(self.clipboard.as_str());
        let mut breaks: usize = 0;
        let mut tail: usize = 0;
        for i in 0..chars.len()
            invariant
                breaks <= i,
                tail <= i,
                breaks + 1 == split_lines(chars@.take(i as int)).len(),
                tail == split_lines(chars@.take(i as int)).last().len(),
        {
            proof {
                lemma_split_nonempty(chars@.take(i as int));
                assert(chars@.take(i + 1).drop_last() =~= chars@.take(i as int));
                assert(chars@.take(i + 1).last() == chars@[i as int]);
            }
            if chars[i] == '\n' {
                breaks += 1;
                tail = 0;
            } else {
                tail += 1;
            }
        }
        proof {
            assert(chars@.take(chars@.len() as int) =~= chars@);
        }
        let ghost ls = self.buffer@;
        let ghost y = self.cursor_y as int;
        let ghost x = self.cursor_x as int;
        let ghost clip = self.clipboard@;
        proof {
            self.buffer.lemma_well_formed();
            let l = ls[y];
            assert(has_no_newline(l));
            assert(has_no_newline(l.take(x)));
            assert(has_no_newline(l.skip(x)));
            lemma_split_surround(l.take(x), clip, l.skip(x));
        }
        self.buffer.insert_str(self.cursor_y, self.cursor_x, self.clipboard.as_str());
        // The line count and the line length are usizes: the new cursor fits.
        let _count = self.buffer.line_count();
        let ghost pieces = split_lines(clip);
        let ghost merged = split_lines(ls[y].take(x) + clip + ls[y].skip(x));
        proof {
            let nl = self.buffer@;
            assert(nl == ls.take(y) + merged + ls.skip(y + 1));
            assert(nl.len() == ls.len() + pieces.len() - 1);
            assert(nl[y + pieces.len() - 1] == merged[pieces.len() - 1]);
        }
        if breaks == 0 {
            let _len = self.buffer.line_length(self.cursor_y);
            proof {
                assert(merged[0] == ls[y].take(x) + clip + ls[y].skip(x));
            }
            self.cursor_x += chars.len();
        } else {
            self.cursor_y += breaks;
            self.cursor_x = tail;
        }
    }

    /// The lines that the screen shows, `start..end`: from the first line of
    /// the viewport, as many as there are text rows, not past the document.
    /// `None` when the window has no row or no column for text.
    pub fn visible_line_range(&self) -> (r: Option<(usize, usize)>)
        ensures
            ({
                let (w, h) = self.window();
                let start = self.offsets().0 as int;
                let count = self.lines().len() as int;
                if h <= 2 || w == 0 {
                    r is None
                } else {
                    r matches Some((a, b)) && a == start && b == if start + h - 2 <= count {
                        start + h - 2
                    } else {
                        count
                    }
                }
            }),
    {
        let (width, height) = self.window_sizes;
        if height <= 2 || width == 0 {
            return None;
        }
        let rows = (height - 2) as usize;
        let count = self.buffer.line_count();
        let start = self.offset_row;
        let end = if start <= count && count - start >= rows {
            start + rows
        } else {
            count
        };
        Some((start, end))
    }
}

} // verus!
