//! The document buffer: text stored in a rope and addressed by line and
//! char column. Every column that comes in is clamped to its line.

use crate::rope::{
    rope_char, rope_chars, rope_from_str, rope_insert, rope_insert_char, rope_len_chars,
    rope_len_lines, rope_line, rope_line_to_char, rope_new, rope_remove, rope_to_string,
};
use crate::text::{
    clamp, has_no_newline, join_lines, lemma_replace_lines, lemma_split_concat,
    lemma_split_join, lemma_split_plain, lemma_text_len, line_start, split_lines,
    well_formed_lines,
};
use ropey::Rope;
use vstd::prelude::*;

verus! {

/// A text as it is loaded: a `'\n'` is added when the text is empty or does
/// not end with one.
pub open spec fn with_final_newline(s: Seq<char>) -> Seq<char> {
    if s.len() == 0 || s.last() != '\n' {
        s.push('\n')
    } else {
        s
    }
}

/// The lines after `s` is put at column `c` of line `i`: line `i` becomes
/// the lines of its head, `s`, and its tail.
pub open spec fn insert_at(ls: Seq<Seq<char>>, i: int, c: int, s: Seq<char>) -> Seq<Seq<char>> {
    ls.take(i) + split_lines(ls[i].take(c) + s + ls[i].skip(c)) + ls.skip(i + 1)
}

/// The lines after line `i` is cut in two at column `c`.
pub open spec fn split_line_at(ls: Seq<Seq<char>>, i: int, c: int) -> Seq<Seq<char>> {
    ls.take(i) + seq![ls[i].take(c), ls[i].skip(c)] + ls.skip(i + 1)
}

/// The lines after line `i` is appended to line `i - 1`.
pub open spec fn join_at(ls: Seq<Seq<char>>, i: int) -> Seq<Seq<char>> {
    ls.take(i - 1) + seq![ls[i - 1] + ls[i]] + ls.skip(i + 1)
}

/// Saving a loaded text gives that text back with a final `'\n'`; loading
/// what was saved gives the same document again, and adds nothing more.
pub proof fn lemma_load_save_round_trip(s: Seq<char>)
    ensures
        join_lines(split_lines(with_final_newline(s))) == with_final_newline(s),
        with_final_newline(with_final_newline(s)) == with_final_newline(s),
        split_lines(with_final_newline(join_lines(split_lines(with_final_newline(s)))))
            == split_lines(with_final_newline(s)),
{
    lemma_split_join(with_final_newline(s));
}

/// Cutting line `i` at any column and then joining the new second line back
/// onto it restores every line, and the join reports the cut column.
pub proof fn lemma_split_then_join(ls: Seq<Seq<char>>, i: int, col: int)
    requires
        0 <= i < ls.len(),
        col >= 0,
    ensures
        ({
            let c = clamp(col, ls[i].len() as int);
            let cut = split_line_at(ls, i, c);
            &&& join_at(cut, i + 1) == ls
            &&& cut[i].len() == c
            &&& join_at(cut, i + 1)[i].len() == ls[i].len()
        }),
{
    let c = clamp(col, ls[i].len() as int);
    let cut = split_line_at(ls, i, c);
    assert(cut[i] == ls[i].take(c));
    assert(cut[i + 1] == ls[i].skip(c));
    assert(ls[i].take(c) + ls[i].skip(c) =~= ls[i]);
    assert(cut.take(i) =~= ls.take(i));
    assert(cut.skip(i + 2) =~= ls.skip(i + 1));
    assert(join_at(cut, i + 1) =~= ls);
}

/// Clamping a column that is already clamped changes nothing.
pub proof fn lemma_clamp_column_idempotent(ls: Seq<Seq<char>>, idx: int, col: int)
    requires
        0 <= idx < ls.len(),
        col >= 0,
    ensures
        clamp(clamp(col, ls[idx].len() as int), ls[idx].len() as int) == clamp(
            col,
            ls[idx].len() as int,
        ),
{
}

/// A document: at least one line, none holding a `'\n'`. Its view is the
/// sequence of its lines.
pub struct TextBuffer {
    rope: Rope,
}

impl View for TextBuffer {
    type V = Seq<Seq<char>>;

    closed spec fn view(&self) -> Seq<Seq<char>> {
        split_lines(rope_chars(self.rope))
    }
}

impl TextBuffer {
    /// The text that the rope holds.
    closed spec fn text(&self) -> Seq<char> {
        rope_chars(self.rope)
    }

    /// The lines of every buffer are well formed.
    pub proof fn lemma_well_formed(&self)
        ensures
            well_formed_lines(self@),
    {
        lemma_split_join(self.text());
    }

    /// An empty document: one empty line.
    pub fn new() -> (r: Self)
        ensures
            r@ == seq![Seq::<char>::empty()],
    {
        let r = TextBuffer { rope: rope_new() };
        assert(r.text().len() == 0);
        r
    }

    /// The lines of a document loaded from `content`.
    pub open spec fn from_text_view(content: Seq<char>) -> Seq<Seq<char>> {
        split_lines(with_final_newline(content))
    }

    /// A document loaded from a text blob, with a final `'\n'` guaranteed.
    pub fn from_text(content: &str) -> (r: Self)
        ensures
            r@ == Self::from_text_view(content@),
    {
        let mut rope = rope_from_str(content);
        let n = rope_len_chars(&rope);
        if n == 0 || rope_char(&rope, n - 1) != '\n' {
            rope_insert_char(&mut rope, n, '\n');
            assert(rope_chars(rope) =~= content@.push('\n'));
        }
        TextBuffer { rope }
    }

    /// The document as one text blob: the lines joined by `'\n'`.
    pub fn to_text(&self) -> (r: String)
        ensures
            r@ == join_lines(self@),
    {
        proof {
            lemma_split_join(self.text());
        }
        rope_to_string(&self.rope)
    }

    /// The text of line `idx`, without its terminator.
    pub fn line(&self, idx: usize) -> (r: String)
        requires
            idx < self@.len(),
        ensures
            r@ == self@[idx as int],
    {
        proof {
            self.lemma_well_formed();
        }
        let full = rope_line(&self.rope, idx);
        let n = full.as_str().unicode_len();
        if n > 0 && full.as_str().get_char(n - 1) == '\n' {
            let r = full.as_str().substring_char(0, n - 1).to_owned();
            proof {
                if idx + 1 >= self@.len() {
                    assert(has_no_newline(self@[idx as int]));
                    assert(full@ =~= self@[idx as int]);
                }
                assert(r@ =~= self@[idx as int]);
            }
            r
        } else {
            proof {
                if idx + 1 < self@.len() {
                    assert(full@[n - 1] == '\n');
                }
                assert(full@ =~= self@[idx as int]);
            }
            full
        }
    }

    /// Every line, in order.
    pub fn iter_lines(&self) -> (r: Vec<String>)
        ensures
            r.len() == self@.len(),
            forall|k: int| 0 <= k < r.len() ==> (#[trigger] r[k])@ == self@[k],
    {
        let n = self.line_count();
        let mut r: Vec<String> = Vec::new();
        for i in 0..n
            invariant
                n == self@.len(),
                r.len() == i,
                forall|k: int| 0 <= k < r.len() ==> (#[trigger] r[k])@ == self@[k],
        {
            r.push(self.line(i));
        }
        r
    }

    /// The number of lines, at least one.
    pub fn line_count(&self) -> (r: usize)
        ensures
            r == self@.len(),
            r >= 1,
    {
        proof {
            self.lemma_well_formed();
        }
        rope_len_lines(&self.rope)
    }

    /// The number of chars of line `line_idx`, its terminator not counted.
    pub fn line_length(&self, line_idx: usize) -> (r: usize)
        requires
            line_idx < self@.len(),
        ensures
            r == self@[line_idx as int].len(),
    {
        let ghost ls = self@;
        proof {
            lemma_split_join(self.text());
            lemma_text_len(ls);
        }
        let start = rope_line_to_char(&self.rope, line_idx);
        let count = rope_len_lines(&self.rope);
        let end = if line_idx + 1 < count {
            rope_line_to_char(&self.rope, line_idx + 1) - 1
        } else {
            rope_len_chars(&self.rope)
        };
        end - start
    }

    /// Puts `ch` at column `min(col, line_length(line_idx))` of line `line_idx`.
    /// A `'\n'` cuts the line there.
    pub fn insert_char(&mut self, line_idx: usize, col: usize, ch: char)
        requires
            line_idx < old(self)@.len(),
        ensures
            final(self)@ == insert_at(
                old(self)@,
                line_idx as int,
                clamp(col as int, old(self)@[line_idx as int].len() as int),
                seq![ch],
            ),
            ch != '\n' ==> final(self)@ == old(self)@.update(
                line_idx as int,
                old(self)@[line_idx as int].insert(
                    clamp(col as int, old(self)@[line_idx as int].len() as int),
                    ch,
                ),
            ),
    {
        let ghost ls = self@;
        let ghost t = self.text();
        let line_start = rope_line_to_char(&self.rope, line_idx);
        let line_len = self.line_length(line_idx);
        let safe_col = if col < line_len {
            col
        } else {
            line_len
        };
        let ghost l = ls[line_idx as int];
        let ghost mid = l.take(safe_col as int) + seq![ch] + l.skip(safe_col as int);
        // The text's length is a usize: the char offsets below fit in one.
        let _len = rope_len_chars(&self.rope);
        proof {
            lemma_split_join(t);
            lemma_replace_lines(ls, line_idx as int, line_idx as int, mid);
            assert(ls.subrange(line_idx as int, line_idx + 1) =~= seq![l]);
        }
        let char_idx = line_start + safe_col;
        rope_insert_char(&mut self.rope, char_idx, ch);
        proof {
            let e = line_start + line_len;
            assert(self.text() =~= t.take(line_start as int) + mid + t.skip(e));
            if ch != '\n' {
                assert(has_no_newline(l));
                assert(has_no_newline(mid));
                lemma_split_plain(mid);
                assert(mid =~= l.insert(safe_col as int, ch));
                assert(self@ =~= ls.update(line_idx as int, l.insert(safe_col as int, ch)));
            }
        }
    }

    /// Puts `text`, which may hold `'\n'`, at column `min(col, line_length(line_idx))`
    /// of line `line_idx`; each `'\n'` in it starts a new line.
    pub fn insert_str(&mut self, line_idx: usize, col: usize, text: &str)
        requires
            line_idx < old(self)@.len(),
        ensures
            final(self)@ == insert_at(
                old(self)@,
                line_idx as int,
                clamp(col as int, old(self)@[line_idx as int].len() as int),
                text@,
            ),
    {
        let ghost ls = self@;
        let ghost t = self.text();
        let line_start = rope_line_to_char(&self.rope, line_idx);
        let line_len = self.line_length(line_idx);
        let safe_col = if col < line_len {
            col
        } else {
            line_len
        };
        let ghost l = ls[line_idx as int];
        let ghost mid = l.take(safe_col as int) + text@ + l.skip(safe_col as int);
        // The text's length is a usize: the char offsets below fit in one.
        let _len = rope_len_chars(&self.rope);
        proof {
            lemma_split_join(t);
            lemma_replace_lines(ls, line_idx as int, line_idx as int, mid);
            assert(ls.subrange(line_idx as int, line_idx + 1) =~= seq![l]);
        }
        let char_idx = line_start + safe_col;
        rope_insert(&mut self.rope, char_idx, text);
        proof {
            let e = line_start + line_len;
            assert(self.text() =~= t.take(line_start as int) + mid + t.skip(e));
        }
    }

    /// Deletes the char just before column `col` of line `line_idx`. Nothing
    /// is deleted, and `false` comes back, when `col` is 0 or past the line.
    pub fn delete_char(&mut self, line_idx: usize, col: usize) -> (r: bool)
        requires
            line_idx < old(self)@.len(),
        ensures
            r == (0 < col <= old(self)@[line_idx as int].len()),
            r ==> final(self)@ == old(self)@.update(
                line_idx as int,
                old(self)@[line_idx as int].remove(col - 1),
            ),
            !r ==> final(self)@ == old(self)@,
    {
        if col == 0 {
            return false;
        }
        let line_len = self.line_length(line_idx);
        if col > line_len {
            return false;
        }
        let ghost ls = self@;
        let ghost t = self.text();
        let ghost l = ls[line_idx as int];
        let ghost mid = l.remove(col - 1);
        let line_start = rope_line_to_char(&self.rope, line_idx);
        // The text's length is a usize: the char offsets below fit in one.
        let _len = rope_len_chars(&self.rope);
        proof {
            lemma_split_join(t);
            lemma_replace_lines(ls, line_idx as int, line_idx as int, mid);
            assert(ls.subrange(line_idx as int, line_idx + 1) =~= seq![l]);
            assert(has_no_newline(l));
            assert(has_no_newline(mid));
            lemma_split_plain(mid);
        }
        let char_idx = line_start + col - 1;
        rope_remove(&mut self.rope, char_idx, char_idx + 1);
        proof {
            let e = line_start + line_len;
            assert(self.text() =~= t.take(line_start as int) + mid + t.skip(e));
            assert(self@ =~= ls.update(line_idx as int, mid));
        }
        true
    }

    /// Removes the line break between line `line_idx - 1` and line `line_idx`,
    /// and returns the length that line `line_idx - 1` had before. Line 0 has
    /// nothing before it: nothing changes and 0 comes back.
    pub fn join_with_previous(&mut self, line_idx: usize) -> (r: usize)
        requires
            line_idx < old(self)@.len(),
        ensures
            line_idx == 0 ==> r == 0 && final(self)@ == old(self)@,
            line_idx > 0 ==> r == old(self)@[line_idx - 1].len() && final(self)@ == join_at(
                old(self)@,
                line_idx as int,
            ),
    {
        if line_idx == 0 {
            return 0;
        }
        let ghost ls = self@;
        let ghost t = self.text();
        let prev_len = self.line_length(line_idx - 1);
        let prev_line_start = rope_line_to_char(&self.rope, line_idx - 1);
        // The text's length is a usize: the char offsets below fit in one.
        let _len = rope_len_chars(&self.rope);
        let ghost i = line_idx - 1;
        let ghost mid = ls[i] + ls[i + 1];
        proof {
            lemma_split_join(t);
            lemma_replace_lines(ls, i, i + 1, mid);
            assert(ls.subrange(i, i + 2) =~= seq![ls[i], ls[i + 1]]);
            assert(join_lines(seq![ls[i], ls[i + 1]]) == join_lines(seq![ls[i]]) + seq!['\n']
                + ls[i + 1]) by {
                assert(seq![ls[i], ls[i + 1]].drop_last() =~= seq![ls[i]]);
            }
            assert(has_no_newline(ls[i]));
            assert(has_no_newline(ls[i + 1]));
            assert(has_no_newline(mid));
            lemma_split_plain(mid);
        }
        let newline_pos = prev_line_start + prev_len;
        rope_remove(&mut self.rope, newline_pos, newline_pos + 1);
        proof {
            let s = prev_line_start as int;
            let e = line_start(ls, i + 1) + ls[i + 1].len();
            let np = newline_pos as int;
            assert(line_start(ls, i + 1) == s + ls[i].len() + 1);
            assert(join_lines(seq![ls[i]]) == ls[i]);
            assert(t.subrange(s, e) =~= ls[i] + seq!['\n'] + ls[i + 1]);
            let sub = t.subrange(s, e);
            assert forall|k: int| 0 <= k < np implies #[trigger] t.take(np)[k] == (t.take(s)
                + ls[i])[k] by {
                if k >= s {
                    assert(t[k] == sub[k - s]);
                }
            }
            assert(t.take(np) =~= t.take(s) + ls[i]);
            assert forall|k: int| 0 <= k < t.len() - np - 1 implies #[trigger] t.skip(np + 1)[k]
                == (ls[i + 1] + t.skip(e))[k] by {
                if k < ls[i + 1].len() {
                    assert(t[np + 1 + k] == sub[np + 1 + k - s]);
                }
            }
            assert(t.skip(np + 1) =~= ls[i + 1] + t.skip(e));
            assert(self.text() =~= t.take(s) + mid + t.skip(e));
            assert(self@ =~= join_at(ls, line_idx as int));
        }
        prev_len
    }

    /// Cuts line `line_idx` in two at column `min(col, line_length(line_idx))`
    /// and returns where the cursor goes: column 0 of the new second line.
    pub fn split_line(&mut self, line_idx: usize, col: usize) -> (r: (usize, usize))
        requires
            line_idx < old(self)@.len(),
        ensures
            r.0 == line_idx + 1,
            r.1 == 0,
            final(self)@ == split_line_at(
                old(self)@,
                line_idx as int,
                clamp(col as int, old(self)@[line_idx as int].len() as int),
            ),
    {
        let ghost ls = self@;
        let ghost l = ls[line_idx as int];
        proof {
            self.lemma_well_formed();
        }
        let line_len = self.line_length(line_idx);
        let safe_col = if col < line_len {
            col
        } else {
            line_len
        };
        self.insert_char(line_idx, safe_col, '\n');
        proof {
            let c = safe_col as int;
            lemma_split_join(join_lines(ls));
            TextBuffer::lemma_well_formed(&*self);
            assert(has_no_newline(l));
            assert(has_no_newline(l.take(c)));
            assert(has_no_newline(l.skip(c)));
            lemma_split_concat(l.take(c), l.skip(c));
            lemma_split_plain(l.take(c));
            lemma_split_plain(l.skip(c));
            assert(l.take(c) + seq!['\n'] + l.skip(c) == l.take(c) + seq!['\n'] + l.skip(c));
            assert(split_lines(l.take(c) + seq!['\n'] + l.skip(c)) =~= seq![l.take(c), l.skip(c)]);
        }
        // The line count is a usize, so the index of the new line fits in one.
        let _n = self.line_count();
        (line_idx + 1, 0)
    }

    /// Whether `line_idx` names a line.
    pub fn is_valid_line(&self, line_idx: usize) -> (r: bool)
        ensures
            r == (line_idx < self@.len()),
    {
        line_idx < self.line_count()
    }

    /// `min(col, line_length(line_idx))`.
    pub fn clamp_column(&self, line_idx: usize, col: usize) -> (r: usize)
        requires
            line_idx < self@.len(),
        ensures
            r == clamp(col as int, self@[line_idx as int].len() as int),
    {
        let line_len = self.line_length(line_idx);
        if col < line_len {
            col
        } else {
            line_len
        }
    }
}

impl Default for TextBuffer {
    fn default() -> (r: Self)
        ensures
            r@ == seq![Seq::<char>::empty()],
    {
        Self::new()
    }
}

} // verus!
