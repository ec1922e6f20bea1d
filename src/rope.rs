//! The rope that stores the document's text, from the `ropey` crate.
//!
//! `ropey` is built without its `cr_lines` and `unicode_lines` features, so
//! `'\n'` is its only line break: its lines are exactly `split_lines` of the
//! text (a `"\r\n"` pair breaks at its `'\n'`, and the `'\r'` stays in the line).

use crate::text::{line_start, split_lines};
use ropey::Rope;
use vstd::prelude::*;

verus! {

#[verifier::external_type_specification]
#[verifier::external_body]
pub struct ExRope(ropey::Rope);

/// The chars that a rope holds, in order.
pub uninterp spec fn rope_chars(r: Rope) -> Seq<char>;

/// Relies on `Rope::new`: an empty rope.
#[verifier::external_body]
pub(crate) fn rope_new() -> (r: Rope)
    ensures
        rope_chars(r) == Seq::<char>::empty(),
{
    Rope::new()
}

/// Relies on `Rope::from_str`: a rope that holds the chars of `text`.
#[verifier::external_body]
pub(crate) fn rope_from_str(text: &str) -> (r: Rope)
    ensures
        rope_chars(r) == text@,
{
    Rope::from_str(text)
}

/// Relies on `Rope::len_chars`: the number of chars.
#[verifier::external_body]
pub(crate) fn rope_len_chars(rope: &Rope) -> (r: usize)
    ensures
        r == rope_chars(*rope).len(),
{
    rope.len_chars()
}

/// Relies on `Rope::len_lines`: one more than the number of line breaks.
#[verifier::external_body]
pub(crate) fn rope_len_lines(rope: &Rope) -> (r: usize)
    ensures
        r == split_lines(rope_chars(*rope)).len(),
{
    rope.len_lines()
}

/// Relies on `Rope::line_to_char`: the char index where line `line_idx` starts.
/// It panics past `len_lines()`.
#[verifier::external_body]
pub(crate) fn rope_line_to_char(rope: &Rope, line_idx: usize) -> (r: usize)
    requires
        line_idx < split_lines(rope_chars(*rope)).len(),
    ensures
        r == line_start(split_lines(rope_chars(*rope)), line_idx as int),
{
    rope.line_to_char(line_idx)
}

/// Relies on `Rope::char`: the char at `char_idx`, which must be in bounds.
#[verifier::external_body]
pub(crate) fn rope_char(rope: &Rope, char_idx: usize) -> (r: char)
    requires
        char_idx < rope_chars(*rope).len(),
    ensures
        r == rope_chars(*rope)[char_idx as int],
{
    rope.char(char_idx)
}

/// Relies on `Rope::line` and the `Display` of the slice it returns: the
/// text of line `line_idx` with its line break, which every line but the
/// last has.
#[verifier::external_body]
pub(crate) fn rope_line(rope: &Rope, line_idx: usize) -> (r: String)
    requires
        line_idx < split_lines(rope_chars(*rope)).len(),
    ensures
        ({
            let ls = split_lines(rope_chars(*rope));
            r@ == ls[line_idx as int] + if line_idx + 1 < ls.len() {
                seq!['\n']
            } else {
                Seq::<char>::empty()
            }
        }),
{
    rope.line(line_idx).to_string()
}

/// Relies on `Rope::insert_char`: `ch` is put before the char at `char_idx`.
/// It panics past `len_chars()`.
#[verifier::external_body]
pub(crate) fn rope_insert_char(rope: &mut Rope, char_idx: usize, ch: char)
    requires
        char_idx <= rope_chars(*old(rope)).len(),
    ensures
        rope_chars(*final(rope)) == rope_chars(*old(rope)).insert(char_idx as int, ch),
{
    rope.insert_char(char_idx, ch)
}

/// Relies on `Rope::insert`: `text` is put before the char at `char_idx`.
/// It panics past `len_chars()`.
#[verifier::external_body]
pub(crate) fn rope_insert(rope: &mut Rope, char_idx: usize, text: &str)
    requires
        char_idx <= rope_chars(*old(rope)).len(),
    ensures
        rope_chars(*final(rope)) == rope_chars(*old(rope)).take(char_idx as int) + text@
            + rope_chars(*old(rope)).skip(char_idx as int),
{
    rope.insert(char_idx, text)
}

/// Relies on `Rope::remove`: the chars `start..end` are taken out. It panics
/// when `start > end` or `end > len_chars()`.
#[verifier::external_body]
pub(crate) fn rope_remove(rope: &mut Rope, start: usize, end: usize)
    requires
        start <= end <= rope_chars(*old(rope)).len(),
    ensures
        rope_chars(*final(rope)) == rope_chars(*old(rope)).take(start as int) + rope_chars(
            *old(rope),
        ).skip(end as int),
{
    rope.remove(start..end)
}

/// Relies on the `Display` of `Rope`: all its chars, in order.
#[verifier::external_body]
pub(crate) fn rope_to_string(rope: &Rope) -> (r: String)
    ensures
        r@ == rope_chars(*rope),
{
    rope.to_string()
}

} // verus!
