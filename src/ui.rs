//! The arithmetic of the screen: the width of the line-number gutter and
//! where the caret lands on the terminal.

use crate::search::{Match, SearchState};
use vstd::prelude::*;

verus! {

/// The number of decimal digits of `n`.
pub open spec fn decimal_digits(n: nat) -> nat
    decreases n,
{
    if n < 10 {
        1
    } else {
        1 + decimal_digits(n / 10)
    }
}

/// The width of the gutter for a document of `line_count` lines: the
/// digits of the largest line number, and two columns more.
pub open spec fn gutter_width(line_count: nat) -> nat {
    decimal_digits(line_count) + 2
}

spec fn pow10(k: nat) -> nat
    decreases k,
{
    if k == 0 {
        1
    } else {
        10 * pow10((k - 1) as nat)
    }
}

proof fn lemma_digits_below(n: nat, k: nat)
    requires
        1 <= k,
        n < pow10(k),
    ensures
        decimal_digits(n) <= k,
    decreases k,
{
    if n >= 10 {
        if k == 1 {
            assert(pow10(1) == 10 * pow10(0));
        } else {
            let p = pow10((k - 1) as nat);
            assert(n / 10 < p) by (nonlinear_arith)
                requires
                    n < 10 * p,
            ;
            lemma_digits_below(n / 10, (k - 1) as nat);
        }
    }
}

/// The width of the line-number gutter: the digits of `total_lines`, plus 2.
pub fn calculate_line_number_width(total_lines: usize) -> (r: usize)
    ensures
        r == gutter_width(total_lines as nat),
        r <= 22,
{
    proof {
        reveal_with_fuel(pow10, 21);
        lemma_digits_below(total_lines as nat, 20);
    }
    let mut digits: usize = 1;
    let mut rest: usize = total_lines;
    while rest >= 10
        invariant
            1 <= digits,
            digits + decimal_digits(rest as nat) - 1 == decimal_digits(total_lines as nat),
            decimal_digits(total_lines as nat) <= 20,
        decreases rest,
    {
        rest = rest / 10;
        digits = digits + 1;
    }
    digits + 2
}

/// `a - b`, or 0 when `b` is larger.
pub open spec fn saturating_diff(a: int, b: int) -> int {
    if a > b {
        a - b
    } else {
        0
    }
}

/// Where the caret goes on the screen: its column moves right past the
/// gutter, and its row is its line's row in the viewport, counted from 0.
/// Each coordinate is cut to 16 bits, as the terminal's are.
pub fn calculate_visual_cursor_position(
    cursor_x: usize,
    cursor_y: usize,
    offset_col: usize,
    offset_row: usize,
    line_num_width: usize,
) -> (r: (u16, u16))
    requires
        saturating_diff(cursor_x as int, offset_col as int) + line_num_width <= usize::MAX,
    ensures
        r.0 == (saturating_diff(cursor_x as int, offset_col as int) + line_num_width) as u16,
        r.1 == saturating_diff(cursor_y as int, offset_row as int) as u16,
{
    let visual_x = (cursor_x.saturating_sub(offset_col) + line_num_width) as u16;
    let visual_y = cursor_y.saturating_sub(offset_row) as u16;
    (visual_x, visual_y)
}

/// A run of chars of the visible part of a line, `start..end`, drawn
/// highlighted or plain.
#[derive(Clone, Copy, Debug, PartialEq, Eq, Structural)]
pub struct Segment {
    pub start: usize,
    pub end: usize,
    pub highlighted: bool,
}

/// Whether the char at visible column `p` of line `line_idx`, shown from
/// column `start_col` on, lies in a match of that line that starts in view.
pub open spec fn in_visible_match(ms: Seq<Match>, line_idx: int, start_col: int, p: int) -> bool {
    exists|k: int|
        0 <= k < ms.len() && #[trigger] ms[k].line == line_idx && start_col <= ms[k].start_col
            <= p + start_col < ms[k].end_col
}

/// Whether the char at visible column `p` is drawn highlighted: a search is
/// active and the char lies in one of its matches that starts in view.
pub open spec fn shown_highlighted(search: SearchState, line_idx: int, start_col: int, p: int) -> bool {
    search.query_view() is Some && in_visible_match(search.matches_view(), line_idx, start_col, p)
}

fn covered(ms: &[Match], line_idx: usize, start_col: usize, p: usize) -> (r: bool)
    requires
        p + start_col <= usize::MAX,
    ensures
        r == in_visible_match(ms@, line_idx as int, start_col as int, p as int),
{
    let col = p + start_col;
    let mut i: usize = 0;
    while i < ms.len()
        invariant
            i <= ms@.len(),
            col == p + start_col,
            forall|k: int|
                0 <= k < i ==> !(#[trigger] ms@[k].line == line_idx && start_col <= ms@[k].start_col
                    <= col < ms@[k].end_col),
        decreases ms.len() - i,
    {
        let m = ms[i];
        if m.line == line_idx && start_col <= m.start_col && m.start_col <= col && col < m.end_col {
            return true;
        }
        i += 1;
    }
    false
}

/// How the visible part of `line` (from column `start_col` on, in chars)
/// is drawn: runs as long as possible, a char highlighted exactly when a
/// search is active and the char lies in a match of line `line_idx` that
/// starts in view. The runs cover the visible part in order; there are
/// none when nothing of the line is visible.
pub fn highlight_segments(line: &str, line_idx: usize, start_col: usize, search: &SearchState) -> (r:
    Vec<Segment>)
    ensures
        ({
            let vis = saturating_diff(line@.len() as int, start_col as int);
            &&& r.len() == 0 <==> vis == 0
            &&& r.len() > 0 ==> r[0].start == 0 && r[r.len() - 1].end == vis
            &&& forall|k: int| 0 <= k < r.len() ==> (#[trigger] r[k]).start < r[k].end
            &&& forall|k: int|
                0 <= k < r.len() - 1 ==> (#[trigger] r[k]).end == r[k + 1].start
                    && r[k].highlighted != r[k + 1].highlighted
            &&& forall|k: int, p: int|
                #![trigger r[k], shown_highlighted(*search, line_idx as int, start_col as int, p)]
                0 <= k < r.len() && r[k].start <= p < r[k].end ==> r[k].highlighted
                    == shown_highlighted(*search, line_idx as int, start_col as int, p)
        }),
{
    let n = line.unicode_len();
    let vis = n.saturating_sub(start_col);
    let active = search.is_active();
    let ms = search.matches();
    let mut r: Vec<Segment> = Vec::new();
    let mut seg_start: usize = 0;
    let mut seg_flag = false;
    let mut p: usize = 0;
    while p < vis
        invariant
            p <= vis,
            vis + start_col <= n || vis == 0,
            n == line@.len(),
            vis == saturating_diff(n as int, start_col as int),
            active == (search.query_view() is Some),
            ms@ == search.matches_view(),
            seg_start <= p,
            p > 0 ==> seg_start < p,
            p == 0 ==> r.len() == 0,
            r.len() == 0 ==> seg_start == 0,
            r.len() > 0 ==> r[0].start == 0 && r[r.len() - 1].end == seg_start
                && r[r.len() - 1].highlighted != seg_flag,
            forall|k: int| 0 <= k < r.len() ==> (#[trigger] r[k]).start < r[k].end,
            forall|k: int|
                0 <= k < r.len() - 1 ==> (#[trigger] r[k]).end == r[k + 1].start
                    && r[k].highlighted != r[k + 1].highlighted,
            forall|k: int, q: int|
                #![trigger r[k], shown_highlighted(*search, line_idx as int, start_col as int, q)]
                0 <= k < r.len() && r[k].start <= q < r[k].end ==> r[k].highlighted
                    == shown_highlighted(*search, line_idx as int, start_col as int, q),
            forall|q: int|
                seg_start <= q < p ==> seg_flag == #[trigger] shown_highlighted(
                    *search,
                    line_idx as int,
                    start_col as int,
                    q,
                ),
        decreases vis - p,
    {
        let flag = active && covered(ms, line_idx, start_col, p);
        if p > 0 && flag != seg_flag {
            r.push(Segment { start: seg_start, end: p, highlighted: seg_flag });
            seg_start = p;
        }
        seg_flag = flag;
        p += 1;
    }
    if vis > 0 {
        r.push(Segment { start: seg_start, end: vis, highlighted: seg_flag });
        assert forall|k: int, q: int|
            #![trigger r[k], shown_highlighted(*search, line_idx as int, start_col as int, q)]
            0 <= k < r.len() && r[k].start <= q < r[k].end implies r[k].highlighted
                == shown_highlighted(*search, line_idx as int, start_col as int, q) by {
            if k == r.len() - 1 {
                assert(seg_start <= q < p);
            }
        }
    }
    r
}

} // verus!
