//! Literal, case-sensitive substring search over the lines of a document,
//! counted in chars, with overlapping matches and circular navigation.

use vstd::arithmetic::div_mod::{
    lemma_add_mod_noop, lemma_add_mod_noop_right, lemma_mod_add_multiples_vanish, lemma_small_mod,
};
use crate::text::chars_of;
use vstd::prelude::*;

verus! {

/// A match: the half-open char range `start_col..end_col` of line `line`.
#[derive(Clone, Copy, Debug, PartialEq, Eq, Structural)]
pub struct Match {
    /// Index of the line that holds the match.
    pub line: usize,
    /// Column of the first char of the match.
    pub start_col: usize,
    /// Column just past the last char of the match.
    pub end_col: usize,
}

impl Match {
    pub fn new(line: usize, start_col: usize, end_col: usize) -> (r: Self)
        ensures
            r == (Match { line, start_col, end_col }),
    {
        Match { line, start_col, end_col }
    }
}

/// The chars of each line.
pub open spec fn line_views(lines: Seq<String>) -> Seq<Seq<char>> {
    lines.map_values(|s: String| s@)
}

/// Whether `q` occurs in `l` starting at char `p`.
pub open spec fn match_at(l: Seq<char>, q: Seq<char>, p: int) -> bool {
    &&& 0 <= p
    &&& p + q.len() <= l.len()
    &&& l.subrange(p, p + q.len()) == q
}

/// The matches of `q` in line `l` (index `line`) that start before column
/// `n`, by start column.
pub open spec fn line_matches(l: Seq<char>, q: Seq<char>, line: int, n: int) -> Seq<Match>
    decreases n,
{
    if n <= 0 {
        Seq::<Match>::empty()
    } else {
        let before = line_matches(l, q, line, n - 1);
        if match_at(l, q, n - 1) {
            before.push(
                Match {
                    line: line as usize,
                    start_col: (n - 1) as usize,
                    end_col: (n - 1 + q.len()) as usize,
                },
            )
        } else {
            before
        }
    }
}

/// The matches of `q` in the first `k` lines: by line, then by start column.
pub open spec fn all_matches(lines: Seq<Seq<char>>, q: Seq<char>, k: int) -> Seq<Match>
    decreases k,
{
    if k <= 0 {
        Seq::<Match>::empty()
    } else {
        all_matches(lines, q, k - 1) + line_matches(lines[k - 1], q, k - 1, lines[k - 1].len() as int)
    }
}

/// Match `m` lies inside its line: `n` chars from its start column.
pub open spec fn match_fits(m: Match, lines: Seq<Seq<char>>, n: nat) -> bool {
    &&& m.line < lines.len()
    &&& m.start_col + n == m.end_col
    &&& m.end_col <= lines[m.line as int].len()
}

/// The columns at which `q` starts in `l`.
pub open spec fn match_positions(l: Seq<char>, q: Seq<char>) -> Set<int> {
    Set::new(|p: int| match_at(l, q, p))
}

/// The number of columns at which `q` starts, summed over the first `k` lines.
pub open spec fn total_positions(lines: Seq<Seq<char>>, q: Seq<char>, k: int) -> nat
    decreases k,
{
    if k <= 0 {
        0
    } else {
        total_positions(lines, q, k - 1) + match_positions(lines[k - 1], q).len()
    }
}

/// The index that follows `i` in a circular list of `n` items.
pub open spec fn next_index(i: int, n: int) -> int {
    (i + 1) % n
}

/// The index that comes before `i` in a circular list of `n` items.
pub open spec fn previous_index(i: int, n: int) -> int {
    (i + n - 1) % n
}

/// The index reached from `i` after `k` steps forward.
pub open spec fn advance(i: int, n: int, k: nat) -> int
    decreases k,
{
    if k == 0 {
        i
    } else {
        next_index(advance(i, n, (k - 1) as nat), n)
    }
}

/// The state of a search: the query, the matches it found, and which one
/// is current.
pub struct SearchState {
    query: Option<String>,
    matches: Vec<Match>,
    current_index: Option<usize>,
}

impl SearchState {
    /// The query, if a search is active.
    pub closed spec fn query_view(&self) -> Option<Seq<char>> {
        match self.query {
            Some(q) => Some(q@),
            None => None,
        }
    }

    /// The matches of the last search.
    pub closed spec fn matches_view(&self) -> Seq<Match> {
        self.matches@
    }

    /// The index of the current match.
    pub closed spec fn current_view(&self) -> Option<usize> {
        self.current_index
    }

    /// There is a current match exactly when there are matches, and it is
    /// one of them.
    pub open spec fn wf(&self) -> bool {
        &&& (self.matches_view().len() == 0 <==> self.current_view() is None)
        &&& (self.current_view() matches Some(i) ==> i < self.matches_view().len())
    }

    /// No search: no query, no match.
    pub fn new() -> (r: Self)
        ensures
            r.wf(),
            r.query_view() is None,
            r.matches_view() == Seq::<Match>::empty(),
            r.current_view() is None,
    {
        SearchState { query: None, matches: Vec::new(), current_index: None }
    }

    pub fn query(&self) -> (r: Option<&String>)
        ensures
            r is None <==> self.query_view() is None,
            r matches Some(q) ==> self.query_view() == Some(q@),
    {
        self.query.as_ref()
    }

    pub fn matches(&self) -> (r: &[Match])
        ensures
            r@ == self.matches_view(),
    {
        self.matches.as_slice()
    }

    pub fn current_index(&self) -> (r: Option<usize>)
        ensures
            r == self.current_view(),
    {
        self.current_index
    }

    /// The current match, if any.
    pub fn current_match(&self) -> (r: Option<&Match>)
        requires
            self.wf(),
        ensures
            r is None <==> self.current_view() is None,
            r matches Some(m) ==> *m == self.matches_view()[self.current_view()->0 as int],
    {
        match self.current_index {
            Some(i) => Some(&self.matches[i]),
            None => None,
        }
    }

    /// Whether a search is active: a query is set.
    pub fn is_active(&self) -> (r: bool)
        ensures
            r == self.query_view() is Some,
    {
        self.query.is_some()
    }

    pub fn match_count(&self) -> (r: usize)
        ensures
            r == self.matches_view().len(),
    {
        self.matches.len()
    }

    /// Searches every line for `query`. An empty query cancels the search:
    /// no query, no match. Otherwise the query is kept, the matches are every
    /// occurrence, overlapping ones too, by line and then by column, and the
    /// first one, if any, becomes current. Returns the number of matches.
    pub fn search(&mut self, query: &str, lines: &[String]) -> (r: usize)
        ensures
            final(self).wf(),
            r == final(self).matches_view().len(),
            query@.len() == 0 ==> final(self).query_view() is None && r == 0,
            query@.len() > 0 ==> final(self).query_view() == Some(query@)
                && final(self).matches_view() == all_matches(
                line_views(lines@),
                query@,
                lines@.len() as int,
            ),
            forall|j: int|
                0 <= j < r ==> match_fits(
                    #[trigger] final(self).matches_view()[j],
                    line_views(lines@),
                    query@.len(),
                ),
            final(self).current_view() == (if r > 0 {
                Some(0usize)
            } else {
                None::<usize>
            }),
    {
        self.matches.clear();
        self.current_index = None;
        if query.is_empty() {
            self.query = None;
            return 0;
        }
        self.query = Some(query.to_owned());
        let q = chars_of(query);
        let ghost views = line_views(lines@);
        for line_idx in 0..lines.len()
            invariant
                q@ == query@,
                q@.len() > 0,
                views == line_views(lines@),
                self.matches@ == all_matches(views, q@, line_idx as int),
                self.query_view() == Some(query@),
                self.current_index is None,
                forall|j: int|
                    0 <= j < self.matches@.len() ==> match_fits(
                        #[trigger] self.matches@[j],
                        views,
                        query@.len(),
                    ),
        {
            let line = chars_of(lines[line_idx].as_str());
            let mut char_col: usize = 0;
            while char_col < line.len()
                invariant
                    0 <= line_idx < lines@.len(),
                    views == line_views(lines@),
                    char_col <= line@.len(),
                    line@ == views[line_idx as int],
                    q@ == query@,
                    q@.len() > 0,
                    self.matches@ == all_matches(views, q@, line_idx as int) + line_matches(
                        line@,
                        q@,
                        line_idx as int,
                        char_col as int,
                    ),
                    self.query_view() == Some(query@),
                    self.current_index is None,
                    forall|j: int|
                        0 <= j < self.matches@.len() ==> match_fits(
                            #[trigger] self.matches@[j],
                            views,
                            query@.len(),
                        ),
                decreases line.len() - char_col,
            {
                if occurs_at(&line, &q, char_col) {
                    self.matches.push(Match::new(line_idx, char_col, char_col + q.len()));
                }
                char_col += 1;
            }
        }
        if self.matches.len() > 0 {
            self.current_index = Some(0);
        }
        self.matches.len()
    }

    /// Makes the match after the current one current, going from the last
    /// back to the first, and returns it; `None` when there is no match.
    pub fn next_match(&mut self) -> (r: Option<&Match>)
        requires
            old(self).wf(),
        ensures
            final(self).wf(),
            final(self).query_view() == old(self).query_view(),
            final(self).matches_view() == old(self).matches_view(),
            old(self).matches_view().len() == 0 ==> r is None && final(self).current_view()
                is None,
            old(self).matches_view().len() > 0 ==> ({
                let n = old(self).matches_view().len() as int;
                let i = next_index(old(self).current_view()->0 as int, n);
                &&& final(self).current_view() == Some(i as usize)
                &&& r matches Some(m) && *m == old(self).matches_view()[i]
            }),
    {
        if self.matches.len() == 0 {
            return None;
        }
        match self.current_index {
            Some(current_idx) => {
                let next_idx = (current_idx + 1) % self.matches.len();
                self.current_index = Some(next_idx);
                Some(&self.matches[next_idx])
            },
            None => None,
        }
    }

    /// Makes the match before the current one current, going from the first
    /// back to the last, and returns it; `None` when there is no match.
    pub fn previous_match(&mut self) -> (r: Option<&Match>)
        requires
            old(self).wf(),
        ensures
            final(self).wf(),
            final(self).query_view() == old(self).query_view(),
            final(self).matches_view() == old(self).matches_view(),
            old(self).matches_view().len() == 0 ==> r is None && final(self).current_view()
                is None,
            old(self).matches_view().len() > 0 ==> ({
                let n = old(self).matches_view().len() as int;
                let i = previous_index(old(self).current_view()->0 as int, n);
                &&& final(self).current_view() == Some(i as usize)
                &&& r matches Some(m) && *m == old(self).matches_view()[i]
            }),
    {
        if self.matches.len() == 0 {
            return None;
        }
        match self.current_index {
            Some(current_idx) => {
                let total = self.matches.len();
                let prev_idx = if current_idx == 0 {
                    total - 1
                } else {
                    current_idx - 1
                };
                proof {
                    let i = current_idx as int;
                    let n = total as int;
                    if i == 0 {
                        lemma_small_mod((n - 1) as nat, n as nat);
                    } else {
                        lemma_mod_add_multiples_vanish(i - 1, n);
                        lemma_small_mod((i - 1) as nat, n as nat);
                    }
                    assert(prev_idx as int == previous_index(i, n));
                }
                self.current_index = Some(prev_idx);
                Some(&self.matches[prev_idx])
            },
            None => None,
        }
    }
}


/// Whether `q` occurs in `l` at column `p`.
fn occurs_at(l: &Vec<char>, q: &Vec<char>, p: usize) -> (r: bool)
    ensures
        r == match_at(l@, q@, p as int),
{
    if q.len() > l.len() || p > l.len() - q.len() {
        return false;
    }
    let mut k: usize = 0;
    while k < q.len()
        invariant
            k <= q.len(),
            p + q.len() <= l.len(),
            forall|j: int| 0 <= j < k ==> l@[p + j] == q@[j],
        decreases q.len() - k,
    {
        if l[p + k] != q[k] {
            assert(l@.subrange(p as int, p + q.len())[k as int] != q@[k as int]);
            return false;
        }
        k += 1;
    }
    assert(l@.subrange(p as int, p + q.len()) =~= q@);
    true
}

/// The match count of a search is the number of columns, over all lines,
/// at which the query starts; overlapping occurrences each count.
pub proof fn lemma_match_count(lines: Seq<Seq<char>>, q: Seq<char>, k: int)
    requires
        q.len() > 0,
        0 <= k <= lines.len(),
    ensures
        all_matches(lines, q, k).len() == total_positions(lines, q, k),
    decreases k,
{
    if k > 0 {
        lemma_match_count(lines, q, k - 1);
        let l = lines[k - 1];
        lemma_line_match_count(l, q, k - 1, l.len() as int);
        assert(match_positions(l, q) =~= positions_below(l, q, l.len() as int));
    }
}

/// The columns below `n` at which `q` starts in `l`.
spec fn positions_below(l: Seq<char>, q: Seq<char>, n: int) -> Set<int> {
    Set::new(|p: int| p < n && match_at(l, q, p))
}

proof fn lemma_line_match_count(l: Seq<char>, q: Seq<char>, line: int, n: int)
    requires
        0 <= n,
    ensures
        positions_below(l, q, n).finite(),
        line_matches(l, q, line, n).len() == positions_below(l, q, n).len(),
    decreases n,
{
    if n == 0 {
        assert(positions_below(l, q, n) =~= Set::<int>::empty());
    } else {
        lemma_line_match_count(l, q, line, n - 1);
        let below = positions_below(l, q, n - 1);
        if match_at(l, q, n - 1) {
            assert(positions_below(l, q, n) =~= below.insert(n - 1));
            assert(!below.contains(n - 1));
        } else {
            assert(positions_below(l, q, n) =~= below);
        }
    }
}

/// Stepping forward `k` times from `i` lands on `(i + k) mod n`.
proof fn lemma_advance(i: int, n: int, k: nat)
    requires
        0 <= i < n,
    ensures
        advance(i, n, k) == (i + k) % n,
    decreases k,
{
    if k == 0 {
        lemma_small_mod(i as nat, n as nat);
    } else {
        lemma_advance(i, n, (k - 1) as nat);
        let x = i + k - 1;
        lemma_add_mod_noop(x, 1, n);
        lemma_add_mod_noop_right(x % n, 1, n);
    }
}

/// Stepping forward as many times as there are matches comes back to the
/// match one started from.
pub proof fn lemma_full_cycle(i: int, n: int)
    requires
        0 <= i < n,
    ensures
        advance(i, n, n as nat) == i,
{
    lemma_advance(i, n, n as nat);
    assert((i + n) % n == i % n) by {
        lemma_mod_add_multiples_vanish(i, n);
    }
    lemma_small_mod(i as nat, n as nat);
}

} // verus!
