//! The mathematical model of a document: a text is a sequence of chars, and
//! its lines are that text cut at every `'\n'`.

use vstd::prelude::*;

verus! {

/// The lines of a text: the text cut at every `'\n'`, the separators dropped.
/// A text without `'\n'` is a single line; a text that ends with `'\n'` ends
/// with an empty line.
pub open spec fn split_lines(t: Seq<char>) -> Seq<Seq<char>>
    decreases t.len(),
{
    if t.len() == 0 {
        seq![Seq::<char>::empty()]
    } else {
        let ls = split_lines(t.drop_last());
        if t.last() == '\n' {
            ls.push(Seq::<char>::empty())
        } else {
            ls.update(ls.len() - 1, ls.last().push(t.last()))
        }
    }
}

/// The lines joined back into one text, with a single `'\n'` between two lines.
pub open spec fn join_lines(ls: Seq<Seq<char>>) -> Seq<char>
    decreases ls.len(),
{
    if ls.len() == 0 {
        Seq::<char>::empty()
    } else if ls.len() == 1 {
        ls[0]
    } else {
        join_lines(ls.drop_last()) + seq!['\n'] + ls.last()
    }
}

pub open spec fn has_no_newline(l: Seq<char>) -> bool {
    forall|k: int| 0 <= k < l.len() ==> l[k] != '\n'
}

/// At least one line, and no line holds a line terminator.
pub open spec fn well_formed_lines(ls: Seq<Seq<char>>) -> bool {
    &&& ls.len() >= 1
    &&& forall|k: int| 0 <= k < ls.len() ==> has_no_newline(#[trigger] ls[k])
}

/// Char offset, in the joined text, of the first char of line `i`: the
/// lengths of the lines before it, plus one separator after each.
pub open spec fn line_start(ls: Seq<Seq<char>>, i: int) -> int
    decreases i,
{
    if i <= 0 {
        0
    } else {
        line_start(ls, i - 1) + ls[i - 1].len() + 1
    }
}

/// `min(col, n)`: a column clamped to a line of `n` chars.
pub open spec fn clamp(col: int, n: int) -> int {
    if col < n {
        col
    } else {
        n
    }
}

pub proof fn lemma_split_nonempty(t: Seq<char>)
    ensures
        split_lines(t).len() >= 1,
    decreases t.len(),
{
    if t.len() > 0 {
        lemma_split_nonempty(t.drop_last());
    }
}

/// Cutting at a `'\n'` splits the lines in two.
pub proof fn lemma_split_concat(a: Seq<char>, b: Seq<char>)
    ensures
        split_lines(a + seq!['\n'] + b) == split_lines(a) + split_lines(b),
    decreases b.len(),
{
    let t = a + seq!['\n'] + b;
    let e = Seq::<char>::empty();
    lemma_split_nonempty(a);
    if b.len() == 0 {
        assert(t.drop_last() =~= a);
        assert(b =~= e);
        assert(split_lines(b) =~= seq![e]);
        assert(split_lines(a).push(e) =~= split_lines(a) + seq![e]);
    } else {
        let b0 = b.drop_last();
        let x = b.last();
        lemma_split_concat(a, b0);
        lemma_split_nonempty(b0);
        assert(t.drop_last() =~= a + seq!['\n'] + b0);
        assert(t.last() == x);
        let la = split_lines(a);
        let lb = split_lines(b0);
        if x == '\n' {
            assert((la + lb).push(e) =~= la + lb.push(e));
        } else {
            let ls = la + lb;
            assert(ls.update(ls.len() - 1, ls.last().push(x)) =~= la + lb.update(
                lb.len() - 1,
                lb.last().push(x),
            ));
        }
    }
}

/// A text without a line terminator is one line.
pub proof fn lemma_split_plain(a: Seq<char>)
    requires
        has_no_newline(a),
    ensures
        split_lines(a) == seq![a],
    decreases a.len(),
{
    if a.len() == 0 {
        assert(a =~= Seq::<char>::empty());
    } else {
        let a0 = a.drop_last();
        assert(has_no_newline(a0));
        lemma_split_plain(a0);
        assert(a0.push(a.last()) =~= a);
        assert(seq![a0].update(0, a0.push(a.last())) =~= seq![a]);
    }
}

/// The lines of any text are well formed, and joining them gives the text back.
pub proof fn lemma_split_join(t: Seq<char>)
    ensures
        well_formed_lines(split_lines(t)),
        join_lines(split_lines(t)) == t,
    decreases t.len(),
{
    let ls = split_lines(t);
    if t.len() == 0 {
        assert(t =~= Seq::<char>::empty());
    } else {
        let t0 = t.drop_last();
        let x = t.last();
        lemma_split_join(t0);
        let ls0 = split_lines(t0);
        if x == '\n' {
            assert(ls.drop_last() =~= ls0);
            assert forall|k: int| 0 <= k < ls.len() implies has_no_newline(#[trigger] ls[k]) by {
                if k < ls0.len() {
                    assert(ls[k] == ls0[k]);
                }
            }
            assert(t0 + seq!['\n'] + Seq::<char>::empty() =~= t);
        } else {
            assert forall|k: int| 0 <= k < ls.len() implies has_no_newline(#[trigger] ls[k]) by {
                if k < ls0.len() - 1 {
                    assert(ls[k] == ls0[k]);
                } else {
                    assert(ls[k] == ls0.last().push(x));
                    assert(has_no_newline(ls0[ls0.len() - 1]));
                }
            }
            if ls0.len() == 1 {
                assert(ls0[0].push(x) =~= t);
            } else {
                assert(ls.drop_last() =~= ls0.drop_last());
                assert(join_lines(ls0) == join_lines(ls0.drop_last()) + seq!['\n'] + ls0.last());
                assert(t =~= t0.push(x));
                assert(join_lines(ls0.drop_last()) + seq!['\n'] + ls0.last().push(x) =~= (
                join_lines(ls0.drop_last()) + seq!['\n'] + ls0.last()).push(x));
            }
        }
    }
}

/// Well-formed lines are what their joined text splits into.
pub proof fn lemma_join_split(ls: Seq<Seq<char>>)
    requires
        well_formed_lines(ls),
    ensures
        split_lines(join_lines(ls)) == ls,
    decreases ls.len(),
{
    if ls.len() == 1 {
        assert(has_no_newline(ls[0]));
        lemma_split_plain(ls[0]);
        assert(seq![ls[0]] =~= ls);
    } else {
        let ls0 = ls.drop_last();
        assert(well_formed_lines(ls0)) by {
            assert forall|k: int| 0 <= k < ls0.len() implies has_no_newline(#[trigger] ls0[k]) by {
                assert(ls0[k] == ls[k]);
            }
        }
        lemma_join_split(ls0);
        lemma_split_concat(join_lines(ls0), ls.last());
        assert(has_no_newline(ls[ls.len() - 1]));
        lemma_split_plain(ls.last());
        assert(ls0 + seq![ls.last()] =~= ls);
    }
}

/// Joining two non-empty runs of lines puts one separator between them.
pub proof fn lemma_join_append(a: Seq<Seq<char>>, b: Seq<Seq<char>>)
    requires
        a.len() >= 1,
        b.len() >= 1,
    ensures
        join_lines(a + b) == join_lines(a) + seq!['\n'] + join_lines(b),
    decreases b.len(),
{
    if b.len() == 1 {
        assert((a + b).drop_last() =~= a);
        assert((a + b).last() == b[0]);
    } else {
        let b0 = b.drop_last();
        lemma_join_append(a, b0);
        assert((a + b).drop_last() =~= a + b0);
        assert((a + b).last() == b.last());
        assert(join_lines(a) + seq!['\n'] + join_lines(b0) + seq!['\n'] + b.last() =~= join_lines(
            a,
        ) + seq!['\n'] + (join_lines(b0) + seq!['\n'] + b.last()));
    }
}

/// The start of line `i` is just past the joined text of the lines before it.
pub proof fn lemma_line_start_join(ls: Seq<Seq<char>>, i: int)
    requires
        1 <= i <= ls.len(),
    ensures
        line_start(ls, i) == join_lines(ls.take(i)).len() + 1,
    decreases i,
{
    assert(line_start(ls, i) == line_start(ls, i - 1) + ls[i - 1].len() + 1);
    if i == 1 {
        assert(line_start(ls, 0) == 0);
        assert(ls.take(1) =~= seq![ls[0]]);
        assert(join_lines(ls.take(1)) == ls[0]);
    } else {
        lemma_line_start_join(ls, i - 1);
        let ti = ls.take(i);
        assert(ti.drop_last() =~= ls.take(i - 1));
        assert(ti.last() == ls[i - 1]);
        assert(join_lines(ti) == join_lines(ti.drop_last()) + seq!['\n'] + ti.last());
    }
}

/// The whole text ends where the last line ends.
pub proof fn lemma_text_len(ls: Seq<Seq<char>>)
    requires
        ls.len() >= 1,
    ensures
        line_start(ls, ls.len() - 1) + ls[ls.len() - 1].len() == join_lines(ls).len(),
{
    lemma_line_start_join(ls, ls.len() as int);
    assert(ls.take(ls.len() as int) =~= ls);
}

/// Lines `i..=j` occupy the chars `line_start(i) .. line_start(j) + len(j)`
/// of the joined text; putting `mid` in their place replaces them by the
/// lines of `mid`.
pub proof fn lemma_replace_lines(ls: Seq<Seq<char>>, i: int, j: int, mid: Seq<char>)
    requires
        well_formed_lines(ls),
        0 <= i <= j < ls.len(),
    ensures
        ({
            let t = join_lines(ls);
            let s = line_start(ls, i);
            let e = line_start(ls, j) + ls[j].len();
            &&& 0 <= s <= e <= t.len()
            &&& t.subrange(s, e) == join_lines(ls.subrange(i, j + 1))
            &&& split_lines(t.take(s) + mid + t.skip(e)) == ls.take(i) + split_lines(mid)
                + ls.skip(j + 1)
        }),
{
    let t = join_lines(ls);
    let s = line_start(ls, i);
    let e = line_start(ls, j) + ls[j].len();
    let a = ls.take(i);
    let m = ls.subrange(i, j + 1);
    let c = ls.skip(j + 1);
    let mc = ls.skip(i);
    let n = ls.len();
    assert(well_formed_lines(c) || c.len() == 0) by {
        assert forall|k: int| 0 <= k < c.len() implies has_no_newline(#[trigger] c[k]) by {
            assert(c[k] == ls[j + 1 + k]);
        }
    }
    assert(well_formed_lines(a) || a.len() == 0) by {
        assert forall|k: int| 0 <= k < a.len() implies has_no_newline(#[trigger] a[k]) by {
            assert(a[k] == ls[k]);
        }
    }
    // join of the middle and the tail
    assert(m + c =~= mc);
    let jmc = if c.len() > 0 {
        lemma_join_append(m, c);
        join_lines(m) + seq!['\n'] + join_lines(c)
    } else {
        assert(m =~= mc);
        join_lines(m)
    };
    assert(join_lines(mc) == jmc);
    // where line j ends
    lemma_line_start_join(ls, j + 1);
    assert(line_start(ls, j + 1) == e + 1);
    assert(ls.take(j + 1) =~= a + m);
    if i > 0 {
        lemma_line_start_join(ls, i);
        lemma_join_append(a, m);
        lemma_join_append(a, mc);
        assert(a + mc =~= ls);
        assert(s == join_lines(a).len() + 1);
        assert(e == s + join_lines(m).len());
        assert(t == join_lines(a) + seq!['\n'] + jmc);
        assert(t.take(s) =~= join_lines(a) + seq!['\n']);
        assert(t.subrange(s, e) =~= join_lines(m));
        lemma_join_split(a);
        if c.len() > 0 {
            lemma_join_split(c);
            assert(t.skip(e) =~= seq!['\n'] + join_lines(c));
            let nt = t.take(s) + mid + t.skip(e);
            assert(nt =~= join_lines(a) + seq!['\n'] + (mid + seq!['\n'] + join_lines(c)));
            lemma_split_concat(join_lines(a), mid + seq!['\n'] + join_lines(c));
            lemma_split_concat(mid, join_lines(c));
            assert(a + (split_lines(mid) + c) =~= a + split_lines(mid) + c);
        } else {
            assert(t.skip(e) =~= Seq::<char>::empty());
            let nt = t.take(s) + mid + t.skip(e);
            assert(nt =~= join_lines(a) + seq!['\n'] + mid);
            lemma_split_concat(join_lines(a), mid);
            assert(c =~= Seq::<Seq<char>>::empty());
            assert(a + split_lines(mid) + c =~= a + split_lines(mid));
        }
    } else {
        assert(s == 0);
        assert(mc =~= ls);
        assert(a + m =~= m);
        assert(e == join_lines(m).len());
        assert(t.take(s) =~= Seq::<char>::empty());
        assert(t.subrange(s, e) =~= join_lines(m));
        assert(a =~= Seq::<Seq<char>>::empty());
        if c.len() > 0 {
            lemma_join_split(c);
            assert(t.skip(e) =~= seq!['\n'] + join_lines(c));
            let nt = t.take(s) + mid + t.skip(e);
            assert(nt =~= mid + seq!['\n'] + join_lines(c));
            lemma_split_concat(mid, join_lines(c));
            assert(a + split_lines(mid) + c =~= split_lines(mid) + c);
        } else {
            assert(t.skip(e) =~= Seq::<char>::empty());
            let nt = t.take(s) + mid + t.skip(e);
            assert(nt =~= mid);
            assert(a + split_lines(mid) + c =~= split_lines(mid));
        }
    }
}

/// Chars without a line break appended to a text extend its last line.
pub proof fn lemma_split_append_plain(s: Seq<char>, tail: Seq<char>)
    requires
        has_no_newline(tail),
    ensures
        ({
            let ps = split_lines(s);
            split_lines(s + tail) == ps.update(ps.len() - 1, ps.last() + tail)
        }),
    decreases tail.len(),
{
    lemma_split_nonempty(s);
    let ps = split_lines(s);
    if tail.len() == 0 {
        assert(s + tail =~= s);
        assert(ps.last() + tail =~= ps.last());
        assert(ps.update(ps.len() - 1, ps.last()) =~= ps);
    } else {
        let t0 = tail.drop_last();
        assert(has_no_newline(t0));
        lemma_split_append_plain(s, t0);
        assert((s + tail).drop_last() =~= s + t0);
        assert((s + tail).last() == tail.last());
        assert(tail.last() != '\n');
        let q = ps.update(ps.len() - 1, ps.last() + t0);
        assert(q.last() == ps.last() + t0);
        assert((ps.last() + t0).push(tail.last()) =~= ps.last() + tail);
        assert(q.update(q.len() - 1, q.last().push(tail.last())) =~= ps.update(
            ps.len() - 1,
            ps.last() + tail,
        ));
    }
}

/// Chars without a line break put before a text extend its first line.
pub proof fn lemma_split_prepend_plain(head: Seq<char>, s: Seq<char>)
    requires
        has_no_newline(head),
    ensures
        ({
            let ps = split_lines(s);
            split_lines(head + s) == ps.update(0, head + ps[0])
        }),
    decreases s.len(),
{
    lemma_split_nonempty(s);
    let ps = split_lines(s);
    if s.len() == 0 {
        assert(head + s =~= head);
        lemma_split_plain(head);
        assert(ps.update(0, head + ps[0]) =~= seq![head]);
    } else {
        let s0 = s.drop_last();
        let x = s.last();
        lemma_split_prepend_plain(head, s0);
        lemma_split_nonempty(s0);
        assert((head + s).drop_last() =~= head + s0);
        assert((head + s).last() == x);
        let p0 = split_lines(s0);
        let q = p0.update(0, head + p0[0]);
        if x == '\n' {
            assert(q.push(Seq::<char>::empty()) =~= ps.update(0, head + ps[0]));
        } else {
            assert(q.update(q.len() - 1, q.last().push(x)) =~= ps.update(0, head + ps[0]));
        }
    }
}

/// Text put in the middle of a line: the first piece of its lines joins the
/// head, its last piece joins the tail, and the line count grows by the
/// number of line breaks.
pub proof fn lemma_split_surround(head: Seq<char>, s: Seq<char>, tail: Seq<char>)
    requires
        has_no_newline(head),
        has_no_newline(tail),
    ensures
        ({
            let ps = split_lines(s);
            let r = split_lines(head + s + tail);
            &&& r.len() == ps.len()
            &&& ps.len() == 1 ==> r[0] == head + s + tail
            &&& ps.len() > 1 ==> r[r.len() - 1] == ps.last() + tail
        }),
{
    lemma_split_nonempty(s);
    lemma_split_prepend_plain(head, s);
    lemma_split_append_plain(head + s, tail);
    let ps = split_lines(s);
    if ps.len() == 1 {
        lemma_split_join(s);
        assert(ps[0] == s);
        assert(head + s + tail =~= head + ps[0] + tail);
    }
}

/// The chars of `s`, one per element.
pub fn chars_of(s: &str) -> (r: Vec<char>)
    ensures
        r@ == s@,
{
    let mut r: Vec<char> = Vec::new();
    for c in it: s.chars()
        invariant
            it.seq() == s@,
            r@ == it.seq().take(it.index() as int),
    {
        r.push(c);
    }
    r
}

} // verus!
