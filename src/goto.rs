//! The go-to prompt: an entry `line,column`, both counted from 1, read into
//! zero-based coordinates or into the reason it is refused.

use crate::editor::StatusMessage;
use crate::text::chars_of;
use vstd::prelude::*;

verus! {

/// What `str::trim` leaves of a text.
pub uninterp spec fn trimmed(s: Seq<char>) -> Seq<char>;

/// Relies on `str::trim`: the text without its leading and trailing white
/// space.
#[verifier::external_body]
fn trim_text(s: &str) -> (r: String)
    ensures
        r@ == trimmed(s@),
{
    s.trim().to_owned()
}

pub open spec fn is_digit(c: char) -> bool {
    '0' <= c <= '9'
}

pub open spec fn all_digits(d: Seq<char>) -> bool {
    forall|k: int| 0 <= k < d.len() ==> is_digit(#[trigger] d[k])
}

/// The number that a run of decimal digits writes.
pub open spec fn digits_value(d: Seq<char>) -> nat
    decreases d.len(),
{
    if d.len() == 0 {
        0
    } else {
        10 * digits_value(d.drop_last()) + (d.last() as nat - '0' as nat) as nat
    }
}

/// The number a text writes in decimal, as an unsigned integer is read: an
/// optional `+`, then one digit or more, nothing else.
pub open spec fn decimal_value(s: Seq<char>) -> Option<nat> {
    let d = if s.len() > 0 && s[0] == '+' {
        s.skip(1)
    } else {
        s
    };
    if d.len() > 0 && all_digits(d) {
        Some(digits_value(d))
    } else {
        None
    }
}

/// The `usize` a text writes; none when it writes no number or one too large.
pub open spec fn parsed_usize(s: Seq<char>) -> Option<usize> {
    match decimal_value(s) {
        Some(n) => if n <= usize::MAX {
            Some(n as usize)
        } else {
            None
        },
        None => None,
    }
}

/// The zero-based coordinates that a line text and a column text ask for.
pub open spec fn coords_from(line_text: Seq<char>, col_text: Seq<char>) -> Result<
    (usize, usize),
    StatusMessage,
> {
    match (parsed_usize(line_text), parsed_usize(col_text)) {
        (Some(line), Some(col)) => if line == 0 || col == 0 {
            Err(StatusMessage::LinesStartAtOne)
        } else {
            Ok(((line - 1) as usize, (col - 1) as usize))
        },
        _ => Err(StatusMessage::InvalidNumbers),
    }
}

/// The number of commas in a text.
pub open spec fn comma_count(s: Seq<char>) -> nat
    decreases s.len(),
{
    if s.len() == 0 {
        0
    } else {
        comma_count(s.drop_last()) + if s.last() == ',' {
            1nat
        } else {
            0nat
        }
    }
}

proof fn lemma_comma_count_append(a: Seq<char>, b: Seq<char>)
    ensures
        comma_count(a + b) == comma_count(a) + comma_count(b),
    decreases b.len(),
{
    if b.len() == 0 {
        assert(a + b =~= a);
    } else {
        lemma_comma_count_append(a, b.drop_last());
        assert((a + b).drop_last() =~= a + b.drop_last());
    }
}

/// Two commas at two places make at least two commas.
proof fn lemma_two_commas(s: Seq<char>, p: int, q: int)
    requires
        0 <= p < q < s.len(),
        s[p] == ',',
        s[q] == ',',
    ensures
        comma_count(s) >= 2,
{
    let a = s.take(p);
    let b = s.subrange(p, q);
    let c = s.skip(q);
    assert(s =~= a + b + c);
    lemma_comma_count_append(a + b, c);
    lemma_comma_count_append(a, b);
    assert(b =~= seq![','] + b.skip(1));
    lemma_comma_count_append(seq![','], b.skip(1));
    assert(c =~= seq![','] + c.skip(1));
    lemma_comma_count_append(seq![','], c.skip(1));
    assert(seq![','].drop_last() =~= Seq::<char>::empty());
}

proof fn lemma_digits_prefix(d: Seq<char>, k: int)
    requires
        0 <= k <= d.len(),
    ensures
        digits_value(d.take(k)) <= digits_value(d),
    decreases d.len(),
{
    if k < d.len() {
        lemma_digits_prefix(d.drop_last(), k);
        assert(d.drop_last().take(k) =~= d.take(k));
    } else {
        assert(d.take(k) =~= d);
    }
}

/// Reads a `usize` written in decimal, as `str::parse::<usize>` does.
pub fn parse_usize(s: &str) -> (r: Option<usize>)
    ensures
        r == parsed_usize(s@),
{
    let chars = chars_of(s);
    let n = chars.len();
    let start: usize = if n > 0 && chars[0] == '+' {
        1
    } else {
        0
    };
    let ghost d = if s@.len() > 0 && s@[0] == '+' {
        s@.skip(1)
    } else {
        s@
    };
    assert(d =~= chars@.skip(start as int));
    assert(decimal_value(s@) == if d.len() > 0 && all_digits(d) {
        Some(digits_value(d))
    } else {
        None
    });
    if start == n {
        return None;
    }
    let mut value: usize = 0;
    let mut i: usize = start;
    while i < n
        invariant
            start <= i <= n,
            n == chars@.len(),
            chars@ == s@,
            d == chars@.skip(start as int),
            decimal_value(s@) == if d.len() > 0 && all_digits(d) {
                Some(digits_value(d))
            } else {
                None
            },
            all_digits(d.take(i - start)),
            value == digits_value(d.take(i - start)),
        decreases n - i,
    {
        let c = chars[i];
        let ghost k = i - start;
        assert(d[k] == c);
        if c < '0' || c > '9' {
            assert(!is_digit(d[k]));
            assert(!all_digits(d));
            assert(decimal_value(s@) is None);
            return None;
        }
        assert(d.take(k + 1).drop_last() =~= d.take(k));
        let digit = (c as u32 - '0' as u32) as usize;
        assert(d.take(k + 1).last() == c);
        assert(digit as nat == (c as nat - '0' as nat) as nat);
        assert(digits_value(d.take(k + 1)) == 10 * value + digit);
        if value > (usize::MAX - digit) / 10 {
            proof {
                assert(10 * value + digit > usize::MAX) by (nonlinear_arith)
                    requires
                        value > (usize::MAX - digit) / 10,
                        digit <= 9,
                ;
                lemma_digits_prefix(d, k + 1);
                assert(digits_value(d) > usize::MAX);
            }
            return None;
        }
        proof {
            assert(10 * value + digit <= usize::MAX) by (nonlinear_arith)
                requires
                    value <= (usize::MAX - digit) / 10,
                    digit <= 9,
            ;
        }
        value = value * 10 + digit;
        i += 1;
    }
    assert(d.take(n - start) =~= d);
    Some(value)
}

/// The coordinates asked for by a line text and a column text, both
/// already trimmed and counted from 1. Either text that is not a number
/// gives `InvalidNumbers`; a 0 gives `LinesStartAtOne`.
pub fn go_to_target(line_text: &str, col_text: &str) -> (r: Result<(usize, usize), StatusMessage>)
    ensures
        r == coords_from(line_text@, col_text@),
{
    match (parse_usize(line_text), parse_usize(col_text)) {
        (Some(line), Some(col)) => {
            if line == 0 || col == 0 {
                Err(StatusMessage::LinesStartAtOne)
            } else {
                Ok((line - 1, col - 1))
            }
        },
        _ => Err(StatusMessage::InvalidNumbers),
    }
}

/// Reads a go-to entry `line,column`: anything but exactly two parts around
/// one comma gives `InvalidFormat`; each part is trimmed and read as by
/// `go_to_target`.
pub fn parse_go_to(input: &str) -> (r: Result<(usize, usize), StatusMessage>)
    ensures
        comma_count(input@) != 1 ==> r == Err::<(usize, usize), StatusMessage>(
            StatusMessage::InvalidFormat,
        ),
        forall|p: int|
            0 <= p < input@.len() && input@[p] == ',' && comma_count(input@) == 1 ==> r
                == coords_from(trimmed(input@.take(p)), trimmed(#[trigger] input@.skip(p + 1))),
{
    let chars = chars_of(input);
    let mut commas: usize = 0;
    let mut first: usize = 0;
    for i in 0..chars.len()
        invariant
            chars@ == input@,
            commas <= i,
            commas == comma_count(chars@.take(i as int)),
            commas > 0 ==> first < i && chars@[first as int] == ',',
    {
        assert(chars@.take(i + 1).drop_last() =~= chars@.take(i as int));
        if chars[i] == ',' {
            if commas == 0 {
                first = i;
            }
            commas += 1;
        }
    }
    assert(chars@.take(chars@.len() as int) =~= chars@);
    if commas != 1 {
        return Err(StatusMessage::InvalidFormat);
    }
    let line_text = trim_text(input.substring_char(0, first));
    let col_text = trim_text(input.substring_char(first + 1, chars.len()));
    proof {
        assert forall|p: int| 0 <= p < input@.len() && input@[p] == ',' implies p == first by {
            if p < first {
                lemma_two_commas(input@, p, first as int);
            } else if p > first {
                lemma_two_commas(input@, first as int, p);
            }
        }
        assert(input@.subrange(0, first as int) =~= input@.take(first as int));
        assert(input@.subrange(first + 1, chars@.len() as int) =~= input@.skip(first + 1));
    }
    go_to_target(line_text.as_str(), col_text.as_str())
}

} // verus!
