//! Line selectors used across commands: `#line4`, `#4`, `line4`, `4`, and
//! ranges `#line4-7` / `4-7`.

use vstd::prelude::*;

use crate::error::{Error, Result};
use crate::text::{
    chars_of, index_of, next_char, owned, push_str, trim, trim_range,
};

verus! {

/// `s` with every leading `c` removed (`trim_start_matches(c)`).
pub open spec fn strip_leading(s: Seq<char>, c: char) -> Seq<char>
    decreases s.len(),
{
    if s.len() > 0 && s[0] == c {
        strip_leading(s.drop_first(), c)
    } else {
        s
    }
}

/// The word `line`.
pub open spec fn word_line() -> Seq<char> {
    seq!['l', 'i', 'n', 'e']
}

/// `s` with every leading `line` removed (`trim_start_matches("line")`).
pub open spec fn strip_line_words(s: Seq<char>) -> Seq<char>
    decreases s.len(),
{
    if s.len() >= 4 && s.subrange(0, 4) == word_line() {
        strip_line_words(s.subrange(4, s.len() as int))
    } else {
        s
    }
}

/// An ASCII decimal digit.
pub open spec fn is_digit(c: char) -> bool {
    48 <= (c as u32) && (c as u32) <= 57
}

/// Value of a run of decimal digits.
pub open spec fn digits_value(s: Seq<char>) -> nat
    decreases s.len(),
{
    if s.len() == 0 {
        0
    } else {
        digits_value(s.drop_last()) * 10 + ((s.last() as u32) - 48) as nat
    }
}

/// Every character of `d` is a decimal digit.
pub open spec fn all_digits(d: Seq<char>) -> bool {
    forall|i: int| 0 <= i < d.len() ==> is_digit(#[trigger] d[i])
}

/// The value of the digit run `d` under sign `neg`, if it is one or more
/// digits and the value fits in `i64`.
pub open spec fn signed_value(neg: bool, d: Seq<char>) -> Option<int> {
    if d.len() == 0 || !all_digits(d) {
        None
    } else if neg {
        if digits_value(d) <= 9223372036854775808 {
            Some(-(digits_value(d) as int))
        } else {
            None
        }
    } else if digits_value(d) <= 9223372036854775807 {
        Some(digits_value(d) as int)
    } else {
        None
    }
}

/// What `i64::from_str` accepts: an optional `+`/`-`, then one or more
/// ASCII digits, the value within `i64`.
pub open spec fn parse_i64(s: Seq<char>) -> Option<int> {
    if s.len() == 0 {
        None
    } else if s[0] == '+' {
        signed_value(false, s.drop_first())
    } else if s[0] == '-' {
        signed_value(true, s.drop_first())
    } else {
        signed_value(false, s)
    }
}

/// The selector after its decorations are peeled: trimmed, leading `#`s and
/// `line`s removed, trimmed again.
pub open spec fn cleaned(s: Seq<char>) -> Seq<char> {
    trim(strip_line_words(strip_leading(trim(s), '#')))
}

/// The `(start, end)` a selector names, before the range check: one number
/// `n` means `(n, n)`, two numbers around the first `-` mean a range, each
/// number trimmed before it is read.
pub open spec fn selector_numbers(s: Seq<char>) -> Option<(int, int)> {
    selector_numbers_of(cleaned(s))
}

/// The numbers named by an already cleaned selector `c`.
pub open spec fn selector_numbers_of(c: Seq<char>) -> Option<(int, int)> {
    let k = index_of(c, '-');
    if k >= 0 {
        match (parse_i64(trim(c.subrange(0, k))), parse_i64(trim(c.subrange(k + 1, c.len() as int)))) {
            (Some(a), Some(b)) => Some((a, b)),
            _ => None,
        }
    } else {
        match parse_i64(trim(c)) {
            Some(n) => Some((n, n)),
            None => None,
        }
    }
}

/// The inclusive one-based range a selector denotes, if it is valid: the
/// numbers parse, the start is at least 1 and the end is not before it.
pub open spec fn selector(s: Seq<char>) -> Option<(int, int)> {
    match selector_numbers(s) {
        Some((a, b)) => if a < 1 || b < a {
            None
        } else {
            Some((a, b))
        },
        None => None,
    }
}

/// The message for a selector that is not valid.
pub open spec fn bad_selector_message(s: Seq<char>) -> Seq<char> {
    "invalid line selector `"@ + s + "` (expected e.g. #line4 or 4-7)"@
}

proof fn lemma_not_all_digits(d: Seq<char>, k: int)
    requires
        0 <= k < d.len(),
        !is_digit(d[k]),
    ensures
        !all_digits(d),
{
}

/// `min(v, cap)`.
spec fn capped(v: nat, cap: nat) -> nat {
    if v < cap {
        v
    } else {
        cap
    }
}

/// Saturation bound for digit accumulation: just above `i64`'s magnitude.
const CAP: u128 = 9223372036854775809;

/// Parses the digits of `v[lo..hi]` as `i64::from_str` does.
fn parse_i64_range(v: &Vec<char>, lo: usize, hi: usize) -> (r: Option<i64>)
    requires
        lo <= hi <= v@.len(),
    ensures
        match parse_i64(v@.subrange(lo as int, hi as int)) {
            Some(n) => r == Some(n as i64),
            None => r is None,
        },
{
    let ghost s = v@.subrange(lo as int, hi as int);
    if lo == hi {
        return None;
    }
    let first = v[lo];
    let neg = first == '-';
    let start = if first == '+' || first == '-' {
        lo + 1
    } else {
        lo
    };
    let ghost d = v@.subrange(start as int, hi as int);
    proof {
        if first == '+' || first == '-' {
            assert(s.drop_first() =~= d);
        } else {
            assert(s =~= d);
        }
    }
    if start == hi {
        return None;
    }
    proof {
        assert(s.len() > 0 && s[0] == first);
        assert(parse_i64(s) == signed_value(neg, d));
    }
    let mut acc: u128 = 0;
    let mut i = start;
    while i < hi
        invariant
            start <= i <= hi <= v@.len(),
            d == v@.subrange(start as int, hi as int),
            forall|j: int| start <= j < i ==> is_digit(v@[j]),
            acc == capped(digits_value(v@.subrange(start as int, i as int)), CAP as nat),
            parse_i64(v@.subrange(lo as int, hi as int)) == signed_value(neg, d),
        decreases hi - i,
    {
        let c = v[i];
        let u = c as u32;
        if u < 48 || u > 57 {
            proof {
                assert(!is_digit(v@[i as int]));
                assert(d[i - start] == v@[i as int]);
                lemma_not_all_digits(d, i - start);
                assert(!all_digits(d));
            }
            return None;
        }
        let ghost pre = v@.subrange(start as int, i as int);
        let ghost pv = digits_value(pre);
        assert(v@.subrange(start as int, i + 1).drop_last() =~= pre);
        assert(digits_value(v@.subrange(start as int, i + 1)) == pv * 10 + (u - 48) as nat);
        let next = acc * 10 + (u - 48) as u128;
        acc = if next < CAP {
            next
        } else {
            CAP
        };
        i += 1;
    }
    assert(v@.subrange(start as int, hi as int) =~= d);
    assert forall|j: int| 0 <= j < d.len() implies is_digit(#[trigger] d[j]) by {
        assert(d[j] == v@[start + j]);
    }
    assert(all_digits(d));
    if neg {
        if acc <= 9223372036854775808 {
            if acc == 9223372036854775808 {
                Some(i64::MIN)
            } else {
                Some(-(acc as i64))
            }
        } else {
            None
        }
    } else if acc <= 9223372036854775807 {
        Some(acc as i64)
    } else {
        None
    }
}

/// Bounds of the cleaned selector inside `v` (see `cleaned`).
fn cleaned_bounds(v: &Vec<char>) -> (r: (usize, usize))
    ensures
        r.0 <= r.1 <= v@.len(),
        v@.subrange(r.0 as int, r.1 as int) == cleaned(v@),
{
    let n = v.len();
    let (a0, b0) = trim_range(v, 0, n);
    assert(v@.subrange(0, n as int) =~= v@);
    let mut a1 = a0;
    while a1 < b0 && v[a1] == '#'
        invariant
            a0 <= a1 <= b0 <= n == v@.len(),
            strip_leading(v@.subrange(a0 as int, b0 as int), '#') == strip_leading(
                v@.subrange(a1 as int, b0 as int),
                '#',
            ),
        decreases b0 - a1,
    {
        assert(v@.subrange(a1 as int, b0 as int).drop_first() =~= v@.subrange(
            a1 + 1,
            b0 as int,
        ));
        a1 += 1;
    }
    assert(strip_leading(v@.subrange(a1 as int, b0 as int), '#') == v@.subrange(
        a1 as int,
        b0 as int,
    ));
    let mut a2 = a1;
    while b0 - a2 >= 4 && v[a2] == 'l' && v[a2 + 1] == 'i' && v[a2 + 2] == 'n' && v[a2 + 3]
        == 'e'
        invariant
            a1 <= a2 <= b0 <= n == v@.len(),
            strip_line_words(v@.subrange(a1 as int, b0 as int)) == strip_line_words(
                v@.subrange(a2 as int, b0 as int),
            ),
        decreases b0 - a2,
    {
        let ghost t = v@.subrange(a2 as int, b0 as int);
        assert(t.subrange(0, 4) =~= word_line());
        assert(t.subrange(4, t.len() as int) =~= v@.subrange(a2 + 4, b0 as int));
        a2 += 4;
    }
    proof {
        let t = v@.subrange(a2 as int, b0 as int);
        if t.len() >= 4 && t.subrange(0, 4) == word_line() {
            assert(t.subrange(0, 4)[0] == 'l');
            assert(t.subrange(0, 4)[1] == 'i');
            assert(t.subrange(0, 4)[2] == 'n');
            assert(t.subrange(0, 4)[3] == 'e');
        }
        assert(strip_line_words(t) == t);
    }
    trim_range(v, a2, b0)
}

/// The numbers named by the cleaned selector `v[a..b]`.
fn numbers_of(v: &Vec<char>, a: usize, b: usize) -> (r: Option<(i64, i64)>)
    requires
        a <= b <= v@.len(),
    ensures
        match selector_numbers_of(v@.subrange(a as int, b as int)) {
            Some((x, y)) => r == Some((x as i64, y as i64)),
            None => r is None,
        },
{
    let ghost c = v@.subrange(a as int, b as int);
    let dash = next_char(v, a, b, '-');
    if dash < b {
        let (pa, pb) = trim_range(v, a, dash);
        let (qa, qb) = trim_range(v, dash + 1, b);
        assert(v@.subrange(a as int, dash as int) =~= c.subrange(0, dash - a));
        assert(v@.subrange(dash + 1, b as int) =~= c.subrange(dash - a + 1, c.len() as int));
        match (parse_i64_range(v, pa, pb), parse_i64_range(v, qa, qb)) {
            (Some(x), Some(y)) => Some((x, y)),
            _ => None,
        }
    } else {
        let (pa, pb) = trim_range(v, a, b);
        match parse_i64_range(v, pa, pb) {
            Some(x) => Some((x, x)),
            None => None,
        }
    }
}

/// Parse a line selector into an inclusive one-based `(start, end)`.
///
/// Accepted forms: `#line4`, `#4`, `line4`, `4`, `#line4-7`, `4-7`
/// (surrounding whitespace ignored). Anything else, a start below 1, or an
/// end before the start is `Error::Other` with a message that quotes `s`.
pub fn parse_selector(s: &str) -> (r: Result<(i64, i64)>)
    ensures
        match selector(s@) {
            Some((a, b)) => r == Ok::<(i64, i64), Error>((a as i64, b as i64)),
            None => r matches Err(Error::Other(m)) && m@ == bad_selector_message(s@),
        },
{
    let v = chars_of(s);
    let (a, b) = cleaned_bounds(&v);
    match numbers_of(&v, a, b) {
        Some((x, y)) => {
            if x < 1 || y < x {
                Err(bad_selector(s))
            } else {
                Ok((x, y))
            }
        },
        None => Err(bad_selector(s)),
    }
}

fn bad_selector(s: &str) -> (e: Error)
    ensures
        e matches Error::Other(m) && m@ == bad_selector_message(s@),
{
    let mut m = owned("invalid line selector `");
    push_str(&mut m, s);
    push_str(&mut m, "` (expected e.g. #line4 or 4-7)");
    Error::Other(m)
}

/// A selector that parses names a one-based, non-empty line range.
pub proof fn law_selector_is_a_line_range(s: Seq<char>)
    ensures
        selector(s) matches Some((a, b)) ==> 1 <= a <= b,
{
}

} // verus!
