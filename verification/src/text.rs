//! Character-level text primitives shared by every module: whitespace and
//! trimming as `str::trim` defines them, line splitting as `str::lines`
//! defines it, substring search, and decimal rendering.

use vstd::prelude::*;

verus! {

// ---------------------------------------------------------------------------
// Whitespace and trimming
// ---------------------------------------------------------------------------

/// Unicode `White_Space`, the set `char::is_whitespace` tests.
pub open spec fn is_ws(c: char) -> bool {
    let u = c as u32;
    (9 <= u && u <= 13) || u == 32 || u == 0x85 || u == 0xA0 || u == 0x1680 || (0x2000 <= u
        && u <= 0x200A) || u == 0x2028 || u == 0x2029 || u == 0x202F || u == 0x205F || u
        == 0x3000
}

/// Leading whitespace removed.
pub open spec fn trim_start(s: Seq<char>) -> Seq<char>
    decreases s.len(),
{
    if s.len() > 0 && is_ws(s[0]) {
        trim_start(s.drop_first())
    } else {
        s
    }
}

/// Trailing whitespace removed.
pub open spec fn trim_end(s: Seq<char>) -> Seq<char>
    decreases s.len(),
{
    if s.len() > 0 && is_ws(s.last()) {
        trim_end(s.drop_last())
    } else {
        s
    }
}

/// Leading and trailing whitespace removed (`str::trim`).
pub open spec fn trim(s: Seq<char>) -> Seq<char> {
    trim_end(trim_start(s))
}

/// Whether `c` is whitespace.
pub fn is_whitespace(c: char) -> (b: bool)
    ensures
        b == is_ws(c),
{
    let u = c as u32;
    (9 <= u && u <= 13) || u == 32 || u == 0x85 || u == 0xA0 || u == 0x1680 || (0x2000 <= u
        && u <= 0x200A) || u == 0x2028 || u == 0x2029 || u == 0x202F || u == 0x205F || u
        == 0x3000
}

/// The bounds of `v[lo..hi]` with surrounding whitespace removed.
pub fn trim_range(v: &Vec<char>, lo: usize, hi: usize) -> (r: (usize, usize))
    requires
        lo <= hi <= v@.len(),
    ensures
        lo <= r.0 <= r.1 <= hi,
        v@.subrange(r.0 as int, r.1 as int) == trim(v@.subrange(lo as int, hi as int)),
{
    let mut a = lo;
    while a < hi && is_whitespace(v[a])
        invariant
            lo <= a <= hi <= v@.len(),
            trim_start(v@.subrange(lo as int, hi as int)) == trim_start(
                v@.subrange(a as int, hi as int),
            ),
        decreases hi - a,
    {
        assert(v@.subrange(a as int, hi as int).drop_first() =~= v@.subrange(
            a + 1,
            hi as int,
        ));
        a += 1;
    }
    assert(trim_start(v@.subrange(a as int, hi as int)) == v@.subrange(a as int, hi as int));
    let mut b = hi;
    while b > a && is_whitespace(v[b - 1])
        invariant
            a <= b <= hi <= v@.len(),
            trim_end(v@.subrange(a as int, hi as int)) == trim_end(
                v@.subrange(a as int, b as int),
            ),
        decreases b - a,
    {
        assert(v@.subrange(a as int, b as int).drop_last() =~= v@.subrange(
            a as int,
            b - 1,
        ));
        b -= 1;
    }
    assert(trim_end(v@.subrange(a as int, b as int)) == v@.subrange(a as int, b as int));
    (a, b)
}

// ---------------------------------------------------------------------------
// Conversions between `str`, `String` and `Vec<char>`
// ---------------------------------------------------------------------------

/// The characters of a string slice, in order.
pub fn chars_of(s: &str) -> (v: Vec<char>)
    ensures
        v@ == s@,
{
    let mut v: Vec<char> = Vec::new();
    for c in it: s.chars()
        invariant
            v@ == it.seq().take(it.index() as int),
            it.seq() == s@,
    {
        v.push(c);
    }
    v
}

/// Appends one character (`String::push`).
#[verifier::external_body]
pub(crate) fn push_char(s: &mut String, c: char)
    ensures
        final(s)@ == old(s)@.push(c),
{
    s.push(c);
}

/// Appends a string slice.
pub(crate) fn push_str(s: &mut String, t: &str)
    ensures
        final(s)@ == old(s)@ + t@,
{
    s.append(t);
}

/// An owned copy of a string slice.
pub fn owned(s: &str) -> (r: String)
    ensures
        r@ == s@,
{
    let mut r = String::new();
    push_str(&mut r, s);
    r
}

/// The characters `v[lo..hi]` as an owned string.
pub fn string_of(v: &Vec<char>, lo: usize, hi: usize) -> (r: String)
    requires
        lo <= hi <= v@.len(),
    ensures
        r@ == v@.subrange(lo as int, hi as int),
{
    let mut r = String::new();
    let mut i = lo;
    while i < hi
        invariant
            lo <= i <= hi <= v@.len(),
            r@ == v@.subrange(lo as int, i as int),
        decreases hi - i,
    {
        push_char(&mut r, v[i]);
        assert(v@.subrange(lo as int, i + 1) =~= v@.subrange(lo as int, i as int).push(v@[i as int]));
        i += 1;
    }
    r
}

/// The characters `v[lo..hi]` as a vector.
pub fn sub_vec(v: &Vec<char>, lo: usize, hi: usize) -> (r: Vec<char>)
    requires
        lo <= hi <= v@.len(),
    ensures
        r@ == v@.subrange(lo as int, hi as int),
{
    let mut r: Vec<char> = Vec::new();
    let mut i = lo;
    while i < hi
        invariant
            lo <= i <= hi <= v@.len(),
            r@ == v@.subrange(lo as int, i as int),
        decreases hi - i,
    {
        r.push(v[i]);
        assert(v@.subrange(lo as int, i + 1) =~= v@.subrange(lo as int, i as int).push(v@[i as int]));
        i += 1;
    }
    r
}

/// The end of the line starting at `i` whose `\n` (or the end of text) is at
/// `k`: a `\r` just before a `\n` is not part of the line.
pub fn line_end(v: &Vec<char>, i: usize, k: usize) -> (e: usize)
    requires
        i <= k <= v@.len(),
    ensures
        i <= e <= k,
        k < v@.len() ==> v@.subrange(i as int, e as int) == strip_cr(v@.subrange(i as int, k as int)),
        k == v@.len() ==> e == k,
{
    if k < v.len() && k > i && v[k - 1] == '\r' {
        assert(v@.subrange(i as int, k as int).drop_last() =~= v@.subrange(i as int, k - 1));
        k - 1
    } else {
        k
    }
}

/// One step of walking `lines`: the line at `i` (ending at the next `\n`
/// position `k`) and the lines after it.
pub proof fn lemma_lines_step(v: Seq<char>, i: int, k: int)
    requires
        0 <= i < k <= v.len() || (0 <= i && i == k && k < v.len()),
        k < v.len() ==> v[k] == '\n',
        forall|j: int| i <= j < k ==> v[j] != '\n',
    ensures
        k < v.len() ==> lines(v.subrange(i, v.len() as int)) == seq![strip_cr(v.subrange(i, k))]
            + lines(v.subrange(k + 1, v.len() as int)),
        k == v.len() ==> lines(v.subrange(i, v.len() as int)) == seq![v.subrange(i, k)],
{
    let sub = v.subrange(i, v.len() as int);
    lemma_index_of_is(sub, '\n', if k < v.len() { k - i } else { -1 });
    if k < v.len() {
        assert(sub.subrange(0, k - i) =~= v.subrange(i, k));
        assert(sub.subrange(k - i + 1, sub.len() as int) =~= v.subrange(k + 1, v.len() as int));
    } else {
        assert(sub =~= v.subrange(i, k));
    }
}

/// `c` repeated `n` times.
pub open spec fn repeat_char(c: char, n: nat) -> Seq<char> {
    Seq::new(n, |_i: int| c)
}

/// Appends `n` copies of `c`.
pub fn push_repeat(s: &mut String, c: char, n: usize)
    ensures
        final(s)@ == old(s)@ + repeat_char(c, n as nat),
{
    let ghost start = s@;
    let mut i: usize = 0;
    assert(start + repeat_char(c, 0) =~= start);
    while i < n
        invariant
            i <= n,
            s@ == start + repeat_char(c, i as nat),
        decreases n - i,
    {
        push_char(s, c);
        assert(repeat_char(c, (i + 1) as nat) =~= repeat_char(c, i as nat).push(c));
        assert(start + repeat_char(c, (i + 1) as nat) =~= (start + repeat_char(c, i as nat)).push(c));
        i += 1;
    }
}

// ---------------------------------------------------------------------------
// Prefixes, substrings, search
// ---------------------------------------------------------------------------

/// `p` occurs in `s` at position `i`.
pub open spec fn occurs_at(s: Seq<char>, p: Seq<char>, i: int) -> bool {
    0 <= i && i + p.len() <= s.len() && s.subrange(i, i + p.len()) == p
}

/// `s` starts with `p`.
pub open spec fn has_prefix(s: Seq<char>, p: Seq<char>) -> bool {
    occurs_at(s, p, 0)
}

/// `p` occurs somewhere in `s` (`str::contains`).
pub open spec fn contains(s: Seq<char>, p: Seq<char>) -> bool {
    exists|i: int| occurs_at(s, p, i)
}

/// `k` is the first position at which `p` occurs in `s` (`str::find`).
pub open spec fn first_occurrence(s: Seq<char>, p: Seq<char>, k: int) -> bool {
    occurs_at(s, p, k) && forall|j: int| 0 <= j < k ==> !occurs_at(s, p, j)
}

/// Whether `p` occurs in `v` at position `i`.
pub fn matches_at(v: &Vec<char>, p: &Vec<char>, i: usize) -> (b: bool)
    ensures
        b == occurs_at(v@, p@, i as int),
{
    let n = v.len();
    if i > n || p.len() > n - i {
        return false;
    }
    let mut j: usize = 0;
    while j < p.len()
        invariant
            n == v@.len(),
            i + p@.len() <= n,
            j <= p@.len(),
            forall|k: int| 0 <= k < j ==> v@[i + k] == p@[k],
        decreases p@.len() - j,
    {
        if v[i + j] != p[j] {
            assert(v@.subrange(i as int, i + p@.len())[j as int] != p@[j as int]);
            return false;
        }
        j += 1;
    }
    assert(v@.subrange(i as int, i + p@.len()) =~= p@);
    true
}

/// The first position at which `p` occurs in `v`, if any.
pub fn find(v: &Vec<char>, p: &Vec<char>) -> (r: Option<usize>)
    ensures
        match r {
            Some(k) => first_occurrence(v@, p@, k as int),
            None => !contains(v@, p@),
        },
{
    if p.len() > v.len() {
        return None;
    }
    if p.len() == 0 {
        assert(v@.subrange(0, 0) =~= p@);
        return Some(0);
    }
    let n = v.len();
    let last = n - p.len();
    let mut i: usize = 0;
    while i <= last
        invariant
            n == v@.len(),
            p@.len() >= 1,
            last + p@.len() == n,
            forall|j: int| 0 <= j < i ==> !occurs_at(v@, p@, j),
        decreases last + 1 - i,
    {
        if matches_at(v, p, i) {
            return Some(i);
        }
        i += 1;
    }
    None
}

/// Whether `p` occurs in `v`.
pub fn contains_chars(v: &Vec<char>, p: &Vec<char>) -> (b: bool)
    ensures
        b == contains(v@, p@),
{
    find(v, p).is_some()
}

/// Whether the slice `s` contains the slice `p`.
pub fn str_contains(s: &str, p: &str) -> (b: bool)
    ensures
        b == contains(s@, p@),
{
    let v = chars_of(s);
    let q = chars_of(p);
    contains_chars(&v, &q)
}

/// Whether the slice `s` starts with the slice `p`.
pub fn str_starts_with(s: &str, p: &str) -> (b: bool)
    ensures
        b == has_prefix(s@, p@),
{
    let v = chars_of(s);
    let q = chars_of(p);
    matches_at(&v, &q, 0)
}

/// Whether two slices hold the same characters.
pub fn str_eq(a: &str, b: &str) -> (r: bool)
    ensures
        r == (a@ == b@),
{
    let v = chars_of(a);
    let w = chars_of(b);
    if v.len() != w.len() {
        return false;
    }
    let r = matches_at(&v, &w, 0);
    proof {
        if r {
            assert(v@.subrange(0, w@.len() as int) =~= v@);
        }
        if a@ == b@ {
            assert(v@.subrange(0, w@.len() as int) =~= w@);
        }
    }
    r
}

/// The number of occurrences of `c` in `s`.
pub open spec fn count_char(s: Seq<char>, c: char) -> nat
    decreases s.len(),
{
    if s.len() == 0 {
        0
    } else {
        count_char(s.drop_last(), c) + if s.last() == c {
            1nat
        } else {
            0nat
        }
    }
}

/// `count_char` over a prefix one longer.
pub proof fn lemma_count_char_step(s: Seq<char>, c: char, i: int)
    requires
        0 <= i < s.len(),
    ensures
        count_char(s.subrange(0, i + 1), c) == count_char(s.subrange(0, i), c) + if s[i]
            == c {
            1nat
        } else {
            0nat
        },
{
    assert(s.subrange(0, i + 1).drop_last() =~= s.subrange(0, i));
}

// ---------------------------------------------------------------------------
// Lines (`str::lines`)
// ---------------------------------------------------------------------------

/// The first position of `c` in `s`, or -1.
pub open spec fn index_of(s: Seq<char>, c: char) -> int
    decreases s.len(),
{
    if s.len() == 0 {
        -1
    } else if s[0] == c {
        0
    } else {
        let r = index_of(s.drop_first(), c);
        if r < 0 {
            -1
        } else {
            r + 1
        }
    }
}

/// A line with its `\r` removed when the line ended in `\r\n`.
pub open spec fn strip_cr(line: Seq<char>) -> Seq<char> {
    if line.len() > 0 && line.last() == '\r' {
        line.drop_last()
    } else {
        line
    }
}

/// The lines of `s` as `str::lines` yields them: split at `\n`, a `\r`
/// before the `\n` dropped, and no empty last line after a final `\n`.
pub open spec fn lines(s: Seq<char>) -> Seq<Seq<char>>
    decreases s.len(),
{
    if s.len() == 0 {
        seq![]
    } else {
        let k = index_of(s, '\n');
        proof {
            lemma_index_of(s, '\n');
        }
        if k < 0 {
            seq![s]
        } else {
            seq![strip_cr(s.subrange(0, k))] + lines(s.subrange(k + 1, s.len() as int))
        }
    }
}

/// `index_of` finds the first occurrence.
pub proof fn lemma_index_of(s: Seq<char>, c: char)
    ensures
        -1 <= index_of(s, c) < s.len(),
        index_of(s, c) >= 0 ==> s[index_of(s, c)] == c,
        forall|j: int| 0 <= j < s.len() && (index_of(s, c) < 0 || j < index_of(s, c)) ==> s[j]
            != c,
    decreases s.len(),
{
    if s.len() > 0 && s[0] != c {
        lemma_index_of(s.drop_first(), c);
        assert forall|j: int|
            0 <= j < s.len() && (index_of(s, c) < 0 || j < index_of(s, c)) implies s[j]
            != c by {
            if j > 0 {
                assert(s[j] == s.drop_first()[j - 1]);
            }
        }
    }
}

/// Whether `k` is the first position of `c` in `s` characterises `index_of`.
pub proof fn lemma_index_of_is(s: Seq<char>, c: char, k: int)
    requires
        -1 <= k < s.len(),
        k >= 0 ==> s[k] == c,
        forall|j: int| 0 <= j < s.len() && (k < 0 || j < k) ==> s[j] != c,
    ensures
        index_of(s, c) == k,
{
    lemma_index_of(s, c);
    let r = index_of(s, c);
    if r >= 0 && k >= 0 {
        assert(!(r < k) && !(k < r));
    } else if r >= 0 {
        assert(s[r] != c);
    } else if k >= 0 {
        assert(s[k] != c);
    }
}

/// The position of the first `c` in `v[lo..hi]`, or `hi` when there is none.
pub fn next_char(v: &Vec<char>, lo: usize, hi: usize, c: char) -> (r: usize)
    requires
        lo <= hi <= v@.len(),
    ensures
        lo <= r <= hi,
        r < hi ==> v@[r as int] == c,
        forall|j: int| lo <= j < r ==> v@[j] != c,
        index_of(v@.subrange(lo as int, hi as int), c) == if r < hi {
            r - lo
        } else {
            -1
        },
{
    let mut i = lo;
    while i < hi && v[i] != c
        invariant
            lo <= i <= hi <= v@.len(),
            forall|j: int| lo <= j < i ==> v@[j] != c,
        decreases hi - i,
    {
        i += 1;
    }
    let ghost sub = v@.subrange(lo as int, hi as int);
    proof {
        lemma_index_of_is(sub, c, if i < hi { i - lo } else { -1 });
    }
    i
}

/// The number of `c` in `v[0..hi]`.
pub fn count_char_prefix(v: &Vec<char>, hi: usize, c: char) -> (n: usize)
    requires
        hi <= v@.len(),
    ensures
        n == count_char(v@.subrange(0, hi as int), c),
        n <= hi,
{
    let mut n: usize = 0;
    let mut i: usize = 0;
    while i < hi
        invariant
            i <= hi <= v@.len(),
            n == count_char(v@.subrange(0, i as int), c),
            n <= i,
        decreases hi - i,
    {
        proof {
            lemma_count_char_step(v@, c, i as int);
        }
        if v[i] == c {
            n += 1;
        }
        i += 1;
    }
    n
}

/// The number of lines of `s` (`str::lines().count()`).
pub fn count_lines(v: &Vec<char>) -> (n: usize)
    ensures
        n == lines(v@).len(),
{
    let len = v.len();
    let mut n: usize = 0;
    let mut i: usize = 0;
    assert(v@.subrange(0, len as int) =~= v@);
    while i < len
        invariant
            i <= len == v@.len(),
            n <= i,
            lines(v@).len() == n + lines(v@.subrange(i as int, len as int)).len(),
        decreases len - i,
    {
        let k = next_char(v, i, len, '\n');
        let ghost sub = v@.subrange(i as int, len as int);
        if k == len {
            assert(lines(sub) == seq![sub]);
            assert(lines(v@.subrange(len as int, len as int)).len() == 0);
            n += 1;
            i = len;
        } else {
            assert(sub.subrange(k - i + 1, sub.len() as int) =~= v@.subrange(k + 1, len as int));
            n += 1;
            i = k + 1;
        }
    }
    n
}

/// Decimal digits of `n`, most significant first, no leading zeros.
pub open spec fn dec(n: nat) -> Seq<char>
    decreases n,
{
    if n < 10 {
        seq![digit_char(n)]
    } else {
        dec(n / 10).push(digit_char(n % 10))
    }
}

/// Powers of ten.
pub open spec fn pow10(k: nat) -> nat
    decreases k,
{
    if k == 0 {
        1
    } else {
        10 * pow10((k - 1) as nat)
    }
}

/// A number below `10^k` has at most `k` digits.
pub proof fn lemma_dec_len(n: nat, k: nat)
    requires
        k >= 1,
        n < pow10(k),
    ensures
        dec(n).len() <= k,
    decreases n,
{
    if n >= 10 {
        let p = pow10((k - 1) as nat);
        assert(k >= 2) by {
            if k == 1 {
                assert(pow10(1) == 10 * pow10(0));
            }
        }
        assert(n / 10 < p) by (nonlinear_arith)
            requires
                n < 10 * p,
        ;
        lemma_dec_len(n / 10, (k - 1) as nat);
    }
}

/// A `usize` has at most 20 decimal digits.
pub proof fn lemma_dec_len_usize(n: usize)
    ensures
        dec(n as nat).len() <= 20,
{
    reveal_with_fuel(pow10, 21);
    assert(pow10(20) == 100000000000000000000);
    lemma_dec_len(n as nat, 20);
}

/// The ASCII digit for `d < 10`.
pub open spec fn digit_char(d: nat) -> char {
    if d == 0 {
        '0'
    } else if d == 1 {
        '1'
    } else if d == 2 {
        '2'
    } else if d == 3 {
        '3'
    } else if d == 4 {
        '4'
    } else if d == 5 {
        '5'
    } else if d == 6 {
        '6'
    } else if d == 7 {
        '7'
    } else if d == 8 {
        '8'
    } else {
        '9'
    }
}

fn digit(d: usize) -> (c: char)
    requires
        d < 10,
    ensures
        c == digit_char(d as nat),
{
    if d == 0 {
        '0'
    } else if d == 1 {
        '1'
    } else if d == 2 {
        '2'
    } else if d == 3 {
        '3'
    } else if d == 4 {
        '4'
    } else if d == 5 {
        '5'
    } else if d == 6 {
        '6'
    } else if d == 7 {
        '7'
    } else if d == 8 {
        '8'
    } else {
        '9'
    }
}

/// Appends the decimal rendering of `n` (as `{}` formats a `usize`).
pub fn push_dec(s: &mut String, n: usize)
    ensures
        final(s)@ == old(s)@ + dec(n as nat),
    decreases n,
{
    if n < 10 {
        push_char(s, digit(n));
        assert(dec(n as nat) == seq![digit_char(n as nat)]);
    } else {
        push_dec(s, n / 10);
        push_char(s, digit(n % 10));
    }
}

/// Appends the decimal rendering of `n` (as `{}` formats an `i64`).
pub fn push_dec_i64(s: &mut String, n: i64)
    ensures
        final(s)@ == old(s)@ + if n < 0 {
            seq!['-'] + dec((-n) as nat)
        } else {
            dec(n as nat)
        },
{
    if n < 0 {
        push_char(s, '-');
        let m: u64 = if n == i64::MIN {
            9223372036854775808u64
        } else {
            (-n) as u64
        };
        push_dec_u64(s, m);
    } else {
        push_dec_u64(s, n as u64);
    }
}

fn push_dec_u64(s: &mut String, n: u64)
    ensures
        final(s)@ == old(s)@ + dec(n as nat),
    decreases n,
{
    if n < 10 {
        push_char(s, digit(n as usize));
    } else {
        push_dec_u64(s, n / 10);
        push_char(s, digit((n % 10) as usize));
    }
}

/// Whether every character of a text is ASCII.
pub open spec fn ascii_text(s: Seq<char>) -> bool {
    forall|j: int| 0 <= j < s.len() ==> (#[trigger] s[j] as u32) < 128
}

/// An ASCII letter in lower case; any other character unchanged.
pub open spec fn ascii_lower(c: char) -> char {
    if 'A' <= c <= 'Z' {
        ((c as u32) + 32) as char
    } else {
        c
    }
}

/// An ASCII letter in upper case; any other character unchanged.
pub open spec fn ascii_upper(c: char) -> char {
    if 'a' <= c <= 'z' {
        ((c as u32) - 32) as char
    } else {
        c
    }
}

/// Lowercased text, as `str::to_lowercase` maps it.
pub uninterp spec fn lowercase(s: Seq<char>) -> Seq<char>;

/// `str::to_lowercase`: its result is the Unicode lowercase mapping of the
/// argument, a function of the characters alone. On ASCII text that mapping
/// lowers the letters `A`-`Z` and keeps every other character; beyond ASCII
/// it is not written out here.
#[verifier::external_body]
pub(crate) fn to_lowercase(s: &str) -> (r: String)
    ensures
        r@ == lowercase(s@),
        ascii_text(s@) ==> r@ == s@.map_values(|c: char| ascii_lower(c)),
{
    s.to_lowercase()
}

/// Uppercased text, as `str::to_uppercase` maps it.
pub uninterp spec fn uppercase(s: Seq<char>) -> Seq<char>;

/// `str::to_uppercase`: its result is the Unicode uppercase mapping of the
/// argument, a function of the characters alone. On ASCII text that mapping
/// raises the letters `a`-`z` and keeps every other character; beyond ASCII
/// it is not written out here.
#[verifier::external_body]
pub(crate) fn to_uppercase(s: &str) -> (r: String)
    ensures
        r@ == uppercase(s@),
        ascii_text(s@) ==> r@ == s@.map_values(|c: char| ascii_upper(c)),
{
    s.to_uppercase()
}

/// Strings by their characters.
pub open spec fn strings_view(v: Seq<String>) -> Seq<Seq<char>> {
    v.map_values(|s: String| s@)
}

/// The parts joined with `sep` between them (`[String]::join`).
pub open spec fn join(parts: Seq<Seq<char>>, sep: Seq<char>) -> Seq<char>
    decreases parts.len(),
{
    if parts.len() == 0 {
        seq![]
    } else if parts.len() == 1 {
        parts[0]
    } else {
        join(parts.drop_last(), sep) + sep + parts.last()
    }
}

/// The strings joined with `sep` between them.
pub fn join_strings(parts: &Vec<String>, sep: &str) -> (r: String)
    ensures
        r@ == join(strings_view(parts@), sep@),
{
    let mut r = String::new();
    let mut i: usize = 0;
    while i < parts.len()
        invariant
            i <= parts@.len(),
            r@ == join(strings_view(parts@.subrange(0, i as int)), sep@),
        decreases parts@.len() - i,
    {
        let ghost pre = strings_view(parts@.subrange(0, i + 1));
        assert(pre.drop_last() =~= strings_view(parts@.subrange(0, i as int)));
        if i > 0 {
            push_str(&mut r, sep);
        }
        push_str(&mut r, parts[i].as_str());
        i += 1;
    }
    assert(parts@.subrange(0, parts@.len() as int) =~= parts@);
    r
}

/// The number of characters of a string slice.
pub fn char_count(s: &str) -> (n: usize)
    ensures
        n == s@.len(),
{
    let v = chars_of(s);
    v.len()
}

/// The lines of a text, as `str::lines` yields them.
pub fn split_lines(s: &str) -> (r: Vec<String>)
    ensures
        strings_view(r@) == lines(s@),
{
    let v = chars_of(s);
    let n = v.len();
    let mut out: Vec<String> = Vec::new();
    let ghost mut done: Seq<Seq<char>> = seq![];
    let mut i: usize = 0;
    assert(v@.subrange(0, n as int) =~= v@);
    assert(strings_view(out@) =~= done);
    while i < n
        invariant
            i <= n == v@.len(),
            v@ == s@,
            lines(v@) == done + lines(v@.subrange(i as int, n as int)),
            strings_view(out@) == done,
        decreases n - i,
    {
        let k = next_char(&v, i, n, '\n');
        let e = line_end(&v, i, k);
        proof {
            lemma_lines_step(v@, i as int, k as int);
        }
        let line = string_of(&v, i, e);
        let ghost l = line@;
        let ghost before = out@;
        out.push(line);
        assert(strings_view(out@) =~= strings_view(before).push(l));
        proof {
            assert(done.push(l) + lines(v@.subrange(if k < n { k + 1 } else { n as int }, n as int))
                =~= done + (seq![l] + lines(v@.subrange(if k < n { k + 1 } else { n as int }, n as int))));
            done = done.push(l);
        }
        if k < n {
            i = k + 1;
        } else {
            i = n;
            assert(lines(v@.subrange(n as int, n as int)) =~= Seq::<Seq<char>>::empty());
        }
    }
    assert(done + lines(v@.subrange(n as int, n as int)) =~= done);
    out
}

/// A string with surrounding whitespace removed (`str::trim`).
pub fn trimmed(s: &str) -> (r: String)
    ensures
        r@ == trim(s@),
{
    let v = chars_of(s);
    let (a, b) = trim_range(&v, 0, v.len());
    assert(v@.subrange(0, v@.len() as int) =~= v@);
    string_of(&v, a, b)
}

/// Text that ends a line (or is empty) splits into lines independently of
/// what follows it.
pub proof fn lemma_lines_append(e: Seq<char>, t: Seq<char>)
    requires
        e.len() == 0 || e.last() == '\n',
    ensures
        lines(e + t) == lines(e) + lines(t),
    decreases e.len(),
{
    if e.len() == 0 {
        assert(e + t =~= t);
        assert(lines(e) =~= Seq::<Seq<char>>::empty());
        assert(lines(e) + lines(t) =~= lines(t));
    } else {
        let s = e + t;
        lemma_index_of(e, '\n');
        let k = index_of(e, '\n');
        assert(k >= 0) by {
            if k < 0 {
                assert(e[e.len() - 1] != '\n');
            }
        }
        assert forall|j: int| 0 <= j < s.len() && j < k implies s[j] != '\n' by {
            assert(s[j] == e[j]);
        }
        lemma_index_of_is(s, '\n', k);
        let rest = e.subrange(k + 1, e.len() as int);
        assert(s.subrange(0, k) =~= e.subrange(0, k));
        assert(s.subrange(k + 1, s.len() as int) =~= rest + t);
        if rest.len() > 0 {
            assert(rest.last() == e.last());
        }
        lemma_lines_append(rest, t);
        assert(lines(s) == seq![strip_cr(e.subrange(0, k))] + lines(rest + t));
        assert(lines(e) == seq![strip_cr(e.subrange(0, k))] + lines(rest));
        assert(seq![strip_cr(e.subrange(0, k))] + (lines(rest) + lines(t)) =~= (seq![
            strip_cr(e.subrange(0, k)),
        ] + lines(rest)) + lines(t));
    }
}

/// A newline after a last line that has none (and does not end in `\r`)
/// changes nothing about the lines.
pub proof fn lemma_lines_push_newline(s: Seq<char>)
    requires
        s.len() > 0,
        s.last() != '\n',
        s.last() != '\r',
    ensures
        lines(s.push('\n')) == lines(s),
    decreases s.len(),
{
    let t = s.push('\n');
    lemma_index_of(s, '\n');
    let k = index_of(s, '\n');
    if k < 0 {
        assert forall|j: int| 0 <= j < t.len() && j < s.len() implies t[j] != '\n' by {
            assert(t[j] == s[j]);
        }
        lemma_index_of_is(t, '\n', s.len() as int);
        assert(t.subrange(0, s.len() as int) =~= s);
        assert(t.subrange(s.len() as int + 1, t.len() as int) =~= Seq::<char>::empty());
        assert(lines(Seq::<char>::empty()) =~= Seq::<Seq<char>>::empty());
        assert(lines(t) =~= seq![s]);
    } else {
        assert forall|j: int| 0 <= j < t.len() && j < k implies t[j] != '\n' by {
            assert(t[j] == s[j]);
        }
        lemma_index_of_is(t, '\n', k);
        let rest = s.subrange(k + 1, s.len() as int);
        assert(k < s.len() - 1);
        assert(t.subrange(0, k) =~= s.subrange(0, k));
        assert(t.subrange(k + 1, t.len() as int) =~= rest.push('\n'));
        assert(rest.last() == s.last());
        lemma_lines_push_newline(rest);
    }
}

/// A single line with its newline.
pub proof fn lemma_lines_one(x: Seq<char>)
    requires
        forall|j: int| 0 <= j < x.len() ==> x[j] != '\n',
        x.len() == 0 || x.last() != '\r',
    ensures
        lines(x.push('\n')) == seq![x],
{
    let t = x.push('\n');
    assert forall|j: int| 0 <= j < t.len() && j < x.len() implies t[j] != '\n' by {
        assert(t[j] == x[j]);
    }
    lemma_index_of_is(t, '\n', x.len() as int);
    assert(t.subrange(0, x.len() as int) =~= x);
    assert(t.subrange(x.len() as int + 1, t.len() as int) =~= Seq::<char>::empty());
    assert(lines(Seq::<char>::empty()) =~= Seq::<Seq<char>>::empty());
    assert(lines(t) =~= seq![x]);
}

} // verus!
