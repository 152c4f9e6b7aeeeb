//! Character-level text primitives shared by every pass: line splitting,
//! whitespace trimming, prefix tests and conversions between `&str`,
//! `String` and `Vec<char>`.

use vstd::prelude::*;

verus! {

/// Appends one character to `s` (std's `String::push`).
#[verifier::external_body]
pub(crate) fn push_char(s: &mut String, c: char)
    ensures
        final(s)@ == old(s)@.push(c),
{
    s.push(c);
}

/// The characters of `s`, in order.
pub fn chars_of(s: &str) -> (v: Vec<char>)
    ensures
        v@ == s@,
{
    let mut v: Vec<char> = Vec::new();
    for c in it: s.chars()
        invariant
            v@ == it.seq().take(it.index() as int),
            it.seq() == s@,
    {
        v.push(c);
    }
    v
}

/// A `String` holding exactly the characters of `v`.
pub fn string_of(v: &[char]) -> (s: String)
    ensures
        s@ == v@,
{
    let mut s = String::new();
    let mut i: usize = 0;
    while i < v.len()
        invariant
            i <= v@.len(),
            s@ == v@.take(i as int),
        decreases v@.len() - i,
    {
        push_char(&mut s, v[i]);
        i = i + 1;
        assert(v@.take(i as int) =~= v@.take(i - 1 as int).push(v@[i - 1]));
    }
    assert(v@.take(v@.len() as int) =~= v@);
    s
}

/// Appends all of `x` to `out`.
pub fn push_all(out: &mut Vec<char>, x: &[char])
    ensures
        final(out)@ == old(out)@ + x@,
{
    out.extend_from_slice(x);
}

/// Appends the characters of `x` to `out`.
pub fn push_str(out: &mut Vec<char>, x: &str)
    ensures
        final(out)@ == old(out)@ + x@,
{
    let v = chars_of(x);
    out.extend_from_slice(v.as_slice());
}

/// A copy of `s[lo..hi]`.
pub fn slice_vec(s: &[char], lo: usize, hi: usize) -> (r: Vec<char>)
    requires
        lo <= hi <= s@.len(),
    ensures
        r@ == s@.subrange(lo as int, hi as int),
{
    let mut r: Vec<char> = Vec::new();
    let mut i = lo;
    while i < hi
        invariant
            lo <= i <= hi <= s@.len(),
            r@ == s@.subrange(lo as int, i as int),
        decreases hi - i,
    {
        r.push(s[i]);
        i = i + 1;
        assert(r@ =~= s@.subrange(lo as int, i as int));
    }
    r
}

// ---------------------------------------------------------------------
// Searching
// ---------------------------------------------------------------------

/// Index of the first `c` in `s`, or `s.len()` when `c` does not occur.
pub open spec fn find_char(s: Seq<char>, c: char) -> nat
    decreases s.len(),
{
    if s.len() == 0 {
        0
    } else if s[0] == c {
        0
    } else {
        1 + find_char(s.drop_first(), c)
    }
}

pub proof fn lemma_find_char(s: Seq<char>, c: char)
    ensures
        find_char(s, c) <= s.len(),
        find_char(s, c) < s.len() ==> s[find_char(s, c) as int] == c,
        forall|j: int| 0 <= j < find_char(s, c) ==> s[j] != c,
    decreases s.len(),
{
    if s.len() > 0 && s[0] != c {
        lemma_find_char(s.drop_first(), c);
        assert forall|j: int| 0 <= j < find_char(s, c) implies s[j] != c by {
            if j > 0 {
                assert(s[j] == s.drop_first()[j - 1]);
            }
        }
    }
}

pub proof fn lemma_find_char_is(s: Seq<char>, c: char, k: int)
    requires
        0 <= k <= s.len(),
        k < s.len() ==> s[k] == c,
        forall|j: int| 0 <= j < k ==> s[j] != c,
    ensures
        find_char(s, c) == k,
    decreases s.len(),
{
    if s.len() > 0 && k > 0 {
        assert(s[0] != c);
        assert forall|j: int| 0 <= j < k - 1 implies s.drop_first()[j] != c by {
            assert(s.drop_first()[j] == s[j + 1]);
        }
        lemma_find_char_is(s.drop_first(), c, k - 1);
    }
}

/// Position of the first `c` in `s` at or after `from`, or `s.len()`.
pub fn find_char_from(s: &[char], from: usize, c: char) -> (k: usize)
    requires
        from <= s@.len(),
    ensures
        k == from + find_char(s@.skip(from as int), c),
        from <= k <= s@.len(),
{
    let mut i = from;
    while i < s.len() && s[i] != c
        invariant
            from <= i <= s@.len(),
            forall|j: int| from <= j < i ==> s@[j] != c,
        decreases s@.len() - i,
    {
        i = i + 1;
    }
    proof {
        let t = s@.skip(from as int);
        assert forall|j: int| 0 <= j < i - from implies t[j] != c by {
            assert(t[j] == s@[j + from]);
        }
        lemma_find_char_is(t, c, i - from);
    }
    i
}

// ---------------------------------------------------------------------
// Lines
// ---------------------------------------------------------------------

/// Drops one trailing `'\r'`.
pub open spec fn strip_cr(l: Seq<char>) -> Seq<char> {
    if l.len() > 0 && l.last() == '\r' {
        l.drop_last()
    } else {
        l
    }
}

/// The lines of `s` as `str::lines` yields them: split at `'\n'`, a
/// `'\r'` before the `'\n'` dropped, and no empty line after a final
/// line terminator.
pub open spec fn lines(s: Seq<char>) -> Seq<Seq<char>>
    decreases s.len(),
{
    if s.len() == 0 {
        seq![]
    } else {
        let k = find_char(s, '\n');
        if k >= s.len() {
            seq![s]
        } else {
            proof {
                lemma_find_char(s, '\n');
            }
            seq![strip_cr(s.take(k as int))] + lines(s.skip(k + 1 as int))
        }
    }
}

/// The character views of a sequence of vectors.
pub open spec fn views(v: Seq<Vec<char>>) -> Seq<Seq<char>> {
    v.map_values(|x: Vec<char>| x@)
}

/// The character views of a sequence of strings.
pub open spec fn strs(v: Seq<String>) -> Seq<Seq<char>> {
    v.map_values(|s: String| s@)
}

/// The strings holding the character vectors `v`.
pub fn strings_of(v: &[Vec<char>]) -> (r: Vec<String>)
    ensures
        strs(r@) == views(v@),
{
    let mut out: Vec<String> = Vec::new();
    let mut i: usize = 0;
    while i < v.len()
        invariant
            i <= v@.len(),
            strs(out@) == views(v@).take(i as int),
        decreases v@.len() - i,
    {
        let ghost b = strs(out@);
        let s = string_of(v[i].as_slice());
        out.push(s);
        assert(views(v@)[i as int] == v@[i as int]@);
        assert(strs(out@) =~= b.push(s@));
        assert(strs(out@) =~= views(v@).take(i + 1));
        i = i + 1;
    }
    assert(views(v@).take(i as int) =~= views(v@));
    out
}

/// The lines of `s` (see [`lines`]).
pub fn lines_of(s: &[char]) -> (out: Vec<Vec<char>>)
    ensures
        views(out@) == lines(s@),
{
    let mut out: Vec<Vec<char>> = Vec::new();
    let mut i: usize = 0;
    assert(s@.skip(0) =~= s@);
    assert(views(out@) + lines(s@) =~= lines(s@));
    while i < s.len()
        invariant
            i <= s@.len(),
            lines(s@) == views(out@) + lines(s@.skip(i as int)),
        decreases s@.len() - i,
    {
        let k = find_char_from(s, i, '\n');
        let ghost t = s@.skip(i as int);
        let ghost before = views(out@);
        proof {
            lemma_find_char(t, '\n');
        }
        if k == s.len() {
            let line = slice_vec(s, i, k);
            assert(line@ =~= t);
            out.push(line);
            proof {
                assert(lines(t) == seq![t]);
                assert(views(out@) =~= before.push(t));
                assert(s@.skip(k as int) =~= Seq::<char>::empty());
                assert(before + lines(t) =~= views(out@) + lines(s@.skip(k as int)));
            }
            i = k;
        } else {
            let mut line = slice_vec(s, i, k);
            if line.len() > 0 && line[line.len() - 1] == '\r' {
                line.pop();
            }
            assert(line@ =~= strip_cr(t.take((k - i) as int)));
            out.push(line);
            proof {
                assert(t.skip((k - i + 1) as int) =~= s@.skip((k + 1) as int));
                assert(lines(t) == seq![strip_cr(t.take((k - i) as int))] + lines(t.skip((k - i + 1) as int)));
                assert(views(out@) =~= before.push(line@));
                assert(before + lines(t) =~= views(out@) + lines(s@.skip((k + 1) as int)));
            }
            i = k + 1;
        }
    }
    assert(s@.skip(i as int) =~= Seq::<char>::empty());
    assert(views(out@) + Seq::<Seq<char>>::empty() =~= views(out@));
    out
}

// ---------------------------------------------------------------------
// Whitespace and trimming
// ---------------------------------------------------------------------

/// `char::is_whitespace`: the Unicode `White_Space` property.
pub open spec fn is_ws(c: char) -> bool {
    let u = c as u32;
    ||| (0x9 <= u && u <= 0xD)
    ||| u == 0x20
    ||| u == 0x85
    ||| u == 0xA0
    ||| u == 0x1680
    ||| (0x2000 <= u && u <= 0x200A)
    ||| u == 0x2028
    ||| u == 0x2029
    ||| u == 0x202F
    ||| u == 0x205F
    ||| u == 0x3000
}

/// Whether `c` is Unicode whitespace.
pub fn is_whitespace(c: char) -> (b: bool)
    ensures
        b == is_ws(c),
{
    let u = c as u32;
    (0x9 <= u && u <= 0xD) || u == 0x20 || u == 0x85 || u == 0xA0 || u == 0x1680 || (0x2000
        <= u && u <= 0x200A) || u == 0x2028 || u == 0x2029 || u == 0x202F || u == 0x205F || u
        == 0x3000
}

/// Number of leading whitespace characters.
pub open spec fn lead_ws(s: Seq<char>) -> nat
    decreases s.len(),
{
    if s.len() == 0 {
        0
    } else if is_ws(s[0]) {
        1 + lead_ws(s.drop_first())
    } else {
        0
    }
}

/// Number of trailing whitespace characters.
pub open spec fn trail_ws(s: Seq<char>) -> nat
    decreases s.len(),
{
    if s.len() == 0 {
        0
    } else if is_ws(s.last()) {
        1 + trail_ws(s.drop_last())
    } else {
        0
    }
}

pub open spec fn trim_start(s: Seq<char>) -> Seq<char> {
    s.skip(lead_ws(s) as int)
}

pub open spec fn trim_end(s: Seq<char>) -> Seq<char> {
    s.take(s.len() - trail_ws(s))
}

/// `str::trim`.
pub open spec fn trim(s: Seq<char>) -> Seq<char> {
    trim_end(trim_start(s))
}

pub proof fn lemma_lead_ws(s: Seq<char>)
    ensures
        lead_ws(s) <= s.len(),
        forall|j: int| 0 <= j < lead_ws(s) ==> is_ws(s[j]),
        lead_ws(s) < s.len() ==> !is_ws(s[lead_ws(s) as int]),
    decreases s.len(),
{
    if s.len() > 0 && is_ws(s[0]) {
        lemma_lead_ws(s.drop_first());
        assert forall|j: int| 0 <= j < lead_ws(s) implies is_ws(s[j]) by {
            if j > 0 {
                assert(s[j] == s.drop_first()[j - 1]);
            }
        }
    }
}

pub proof fn lemma_lead_ws_is(s: Seq<char>, k: int)
    requires
        0 <= k <= s.len(),
        forall|j: int| 0 <= j < k ==> is_ws(s[j]),
        k < s.len() ==> !is_ws(s[k]),
    ensures
        lead_ws(s) == k,
    decreases s.len(),
{
    if k > 0 {
        assert forall|j: int| 0 <= j < k - 1 implies is_ws(s.drop_first()[j]) by {
            assert(s.drop_first()[j] == s[j + 1]);
        }
        lemma_lead_ws_is(s.drop_first(), k - 1);
    }
}

pub proof fn lemma_trail_ws(s: Seq<char>)
    ensures
        trail_ws(s) <= s.len(),
        forall|j: int| s.len() - trail_ws(s) <= j < s.len() ==> is_ws(s[j]),
        trail_ws(s) < s.len() ==> !is_ws(s[s.len() - trail_ws(s) - 1]),
    decreases s.len(),
{
    if s.len() > 0 && is_ws(s.last()) {
        lemma_trail_ws(s.drop_last());
        assert forall|j: int| s.len() - trail_ws(s) <= j < s.len() implies is_ws(s[j]) by {
            if j < s.len() - 1 {
                assert(s[j] == s.drop_last()[j]);
            }
        }
    }
}

pub proof fn lemma_trail_ws_is(s: Seq<char>, k: int)
    requires
        0 <= k <= s.len(),
        forall|j: int| s.len() - k <= j < s.len() ==> is_ws(s[j]),
        k < s.len() ==> !is_ws(s[s.len() - k - 1]),
    ensures
        trail_ws(s) == k,
    decreases s.len(),
{
    if k > 0 {
        let t = s.drop_last();
        assert forall|j: int| t.len() - (k - 1) <= j < t.len() implies is_ws(t[j]) by {
            assert(t[j] == s[j]);
        }
        if k - 1 < t.len() {
            assert(t[t.len() - (k - 1) - 1] == s[s.len() - k - 1]);
        }
        lemma_trail_ws_is(t, k - 1);
    }
}

/// Bounds `(lo, hi)` of `trim(s[from..to])` inside `s`.
pub fn trim_bounds(s: &[char], from: usize, to: usize) -> (r: (usize, usize))
    requires
        from <= to <= s@.len(),
    ensures
        from <= r.0 <= r.1 <= to,
        s@.subrange(r.0 as int, r.1 as int) == trim(s@.subrange(from as int, to as int)),
        s@.subrange(r.0 as int, to as int) == trim_start(s@.subrange(from as int, to as int)),
{
    let ghost t = s@.subrange(from as int, to as int);
    let mut lo = from;
    while lo < to && is_whitespace(s[lo])
        invariant
            from <= lo <= to <= s@.len(),
            forall|j: int| from <= j < lo ==> is_ws(s@[j]),
        decreases to - lo,
    {
        lo = lo + 1;
    }
    proof {
        assert forall|j: int| 0 <= j < lo - from implies is_ws(t[j]) by {
            assert(t[j] == s@[j + from]);
        }
        if lo < to {
            assert(t[lo - from] == s@[lo as int]);
        }
        lemma_lead_ws_is(t, lo - from);
        assert(trim_start(t) =~= s@.subrange(lo as int, to as int));
    }
    let mut hi = to;
    while hi > lo && is_whitespace(s[hi - 1])
        invariant
            from <= lo <= hi <= to <= s@.len(),
            forall|j: int| hi <= j < to ==> is_ws(s@[j]),
        decreases hi - lo,
    {
        hi = hi - 1;
    }
    proof {
        let u = s@.subrange(lo as int, to as int);
        assert forall|j: int| u.len() - (to - hi) <= j < u.len() implies is_ws(u[j]) by {
            assert(u[j] == s@[j + lo]);
        }
        if to - hi < u.len() {
            assert(u[u.len() - (to - hi) - 1] == s@[hi - 1]);
        }
        lemma_trail_ws_is(u, to - hi);
        assert(trim_end(u) =~= s@.subrange(lo as int, hi as int));
    }
    (lo, hi)
}

/// `trim(s)` as a new vector.
pub fn trimmed(s: &[char]) -> (r: Vec<char>)
    ensures
        r@ == trim(s@),
{
    let (lo, hi) = trim_bounds(s, 0, s.len());
    assert(s@.subrange(0, s@.len() as int) =~= s@);
    slice_vec(s, lo, hi)
}

/// Whether `trim(s)` is empty, i.e. `s` is all whitespace.
pub fn is_blank(s: &[char]) -> (b: bool)
    ensures
        b == (trim(s@).len() == 0),
{
    let (lo, hi) = trim_bounds(s, 0, s.len());
    assert(s@.subrange(0, s@.len() as int) =~= s@);
    lo == hi
}

// ---------------------------------------------------------------------
// Prefixes and equality
// ---------------------------------------------------------------------

pub open spec fn starts_with(s: Seq<char>, p: Seq<char>) -> bool {
    p.len() <= s.len() && s.take(p.len() as int) == p
}

pub open spec fn ends_with(s: Seq<char>, p: Seq<char>) -> bool {
    p.len() <= s.len() && s.skip(s.len() - p.len()) == p
}

/// Whether `s[at..]` starts with `p`.
pub fn starts_with_at(s: &[char], at: usize, p: &[char]) -> (b: bool)
    requires
        at <= s@.len(),
    ensures
        b == starts_with(s@.skip(at as int), p@),
{
    let n = s.len();
    if p.len() > n - at {
        return false;
    }
    let mut j: usize = 0;
    while j < p.len()
        invariant
            n == s@.len(),
            at <= s@.len(),
            at + p@.len() <= s@.len(),
            j <= p@.len(),
            forall|k: int| 0 <= k < j ==> s@[at + k] == p@[k],
        decreases p@.len() - j,
    {
        if s[at + j] != p[j] {
            assert(s@.skip(at as int).take(p@.len() as int)[j as int] != p@[j as int]);
            return false;
        }
        j = j + 1;
    }
    assert(s@.skip(at as int).take(p@.len() as int) =~= p@);
    true
}

/// Whether `s` starts with the characters of `p`.
pub fn starts_with_str(s: &[char], p: &str) -> (b: bool)
    ensures
        b == starts_with(s@, p@),
{
    let pv = chars_of(p);
    assert(s@.skip(0) =~= s@);
    starts_with_at(s, 0, pv.as_slice())
}

/// Whether `s` ends with the characters of `p`.
pub fn ends_with_str(s: &[char], p: &str) -> (b: bool)
    ensures
        b == ends_with(s@, p@),
{
    let pv = chars_of(p);
    if pv.len() > s.len() {
        return false;
    }
    let at = s.len() - pv.len();
    let r = starts_with_at(s, at, pv.as_slice());
    assert(s@.skip(at as int).take(pv@.len() as int) =~= s@.skip(at as int));
    r
}

/// Whether the two character sequences are equal.
pub fn chars_eq(a: &[char], b: &[char]) -> (r: bool)
    ensures
        r == (a@ == b@),
{
    if a.len() != b.len() {
        return false;
    }
    let r = starts_with_at(a, 0, b);
    assert(a@.skip(0) =~= a@);
    assert(a@.take(b@.len() as int) =~= a@);
    r
}

/// Whether the characters of `a` equal those of `b`.
pub fn eq_str(a: &[char], b: &str) -> (r: bool)
    ensures
        r == (a@ == b@),
{
    let bv = chars_of(b);
    chars_eq(a, bv.as_slice())
}

/// `s` with every occurrence of `pat` (left to right, not overlapping)
/// replaced by `rep`.
pub open spec fn replace_all(s: Seq<char>, pat: Seq<char>, rep: Seq<char>) -> Seq<char>
    decreases s.len(),
{
    if s.len() == 0 || pat.len() == 0 {
        s
    } else if starts_with(s, pat) {
        rep + replace_all(s.skip(pat.len() as int), pat, rep)
    } else {
        seq![s[0]] + replace_all(s.drop_first(), pat, rep)
    }
}

pub fn replace_all_chars(s: &[char], pat: &str, rep: &str) -> (r: Vec<char>)
    requires
        pat@.len() > 0,
    ensures
        r@ == replace_all(s@, pat@, rep@),
{
    let p = chars_of(pat);
    let mut out: Vec<char> = Vec::new();
    let mut i: usize = 0;
    assert(s@.skip(0) =~= s@);
    while i < s.len()
        invariant
            i <= s@.len(),
            p@ == pat@,
            p@.len() > 0,
            replace_all(s@, pat@, rep@) == out@ + replace_all(s@.skip(i as int), pat@, rep@),
        decreases s@.len() - i,
    {
        let ghost rest = s@.skip(i as int);
        let ghost before = out@;
        if crate::text::starts_with_at(s, i, p.as_slice()) {
            push_str(&mut out, rep);
            assert(rest.skip(p@.len() as int) =~= s@.skip(i + p@.len()));
            assert(before + (rep@ + replace_all(rest.skip(p@.len() as int), pat@, rep@)) =~= out@ + replace_all(s@.skip(i + p@.len()), pat@, rep@));
            i = i + p.len();
        } else {
            out.push(s[i]);
            assert(rest.drop_first() =~= s@.skip(i + 1));
            assert(rest[0] == s@[i as int]);
            assert(before + (seq![rest[0]] + replace_all(rest.drop_first(), pat@, rep@)) =~= out@ + replace_all(s@.skip(i + 1), pat@, rep@));
            i = i + 1;
        }
    }
    assert(s@.skip(i as int) =~= Seq::<char>::empty());
    assert(out@ + Seq::<char>::empty() =~= out@);
    out
}

// ---------------------------------------------------------------------
// Building text
// ---------------------------------------------------------------------

/// The concatenation of `ss`.
pub open spec fn concat(ss: Seq<Seq<char>>) -> Seq<char>
    decreases ss.len(),
{
    if ss.len() == 0 {
        seq![]
    } else {
        concat(ss.drop_last()) + ss.last()
    }
}

pub proof fn lemma_concat_push(ss: Seq<Seq<char>>, x: Seq<char>)
    ensures
        concat(ss.push(x)) == concat(ss) + x,
{
    assert(ss.push(x).drop_last() =~= ss);
}

/// `n` copies of `c`.
pub open spec fn rep(c: char, n: nat) -> Seq<char> {
    Seq::new(n, |i: int| c)
}

/// Appends `n` copies of `c`.
pub fn push_rep(out: &mut Vec<char>, c: char, n: usize)
    ensures
        final(out)@ == old(out)@ + rep(c, n as nat),
{
    let ghost start = out@;
    let mut i: usize = 0;
    while i < n
        invariant
            i <= n,
            out@ == start + rep(c, i as nat),
        decreases n - i,
    {
        out.push(c);
        i = i + 1;
        assert(out@ =~= start + rep(c, i as nat));
    }
}

/// Decimal digits of `n`, as `u32::to_string` writes them.
pub open spec fn dec(n: nat) -> Seq<char>
    decreases n,
{
    if n < 10 {
        seq![(n + 48) as char]
    } else {
        dec(n / 10).push(((n % 10) + 48) as char)
    }
}

/// Appends the decimal digits of `n`.
pub fn push_dec(out: &mut Vec<char>, n: u64)
    ensures
        final(out)@ == old(out)@ + dec(n as nat),
    decreases n,
{
    if n < 10 {
        let c = char_of_digit(n);
        out.push(c);
    } else {
        push_dec(out, n / 10);
        let c = char_of_digit(n % 10);
        out.push(c);
    }
}

fn char_of_digit(d: u64) -> (c: char)
    requires
        d < 10,
    ensures
        c == (d + 48) as char,
{
    if d == 0 {
        '0'
    } else if d == 1 {
        '1'
    } else if d == 2 {
        '2'
    } else if d == 3 {
        '3'
    } else if d == 4 {
        '4'
    } else if d == 5 {
        '5'
    } else if d == 6 {
        '6'
    } else if d == 7 {
        '7'
    } else if d == 8 {
        '8'
    } else {
        '9'
    }
}

// ---------------------------------------------------------------------
// Splitting and numbers
// ---------------------------------------------------------------------

/// The pieces of `s` between occurrences of `c`, as `str::split`
/// yields them (always at least one piece).
pub open spec fn split_on(s: Seq<char>, c: char) -> Seq<Seq<char>>
    decreases s.len(),
{
    let k = find_char(s, c);
    if k >= s.len() {
        seq![s]
    } else {
        proof {
            lemma_find_char(s, c);
        }
        seq![s.take(k as int)] + split_on(s.skip(k + 1 as int), c)
    }
}

/// The pieces of `s` between occurrences of `c` (see [`split_on`]).
pub fn split_chars(s: &[char], c: char) -> (out: Vec<Vec<char>>)
    ensures
        views(out@) == split_on(s@, c),
{
    let mut out: Vec<Vec<char>> = Vec::new();
    let mut i: usize = 0;
    assert(s@.skip(0) =~= s@);
    loop
        invariant
            i <= s@.len(),
            split_on(s@, c) == views(out@) + split_on(s@.skip(i as int), c),
        decreases s@.len() - i,
    {
        let k = find_char_from(s, i, c);
        let ghost t = s@.skip(i as int);
        let ghost before = views(out@);
        proof {
            lemma_find_char(t, c);
        }
        let piece = slice_vec(s, i, k);
        assert(piece@ =~= t.take((k - i) as int));
        out.push(piece);
        assert(views(out@) =~= before.push(piece@));
        if k == s.len() {
            assert(piece@ =~= t);
            assert(split_on(t, c) == seq![t]);
            assert(before + split_on(t, c) =~= views(out@));
            return out;
        }
        proof {
            assert(t.skip((k - i + 1) as int) =~= s@.skip((k + 1) as int));
            assert(before + split_on(t, c) =~= views(out@) + split_on(s@.skip((k + 1) as int), c));
        }
        i = k + 1;
    }
}

/// Index of the last `c` in `s`, or -1.
pub open spec fn rfind_char(s: Seq<char>, c: char) -> int
    decreases s.len(),
{
    if s.len() == 0 {
        -1
    } else if s.last() == c {
        s.len() - 1
    } else {
        rfind_char(s.drop_last(), c)
    }
}

/// Index of the last `c` in `s[..n]`, if any.
pub fn rfind_char_before(s: &[char], n: usize, c: char) -> (r: Option<usize>)
    requires
        n <= s@.len(),
    ensures
        match r {
            Some(k) => k < n && k as int == rfind_char(s@.take(n as int), c),
            None => rfind_char(s@.take(n as int), c) == -1,
        },
{
    let mut k = n;
    while k > 0
        invariant
            k <= n <= s@.len(),
            rfind_char(s@.take(n as int), c) == rfind_char(s@.take(k as int), c),
        decreases k,
    {
        assert(s@.take(k as int).drop_last() =~= s@.take(k - 1));
        if s[k - 1] == c {
            return Some(k - 1);
        }
        k = k - 1;
    }
    None
}

pub open spec fn is_digit(c: char) -> bool {
    '0' <= c && c <= '9'
}

/// The decimal value of a string of digits.
pub open spec fn digits_value(s: Seq<char>) -> int
    decreases s.len(),
{
    if s.len() == 0 {
        0
    } else {
        digits_value(s.drop_last()) * 10 + (s.last() as int - '0' as int)
    }
}

/// What `u32::from_str` accepts: an optional `+`, then one or more
/// ASCII digits whose value fits in a `u32`.
pub open spec fn plus_stripped(s: Seq<char>) -> Seq<char> {
    if s.len() > 0 && s[0] == '+' {
        s.drop_first()
    } else {
        s
    }
}

pub open spec fn parse_u32_spec(s: Seq<char>) -> Option<u32> {
    let d = plus_stripped(s);
    if d.len() > 0 && (forall|i: int| 0 <= i < d.len() ==> is_digit(#[trigger] d[i])) && digits_value(
        d,
    ) <= u32::MAX {
        Some(digits_value(d) as u32)
    } else {
        None
    }
}

proof fn lemma_parse_u32_none(s: Seq<char>, j: int)
    requires
        0 <= j < plus_stripped(s).len(),
        !is_digit(plus_stripped(s)[j]),
    ensures
        parse_u32_spec(s) is None,
{
    let d = plus_stripped(s);
    assert(!is_digit(d[j]));
}

proof fn lemma_digits_value_mono(s: Seq<char>, k: int)
    requires
        0 <= k <= s.len(),
        forall|i: int| 0 <= i < s.len() ==> is_digit(#[trigger] s[i]),
    ensures
        0 <= digits_value(s.take(k)) <= digits_value(s),
    decreases s.len() - k,
{
    if k < s.len() {
        assert(s.take(k + 1).drop_last() =~= s.take(k));
        lemma_digits_value_mono(s, k + 1);
        assert(is_digit(s[k]));
    } else {
        assert(s.take(k) =~= s);
        lemma_digits_nonneg(s);
    }
}

proof fn lemma_digits_nonneg(s: Seq<char>)
    requires
        forall|i: int| 0 <= i < s.len() ==> is_digit(#[trigger] s[i]),
    ensures
        digits_value(s) >= 0,
    decreases s.len(),
{
    if s.len() > 0 {
        assert(is_digit(s[s.len() - 1]));
        lemma_digits_nonneg(s.drop_last());
    }
}

/// `u32::from_str` on these characters (see [`parse_u32_spec`]).
pub fn parse_u32(s: &[char]) -> (r: Option<u32>)
    ensures
        r == parse_u32_spec(s@),
{
    let from: usize = if s.len() > 0 && s[0] == '+' { 1 } else { 0 };
    let ghost d = plus_stripped(s@);
    assert(d =~= s@.skip(from as int));
    if from >= s.len() {
        return None;
    }
    let mut i = from;
    while i < s.len()
        invariant
            from <= i <= s@.len(),
            d =~= s@.skip(from as int),
            d == plus_stripped(s@),
            forall|j: int| from <= j < i ==> is_digit(#[trigger] s@[j]),
        decreases s@.len() - i,
    {
        if !(s[i] >= '0' && s[i] <= '9') {
            assert(d[i - from] == s@[i as int]);
            assert(!is_digit(d[i - from]));
            proof {
                lemma_parse_u32_none(s@, i - from);
            }
            return None;
        }
        i = i + 1;
    }
    assert forall|j: int| 0 <= j < d.len() implies is_digit(#[trigger] d[j]) by {
        assert(d[j] == s@[j + from]);
    }
    let mut v: u64 = 0;
    let mut k = from;
    assert(d.take(0) =~= Seq::<char>::empty());
    while k < s.len()
        invariant
            from <= k <= s@.len(),
            d =~= s@.skip(from as int),
            d == plus_stripped(s@),
            forall|j: int| 0 <= j < d.len() ==> is_digit(#[trigger] d[j]),
            v == digits_value(d.take(k - from)),
            v <= u32::MAX,
        decreases s@.len() - k,
    {
        assert(d.take(k - from + 1).drop_last() =~= d.take(k - from));
        assert(d[k - from] == s@[k as int]);
        let digit = (s[k] as u32 - '0' as u32) as u64;
        v = v * 10 + digit;
        proof {
            let t = d.take(k - from + 1);
            assert(t.last() == d[k - from]);
            assert(digits_value(t) == digits_value(t.drop_last()) * 10 + (t.last() as int - '0' as int));
            assert(v == digits_value(t));
            lemma_digits_value_mono(d, k - from + 1);
        }
        if v > 0xFFFF_FFFF {
            proof {
                lemma_digits_value_mono(d, k - from + 1);
            }
            return None;
        }
        k = k + 1;
    }
    assert(d.take(d.len() as int) =~= d);
    Some(v as u32)
}

/// `Some(value)` when `d` is one or more ASCII digits whose decimal value
/// is at most `max`.
pub open spec fn digits_upto(d: Seq<char>, max: int) -> Option<int> {
    if d.len() > 0 && (forall|i: int| 0 <= i < d.len() ==> is_digit(#[trigger] d[i]))
        && digits_value(d) <= max {
        Some(digits_value(d))
    } else {
        None
    }
}

/// The decimal value of `s[from..]` when that is one or more digits worth
/// at most `max` (see [`digits_upto`]).
pub fn digits_from(s: &[char], from: usize, max: u64) -> (r: Option<u64>)
    requires
        from <= s@.len(),
    ensures
        match r {
            Some(v) => digits_upto(s@.skip(from as int), max as int) == Some(v as int),
            None => digits_upto(s@.skip(from as int), max as int) is None,
        },
{
    let ghost d = s@.skip(from as int);
    if from >= s.len() {
        return None;
    }
    let mut i = from;
    while i < s.len()
        invariant
            from <= i <= s@.len(),
            d =~= s@.skip(from as int),
            forall|j: int| from <= j < i ==> is_digit(#[trigger] s@[j]),
        decreases s@.len() - i,
    {
        if !(s[i] >= '0' && s[i] <= '9') {
            assert(d[i - from] == s@[i as int]);
            assert(!is_digit(d[i - from]));
            return None;
        }
        i = i + 1;
    }
    assert forall|j: int| 0 <= j < d.len() implies is_digit(#[trigger] d[j]) by {
        assert(d[j] == s@[j + from]);
    }
    let mut v: u128 = 0;
    let mut k = from;
    assert(d.take(0) =~= Seq::<char>::empty());
    while k < s.len()
        invariant
            from <= k <= s@.len(),
            d =~= s@.skip(from as int),
            forall|j: int| 0 <= j < d.len() ==> is_digit(#[trigger] d[j]),
            v == digits_value(d.take(k - from)),
            v <= max,
        decreases s@.len() - k,
    {
        assert(d.take(k - from + 1).drop_last() =~= d.take(k - from));
        assert(d[k - from] == s@[k as int]);
        let digit = (s[k] as u32 - '0' as u32) as u128;
        v = v * 10 + digit;
        proof {
            let t = d.take(k - from + 1);
            assert(t.last() == d[k - from]);
            assert(digits_value(t) == digits_value(t.drop_last()) * 10 + (t.last() as int - '0' as int));
            lemma_digits_value_mono(d, k - from + 1);
        }
        if v > max as u128 {
            return None;
        }
        k = k + 1;
    }
    assert(d.take(d.len() as int) =~= d);
    Some(v as u64)
}

/// What `u64::from_str` accepts: an optional `+`, then one or more ASCII
/// digits whose value fits in a `u64`.
pub open spec fn parse_u64_spec(s: Seq<char>) -> Option<u64> {
    match digits_upto(plus_stripped(s), u64::MAX as int) {
        Some(v) => Some(v as u64),
        None => None,
    }
}

/// `u64::from_str` on these characters (see [`parse_u64_spec`]).
pub fn parse_u64(s: &[char]) -> (r: Option<u64>)
    ensures
        r == parse_u64_spec(s@),
{
    let from: usize = if s.len() > 0 && s[0] == '+' { 1 } else { 0 };
    assert(plus_stripped(s@) =~= s@.skip(from as int));
    digits_from(s, from, u64::MAX)
}

/// What `usize::from_str` accepts: as [`parse_u64_spec`], bounded by
/// `usize::MAX`.
pub open spec fn parse_usize_spec(s: Seq<char>) -> Option<usize> {
    match digits_upto(plus_stripped(s), usize::MAX as int) {
        Some(v) => Some(v as usize),
        None => None,
    }
}

/// `usize::from_str` on these characters (see [`parse_usize_spec`]).
pub fn parse_usize(s: &[char]) -> (r: Option<usize>)
    ensures
        r == parse_usize_spec(s@),
{
    let from: usize = if s.len() > 0 && s[0] == '+' { 1 } else { 0 };
    assert(plus_stripped(s@) =~= s@.skip(from as int));
    match digits_from(s, from, usize::MAX as u64) {
        Some(v) => Some(v as usize),
        None => None,
    }
}

/// What `i32::from_str` accepts: `-` and one or more digits worth at most
/// 2^31, or an optional `+` and digits worth at most `i32::MAX`.
pub open spec fn parse_i32_spec(s: Seq<char>) -> Option<i32> {
    if s.len() > 0 && s[0] == '-' {
        match digits_upto(s.drop_first(), 0x8000_0000) {
            Some(v) => Some((0 - v) as i32),
            None => None,
        }
    } else {
        match digits_upto(plus_stripped(s), 0x7fff_ffff) {
            Some(v) => Some(v as i32),
            None => None,
        }
    }
}

/// `i32::from_str` on these characters (see [`parse_i32_spec`]).
pub fn parse_i32(s: &[char]) -> (r: Option<i32>)
    ensures
        r == parse_i32_spec(s@),
{
    if s.len() > 0 && s[0] == '-' {
        assert(s@.drop_first() =~= s@.skip(1));
        return match digits_from(s, 1, 0x8000_0000) {
            Some(v) => Some((0i64 - v as i64) as i32),
            None => None,
        };
    }
    let from: usize = if s.len() > 0 && s[0] == '+' { 1 } else { 0 };
    assert(plus_stripped(s@) =~= s@.skip(from as int));
    match digits_from(s, from, 0x7fff_ffff) {
        Some(v) => Some(v as i32),
        None => None,
    }
}

/// The pieces `str::splitn(n, c)` yields for `n >= 1`: at most `n`, the
/// last one holding the rest of `s`.
pub open spec fn splitn(s: Seq<char>, n: nat, c: char) -> Seq<Seq<char>>
    decreases n,
{
    let k = find_char(s, c);
    if n <= 1 || k >= s.len() {
        seq![s]
    } else {
        seq![s.take(k as int)] + splitn(s.skip(k + 1 as int), (n - 1) as nat, c)
    }
}

/// The pieces of `s` split at the first `n - 1` occurrences of `c` (see
/// [`splitn`]).
pub fn splitn_chars(s: &[char], n: usize, c: char) -> (out: Vec<Vec<char>>)
    requires
        n >= 1,
    ensures
        views(out@) == splitn(s@, n as nat, c),
{
    let mut out: Vec<Vec<char>> = Vec::new();
    let mut i: usize = 0;
    let mut left: usize = n;
    assert(s@.skip(0) =~= s@);
    assert(views(out@) + splitn(s@, n as nat, c) =~= splitn(s@, n as nat, c));
    loop
        invariant
            i <= s@.len(),
            1 <= left <= n,
            splitn(s@, n as nat, c) == views(out@) + splitn(s@.skip(i as int), left as nat, c),
        decreases s@.len() - i,
    {
        let k = find_char_from(s, i, c);
        let ghost t = s@.skip(i as int);
        let ghost before = views(out@);
        proof {
            lemma_find_char(t, c);
        }
        if left <= 1 || k == s.len() {
            let piece = slice_vec(s, i, s.len());
            assert(piece@ =~= t);
            out.push(piece);
            assert(views(out@) =~= before.push(piece@));
            assert(splitn(t, left as nat, c) == seq![t]);
            assert(before + splitn(t, left as nat, c) =~= views(out@));
            return out;
        }
        let piece = slice_vec(s, i, k);
        assert(piece@ =~= t.take((k - i) as int));
        out.push(piece);
        assert(views(out@) =~= before.push(piece@));
        proof {
            assert(t.skip((k - i + 1) as int) =~= s@.skip((k + 1) as int));
            assert(splitn(t, left as nat, c) == seq![t.take((k - i) as int)] + splitn(
                t.skip((k - i + 1) as int),
                (left - 1) as nat,
                c,
            ));
            assert(before + splitn(t, left as nat, c) =~= views(out@) + splitn(
                s@.skip((k + 1) as int),
                (left - 1) as nat,
                c,
            ));
        }
        i = k + 1;
        left = left - 1;
    }
}

// ---------------------------------------------------------------------
// Substring search
// ---------------------------------------------------------------------

/// `p` occurs in `s` at index `i`.
pub open spec fn occurs_at(s: Seq<char>, p: Seq<char>, i: int) -> bool {
    0 <= i && i + p.len() <= s.len() && s.subrange(i, i + p.len()) == p
}

/// The first index at or after `i` where `p` occurs, or -1.
pub open spec fn find_from(s: Seq<char>, p: Seq<char>, i: int) -> int
    decreases s.len() + 1 - i,
{
    if i < 0 || i + p.len() > s.len() {
        -1
    } else if occurs_at(s, p, i) {
        i
    } else {
        find_from(s, p, i + 1)
    }
}

/// The last index at or before `i` where `p` occurs, or -1.
pub open spec fn rfind_upto(s: Seq<char>, p: Seq<char>, i: int) -> int
    decreases i + 1,
{
    if i < 0 {
        -1
    } else if occurs_at(s, p, i) {
        i
    } else {
        rfind_upto(s, p, i - 1)
    }
}

/// The first index at or after `from` where `p` occurs.
pub fn find_seq_from(s: &[char], p: &[char], from: usize) -> (r: Option<usize>)
    requires
        from <= s@.len(),
    ensures
        match r {
            Some(k) => k as int == find_from(s@, p@, from as int) && k + p@.len() <= s@.len() && from <= k,
            None => find_from(s@, p@, from as int) == -1,
        },
{
    if p.len() > s.len() {
        return None;
    }
    let last = s.len() - p.len();
    let mut i = from;
    while i <= last
        invariant
            from <= i,
            last == s@.len() - p@.len(),
            find_from(s@, p@, from as int) == find_from(s@, p@, i as int),
        decreases last + 1 - i,
    {
        assert(s@.skip(i as int).take(p@.len() as int) =~= s@.subrange(i as int, i + p@.len()));
        if starts_with_at(s, i, p) {
            return Some(i);
        }
        if i == last {
            assert(find_from(s@, p@, i + 1) == -1);
            return None;
        }
        i = i + 1;
    }
    None
}

/// The last index at or before `upto` where `p` occurs.
pub fn rfind_seq_upto(s: &[char], p: &[char], upto: usize) -> (r: Option<usize>)
    ensures
        match r {
            Some(k) => k as int == rfind_upto(s@, p@, upto as int) && k + p@.len() <= s@.len() && k <= upto,
            None => rfind_upto(s@, p@, upto as int) == -1,
        },
{
    let mut i = upto;
    loop
        invariant
            i <= upto,
            rfind_upto(s@, p@, upto as int) == rfind_upto(s@, p@, i as int),
        decreases i,
    {
        if i <= s.len() && p.len() <= s.len() - i {
            assert(s@.skip(i as int).take(p@.len() as int) =~= s@.subrange(i as int, i + p@.len()));
            if starts_with_at(s, i, p) {
                return Some(i);
            }
        }
        if i == 0 {
            assert(rfind_upto(s@, p@, -1) == -1);
            return None;
        }
        i = i - 1;
    }
}

// ---------------------------------------------------------------------
// UTF-8 byte offsets
// ---------------------------------------------------------------------

/// Number of bytes in the UTF-8 encoding of `c`.
pub open spec fn cw(c: char) -> nat {
    let u = c as u32;
    if u < 0x80 {
        1
    } else if u < 0x800 {
        2
    } else if u < 0x10000 {
        3
    } else {
        4
    }
}

/// Number of bytes in the UTF-8 encoding of `s`.
pub open spec fn blen(s: Seq<char>) -> nat
    decreases s.len(),
{
    if s.len() == 0 {
        0
    } else {
        blen(s.drop_last()) + cw(s.last())
    }
}

/// Byte offset of character index `k` in `s`.
pub open spec fn boff(s: Seq<char>, k: int) -> nat {
    blen(s.take(k))
}

/// `b` is the byte offset of a character boundary of `s`.
pub open spec fn is_boundary(s: Seq<char>, b: int) -> bool {
    exists|k: int| 0 <= k <= s.len() && boff(s, k) == b
}

/// The character index at byte offset `b` (meaningful when
/// [`is_boundary`] holds).
pub open spec fn char_at_byte(s: Seq<char>, b: int) -> int {
    choose|k: int| 0 <= k <= s.len() && boff(s, k) == b
}

pub proof fn lemma_blen_concat(a: Seq<char>, b: Seq<char>)
    ensures
        blen(a + b) == blen(a) + blen(b),
    decreases b.len(),
{
    if b.len() == 0 {
        assert(a + b =~= a);
    } else {
        assert((a + b).drop_last() =~= a + b.drop_last());
        lemma_blen_concat(a, b.drop_last());
    }
}

/// `boff` grows by the width of each character.
pub proof fn lemma_boff_step(s: Seq<char>, k: int)
    requires
        0 <= k < s.len(),
    ensures
        boff(s, k + 1) == boff(s, k) + cw(s[k]),
{
    assert(s.take(k + 1).drop_last() =~= s.take(k));
}

/// `boff` is strictly increasing, so a boundary has one index.
pub proof fn lemma_boff_mono(s: Seq<char>, j: int, k: int)
    requires
        0 <= j <= k <= s.len(),
    ensures
        boff(s, j) <= boff(s, k),
        j < k ==> boff(s, j) < boff(s, k),
        boff(s, k) <= blen(s),
    decreases k - j,
{
    if j < k {
        lemma_boff_step(s, k - 1);
        lemma_boff_mono(s, j, k - 1);
    }
    lemma_boff_upper(s, k);
}

proof fn lemma_boff_upper(s: Seq<char>, k: int)
    requires
        0 <= k <= s.len(),
    ensures
        boff(s, k) <= blen(s),
    decreases s.len() - k,
{
    if k < s.len() {
        lemma_boff_step(s, k);
        lemma_boff_upper(s, k + 1);
    } else {
        assert(s.take(k) =~= s);
    }
}

/// The index at a boundary is unique.
pub proof fn lemma_char_at_byte(s: Seq<char>, k: int)
    requires
        0 <= k <= s.len(),
    ensures
        is_boundary(s, boff(s, k) as int),
        char_at_byte(s, boff(s, k) as int) == k,
{
    let b = boff(s, k) as int;
    assert(0 <= k <= s.len() && boff(s, k) == b);
    let j = char_at_byte(s, b);
    if j < k {
        lemma_boff_mono(s, j, k);
    } else if j > k {
        lemma_boff_mono(s, k, j);
    }
}

/// `s` with the bytes `a..b` replaced by `t` (at character boundaries).
pub open spec fn splice(s: Seq<char>, a: int, b: int, t: Seq<char>) -> Seq<char> {
    s.take(char_at_byte(s, a)) + t + s.skip(char_at_byte(s, b))
}

/// Offsets inside a splice: the new text starts at `a`, its characters
/// sit where its own offsets say, and the whole grows by `blen(t) - (b - a)`.
pub proof fn lemma_splice(s: Seq<char>, a: int, b: int, t: Seq<char>)
    requires
        is_boundary(s, a),
        is_boundary(s, b),
        a <= b,
    ensures
        ({
            let r = splice(s, a, b, t);
            let ka = char_at_byte(s, a);
            &&& 0 <= ka <= char_at_byte(s, b) <= s.len()
            &&& boff(s, ka) == a
            &&& boff(s, char_at_byte(s, b)) == b
            &&& blen(r) == blen(s) - (b - a) + blen(t)
            &&& r.subrange(ka, ka + t.len()) == t
            &&& forall|j: int| 0 <= j <= t.len() ==> #[trigger] boff(r, ka + j) == a + boff(t, j)
            &&& is_boundary(r, a)
            &&& is_boundary(r, a + blen(t))
            &&& char_at_byte(r, a) == ka
            &&& char_at_byte(r, a + blen(t)) == ka + t.len()
        }),
{
    let ka = char_at_byte(s, a);
    let kb = char_at_byte(s, b);
    let r = splice(s, a, b, t);
    if kb < ka {
        lemma_boff_mono(s, kb, ka);
    }
    let pre = s.take(ka);
    let post = s.skip(kb);
    assert(s =~= s.take(kb) + post);
    lemma_blen_concat(s.take(kb), post);
    lemma_blen_concat(pre + t, post);
    lemma_blen_concat(pre, t);
    assert forall|j: int| 0 <= j <= t.len() implies #[trigger] boff(r, ka + j) == a + boff(t, j) by {
        assert(r.take(ka + j) =~= pre + t.take(j));
        lemma_blen_concat(pre, t.take(j));
    }
    assert(r.subrange(ka, ka + t.len()) =~= t);
    assert(boff(r, ka + 0) == a + boff(t, 0));
    assert(t.take(0) =~= Seq::<char>::empty());
    assert(boff(r, ka + t.len()) == a + boff(t, t.len() as int));
    assert(t.take(t.len() as int) =~= t);
    lemma_char_at_byte(r, ka);
    lemma_char_at_byte(r, ka + t.len());
}

/// Replace the bytes `start..end` of `buffer` by `text`.
pub fn replace_bytes(buffer: &mut String, start: usize, end: usize, text: &[char])
    requires
        is_boundary(old(buffer)@, start as int),
        is_boundary(old(buffer)@, end as int),
        start <= end,
    ensures
        final(buffer)@ == splice(old(buffer)@, start as int, end as int, text@),
{
    let s = chars_of(buffer.as_str());
    let ka = char_index(s.as_slice(), start);
    let kb = char_index(s.as_slice(), end);
    match (ka, kb) {
        (Some(x), Some(y)) => {
            if y < x {
                proof {
                    lemma_boff_mono(s@, y as int, x as int);
                }
            }
            let mut out = slice_vec(s.as_slice(), 0, x);
            push_all(&mut out, text);
            let tail = slice_vec(s.as_slice(), y, s.len());
            push_all(&mut out, tail.as_slice());
            assert(out@ =~= splice(s@, start as int, end as int, text@));
            *buffer = string_of(out.as_slice());
        },
        _ => {
            assert(false);
        },
    }
}

/// UTF-8 length of `s`, or `None` when it exceeds `usize`.
pub fn blen_checked(s: &[char]) -> (r: Option<usize>)
    ensures
        r matches Some(n) ==> n == blen(s@),
        r is None ==> blen(s@) > usize::MAX,
{
    let mut b: usize = 0;
    let mut i: usize = 0;
    assert(s@.take(0) =~= Seq::<char>::empty());
    while i < s.len()
        invariant
            i <= s@.len(),
            b == boff(s@, i as int),
        decreases s@.len() - i,
    {
        proof {
            lemma_boff_step(s@, i as int);
            lemma_boff_mono(s@, i + 1, s@.len() as int);
        }
        let w = char_width(s[i]);
        if b > usize::MAX - w {
            return None;
        }
        b = b + w;
        i = i + 1;
    }
    assert(s@.take(i as int) =~= s@);
    Some(b)
}

/// Width of `c` in UTF-8 bytes.
pub fn char_width(c: char) -> (w: usize)
    ensures
        w == cw(c),
        1 <= w <= 4,
{
    let u = c as u32;
    if u < 0x80 {
        1
    } else if u < 0x800 {
        2
    } else if u < 0x10000 {
        3
    } else {
        4
    }
}

/// UTF-8 length of `s[..k]`.
pub fn byte_offset(s: &[char], k: usize) -> (b: usize)
    requires
        k <= s@.len(),
        blen(s@) <= usize::MAX,
    ensures
        b == boff(s@, k as int),
{
    let mut b: usize = 0;
    let mut i: usize = 0;
    assert(s@.take(0) =~= Seq::<char>::empty());
    while i < k
        invariant
            i <= k <= s@.len(),
            blen(s@) <= usize::MAX,
            b == boff(s@, i as int),
        decreases k - i,
    {
        proof {
            lemma_boff_step(s@, i as int);
            lemma_boff_mono(s@, i + 1, s@.len() as int);
        }
        b = b + char_width(s[i]);
        i = i + 1;
    }
    b
}

/// The character index of byte offset `b`, if `b` is a boundary.
pub fn char_index(s: &[char], b: usize) -> (r: Option<usize>)
    ensures
        r matches Some(k) ==> k <= s@.len() && boff(s@, k as int) == b && char_at_byte(s@, b as int) == k,
        r is Some <==> is_boundary(s@, b as int),
{
    let mut acc: usize = 0;
    let mut i: usize = 0;
    assert(s@.take(0) =~= Seq::<char>::empty());
    while i < s.len() && acc < b
        invariant
            i <= s@.len(),
            acc == boff(s@, i as int),
            acc <= b,
            forall|j: int| 0 <= j < i ==> boff(s@, j) < b,
        decreases s@.len() - i,
    {
        proof {
            lemma_boff_step(s@, i as int);
        }
        let w = char_width(s[i]);
        if w > b - acc {
            proof {
                assert forall|j: int| 0 <= j <= s@.len() implies boff(s@, j) != b by {
                    if j <= i {
                        if j < i {
                        }
                    } else {
                        lemma_boff_mono(s@, i + 1, j);
                    }
                }
            }
            return None;
        }
        acc = acc + w;
        i = i + 1;
    }
    if acc == b {
        proof {
            lemma_char_at_byte(s@, i as int);
        }
        Some(i)
    } else {
        proof {
            assert forall|j: int| 0 <= j <= s@.len() implies boff(s@, j) != b by {
                if j > i {
                    lemma_boff_mono(s@, i as int, j);
                }
            }
        }
        None
    }
}

} // verus!

verus! {

// ---------------------------------------------------------------------
// Case folding and ordering
// ---------------------------------------------------------------------

/// What `str::to_lowercase` returns for a string with these characters.
pub uninterp spec fn lowercase(s: Seq<char>) -> Seq<char>;

/// `str::to_lowercase` (full Unicode case mapping).
#[verifier::external_body]
pub(crate) fn to_lowercase(s: &str) -> (r: String)
    ensures
        r@ == lowercase(s@),
{
    s.to_lowercase()
}

/// Lexicographic comparison by code point: -1, 0 or 1. This is the
/// order of `str::cmp`, since UTF-8 preserves code point order.
pub open spec fn lex_order(a: Seq<char>, b: Seq<char>) -> int
    decreases a.len(),
{
    if a.len() == 0 {
        if b.len() == 0 {
            0
        } else {
            -1
        }
    } else if b.len() == 0 {
        1
    } else if (a[0] as u32) < (b[0] as u32) {
        -1
    } else if (a[0] as u32) > (b[0] as u32) {
        1
    } else {
        lex_order(a.drop_first(), b.drop_first())
    }
}

pub proof fn lemma_lex_order_antisym(a: Seq<char>, b: Seq<char>)
    ensures
        lex_order(a, b) == -lex_order(b, a),
        -1 <= lex_order(a, b) <= 1,
        lex_order(a, b) == 0 ==> a == b,
    decreases a.len(),
{
    if a.len() > 0 && b.len() > 0 && (a[0] as u32) == (b[0] as u32) {
        lemma_lex_order_antisym(a.drop_first(), b.drop_first());
        if lex_order(a, b) == 0 {
            vstd::utf8::char_u32_cast(a[0], a[0] as u32);
            vstd::utf8::char_u32_cast(b[0], b[0] as u32);
            assert(a[0] == b[0]);
            assert(a =~= seq![a[0]] + a.drop_first());
            assert(b =~= seq![b[0]] + b.drop_first());
        }
    }
}

pub proof fn lemma_lex_order_refl(a: Seq<char>)
    ensures
        lex_order(a, a) == 0,
    decreases a.len(),
{
    if a.len() > 0 {
        lemma_lex_order_refl(a.drop_first());
    }
}

pub proof fn lemma_lex_order_trans(a: Seq<char>, b: Seq<char>, c: Seq<char>)
    requires
        lex_order(a, b) <= 0,
        lex_order(b, c) <= 0,
    ensures
        lex_order(a, c) <= 0,
        lex_order(a, b) < 0 || lex_order(b, c) < 0 ==> lex_order(a, c) < 0,
    decreases a.len(),
{
    lemma_lex_order_antisym(a, b);
    lemma_lex_order_antisym(b, c);
    if a.len() > 0 && b.len() > 0 && c.len() > 0 && (a[0] as u32) == (b[0] as u32) && (b[0] as u32)
        == (c[0] as u32) {
        lemma_lex_order_trans(a.drop_first(), b.drop_first(), c.drop_first());
    }
}

/// Compares two character sequences as [`lex_order`] does.
pub fn compare_chars(a: &[char], b: &[char]) -> (r: i8)
    ensures
        r as int == lex_order(a@, b@),
{
    let mut i: usize = 0;
    assert(a@.skip(0) =~= a@);
    assert(b@.skip(0) =~= b@);
    while i < a.len() && i < b.len()
        invariant
            i <= a@.len(),
            i <= b@.len(),
            lex_order(a@, b@) == lex_order(a@.skip(i as int), b@.skip(i as int)),
        decreases a@.len() - i,
    {
        let x = a[i] as u32;
        let y = b[i] as u32;
        if x < y {
            return -1;
        }
        if x > y {
            return 1;
        }
        assert(a@.skip(i as int).drop_first() =~= a@.skip((i + 1) as int));
        assert(b@.skip(i as int).drop_first() =~= b@.skip((i + 1) as int));
        i = i + 1;
    }
    if i < a.len() {
        1
    } else if i < b.len() {
        -1
    } else {
        0
    }
}

} // verus!
