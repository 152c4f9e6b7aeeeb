//! Change detection and diff rendering: which lines of a document changed
//! since it was last read, its top-level blocks, and the greedy line and
//! word diffs behind the "previous version" view.

use std::collections::HashSet;
use vstd::prelude::*;
use vstd::string::StringSliceAdditionalSpecFns;
use crate::render::{html_escaped, push_html_escaped};
use crate::text::{
    strings_of, strs, chars_of, concat, dec, is_whitespace, is_ws, lemma_concat_push, lines, lines_of, push_all,
    push_str, starts_with, starts_with_str, string_of, trim, trim_bounds, trim_start, views,
};

verus! {

broadcast use vstd::std_specs::hash::group_hash_axioms;

// ---------------------------------------------------------------------
// Changed lines
// ---------------------------------------------------------------------

/// The first index of `x` in `s`, or -1.
pub open spec fn index_of(s: Seq<Seq<char>>, x: Seq<char>) -> int
    decreases s.len(),
{
    if s.len() == 0 {
        -1
    } else if s[0] == x {
        0
    } else {
        let k = index_of(s.drop_first(), x);
        if k < 0 {
            -1
        } else {
            k + 1
        }
    }
}

pub proof fn lemma_index_of(s: Seq<Seq<char>>, x: Seq<char>)
    ensures
        -1 <= index_of(s, x) < s.len(),
        index_of(s, x) >= 0 ==> s[index_of(s, x)] == x,
        forall|j: int| 0 <= j < s.len() && (index_of(s, x) < 0 || j < index_of(s, x)) ==> s[j] != x,
    decreases s.len(),
{
    if s.len() > 0 && s[0] != x {
        lemma_index_of(s.drop_first(), x);
        assert forall|j: int| 0 <= j < s.len() && (index_of(s, x) < 0 || j < index_of(s, x)) implies s[j] != x by {
            if j > 0 {
                assert(s[j] == s.drop_first()[j - 1]);
            }
        }
    }
}

proof fn lemma_index_of_is(s: Seq<Seq<char>>, x: Seq<char>, k: int)
    requires
        -1 <= k < s.len(),
        k >= 0 ==> s[k] == x,
        forall|j: int| 0 <= j < s.len() && (k < 0 || j < k) ==> s[j] != x,
    ensures
        index_of(s, x) == k,
    decreases s.len(),
{
    if s.len() > 0 && k != 0 {
        assert(s[0] != x);
        assert forall|j: int| 0 <= j < s.len() - 1 && (k - 1 < 0 || j < k - 1) implies s.drop_first()[j] != x by {
            assert(s.drop_first()[j] == s[j + 1]);
        }
        if k > 0 {
            assert(s.drop_first()[k - 1] == s[k]);
            lemma_index_of_is(s.drop_first(), x, k - 1);
        } else {
            lemma_index_of_is(s.drop_first(), x, -1);
        }
    }
}

/// The 1-based numbers of the lines of `news` (from `n` on) that are not
/// matched by an unused equal line of `rem`, each match using one line up.
pub open spec fn changed_from(rem: Seq<Seq<char>>, news: Seq<Seq<char>>, n: int) -> Set<usize>
    decreases news.len(),
{
    if news.len() == 0 {
        Set::empty()
    } else {
        let k = index_of(rem, news[0]);
        if k >= 0 {
            changed_from(rem.remove(k), news.drop_first(), n + 1)
        } else {
            changed_from(rem, news.drop_first(), n + 1).insert((n + 1) as usize)
        }
    }
}

fn index_in(rem: &Vec<Vec<char>>, x: &Vec<char>) -> (r: Option<usize>)
    ensures
        match r {
            Some(k) => k as int == index_of(views(rem@), x@),
            None => index_of(views(rem@), x@) == -1,
        },
{
    let ghost rv = views(rem@);
    let mut k: usize = 0;
    while k < rem.len()
        invariant
            rv == views(rem@),
            k <= rem@.len(),
            forall|j: int| 0 <= j < k ==> rv[j] != x@,
        decreases rem@.len() - k,
    {
        assert(rv[k as int] == rem@[k as int]@);
        if crate::text::chars_eq(rem[k].as_slice(), x.as_slice()) {
            proof {
                lemma_index_of_is(rv, x@, k as int);
            }
            return Some(k);
        }
        k = k + 1;
    }
    proof {
        lemma_index_of_is(rv, x@, -1);
    }
    None
}

/// Lines of `new` with no counterpart in `old`: each line of `old` can
/// account for one equal line of `new`. Imprecise around duplicate
/// lines, enough for marking changed prose. Numbers are 1-based.
pub fn compute_changed_lines(old: &str, new: &str) -> (r: HashSet<usize>)
    ensures
        r@ == changed_from(lines(old@), lines(new@), 0),
{
    let mut rem = lines_of(chars_of(old).as_slice());
    let news = lines_of(chars_of(new).as_slice());
    let ghost nv = views(news@);
    let mut changed: HashSet<usize> = HashSet::new();
    let mut i: usize = 0;
    assert(nv.skip(0) =~= nv);
    while i < news.len()
        invariant
            nv == views(news@),
            nv == lines(new@),
            i <= news@.len(),
            changed_from(lines(old@), nv, 0) == changed@ + changed_from(views(rem@), nv.skip(i as int), i as int),
            forall|x: usize| changed@.contains(x) ==> 1 <= x <= i,
        decreases news@.len() - i,
    {
        let ghost rest = nv.skip(i as int);
        assert(rest[0] == news@[i as int]@);
        assert(rest.drop_first() =~= nv.skip(i + 1));
        let ghost before = changed@;
        let ghost rv = views(rem@);
        match index_in(&rem, &news[i]) {
            Some(k) => {
                proof {
                    lemma_index_of(rv, news@[i as int]@);
                }
                rem.remove(k);
                proof {
                    assert(views(rem@) =~= rv.remove(k as int));
                }
            },
            None => {
                changed.insert(i + 1);
                proof {
                    assert(changed@ == before.insert((i + 1) as usize));
                    let later = changed_from(rv, nv.skip(i + 1), i + 1);
                    assert(before + later.insert((i + 1) as usize) =~= changed@ + later);
                }
            },
        }
        i = i + 1;
    }
    assert(nv.skip(i as int) =~= Seq::<Seq<char>>::empty());
    assert(changed@ + Set::<usize>::empty() =~= changed@);
    changed
}

// ---------------------------------------------------------------------
// Top-level blocks
// ---------------------------------------------------------------------

pub open spec fn opens_fence(l: Seq<char>) -> bool {
    starts_with(trim_start(l), "```"@) || starts_with(trim_start(l), "~~~"@)
}

/// The fence marker a fence line opens with.
pub open spec fn fence_marker(l: Seq<char>) -> Seq<char> {
    if starts_with(trim_start(l), "```"@) {
        "```"@
    } else {
        "~~~"@
    }
}

/// The blocks from line `idx` on (0-based; reported 1-based and
/// inclusive): runs of non-blank lines, with fenced code kept whole.
pub open spec fn blocks_from(
    ls: Seq<Seq<char>>,
    idx: int,
    start: Option<int>,
    fence: Option<Seq<char>>,
) -> Seq<(usize, usize)>
    decreases ls.len() - idx,
{
    if idx < 0 || idx >= ls.len() {
        match start {
            Some(s) => seq![(s as usize, ls.len() as usize)],
            None => seq![],
        }
    } else {
        let l = ls[idx];
        match fence {
            Some(m) => blocks_from(
                ls,
                idx + 1,
                start,
                if starts_with(trim_start(l), m) {
                    None
                } else {
                    Some(m)
                },
            ),
            None => if opens_fence(l) {
                blocks_from(
                    ls,
                    idx + 1,
                    if start is None {
                        Some(idx + 1)
                    } else {
                        start
                    },
                    Some(fence_marker(l)),
                )
            } else if trim(l).len() == 0 {
                match start {
                    Some(s) => seq![(s as usize, idx as usize)] + blocks_from(ls, idx + 1, None, None),
                    None => blocks_from(ls, idx + 1, None, None),
                }
            } else {
                blocks_from(
                    ls,
                    idx + 1,
                    if start is None {
                        Some(idx + 1)
                    } else {
                        start
                    },
                    None,
                )
            },
        }
    }
}

/// The blocks from line `idx` on start after the open block's start (or
/// after `idx`), end within the text, and follow each other without
/// overlapping.
pub proof fn lemma_blocks_from(ls: Seq<Seq<char>>, idx: int, start: Option<int>, fence: Option<Seq<char>>)
    requires
        0 <= idx <= ls.len() <= usize::MAX,
        start matches Some(s) ==> 1 <= s <= idx,
    ensures
        forall|k: int|
            0 <= k < blocks_from(ls, idx, start, fence).len() ==> (match start {
                Some(s) => s,
                None => idx + 1,
            }) <= (#[trigger] blocks_from(ls, idx, start, fence)[k]).0 <= blocks_from(ls, idx, start, fence)[k].1
                <= ls.len(),
        forall|k: int|
            0 <= k < blocks_from(ls, idx, start, fence).len() - 1 ==> (#[trigger] blocks_from(ls, idx, start, fence)[k]).1
                < blocks_from(ls, idx, start, fence)[k + 1].0,
    decreases ls.len() - idx,
{
    let r = blocks_from(ls, idx, start, fence);
    if idx >= ls.len() {
        match start {
            Some(s) => {
                assert(r == seq![(s as usize, ls.len() as usize)]);
            },
            None => {
                assert(r.len() == 0);
            },
        }
    } else {
        let l = ls[idx];
        match fence {
            Some(m) => {
                let nf = if starts_with(trim_start(l), m) { None } else { Some(m) };
                lemma_blocks_from(ls, idx + 1, start, nf);
                assert(r == blocks_from(ls, idx + 1, start, nf));
            },
            None => {
                if opens_fence(l) {
                    let ns = if start is None { Some(idx + 1) } else { start };
                    lemma_blocks_from(ls, idx + 1, ns, Some(fence_marker(l)));
                    assert(r == blocks_from(ls, idx + 1, ns, Some(fence_marker(l))));
                } else if trim(l).len() == 0 {
                    lemma_blocks_from(ls, idx + 1, None, None);
                    match start {
                        Some(s) => {
                            let rest = blocks_from(ls, idx + 1, None, None);
                            let all = seq![(s as usize, idx as usize)] + rest;
                            assert(r == all);
                            assert forall|k: int| 0 <= k < all.len() - 1 implies (#[trigger] all[k]).1 < all[k + 1].0 by {
                                if k > 0 {
                                    assert(all[k] == rest[k - 1]);
                                    assert(all[k + 1] == rest[k]);
                                } else {
                                    assert(all[1] == rest[0]);
                                }
                            }
                            assert forall|k: int| 0 <= k < all.len() implies s <= (#[trigger] all[k]).0 <= all[k].1 <= ls.len() by {
                                if k > 0 {
                                    assert(all[k] == rest[k - 1]);
                                }
                            }
                        },
                        None => {
                            assert(r == blocks_from(ls, idx + 1, None, None));
                        },
                    }
                } else {
                    let ns = if start is None { Some(idx + 1) } else { start };
                    lemma_blocks_from(ls, idx + 1, ns, None);
                    assert(r == blocks_from(ls, idx + 1, ns, None));
                }
            },
        }
    }
}

fn trim_start_vec(l: &[char]) -> (r: Vec<char>)
    ensures
        r@ == trim_start(l@),
{
    let (lo, _hi) = trim_bounds(l, 0, l.len());
    assert(l@.subrange(0, l@.len() as int) =~= l@);
    crate::text::slice_vec(l, lo, l.len())
}

/// Split a document into top-level blocks, as 1-based inclusive line
/// ranges: blank lines separate blocks, but a fenced code block (```
/// or ~~~) stays whole across its blank lines.
pub fn split_top_level_blocks(text: &str) -> (r: Vec<(usize, usize)>)
    ensures
        r@ == blocks_from(lines(text@), 0, None, None),
{
    let ls = lines_of(chars_of(text).as_slice());
    let ghost lv = views(ls@);
    let ghost target = blocks_from(lv, 0, None, None);
    let mut out: Vec<(usize, usize)> = Vec::new();
    let mut start: Option<usize> = None;
    let mut fence: Option<Vec<char>> = None;
    let mut idx: usize = 0;
    while idx < ls.len()
        invariant
            lv == views(ls@),
            lv == lines(text@),
            target == blocks_from(lv, 0, None, None),
            idx <= ls@.len(),
            start matches Some(s) ==> 1 <= s <= idx,
            target == out@ + blocks_from(
                lv,
                idx as int,
                match start {
                    Some(s) => Some(s as int),
                    None => None,
                },
                match fence {
                    Some(m) => Some(m@),
                    None => None,
                },
            ),
        decreases ls@.len() - idx,
    {
        let line = &ls[idx];
        assert(lv[idx as int] == line@);
        let t = trim_start_vec(line.as_slice());
        let ghost before = out@;
        match fence {
            Some(m) => {
                if crate::text::starts_with_at(t.as_slice(), 0, m.as_slice()) {
                    fence = None;
                } else {
                    fence = Some(m);
                }
                assert(t@.skip(0) =~= t@);
            },
            None => {
                let bt = starts_with_str(t.as_slice(), "```");
                let tt = starts_with_str(t.as_slice(), "~~~");
                if bt || tt {
                    if start.is_none() {
                        start = Some(idx + 1);
                    }
                    fence = Some(chars_of(if bt { "```" } else { "~~~" }));
                } else if crate::text::is_blank(line.as_slice()) {
                    match start {
                        Some(s) => {
                            out.push((s, idx));
                            assert(out@ =~= before.push((s, idx)));
                        },
                        None => {},
                    }
                    start = None;
                } else if start.is_none() {
                    start = Some(idx + 1);
                }
            },
        }
        idx = idx + 1;
    }
    match start {
        Some(s) => {
            out.push((s, ls.len()));
        },
        None => {},
    }
    out
}

// ---------------------------------------------------------------------
// Line diff
// ---------------------------------------------------------------------

/// One step of a line diff.
pub enum LineOp {
    Equal(String),
    Delete(String),
    Add(String),
}

pub enum OpView {
    Equal(Seq<char>),
    Delete(Seq<char>),
    Add(Seq<char>),
}

impl View for LineOp {
    type V = OpView;

    open spec fn view(&self) -> OpView {
        match self {
            LineOp::Equal(s) => OpView::Equal(s@),
            LineOp::Delete(s) => OpView::Delete(s@),
            LineOp::Add(s) => OpView::Add(s@),
        }
    }
}

pub open spec fn ops_view(ops: Seq<LineOp>) -> Seq<OpView> {
    ops.map_values(|o: LineOp| o@)
}


/// The first index at or after `i` where `olds` has `x`, or -1.
pub open spec fn first_match(olds: Seq<Seq<char>>, i: int, x: Seq<char>) -> int
    decreases olds.len() - i,
{
    if i < 0 || i >= olds.len() {
        -1
    } else if olds[i] == x {
        i
    } else {
        first_match(olds, i + 1, x)
    }
}

pub proof fn lemma_first_match(olds: Seq<Seq<char>>, i: int, x: Seq<char>)
    requires
        0 <= i,
    ensures
        first_match(olds, i, x) == -1 || (i <= first_match(olds, i, x) < olds.len() && olds[first_match(olds, i, x)] == x),
    decreases olds.len() - i,
{
    if i < olds.len() && olds[i] != x {
        lemma_first_match(olds, i + 1, x);
    }
}

pub open spec fn deletes(s: Seq<Seq<char>>) -> Seq<OpView> {
    s.map_values(|l: Seq<char>| OpView::Delete(l))
}

/// The greedy line diff of `olds[i..]` against `news`: each new line
/// matches the next equal old line, the old lines skipped on the way are
/// deleted, and a new line without a match is added.
pub open spec fn ops_from(olds: Seq<Seq<char>>, news: Seq<Seq<char>>, i: int) -> Seq<OpView>
    decreases news.len(),
{
    if news.len() == 0 {
        if 0 <= i <= olds.len() {
            deletes(olds.skip(i))
        } else {
            seq![]
        }
    } else {
        let p = first_match(olds, i, news[0]);
        if p >= 0 && 0 <= i <= p {
            deletes(olds.subrange(i, p)) + seq![OpView::Equal(news[0])] + ops_from(olds, news.drop_first(), p + 1)
        } else {
            seq![OpView::Add(news[0])] + ops_from(olds, news.drop_first(), i)
        }
    }
}

fn first_match_exec(olds: &[String], i: usize, x: &str) -> (r: Option<usize>)
    requires
        i <= olds@.len(),
    ensures
        match r {
            Some(p) => p as int == first_match(strs(olds@), i as int, x@),
            None => first_match(strs(olds@), i as int, x@) == -1,
        },
{
    let ghost ov = strs(olds@);
    let mut p = i;
    while p < olds.len()
        invariant
            ov == strs(olds@),
            i <= p <= olds@.len(),
            first_match(ov, i as int, x@) == first_match(ov, p as int, x@),
        decreases olds@.len() - p,
    {
        assert(ov[p as int] == olds@[p as int]@);
        if crate::text::eq_str(chars_of(olds[p].as_str()).as_slice(), x) {
            return Some(p);
        }
        p = p + 1;
    }
    None
}

/// Greedy line diff: each new line is matched with the next equal old
/// line, the old lines passed over are deletions, a new line with no
/// later match is an addition, and the old lines left at the end are
/// deletions.
pub fn line_diff_ops(old_lines: &[String], new_lines: &[String]) -> (r: Vec<LineOp>)
    ensures
        ops_view(r@) == ops_from(
            strs(old_lines@),
            strs(new_lines@),
            0,
        ),
{
    let ghost ov = strs(old_lines@);
    let ghost nv = strs(new_lines@);
    let ghost target = ops_from(ov, nv, 0);
    let mut ops: Vec<LineOp> = Vec::new();
    let mut i: usize = 0;
    let mut k: usize = 0;
    assert(nv.skip(0) =~= nv);
    while k < new_lines.len()
        invariant
            ov == strs(old_lines@),
            nv == strs(new_lines@),
            target == ops_from(ov, nv, 0),
            i <= old_lines@.len(),
            k <= new_lines@.len(),
            target == ops_view(ops@) + ops_from(ov, nv.skip(k as int), i as int),
        decreases new_lines@.len() - k,
    {
        let ghost rest = nv.skip(k as int);
        assert(rest[0] == new_lines@[k as int]@);
        assert(rest.drop_first() =~= nv.skip(k + 1));
        let ghost before = ops_view(ops@);
        let nl = new_lines[k].as_str();
        match first_match_exec(old_lines, i, nl) {
            Some(p) => {
                proof {
                    lemma_first_match(ov, i as int, nl@);
                }
                let mut j = i;
                while j < p
                    invariant
                        i <= j <= p < old_lines.len(),
                        ov == strs(old_lines@),
                        ops_view(ops@) == before + deletes(ov.subrange(i as int, j as int)),
                    decreases p - j,
                {
                    let ghost b2 = ops@;
                    let d = LineOp::Delete(old_lines[j].clone());
                    ops.push(d);
                    proof {
                        assert(ov[j as int] == old_lines@[j as int]@);
                        assert(ops_view(ops@) =~= ops_view(b2).push(d@));
                        assert(deletes(ov.subrange(i as int, j + 1)) =~= deletes(ov.subrange(i as int, j as int)).push(OpView::Delete(ov[j as int])));
                    }
                    j = j + 1;
                }
                let ghost b3 = ops@;
                let e = LineOp::Equal(new_lines[k].clone());
                ops.push(e);
                assert(ops_view(ops@) =~= ops_view(b3).push(e@));
                assert(ops_from(ov, rest, i as int) == deletes(ov.subrange(i as int, p as int)) + seq![OpView::Equal(rest[0])] + ops_from(ov, rest.drop_first(), p + 1));
                i = p + 1;
            },
            None => {
                let ghost b3 = ops@;
                let a = LineOp::Add(new_lines[k].clone());
                ops.push(a);
                assert(ops_view(ops@) =~= ops_view(b3).push(a@));
            },
        }
        k = k + 1;
    }
    let ghost before = ops_view(ops@);
    let mut j = i;
    while j < old_lines.len()
        invariant
            i <= j <= old_lines@.len(),
            ov == strs(old_lines@),
            ops_view(ops@) == before + deletes(ov.subrange(i as int, j as int)),
        decreases old_lines@.len() - j,
    {
        let ghost b2 = ops@;
        let d = LineOp::Delete(old_lines[j].clone());
        ops.push(d);
        proof {
            assert(ov[j as int] == old_lines@[j as int]@);
            assert(ops_view(ops@) =~= ops_view(b2).push(d@));
            assert(deletes(ov.subrange(i as int, j + 1)) =~= deletes(ov.subrange(i as int, j as int)).push(OpView::Delete(ov[j as int])));
        }
        j = j + 1;
    }
    proof {
        assert(nv.skip(k as int) =~= Seq::<Seq<char>>::empty());
        assert(ov.subrange(i as int, ov.len() as int) =~= ov.skip(i as int));
    }
    ops
}

// ---------------------------------------------------------------------
// Tokens
// ---------------------------------------------------------------------

/// What `char::is_alphanumeric` says of `c`: whether it has the Unicode
/// `Alphabetic` or `Numeric` property.
pub uninterp spec fn alphanumeric(c: char) -> bool;

pub open spec fn is_ascii_alnum(c: char) -> bool {
    ('a' <= c && c <= 'z') || ('A' <= c && c <= 'Z') || ('0' <= c && c <= '9')
}

/// `char::is_alphanumeric`. Within ASCII the `Alphabetic` and `Numeric`
/// properties hold of exactly the letters and digits.
#[verifier::external_body]
fn is_alnum(c: char) -> (b: bool)
    ensures
        b == alphanumeric(c),
        (c as u32) < 128 ==> (b == is_ascii_alnum(c)),
{
    c.is_alphanumeric()
}

/// The token class of a character: 0 alphanumeric, 1 whitespace, 2 any
/// other character (a token of its own).
pub open spec fn tclass(c: char) -> int {
    if alphanumeric(c) {
        0
    } else if is_ws(c) {
        1
    } else {
        2
    }
}

/// The diff tokens of `s`: maximal runs of alphanumerics, maximal runs
/// of whitespace, and every other character on its own.
pub open spec fn tokens(s: Seq<char>) -> Seq<Seq<char>>
    decreases s.len(),
{
    if s.len() == 0 {
        seq![]
    } else {
        let t = tokens(s.drop_last());
        let c = s.last();
        if t.len() > 0 && tclass(c) != 2 && t.last().len() > 0 && tclass(t.last().last()) == tclass(c) {
            t.drop_last().push(t.last().push(c))
        } else {
            t.push(seq![c])
        }
    }
}

fn char_class(c: char) -> (k: u8)
    ensures
        k as int == tclass(c),
{
    if is_alnum(c) {
        0
    } else if is_whitespace(c) {
        1
    } else {
        2
    }
}

fn tokens_of(s: &[char]) -> (r: Vec<String>)
    ensures
        strs(r@) == tokens(s@),
{
    let mut done: Vec<String> = Vec::new();
    let mut cur: Vec<char> = Vec::new();
    let mut i: usize = 0;
    while i < s.len()
        invariant
            i <= s@.len(),
            (cur@.len() == 0) == (i == 0),
            tokens(s@.take(i as int)) == if i == 0 {
                strs(done@)
            } else {
                strs(done@).push(cur@)
            },
        decreases s@.len() - i,
    {
        let c = s[i];
        let ghost pre = s@.take(i as int);
        let ghost dv = strs(done@);
        assert(s@.take(i + 1).drop_last() =~= pre);
        assert(s@.take(i + 1).last() == c);
        let k = char_class(c);
        if i > 0 && k != 2 && char_class(cur[cur.len() - 1]) == k {
            cur.push(c);
            assert(tokens(pre).drop_last() =~= dv);
        } else {
            if i > 0 {
                let t = string_of(cur.as_slice());
                done.push(t);
                assert(strs(done@) =~= dv.push(t@));
            }
            cur = Vec::new();
            cur.push(c);
        }
        i = i + 1;
    }
    if i > 0 {
        let ghost dv = strs(done@);
        let t = string_of(cur.as_slice());
        done.push(t);
        assert(strs(done@) =~= dv.push(t@));
    }
    assert(s@.take(i as int) =~= s@);
    done
}

/// Split `s` into diff tokens: runs of alphanumerics, runs of whitespace,
/// and single other characters. Whitespace stays a token of its own, so
/// joining the tokens gives `s` back.
pub fn tokenize_for_diff(s: &str) -> (r: Vec<String>)
    ensures
        strs(r@) == tokens(s@),
{
    let v = chars_of(s);
    tokens_of(v.as_slice())
}

// ---------------------------------------------------------------------
// Word diff
// ---------------------------------------------------------------------

pub open spec fn inserts(s: Seq<Seq<char>>) -> Seq<OpView> {
    s.map_values(|l: Seq<char>| OpView::Add(l))
}

/// The greedy word diff of `olds[i..]` against `news`, with the new
/// tokens `pend` still waiting: each new token matches the next equal old
/// token; the old tokens passed over are deleted and the waiting new
/// tokens inserted just before it, so deletions read before insertions.
pub open spec fn word_ops(
    olds: Seq<Seq<char>>,
    news: Seq<Seq<char>>,
    i: int,
    pend: Seq<Seq<char>>,
) -> Seq<OpView>
    decreases news.len(),
{
    if news.len() == 0 {
        if 0 <= i <= olds.len() {
            deletes(olds.skip(i)) + inserts(pend)
        } else {
            inserts(pend)
        }
    } else {
        let p = first_match(olds, i, news[0]);
        if p >= 0 && 0 <= i <= p {
            deletes(olds.subrange(i, p)) + inserts(pend) + seq![OpView::Equal(news[0])] + word_ops(
                olds,
                news.drop_first(),
                p + 1,
                seq![],
            )
        } else {
            word_ops(olds, news.drop_first(), i, pend.push(news[0]))
        }
    }
}

fn push_deletes(ops: &mut Vec<LineOp>, olds: &[String], from: usize, to: usize)
    requires
        from <= to <= olds@.len(),
    ensures
        ops_view(final(ops)@) == ops_view(old(ops)@) + deletes(strs(olds@).subrange(from as int, to as int)),
{
    let ghost ov = strs(olds@);
    let ghost start = ops_view(ops@);
    let mut j = from;
    while j < to
        invariant
            from <= j <= to <= olds@.len(),
            ov == strs(olds@),
            ops_view(ops@) == start + deletes(ov.subrange(from as int, j as int)),
        decreases to - j,
    {
        let ghost b = ops@;
        let d = LineOp::Delete(olds[j].clone());
        ops.push(d);
        proof {
            assert(ov[j as int] == olds@[j as int]@);
            assert(ops_view(ops@) =~= ops_view(b).push(d@));
            assert(deletes(ov.subrange(from as int, j + 1)) =~= deletes(ov.subrange(from as int, j as int)).push(OpView::Delete(ov[j as int])));
        }
        j = j + 1;
    }
}

fn push_inserts(ops: &mut Vec<LineOp>, news: &[String])
    ensures
        ops_view(final(ops)@) == ops_view(old(ops)@) + inserts(strs(news@)),
{
    let ghost nv = strs(news@);
    let ghost start = ops_view(ops@);
    let mut j: usize = 0;
    while j < news.len()
        invariant
            j <= news@.len(),
            nv == strs(news@),
            ops_view(ops@) == start + inserts(nv.take(j as int)),
        decreases news@.len() - j,
    {
        let ghost b = ops@;
        let a = LineOp::Add(news[j].clone());
        ops.push(a);
        proof {
            assert(nv[j as int] == news@[j as int]@);
            assert(ops_view(ops@) =~= ops_view(b).push(a@));
            assert(inserts(nv.take(j + 1)) =~= inserts(nv.take(j as int)).push(OpView::Add(nv[j as int])));
        }
        j = j + 1;
    }
    assert(nv.take(j as int) =~= nv);
}

fn word_diff_ops(olds: &[String], news: &[String]) -> (r: Vec<LineOp>)
    ensures
        ops_view(r@) == word_ops(strs(olds@), strs(news@), 0, seq![]),
{
    let ghost ov = strs(olds@);
    let ghost nv = strs(news@);
    let ghost target = word_ops(ov, nv, 0, seq![]);
    let mut ops: Vec<LineOp> = Vec::new();
    let mut pending: Vec<String> = Vec::new();
    let mut i: usize = 0;
    let mut k: usize = 0;
    assert(nv.skip(0) =~= nv);
    assert(strs(pending@) =~= Seq::<Seq<char>>::empty());
    while k < news.len()
        invariant
            ov == strs(olds@),
            nv == strs(news@),
            target == word_ops(ov, nv, 0, seq![]),
            i <= olds.len(),
            k <= news@.len(),
            target == ops_view(ops@) + word_ops(ov, nv.skip(k as int), i as int, strs(pending@)),
        decreases news@.len() - k,
    {
        let ghost rest = nv.skip(k as int);
        assert(rest[0] == news@[k as int]@);
        assert(rest.drop_first() =~= nv.skip(k + 1));
        let ghost before = ops_view(ops@);
        let ghost pv = strs(pending@);
        let nt = news[k].as_str();
        match first_match_exec(olds, i, nt) {
            Some(p) => {
                proof {
                    lemma_first_match(ov, i as int, nt@);
                }
                push_deletes(&mut ops, olds, i, p);
                push_inserts(&mut ops, pending.as_slice());
                pending = Vec::new();
                let ghost b3 = ops@;
                let e = LineOp::Equal(news[k].clone());
                ops.push(e);
                assert(ops_view(ops@) =~= ops_view(b3).push(e@));
                assert(strs(pending@) =~= Seq::<Seq<char>>::empty());
                i = p + 1;
            },
            None => {
                pending.push(news[k].clone());
                assert(strs(pending@) =~= pv.push(rest[0]));
            },
        }
        k = k + 1;
    }
    let ghost pv = strs(pending@);
    assert(nv.skip(k as int) =~= Seq::<Seq<char>>::empty());
    push_deletes(&mut ops, olds, i, olds.len());
    push_inserts(&mut ops, pending.as_slice());
    assert(ov.subrange(i as int, ov.len() as int) =~= ov.skip(i as int));
    ops
}

/// Opening and closing tags around a deleted or inserted token, in the
/// Markdown (`<del>`/`<ins>`) or the HTML (`<span>`) rendering.
pub open spec fn del_open(html: bool) -> Seq<char> {
    if html {
        "<span class=\"rmd-diff-w-del\">"@
    } else {
        "<del class=\"rmd-diff-w-del\">"@
    }
}

pub open spec fn del_close(html: bool) -> Seq<char> {
    if html {
        "</span>"@
    } else {
        "</del>"@
    }
}

pub open spec fn ins_open(html: bool) -> Seq<char> {
    if html {
        "<span class=\"rmd-diff-w-add\">"@
    } else {
        "<ins class=\"rmd-diff-w-add\">"@
    }
}

pub open spec fn ins_close(html: bool) -> Seq<char> {
    if html {
        "</span>"@
    } else {
        "</ins>"@
    }
}

/// Text as written into the output: HTML-escaped in the HTML rendering,
/// verbatim in the Markdown one.
pub open spec fn esc(t: Seq<char>, html: bool) -> Seq<char> {
    if html {
        html_escaped(t)
    } else {
        t
    }
}

/// How one diff step is written.
pub open spec fn piece(o: OpView, html: bool) -> Seq<char> {
    match o {
        OpView::Equal(t) => esc(t, html),
        OpView::Delete(t) => del_open(html) + esc(t, html) + del_close(html),
        OpView::Add(t) => ins_open(html) + esc(t, html) + ins_close(html),
    }
}

pub open spec fn pieces_text(ops: Seq<OpView>, html: bool) -> Seq<char>
    decreases ops.len(),
{
    if ops.len() == 0 {
        seq![]
    } else {
        pieces_text(ops.drop_last(), html) + piece(ops.last(), html)
    }
}

fn push_esc(out: &mut Vec<char>, t: &str, html: bool)
    ensures
        final(out)@ == old(out)@ + esc(t@, html),
{
    if html {
        let v = chars_of(t);
        push_html_escaped(out, v.as_slice());
    } else {
        push_str(out, t);
    }
}

fn push_piece(out: &mut Vec<char>, o: &LineOp, html: bool)
    ensures
        final(out)@ == old(out)@ + piece(o@, html),
{
    let ghost start = out@;
    match o {
        LineOp::Equal(t) => {
            push_esc(out, t.as_str(), html);
        },
        LineOp::Delete(t) => {
            push_str(out, if html { "<span class=\"rmd-diff-w-del\">" } else { "<del class=\"rmd-diff-w-del\">" });
            push_esc(out, t.as_str(), html);
            push_str(out, if html { "</span>" } else { "</del>" });
            assert(out@ =~= start + piece(o@, html));
        },
        LineOp::Add(t) => {
            push_str(out, if html { "<span class=\"rmd-diff-w-add\">" } else { "<ins class=\"rmd-diff-w-add\">" });
            push_esc(out, t.as_str(), html);
            push_str(out, if html { "</span>" } else { "</ins>" });
            assert(out@ =~= start + piece(o@, html));
        },
    }
}

fn push_pieces(out: &mut Vec<char>, ops: &[LineOp], html: bool)
    ensures
        final(out)@ == old(out)@ + pieces_text(ops_view(ops@), html),
{
    let ghost start = out@;
    let ghost ovs = ops_view(ops@);
    let mut i: usize = 0;
    assert(ovs.take(0) =~= Seq::<OpView>::empty());
    while i < ops.len()
        invariant
            i <= ops@.len(),
            ovs == ops_view(ops@),
            out@ == start + pieces_text(ovs.take(i as int), html),
        decreases ops@.len() - i,
    {
        push_piece(out, &ops[i], html);
        proof {
            assert(ovs.take(i + 1).drop_last() =~= ovs.take(i as int));
            assert(ovs.take(i + 1).last() == ops@[i as int]@);
            assert(out@ =~= start + pieces_text(ovs.take(i + 1), html));
        }
        i = i + 1;
    }
    assert(ovs.take(i as int) =~= ovs);
}

/// The word diff of one line pair, in either rendering.
pub open spec fn word_diff_text(old: Seq<char>, new: Seq<char>, html: bool) -> Seq<char> {
    pieces_text(word_ops(tokens(old), tokens(new), 0, seq![]), html)
}

fn push_word_diff(out: &mut Vec<char>, before: &str, after: &str, html: bool)
    ensures
        final(out)@ == old(out)@ + word_diff_text(before@, after@, html),
{
    let ot = tokenize_for_diff(before);
    let nt = tokenize_for_diff(after);
    let ops = word_diff_ops(ot.as_slice(), nt.as_slice());
    push_pieces(out, ops.as_slice(), html);
}

/// A modified line as Markdown: the new text, with the deleted old tokens
/// in `<del>` and the inserted new ones in `<ins>`.
pub fn build_annotated_word_diff_md(old: &str, new: &str) -> (r: String)
    ensures
        r@ == word_diff_text(old@, new@, false),
{
    let mut out: Vec<char> = Vec::new();
    push_word_diff(&mut out, old, new, false);
    string_of(out.as_slice())
}

/// A modified line as HTML: tokens escaped, the deleted and inserted ones
/// wrapped in `<span>`s of the two diff classes.
pub fn render_word_diff_html(old: &str, new: &str) -> (r: String)
    ensures
        r@ == word_diff_text(old@, new@, true),
{
    let mut out: Vec<char> = Vec::new();
    push_word_diff(&mut out, old, new, true);
    string_of(out.as_slice())
}

// ---------------------------------------------------------------------
// Line similarity
// ---------------------------------------------------------------------

/// The tokens of `ts` that are not blank.
pub open spec fn kept(ts: Seq<Seq<char>>) -> Seq<Seq<char>>
    decreases ts.len(),
{
    if ts.len() == 0 {
        seq![]
    } else if trim(ts.last()).len() > 0 {
        kept(ts.drop_last()).push(ts.last())
    } else {
        kept(ts.drop_last())
    }
}

/// How many of `bs` find an unused equal token in `rem`, taken in order,
/// each match using one token of `rem` up: the size of the multiset
/// intersection.
pub open spec fn overlap(rem: Seq<Seq<char>>, bs: Seq<Seq<char>>) -> nat
    decreases bs.len(),
{
    if bs.len() == 0 {
        0
    } else {
        let k = index_of(rem, bs[0]);
        if k >= 0 {
            1 + overlap(rem.remove(k), bs.drop_first())
        } else {
            overlap(rem, bs.drop_first())
        }
    }
}

pub open spec fn max_len(a: Seq<Seq<char>>, b: Seq<Seq<char>>) -> nat {
    if a.len() >= b.len() {
        a.len()
    } else {
        b.len()
    }
}

/// Whether two lines share enough vocabulary to be shown as one modified
/// line: the shared non-blank tokens are at least 30% of the larger
/// token count (two lines without tokens count as alike).
pub open spec fn similar(a: Seq<char>, b: Seq<char>) -> bool {
    let ka = kept(tokens(a));
    let kb = kept(tokens(b));
    10 * overlap(ka, kb) >= 3 * max_len(ka, kb)
}

fn kept_tokens(s: &str) -> (r: Vec<Vec<char>>)
    ensures
        views(r@) == kept(tokens(s@)),
{
    let ts = tokenize_for_diff(s);
    let ghost tv = strs(ts@);
    let mut out: Vec<Vec<char>> = Vec::new();
    let mut i: usize = 0;
    assert(tv.take(0) =~= Seq::<Seq<char>>::empty());
    while i < ts.len()
        invariant
            i <= ts@.len(),
            tv == strs(ts@),
            views(out@) == kept(tv.take(i as int)),
        decreases ts@.len() - i,
    {
        let v = chars_of(ts[i].as_str());
        let ghost before = views(out@);
        assert(tv.take(i + 1).drop_last() =~= tv.take(i as int));
        assert(tv.take(i + 1).last() == v@);
        if !crate::text::is_blank(v.as_slice()) {
            out.push(v);
            assert(views(out@) =~= before.push(tv[i as int]));
        }
        i = i + 1;
    }
    assert(tv.take(i as int) =~= tv);
    out
}

fn overlap_count(a: Vec<Vec<char>>, b: &[Vec<char>]) -> (c: usize)
    ensures
        c == overlap(views(a@), views(b@)),
{
    let mut rem = a;
    let ghost bv = views(b@);
    let mut common: usize = 0;
    let mut i: usize = 0;
    assert(bv.skip(0) =~= bv);
    while i < b.len()
        invariant
            bv == views(b@),
            i <= b@.len(),
            common <= i,
            overlap(views(a@), bv) == common + overlap(views(rem@), bv.skip(i as int)),
        decreases b@.len() - i,
    {
        let ghost rest = bv.skip(i as int);
        assert(rest[0] == b@[i as int]@);
        assert(rest.drop_first() =~= bv.skip(i + 1));
        let ghost rv = views(rem@);
        match index_in(&rem, &b[i]) {
            Some(k) => {
                proof {
                    lemma_index_of(rv, b@[i as int]@);
                }
                rem.remove(k);
                assert(views(rem@) =~= rv.remove(k as int));
                common = common + 1;
            },
            None => {},
        }
        i = i + 1;
    }
    assert(bv.skip(i as int) =~= Seq::<Seq<char>>::empty());
    common
}

/// The shared and the larger count of non-blank tokens of two lines; the
/// similarity of the lines is the first divided by the second.
pub fn token_overlap(a: &str, b: &str) -> (r: (usize, usize))
    ensures
        r.0 == overlap(kept(tokens(a@)), kept(tokens(b@))),
        r.1 == max_len(kept(tokens(a@)), kept(tokens(b@))),
{
    let ka = kept_tokens(a);
    let kb = kept_tokens(b);
    let bigger = if ka.len() >= kb.len() { ka.len() } else { kb.len() };
    let common = overlap_count(ka, kb.as_slice());
    (common, bigger)
}

/// Whether a deleted and an added line are similar enough to be shown
/// as one modified line with a word diff (see [`similar`]).
pub fn meets_modified_threshold(a: &str, b: &str) -> (r: bool)
    ensures
        r == similar(a@, b@),
{
    let (common, bigger) = token_overlap(a, b);
    (common as u128) * 10 >= (bigger as u128) * 3
}

// ---------------------------------------------------------------------
// Block diffs
// ---------------------------------------------------------------------

/// The first index at or after `j` of an unchanged line, or the length.
pub open spec fn run_end(ops: Seq<OpView>, j: int) -> int
    decreases ops.len() - j,
{
    if j < 0 || j >= ops.len() {
        ops.len() as int
    } else if ops[j] is Equal {
        j
    } else {
        run_end(ops, j + 1)
    }
}

pub proof fn lemma_run_end(ops: Seq<OpView>, j: int)
    requires
        0 <= j <= ops.len(),
    ensures
        j <= run_end(ops, j) <= ops.len(),
    decreases ops.len() - j,
{
    if j < ops.len() && !(ops[j] is Equal) {
        lemma_run_end(ops, j + 1);
    }
}

/// The added lines among `ops`, in order.
pub open spec fn added(ops: Seq<OpView>) -> Seq<Seq<char>>
    decreases ops.len(),
{
    if ops.len() == 0 {
        seq![]
    } else {
        match ops.last() {
            OpView::Add(t) => added(ops.drop_last()).push(t),
            _ => added(ops.drop_last()),
        }
    }
}

/// The deleted lines among `ops`, in order.
pub open spec fn deleted(ops: Seq<OpView>) -> Seq<Seq<char>>
    decreases ops.len(),
{
    if ops.len() == 0 {
        seq![]
    } else {
        match ops.last() {
            OpView::Delete(t) => deleted(ops.drop_last()).push(t),
            _ => deleted(ops.drop_last()),
        }
    }
}

/// One whole line of a block diff.
pub open spec fn line_piece(o: OpView, html: bool) -> Seq<char> {
    piece(o, html) + "\n"@
}

pub open spec fn lines_text(ops: Seq<OpView>, html: bool) -> Seq<char>
    decreases ops.len(),
{
    if ops.len() == 0 {
        seq![]
    } else {
        lines_text(ops.drop_last(), html) + line_piece(ops.last(), html)
    }
}

/// A deleted line paired with an added one: a word diff when the two are
/// similar, else the whole old line deleted and the whole new one added.
pub open spec fn pair_text(d: Seq<char>, a: Seq<char>, html: bool) -> Seq<char> {
    if similar(d, a) {
        word_diff_text(d, a, html) + "\n"@
    } else {
        line_piece(OpView::Delete(d), html) + line_piece(OpView::Add(a), html)
    }
}

pub open spec fn pairs_text(ds: Seq<Seq<char>>, ads: Seq<Seq<char>>, n: int, html: bool) -> Seq<char>
    decreases n,
{
    if n <= 0 {
        seq![]
    } else {
        pairs_text(ds, ads, n - 1, html) + pair_text(ds[n - 1], ads[n - 1], html)
    }
}

/// A run of changed lines: the k-th deleted line paired with the k-th
/// added one, then the deleted lines left over, then the added ones.
pub open spec fn chunk_text(ds: Seq<Seq<char>>, ads: Seq<Seq<char>>, html: bool) -> Seq<char> {
    let m = if ds.len() <= ads.len() {
        ds.len() as int
    } else {
        ads.len() as int
    };
    pairs_text(ds, ads, m, html) + lines_text(deletes(ds.skip(m)), html) + lines_text(
        inserts(ads.skip(m)),
        html,
    )
}

/// The diff of a block from step `idx` on: unchanged lines as they are,
/// each maximal run of changed lines as one chunk.
pub open spec fn block_text(ops: Seq<OpView>, idx: int, html: bool) -> Seq<char>
    decreases ops.len() - idx,
{
    if idx < 0 || idx >= ops.len() {
        seq![]
    } else if ops[idx] is Equal {
        line_piece(ops[idx], html) + block_text(ops, idx + 1, html)
    } else {
        let e = run_end(ops, idx + 1);
        proof {
            lemma_run_end(ops, idx + 1);
        }
        let run = ops.subrange(idx, e);
        chunk_text(deleted(run), added(run), html) + block_text(ops, e, html)
    }
}

fn is_equal_op(o: &LineOp) -> (b: bool)
    ensures
        b == (o@ is Equal),
{
    match o {
        LineOp::Equal(_) => true,
        _ => false,
    }
}

fn push_line_piece(out: &mut Vec<char>, o: &LineOp, html: bool)
    ensures
        final(out)@ == old(out)@ + line_piece(o@, html),
{
    let ghost start = out@;
    push_piece(out, o, html);
    out.push('\n');
    proof {
        reveal_strlit("\n");
    }
    assert(out@ =~= start + line_piece(o@, html));
}

fn push_pair(out: &mut Vec<char>, d: &String, a: &String, html: bool)
    ensures
        final(out)@ == old(out)@ + pair_text(d@, a@, html),
{
    let ghost start = out@;
    if meets_modified_threshold(d.as_str(), a.as_str()) {
        push_word_diff(out, d.as_str(), a.as_str(), html);
        out.push('\n');
        proof {
            reveal_strlit("\n");
        }
        assert(out@ =~= start + pair_text(d@, a@, html));
    } else {
        push_line_piece(out, &LineOp::Delete(d.clone()), html);
        push_line_piece(out, &LineOp::Add(a.clone()), html);
        assert(out@ =~= start + pair_text(d@, a@, html));
    }
}

fn push_chunk(out: &mut Vec<char>, dels: &[String], adds: &[String], html: bool)
    ensures
        final(out)@ == old(out)@ + chunk_text(strs(dels@), strs(adds@), html),
{
    let ghost start = out@;
    let ghost dv = strs(dels@);
    let ghost av = strs(adds@);
    let m = if dels.len() <= adds.len() { dels.len() } else { adds.len() };
    let mut k: usize = 0;
    while k < m
        invariant
            k <= m,
            m as int == (if dv.len() <= av.len() { dv.len() as int } else { av.len() as int }),
            dv == strs(dels@),
            av == strs(adds@),
            out@ == start + pairs_text(dv, av, k as int, html),
        decreases m - k,
    {
        push_pair(out, &dels[k], &adds[k], html);
        proof {
            assert(dv[k as int] == dels@[k as int]@);
            assert(av[k as int] == adds@[k as int]@);
            assert(out@ =~= start + pairs_text(dv, av, k + 1, html));
        }
        k = k + 1;
    }
    let ghost mid = out@;
    let mut j = m;
    while j < dels.len()
        invariant
            m <= j <= dels@.len(),
            dv == strs(dels@),
            out@ == mid + lines_text(deletes(dv.subrange(m as int, j as int)), html),
        decreases dels@.len() - j,
    {
        let ghost b = out@;
        push_line_piece(out, &LineOp::Delete(dels[j].clone()), html);
        proof {
            assert(dv[j as int] == dels@[j as int]@);
            let ds = deletes(dv.subrange(m as int, j + 1));
            assert(ds.drop_last() =~= deletes(dv.subrange(m as int, j as int)));
            assert(ds.last() == OpView::Delete(dv[j as int]));
            assert(out@ =~= mid + lines_text(ds, html));
        }
        j = j + 1;
    }
    assert(dv.subrange(m as int, dv.len() as int) =~= dv.skip(m as int));
    let ghost mid2 = out@;
    let mut j = m;
    while j < adds.len()
        invariant
            m <= j <= adds@.len(),
            av == strs(adds@),
            out@ == mid2 + lines_text(inserts(av.subrange(m as int, j as int)), html),
        decreases adds@.len() - j,
    {
        push_line_piece(out, &LineOp::Add(adds[j].clone()), html);
        proof {
            assert(av[j as int] == adds@[j as int]@);
            let ins = inserts(av.subrange(m as int, j + 1));
            assert(ins.drop_last() =~= inserts(av.subrange(m as int, j as int)));
            assert(ins.last() == OpView::Add(av[j as int]));
        }
        j = j + 1;
    }
    assert(av.subrange(m as int, av.len() as int) =~= av.skip(m as int));
    assert(out@ =~= start + chunk_text(dv, av, html));
}

fn push_block_diff(out: &mut Vec<char>, ops: &[LineOp], html: bool)
    ensures
        final(out)@ == old(out)@ + block_text(ops_view(ops@), 0, html),
{
    let ghost start = out@;
    let ghost ovs = ops_view(ops@);
    let mut idx: usize = 0;
    while idx < ops.len()
        invariant
            idx <= ops@.len(),
            ovs == ops_view(ops@),
            start + block_text(ovs, 0, html) == out@ + block_text(ovs, idx as int, html),
        decreases ops@.len() - idx,
    {
        let ghost b = out@;
        assert(ovs[idx as int] == ops@[idx as int]@);
        if is_equal_op(&ops[idx]) {
            push_line_piece(out, &ops[idx], html);
            assert(b + block_text(ovs, idx as int, html) =~= out@ + block_text(ovs, idx + 1, html));
            idx = idx + 1;
        } else {
            let mut adds: Vec<String> = Vec::new();
            let mut dels: Vec<String> = Vec::new();
            let mut j = idx;
            proof {
                assert(ovs.subrange(idx as int, idx as int) =~= Seq::<OpView>::empty());
            }
            while j < ops.len() && (j == idx || !is_equal_op(&ops[j]))
                invariant
                    idx < ops@.len(),
                    idx <= j <= ops@.len(),
                    ovs == ops_view(ops@),
                    !(ovs[idx as int] is Equal),
                    j > idx ==> run_end(ovs, idx + 1) == run_end(ovs, j as int),
                    strs(adds@) == added(ovs.subrange(idx as int, j as int)),
                    strs(dels@) == deleted(ovs.subrange(idx as int, j as int)),
                decreases ops@.len() - j,
            {
                let ghost run = ovs.subrange(idx as int, j + 1);
                let ghost av = strs(adds@);
                let ghost dv = strs(dels@);
                assert(run.drop_last() =~= ovs.subrange(idx as int, j as int));
                assert(run.last() == ops@[j as int]@);
                match &ops[j] {
                    LineOp::Add(t) => {
                        adds.push(t.clone());
                        assert(strs(adds@) =~= av.push(t@));
                    },
                    LineOp::Delete(t) => {
                        dels.push(t.clone());
                        assert(strs(dels@) =~= dv.push(t@));
                    },
                    LineOp::Equal(_) => {},
                }
                j = j + 1;
            }
            proof {
                lemma_run_end(ovs, idx + 1);
                assert(run_end(ovs, idx + 1) == j);
            }
            push_chunk(out, dels.as_slice(), adds.as_slice(), html);
            assert(b + block_text(ovs, idx as int, html) =~= out@ + block_text(ovs, j as int, html));
            idx = j;
        }
    }
}


/// Annotated Markdown for a changed block: unchanged lines as they are,
/// a similar deleted/added pair as one word-diffed line, other changed
/// lines wrapped whole in `<del>` or `<ins>`.
pub fn build_annotated_diff_md(old: &str, new: &str) -> (r: String)
    ensures
        r@ == block_text(ops_from(lines(old@), lines(new@), 0), 0, false),
{
    let ol = strings_of(lines_of(chars_of(old).as_slice()).as_slice());
    let nl = strings_of(lines_of(chars_of(new).as_slice()).as_slice());
    let ops = line_diff_ops(ol.as_slice(), nl.as_slice());
    let mut out: Vec<char> = Vec::new();
    push_block_diff(&mut out, ops.as_slice(), false);
    string_of(out.as_slice())
}

/// Whether the first line of `text` opens a code fence.
pub fn block_starts_with_fence(text: &str) -> (b: bool)
    ensures
        b == (lines(text@).len() > 0 && opens_fence(lines(text@)[0])),
{
    let ls = lines_of(chars_of(text).as_slice());
    if ls.len() == 0 {
        return false;
    }
    assert(views(ls@)[0] == ls@[0]@);
    let t = trim_start_vec(ls[0].as_slice());
    starts_with_str(t.as_slice(), "```") || starts_with_str(t.as_slice(), "~~~")
}

/// The lines of a fenced block without its opening and closing fences.
pub open spec fn strip_fences(ls: Seq<Seq<char>>) -> Seq<Seq<char>> {
    let a = if ls.len() > 0 && opens_fence(ls[0]) {
        ls.drop_first()
    } else {
        ls
    };
    if a.len() > 0 && opens_fence(a.last()) {
        a.drop_last()
    } else {
        a
    }
}

fn is_fence_line(l: &[char]) -> (b: bool)
    ensures
        b == opens_fence(l@),
{
    let t = trim_start_vec(l);
    starts_with_str(t.as_slice(), "```") || starts_with_str(t.as_slice(), "~~~")
}

fn fence_stripped_lines(text: &str) -> (r: Vec<String>)
    ensures
        strs(r@) == strip_fences(lines(text@)),
{
    let mut ls = lines_of(chars_of(text).as_slice());
    let ghost lv = views(ls@);
    if ls.len() > 0 && is_fence_line(ls[0].as_slice()) {
        assert(lv[0] == ls@[0]@);
        ls.remove(0);
        assert(views(ls@) =~= lv.drop_first());
    }
    let ghost av = views(ls@);
    if ls.len() > 0 && is_fence_line(ls[ls.len() - 1].as_slice()) {
        assert(av.last() == ls@[ls@.len() - 1]@);
        ls.pop();
        assert(views(ls@) =~= av.drop_last());
    }
    strings_of(ls.as_slice())
}

/// The diff of a fenced code block as HTML: the fences dropped, the line
/// and word diff written with `<span>`s and escaped text, all inside
/// `<pre><code>`.
pub fn build_code_block_diff_html(old: &str, new: &str) -> (r: String)
    ensures
        r@ == "<pre><code>"@ + block_text(
            ops_from(strip_fences(lines(old@)), strip_fences(lines(new@)), 0),
            0,
            true,
        ) + "</code></pre>"@,
{
    let ol = fence_stripped_lines(old);
    let nl = fence_stripped_lines(new);
    let ops = line_diff_ops(ol.as_slice(), nl.as_slice());
    let mut out: Vec<char> = Vec::new();
    push_str(&mut out, "<pre><code>");
    push_block_diff(&mut out, ops.as_slice(), true);
    push_str(&mut out, "</code></pre>");
    string_of(out.as_slice())
}

// ---------------------------------------------------------------------
// Change markers
// ---------------------------------------------------------------------

/// What an external reload changed, kept for the next render: the
/// changed line numbers of the new text, the old text, and when it was
/// reloaded (Unix seconds).
pub struct PendingChanges {
    pub changed_lines: HashSet<usize>,
    pub old_text: String,
    pub reload_ts: i64,
}

/// A changed block of the new text: where it starts (1-based line), and
/// the same line range taken from the old and the new text.
pub struct ChangedBlock {
    pub start: usize,
    pub old_block: String,
    pub new_block: String,
}

/// Lines `start..=end` (1-based) of `ls`, clamped to its end and joined
/// with line ends; empty when `start` is past the end.
pub open spec fn line_range(ls: Seq<Seq<char>>, start: int, end: int) -> Seq<char> {
    if ls.len() == 0 || start > ls.len() || start < 1 {
        seq![]
    } else {
        crate::preprocess::join_lines(ls.subrange(start - 1, if end <= ls.len() { end } else { ls.len() as int }))
    }
}

/// Whether some line of `start..=end` is in `changed`.
pub open spec fn touches(changed: Set<usize>, start: int, end: int) -> bool {
    exists|l: usize| start <= l <= end && #[trigger] changed.contains(l)
}

/// The blocks of `bs` that hold a changed line, with their old and new
/// text.
pub open spec fn changed_from_blocks(
    bs: Seq<(usize, usize)>,
    changed: Set<usize>,
    olds: Seq<Seq<char>>,
    news: Seq<Seq<char>>,
) -> Seq<(usize, Seq<char>, Seq<char>)>
    decreases bs.len(),
{
    if bs.len() == 0 {
        seq![]
    } else {
        let rest = changed_from_blocks(bs.drop_last(), changed, olds, news);
        let (a, b) = bs.last();
        if touches(changed, a as int, b as int) {
            rest.push((a, line_range(olds, a as int, b as int), line_range(news, a as int, b as int)))
        } else {
            rest
        }
    }
}

/// The top-level blocks of `text` that hold a changed line, in order.
pub open spec fn changed_blocks_of(text: Seq<char>, old: Seq<char>, changed: Set<usize>) -> Seq<(usize, Seq<char>, Seq<char>)> {
    changed_from_blocks(blocks_from(lines(text), 0, None, None), changed, lines(old), lines(text))
}

pub open spec fn block_view(b: ChangedBlock) -> (usize, Seq<char>, Seq<char>) {
    (b.start, b.old_block@, b.new_block@)
}

fn push_joined(out: &mut Vec<char>, ls: &Vec<Vec<char>>, lo: usize, hi: usize)
    requires
        lo < hi <= ls@.len(),
    ensures
        final(out)@ == old(out)@ + crate::preprocess::join_lines(views(ls@).subrange(lo as int, hi as int)),
{
    let ghost start = out@;
    let ghost lv = views(ls@);
    push_all(out, ls[lo].as_slice());
    let mut k = lo + 1;
    proof {
        assert(lv.subrange(lo as int, k as int) =~= seq![lv[lo as int]]);
        assert(lv[lo as int] == ls@[lo as int]@);
    }
    while k < hi
        invariant
            lo < k <= hi <= ls@.len(),
            lv == views(ls@),
            out@ == start + crate::preprocess::join_lines(lv.subrange(lo as int, k as int)),
        decreases hi - k,
    {
        let ghost b = out@;
        out.push('\n');
        push_all(out, ls[k].as_slice());
        proof {
            let r = lv.subrange(lo as int, k + 1);
            assert(r.drop_last() =~= lv.subrange(lo as int, k as int));
            assert(r.last() == ls@[k as int]@);
            assert(out@ =~= start + crate::preprocess::join_lines(r));
        }
        k = k + 1;
    }
}

fn range_text(ls: &Vec<Vec<char>>, start: usize, end: usize) -> (r: String)
    requires
        1 <= start <= end,
    ensures
        r@ == line_range(views(ls@), start as int, end as int),
{
    if ls.len() == 0 || start > ls.len() {
        return String::new();
    }
    let hi = if end <= ls.len() { end } else { ls.len() };
    let mut out: Vec<char> = Vec::new();
    push_joined(&mut out, ls, start - 1, hi);
    assert(out@ =~= crate::preprocess::join_lines(views(ls@).subrange(start - 1, hi as int)));
    string_of(out.as_slice())
}

fn any_changed(changed: &HashSet<usize>, start: usize, end: usize) -> (b: bool)
    ensures
        b == touches(changed@, start as int, end as int),
{
    if start > end {
        return false;
    }
    let mut l = start;
    loop
        invariant
            start <= l <= end,
            forall|j: usize| start <= j < l ==> !#[trigger] changed@.contains(j),
        decreases end - l,
    {
        if changed.contains(&l) {
            assert(changed@.contains(l));
            return true;
        }
        if l == end {
            assert forall|j: usize| start <= j <= end implies !#[trigger] changed@.contains(j) by {
                if j == l {
                }
            }
            return false;
        }
        l = l + 1;
    }
}

/// The top-level blocks of `text` that hold a line marked as changed,
/// each with the same line range of the old and of the new text.
pub fn changed_blocks(text: &str, changes: &PendingChanges) -> (r: Vec<ChangedBlock>)
    ensures
        r@.map_values(|b: ChangedBlock| block_view(b)) == changed_blocks_of(
            text@,
            changes.old_text@,
            changes.changed_lines@,
        ),
{
    let bs = split_top_level_blocks(text);
    let news = lines_of(chars_of(text).as_slice());
    let olds = lines_of(chars_of(changes.old_text.as_str()).as_slice());
    let ghost bv = bs@;
    let mut out: Vec<ChangedBlock> = Vec::new();
    let mut i: usize = 0;
    proof {
        assert(lines(text@).len() == news.len());
        lemma_blocks_from(lines(text@), 0, None, None);
    }
    assert(bv.take(0) =~= Seq::<(usize, usize)>::empty());
    while i < bs.len()
        invariant
            bv == bs@,
            bv == blocks_from(lines(text@), 0, None, None),
            forall|k: int| 0 <= k < bv.len() ==> 1 <= (#[trigger] bv[k]).0 <= bv[k].1,
            views(news@) == lines(text@),
            views(olds@) == lines(changes.old_text@),
            i <= bs@.len(),
            out@.map_values(|b: ChangedBlock| block_view(b)) == changed_from_blocks(
                bv.take(i as int),
                changes.changed_lines@,
                lines(changes.old_text@),
                lines(text@),
            ),
        decreases bs@.len() - i,
    {
        let (a, b) = bs[i];
        let ghost before = out@.map_values(|b: ChangedBlock| block_view(b));
        assert(bv.take(i + 1).drop_last() =~= bv.take(i as int));
        assert(bv.take(i + 1).last() == (a, b));
        if any_changed(&changes.changed_lines, a, b) {
            let cb = ChangedBlock { start: a, old_block: range_text(&olds, a, b), new_block: range_text(&news, a, b) };
            out.push(cb);
            assert(out@.map_values(|b: ChangedBlock| block_view(b)) =~= before.push(block_view(cb)));
        }
        i = i + 1;
    }
    assert(bv.take(i as int) =~= bv);
    out
}

/// How the previous version of a changed block is shown: as finished
/// HTML for a fenced code block, else as annotated markdown still to be
/// rendered.
pub enum PrevVersion {
    Html(String),
    Markdown(String),
}

pub open spec fn prev_version_of(old: Seq<char>, new: Seq<char>) -> (bool, Seq<char>) {
    let fenced = |t: Seq<char>| lines(t).len() > 0 && opens_fence(lines(t)[0]);
    if fenced(new) || fenced(old) {
        (
            true,
            "<pre><code>"@ + block_text(
                ops_from(strip_fences(lines(old)), strip_fences(lines(new)), 0),
                0,
                true,
            ) + "</code></pre>"@,
        )
    } else {
        (false, block_text(ops_from(lines(old), lines(new), 0), 0, false))
    }
}

/// The previous version of a changed block: the code diff for fenced
/// code (markdown would escape its tags), the annotated markdown diff
/// otherwise.
pub fn prev_version(b: &ChangedBlock) -> (r: PrevVersion)
    ensures
        prev_version_of(b.old_block@, b.new_block@) == match r {
            PrevVersion::Html(h) => (true, h@),
            PrevVersion::Markdown(m) => (false, m@),
        },
{
    if block_starts_with_fence(b.new_block.as_str()) || block_starts_with_fence(b.old_block.as_str()) {
        PrevVersion::Html(build_code_block_diff_html(b.old_block.as_str(), b.new_block.as_str()))
    } else {
        PrevVersion::Markdown(build_annotated_diff_md(b.old_block.as_str(), b.new_block.as_str()))
    }
}

/// Shows the previous version of a changed block on hover: with the
/// marker, the tooltip script finds the block after it, decodes the
/// previous version and swaps it in after a second; it also draws the
/// minimap of changed blocks.
pub const CHANGE_TOOLTIP_JS: &'static str = r#"<script>
(function() {
  function fmtAge(s) {
    if (s < 5) return "just now";
    if (s < 60) return s + " seconds ago";
    if (s < 3600) {
      var m = Math.floor(s / 60);
      return m + (m === 1 ? " minute ago" : " minutes ago");
    }
    if (s < 86400) {
      var h = Math.floor(s / 3600);
      return h + (h === 1 ? " hour ago" : " hours ago");
    }
    var d = Math.floor(s / 86400);
    return d + (d === 1 ? " day ago" : " days ago");
  }
  function unwrapToInner(html, expectedTag) {
    // The renderer wraps each block in its outer tag (e.g. <p>, <h2>,
    // <ul>). The target element already is that wrapper, so strip the
    // outer tag to avoid nesting <p><p>.
    var tmp = document.createElement("div");
    tmp.innerHTML = html;
    var first = tmp.firstElementChild;
    if (first && first.tagName === expectedTag) {
      return first.innerHTML;
    }
    return html;
  }
  function init() {
    document.querySelectorAll(".rmd-changed-marker").forEach(function(m) {
      var t = m.nextElementSibling;
      if (!t) return;
      var ts = parseInt(m.getAttribute("data-age-ts"), 10);
      var prevRaw = m.getAttribute("data-prev-html") || "";
      var prevHtml = "";
      try { prevHtml = decodeURIComponent(prevRaw); } catch (e) { prevHtml = ""; }
      var inner = prevHtml ? unwrapToInner(prevHtml, t.tagName) : "";
      var swapTimer = null;
      t.addEventListener("mouseenter", function() {
        if (t.classList.contains("rmd-showing-prev")) return;
        if (swapTimer) clearTimeout(swapTimer);
        swapTimer = setTimeout(function() {
          swapTimer = null;
          if (!("rmdOriginal" in t.dataset)) {
            t.dataset.rmdOriginal = t.innerHTML;
          }
          var ageS = Math.floor(Date.now() / 1000) - ts;
          var banner = '<div class="rmd-prev-banner">Edited externally ' + fmtAge(ageS) + '</div>';
          var content = inner || '<em class="rmd-prev-empty">(no prior content for this block)</em>';
          t.innerHTML = content + banner;
          t.classList.add("rmd-showing-prev");
        }, 1000);
      });
      t.addEventListener("mouseleave", function() {
        if (swapTimer) { clearTimeout(swapTimer); swapTimer = null; }
        if (t.classList.contains("rmd-showing-prev") && "rmdOriginal" in t.dataset) {
          t.innerHTML = t.dataset.rmdOriginal;
          delete t.dataset.rmdOriginal;
          t.classList.remove("rmd-showing-prev");
        }
      });
    });
    buildMinimap();
  }
  // Right-edge minimap of all changed blocks. Ticks sit proportionally
  // to where their block is in the document; clicking one scrolls there.
  function buildMinimap() {
    var existing = document.querySelector(".rmd-minimap");
    if (existing) existing.remove();
    var markers = document.querySelectorAll(".rmd-changed-marker");
    if (!markers.length) return;
    var docHeight = document.documentElement.scrollHeight;
    if (docHeight <= window.innerHeight + 4) return;
    var minimap = document.createElement("div");
    minimap.className = "rmd-minimap";
    markers.forEach(function(m) {
      var target = m.nextElementSibling;
      if (!target) return;
      var rect = target.getBoundingClientRect();
      var topInDoc = rect.top + window.scrollY;
      var ratio = Math.max(0, Math.min(1, topInDoc / docHeight));
      var tick = document.createElement("div");
      tick.className = "rmd-minimap-tick";
      tick.style.top = (ratio * 100) + "%";
      tick.title = "Changed block — click to jump";
      tick.addEventListener("click", function() {
        target.scrollIntoView({ behavior: "smooth", block: "center" });
      });
      minimap.appendChild(tick);
    });
    document.body.appendChild(minimap);
  }
  if (document.readyState === "loading") {
    document.addEventListener("DOMContentLoaded", init);
  } else {
    init();
  }
  // Recompute on resize so tick positions stay accurate.
  var resizeTimer = null;
  window.addEventListener("resize", function() {
    if (resizeTimer) clearTimeout(resizeTimer);
    resizeTimer = setTimeout(buildMinimap, 120);
  });
})();
</script>
"#;

/// Appends `s` percent-encoded for `decodeURIComponent`: ASCII letters,
/// digits and `-._~` stay, every other UTF-8 byte is encoded.
fn push_uri_component(out: &mut Vec<char>, s: &str)
    ensures
        final(out)@ == old(out)@ + crate::tables::render::pct(s@),
{
    let bytes = s.as_bytes();
    let ghost start = out@;
    let mut i: usize = 0;
    assert(bytes@.take(0) =~= Seq::<u8>::empty());
    while i < bytes.len()
        invariant
            i <= bytes@.len(),
            bytes@ == s.spec_bytes(),
            out@ == start + crate::tables::render::pct_bytes(bytes@.take(i as int)),
        decreases bytes@.len() - i,
    {
        let b = bytes[i];
        let keep = (b >= 0x30 && b <= 0x39) || (b >= 0x41 && b <= 0x5A) || (b >= 0x61 && b <= 0x7A) || b
            == 0x2D || b == 0x5F || b == 0x2E || b == 0x7E;
        if keep {
            out.push(b as char);
        } else {
            push_str(out, crate::render::encode_byte(b));
        }
        proof {
            assert(bytes@.take(i + 1).drop_last() =~= bytes@.take(i as int));
            assert(bytes@.take(i + 1).last() == b);
            assert(out@ =~= start + crate::tables::render::pct_bytes(bytes@.take(i + 1)));
        }
        i = i + 1;
    }
    assert(bytes@.take(i as int) =~= bytes@);
}

/// `s` percent-encoded for `decodeURIComponent`: ASCII letters, digits
/// and `-._~` stay, every other UTF-8 byte becomes `%XX`.
pub fn uri_component_encode(s: &str) -> (r: String)
    ensures
        r@ == crate::tables::render::pct(s@),
{
    let mut out: Vec<char> = Vec::new();
    push_uri_component(&mut out, s);
    assert(out@ =~= crate::tables::render::pct(s@));
    string_of(out.as_slice())
}

/// A signed decimal.
pub open spec fn sdec(v: int) -> Seq<char> {
    if v < 0 {
        seq!['-'] + dec((-v) as nat)
    } else {
        dec(v as nat)
    }
}

fn push_i64(out: &mut Vec<char>, v: i64)
    ensures
        final(out)@ == old(out)@ + sdec(v as int),
{
    if v < 0 {
        let ghost start = out@;
        out.push('-');
        let m: u64 = (0i128 - v as i128) as u64;
        crate::text::push_dec(out, m);
        assert(out@ =~= start + sdec(v as int));
    } else {
        crate::text::push_dec(out, v as u64);
    }
}

/// The marker placed before a changed block: its previous version as
/// percent-encoded HTML and the reload time.
pub open spec fn marker(html: Seq<char>, ts: i64) -> Seq<char> {
    "<div class=\"rmd-changed-marker\" data-prev-html=\""@ + crate::tables::render::pct(html)
        + "\" data-age-ts=\""@ + sdec(ts as int) + "\"></div>\n\n"@
}

/// The last index of a block starting at line `n`, or -1.
pub open spec fn block_at(starts: Seq<usize>, n: int) -> int
    decreases starts.len(),
{
    if starts.len() == 0 {
        -1
    } else if starts.last() == n {
        starts.len() - 1
    } else {
        block_at(starts.drop_last(), n)
    }
}

/// The text with each line ended by a line end, a marker before every
/// line that starts a changed block (the k-th changed block showing
/// `htmls[k]`, empty when missing), from line `i` on (0-based).
pub open spec fn marked_lines(ls: Seq<Seq<char>>, i: int, starts: Seq<usize>, htmls: Seq<Seq<char>>, ts: i64) -> Seq<char>
    decreases ls.len() - i,
{
    if i < 0 || i >= ls.len() {
        seq![]
    } else {
        let k = block_at(starts, i + 1);
        let m = if k >= 0 {
            marker(if k < htmls.len() { htmls[k] } else { seq![] }, ts)
        } else {
            seq![]
        };
        m + ls[i] + seq!['\n'] + marked_lines(ls, i + 1, starts, htmls, ts)
    }
}

/// The document with change markers: unchanged when nothing changed;
/// else every line, a marker before each changed block, a blank line and
/// the tooltip script.
pub open spec fn with_change_markers(
    text: Seq<char>,
    old: Seq<char>,
    changed: Set<usize>,
    ts: i64,
    htmls: Seq<Seq<char>>,
) -> Seq<char> {
    if changed.len() == 0 {
        text
    } else {
        let starts = changed_blocks_of(text, old, changed).map_values(|b: (usize, Seq<char>, Seq<char>)| b.0);
        marked_lines(lines(text), 0, starts, htmls, ts) + seq!['\n'] + CHANGE_TOOLTIP_JS@
    }
}

fn find_block(blocks: &Vec<ChangedBlock>, n: usize) -> (r: Option<usize>)
    ensures
        match r {
            Some(k) => k as int == block_at(blocks@.map_values(|b: ChangedBlock| b.start), n as int),
            None => block_at(blocks@.map_values(|b: ChangedBlock| b.start), n as int) == -1,
        },
{
    let ghost st = blocks@.map_values(|b: ChangedBlock| b.start);
    let mut k = blocks.len();
    assert(st.take(k as int) =~= st);
    while k > 0
        invariant
            k <= blocks@.len(),
            st == blocks@.map_values(|b: ChangedBlock| b.start),
            block_at(st, n as int) == block_at(st.take(k as int), n as int),
        decreases k,
    {
        assert(st.take(k as int).drop_last() =~= st.take(k - 1));
        if blocks[k - 1].start == n {
            return Some(k - 1);
        }
        k = k - 1;
    }
    None
}

/// Put a change marker before every top-level block of `text` that holds
/// a changed line, carrying that block's previous version (`prev_htmls`,
/// rendered in the order of [`changed_blocks`]) and the reload time, and
/// add the script that shows it on hover. Without changed lines the text
/// is returned as it is.
pub fn inject_change_markers(text: &str, changes: &PendingChanges, prev_htmls: &[String]) -> (r: String)
    ensures
        r@ == with_change_markers(
            text@,
            changes.old_text@,
            changes.changed_lines@,
            changes.reload_ts,
            strs(prev_htmls@),
        ),
{
    if changes.changed_lines.len() == 0 {
        assert(changes.changed_lines@.len() == 0);
        return string_of(chars_of(text).as_slice());
    }
    let blocks = changed_blocks(text, changes);
    let ghost starts = blocks@.map_values(|b: ChangedBlock| b.start);
    let ghost hv = strs(prev_htmls@);
    proof {
        let cb = changed_blocks_of(text@, changes.old_text@, changes.changed_lines@);
        assert(cb.map_values(|b: (usize, Seq<char>, Seq<char>)| b.0) =~= starts);
    }
    let ls = lines_of(chars_of(text).as_slice());
    let ghost lv = views(ls@);
    let ghost total = marked_lines(lv, 0, starts, hv, changes.reload_ts);
    let mut out: Vec<char> = Vec::new();
    let mut i: usize = 0;
    while i < ls.len()
        invariant
            lv == views(ls@),
            starts == blocks@.map_values(|b: ChangedBlock| b.start),
            hv == strs(prev_htmls@),
            i <= ls@.len(),
            total == out@ + marked_lines(lv, i as int, starts, hv, changes.reload_ts),
        decreases ls@.len() - i,
    {
        let ghost b = out@;
        match find_block(&blocks, i + 1) {
            Some(k) => {
                let ghost b1 = out@;
                crate::text::push_str(&mut out, "<div class=\"rmd-changed-marker\" data-prev-html=\"");
                if k < prev_htmls.len() {
                    push_uri_component(&mut out, prev_htmls[k].as_str());
                } else {
                    push_uri_component(&mut out, "");
                }
                crate::text::push_str(&mut out, "\" data-age-ts=\"");
                push_i64(&mut out, changes.reload_ts);
                crate::text::push_str(&mut out, "\"></div>\n\n");
                proof {
                    if k < prev_htmls@.len() {
                        assert(hv[k as int] == prev_htmls@[k as int]@);
                    } else {
                        assert(""@ =~= Seq::<char>::empty()) by {
                            reveal_strlit("");
                        }
                    }
                }
                assert(out@ =~= b1 + marker(if k < hv.len() { hv[k as int] } else { seq![] }, changes.reload_ts));
            },
            None => {},
        }
        push_all(&mut out, ls[i].as_slice());
        out.push('\n');
        proof {
            assert(lv[i as int] == ls@[i as int]@);
        }
        assert(total == out@ + marked_lines(lv, i + 1, starts, hv, changes.reload_ts));
        i = i + 1;
    }
    out.push('\n');
    crate::text::push_str(&mut out, CHANGE_TOOLTIP_JS);
    assert(out@ =~= with_change_markers(
        text@,
        changes.old_text@,
        changes.changed_lines@,
        changes.reload_ts,
        hv,
    ));
    string_of(out.as_slice())
}

// ---------------------------------------------------------------------
// Laws
// ---------------------------------------------------------------------

/// The lines or tokens a diff keeps from the new version, in order.
pub open spec fn new_side(ops: Seq<OpView>) -> Seq<Seq<char>>
    decreases ops.len(),
{
    if ops.len() == 0 {
        seq![]
    } else {
        match ops.last() {
            OpView::Delete(_) => new_side(ops.drop_last()),
            OpView::Equal(t) => new_side(ops.drop_last()).push(t),
            OpView::Add(t) => new_side(ops.drop_last()).push(t),
        }
    }
}

/// The lines or tokens a diff keeps from the old version, in order.
pub open spec fn old_side(ops: Seq<OpView>) -> Seq<Seq<char>>
    decreases ops.len(),
{
    if ops.len() == 0 {
        seq![]
    } else {
        match ops.last() {
            OpView::Add(_) => old_side(ops.drop_last()),
            OpView::Equal(t) => old_side(ops.drop_last()).push(t),
            OpView::Delete(t) => old_side(ops.drop_last()).push(t),
        }
    }
}

proof fn lemma_sides_append(a: Seq<OpView>, b: Seq<OpView>)
    ensures
        new_side(a + b) == new_side(a) + new_side(b),
        old_side(a + b) == old_side(a) + old_side(b),
    decreases b.len(),
{
    if b.len() == 0 {
        assert(a + b =~= a);
        assert(new_side(a) + new_side(b) =~= new_side(a));
        assert(old_side(a) + old_side(b) =~= old_side(a));
    } else {
        lemma_sides_append(a, b.drop_last());
        assert((a + b).drop_last() =~= a + b.drop_last());
        assert((a + b).last() == b.last());
        assert(new_side(a + b) =~= new_side(a) + new_side(b));
        assert(old_side(a + b) =~= old_side(a) + old_side(b));
    }
}

proof fn lemma_sides_deletes(x: Seq<Seq<char>>)
    ensures
        new_side(deletes(x)) == Seq::<Seq<char>>::empty(),
        old_side(deletes(x)) == x,
    decreases x.len(),
{
    if x.len() > 0 {
        lemma_sides_deletes(x.drop_last());
        assert(deletes(x).drop_last() =~= deletes(x.drop_last()));
        assert(old_side(deletes(x)) =~= x);
    }
}

proof fn lemma_sides_inserts(x: Seq<Seq<char>>)
    ensures
        new_side(inserts(x)) == x,
        old_side(inserts(x)) == Seq::<Seq<char>>::empty(),
    decreases x.len(),
{
    if x.len() > 0 {
        lemma_sides_inserts(x.drop_last());
        assert(inserts(x).drop_last() =~= inserts(x.drop_last()));
        assert(new_side(inserts(x)) =~= x);
    }
}

proof fn lemma_sides_one(o: OpView)
    ensures
        new_side(seq![o]) == (match o {
            OpView::Delete(_) => seq![],
            OpView::Equal(t) => seq![t],
            OpView::Add(t) => seq![t],
        }),
        old_side(seq![o]) == (match o {
            OpView::Add(_) => seq![],
            OpView::Equal(t) => seq![t],
            OpView::Delete(t) => seq![t],
        }),
{
    let s1 = seq![o];
    assert(s1.drop_last() =~= Seq::<OpView>::empty());
    assert(s1.last() == o);
    assert(new_side(Seq::<OpView>::empty()) =~= Seq::<Seq<char>>::empty());
    assert(old_side(Seq::<OpView>::empty()) =~= Seq::<Seq<char>>::empty());
    match o {
        OpView::Delete(t) => {
            assert(old_side(s1) =~= seq![t]);
        },
        OpView::Equal(t) => {
            assert(new_side(s1) =~= seq![t]);
            assert(old_side(s1) =~= seq![t]);
        },
        OpView::Add(t) => {
            assert(new_side(s1) =~= seq![t]);
        },
    }
}

proof fn lemma_word_ops_sides(olds: Seq<Seq<char>>, news: Seq<Seq<char>>, i: int, pend: Seq<Seq<char>>)
    requires
        0 <= i <= olds.len(),
    ensures
        new_side(word_ops(olds, news, i, pend)) == pend + news,
        old_side(word_ops(olds, news, i, pend)) == olds.skip(i),
    decreases news.len(),
{
    if news.len() == 0 {
        lemma_sides_deletes(olds.skip(i));
        lemma_sides_inserts(pend);
        lemma_sides_append(deletes(olds.skip(i)), inserts(pend));
        assert(pend + news =~= pend);
        assert(olds.skip(i) + Seq::<Seq<char>>::empty() =~= olds.skip(i));
    } else {
        let p = first_match(olds, i, news[0]);
        lemma_first_match(olds, i, news[0]);
        if p >= 0 && 0 <= i <= p {
            let a = deletes(olds.subrange(i, p));
            let b = inserts(pend);
            let c = seq![OpView::Equal(news[0])];
            let d = word_ops(olds, news.drop_first(), p + 1, seq![]);
            lemma_word_ops_sides(olds, news.drop_first(), p + 1, seq![]);
            lemma_sides_deletes(olds.subrange(i, p));
            lemma_sides_inserts(pend);
            lemma_sides_one(OpView::Equal(news[0]));
            lemma_sides_append(a, b);
            lemma_sides_append(a + b, c);
            lemma_sides_append(a + b + c, d);
            assert(new_side(a + b + c + d) =~= pend + news);
            assert(old_side(a + b + c + d) =~= olds.skip(i));
        } else {
            lemma_word_ops_sides(olds, news.drop_first(), i, pend.push(news[0]));
            assert(pend.push(news[0]) + news.drop_first() =~= pend + news);
        }
    }
}

proof fn lemma_ops_from_sides(olds: Seq<Seq<char>>, news: Seq<Seq<char>>, i: int)
    requires
        0 <= i <= olds.len(),
    ensures
        new_side(ops_from(olds, news, i)) == news,
        old_side(ops_from(olds, news, i)) == olds.skip(i),
    decreases news.len(),
{
    if news.len() == 0 {
        lemma_sides_deletes(olds.skip(i));
    } else {
        let p = first_match(olds, i, news[0]);
        lemma_first_match(olds, i, news[0]);
        if p >= 0 && 0 <= i <= p {
            let a = deletes(olds.subrange(i, p));
            let c = seq![OpView::Equal(news[0])];
            let d = ops_from(olds, news.drop_first(), p + 1);
            lemma_ops_from_sides(olds, news.drop_first(), p + 1);
            lemma_sides_deletes(olds.subrange(i, p));
            lemma_sides_one(OpView::Equal(news[0]));
            lemma_sides_append(a, c);
            lemma_sides_append(a + c, d);
            assert(new_side(a + c + d) =~= news);
            assert(old_side(a + c + d) =~= olds.skip(i));
        } else {
            let d = ops_from(olds, news.drop_first(), i);
            lemma_ops_from_sides(olds, news.drop_first(), i);
            lemma_sides_one(OpView::Add(news[0]));
            lemma_sides_append(seq![OpView::Add(news[0])], d);
            assert(new_side(seq![OpView::Add(news[0])] + d) =~= news);
            assert(old_side(seq![OpView::Add(news[0])] + d) =~= olds.skip(i));
        }
    }
}

/// Joining the diff tokens of a text gives the text back.
pub proof fn lemma_tokens_rejoin(s: Seq<char>)
    ensures
        concat(tokens(s)) == s,
    decreases s.len(),
{
    if s.len() > 0 {
        let t = tokens(s.drop_last());
        let c = s.last();
        lemma_tokens_rejoin(s.drop_last());
        if t.len() > 0 && tclass(c) != 2 && t.last().len() > 0 && tclass(t.last().last()) == tclass(c) {
            lemma_concat_push(t.drop_last(), t.last().push(c));
            assert(t.drop_last().push(t.last()) =~= t);
            lemma_concat_push(t.drop_last(), t.last());
            assert(concat(t.drop_last()) + t.last().push(c) =~= (concat(t.drop_last()) + t.last()).push(c));
        } else {
            lemma_concat_push(t, seq![c]);
        }
        assert(s.drop_last().push(c) =~= s);
    }
}

/// The line diff loses nothing: its unchanged and added lines are the
/// new lines, its unchanged and deleted lines the old ones, in order.
pub proof fn lemma_line_diff_keeps_both_versions(olds: Seq<Seq<char>>, news: Seq<Seq<char>>)
    ensures
        new_side(ops_from(olds, news, 0)) == news,
        old_side(ops_from(olds, news, 0)) == olds,
{
    lemma_ops_from_sides(olds, news, 0);
    assert(olds.skip(0) =~= olds);
}

/// The word diff of two lines loses nothing: its kept and inserted tokens
/// spell the new line, its kept and deleted tokens the old one.
pub proof fn lemma_word_diff_keeps_both_versions(old: Seq<char>, new: Seq<char>)
    ensures
        concat(new_side(word_ops(tokens(old), tokens(new), 0, seq![]))) == new,
        concat(old_side(word_ops(tokens(old), tokens(new), 0, seq![]))) == old,
{
    lemma_word_ops_sides(tokens(old), tokens(new), 0, seq![]);
    assert(Seq::<Seq<char>>::empty() + tokens(new) =~= tokens(new));
    assert(tokens(old).skip(0) =~= tokens(old));
    lemma_tokens_rejoin(old);
    lemma_tokens_rejoin(new);
}

proof fn lemma_changed_from_same(ls: Seq<Seq<char>>, n: int)
    ensures
        changed_from(ls, ls, n) == Set::<usize>::empty(),
    decreases ls.len(),
{
    if ls.len() > 0 {
        lemma_index_of(ls, ls[0]);
        lemma_index_of_is(ls, ls[0], 0);
        assert(ls.remove(0) =~= ls.drop_first());
        lemma_changed_from_same(ls.drop_first(), n + 1);
    }
}

/// A text compared with itself has no changed lines.
pub proof fn lemma_no_changes_when_identical(text: Seq<char>)
    ensures
        changed_from(lines(text), lines(text), 0) == Set::<usize>::empty(),
{
    lemma_changed_from_same(lines(text), 0);
}

proof fn lemma_changed_from_bounds(rem: Seq<Seq<char>>, news: Seq<Seq<char>>, n: int, x: usize)
    requires
        0 <= n,
        n + news.len() < usize::MAX,
        changed_from(rem, news, n).contains(x),
    ensures
        n + 1 <= x <= n + news.len(),
    decreases news.len(),
{
    if news.len() > 0 {
        let k = index_of(rem, news[0]);
        if k >= 0 {
            lemma_index_of(rem, news[0]);
            lemma_changed_from_bounds(rem.remove(k), news.drop_first(), n + 1, x);
        } else if x != (n + 1) as usize {
            lemma_changed_from_bounds(rem, news.drop_first(), n + 1, x);
        }
    }
}

proof fn lemma_changed_from_unknown(rem: Seq<Seq<char>>, news: Seq<Seq<char>>, n: int, j: int)
    requires
        0 <= j < news.len(),
        !rem.contains(news[j]),
    ensures
        changed_from(rem, news, n).contains((n + j + 1) as usize),
    decreases news.len(),
{
    let k = index_of(rem, news[0]);
    lemma_index_of(rem, news[0]);
    if j == 0 {
        assert(k < 0);
    } else {
        assert(news.drop_first()[j - 1] == news[j]);
        if k >= 0 {
            assert(!rem.remove(k).contains(news[j])) by {
                if rem.remove(k).contains(news[j]) {
                    let w = choose|w: int| 0 <= w < rem.remove(k).len() && rem.remove(k)[w] == news[j];
                    if w < k {
                        assert(rem[w] == news[j]);
                    } else {
                        assert(rem[w + 1] == news[j]);
                    }
                }
            }
            lemma_changed_from_unknown(rem.remove(k), news.drop_first(), n + 1, j - 1);
        } else {
            lemma_changed_from_unknown(rem, news.drop_first(), n + 1, j - 1);
        }
    }
}

/// Changed line numbers are 1-based line numbers of the new text, and a
/// new line that occurs nowhere in the old text is always flagged.
pub proof fn lemma_changed_lines_bounds(old: Seq<char>, new: Seq<char>)
    requires
        lines(new).len() < usize::MAX,
    ensures
        forall|x: usize|
            changed_from(lines(old), lines(new), 0).contains(x) ==> 1 <= x <= lines(new).len(),
        forall|j: int|
            0 <= j < lines(new).len() && !lines(old).contains(#[trigger] lines(new)[j])
                ==> changed_from(lines(old), lines(new), 0).contains((j + 1) as usize),
{
    assert forall|x: usize| changed_from(lines(old), lines(new), 0).contains(x) implies 1 <= x <= lines(new).len() by {
        lemma_changed_from_bounds(lines(old), lines(new), 0, x);
    }
    assert forall|j: int| 0 <= j < lines(new).len() && !lines(old).contains(#[trigger] lines(new)[j]) implies changed_from(lines(old), lines(new), 0).contains((j + 1) as usize) by {
        lemma_changed_from_unknown(lines(old), lines(new), 0, j);
    }
}

proof fn lemma_overlap_self(x: Seq<Seq<char>>)
    ensures
        overlap(x, x) == x.len(),
    decreases x.len(),
{
    if x.len() > 0 {
        lemma_index_of_is(x, x[0], 0);
        assert(x.remove(0) =~= x.drop_first());
        lemma_overlap_self(x.drop_first());
    }
}

/// A line is always similar to itself: all its tokens are shared.
pub proof fn lemma_line_similar_to_itself(a: Seq<char>)
    ensures
        overlap(kept(tokens(a)), kept(tokens(a))) == max_len(kept(tokens(a)), kept(tokens(a))),
        similar(a, a),
{
    lemma_overlap_self(kept(tokens(a)));
}

} // verus!
