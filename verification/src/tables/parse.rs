//! Reading GFM tables out of a buffer: the markdown parser reports
//! where each table and cell lies, and the line-level scanners here
//! recover the exact source spans that make minimum-diff edits possible.

use std::ops::Range;
use pulldown_cmark::{Event, Options, Parser, Tag, TagEnd};
use vstd::prelude::*;
use crate::tables::model::{
    cells_view, lines_view, rows_view, rv, Alignment, Cell, CellView, LineKind, LineView,
    MarkdownTable, OriginalLine, TableId, TableStyle, TableView,
};
use crate::text::{
    is_ws, blen, boff, byte_offset, char_at_byte, char_index, char_width, chars_of, cw, ends_with,
    ends_with_str, is_blank, is_boundary, lemma_boff_mono, lemma_boff_step, lemma_char_at_byte,
    lines, lines_of, starts_with, starts_with_str, string_of, trim, trimmed, views,
};

verus! {

// ---------------------------------------------------------------------
// Splitting a row into cells
// ---------------------------------------------------------------------

/// After position `i`, a backslash is pending: `s[i]` is a backslash
/// that is not itself escaped.
pub open spec fn active_bs(s: Seq<char>, i: int) -> bool
    decreases i,
{
    if i < 0 || i >= s.len() {
        false
    } else if i == 0 {
        s[0] == '\\'
    } else {
        s[i] == '\\' && !active_bs(s, i - 1)
    }
}

/// `s[i]` is a pipe that separates cells (not escaped by a backslash).
pub open spec fn is_delim(s: Seq<char>, i: int) -> bool {
    s[i] == '|' && !active_bs(s, i - 1)
}

/// Positions of the separating pipes among the first `n` characters.
pub open spec fn delims(s: Seq<char>, n: int) -> Seq<int>
    decreases n,
{
    if n <= 0 {
        seq![]
    } else if is_delim(s, n - 1) {
        delims(s, n - 1).push(n - 1)
    } else {
        delims(s, n - 1)
    }
}

/// Character spans between consecutive pipes of `d`.
pub open spec fn between(d: Seq<int>) -> Seq<(int, int)> {
    Seq::new(if d.len() > 0 { (d.len() - 1) as nat } else { 0 }, |j: int| (d[j] + 1, d[j + 1]))
}

/// The first `k` characters of `s` are whitespace.
pub open spec fn blank_upto(s: Seq<char>, k: int) -> bool {
    forall|j: int| 0 <= j < k ==> is_ws(#[trigger] s[j])
}

/// The span before the first pipe, when it holds more than whitespace: a
/// line that starts with a pipe (after any indentation) has no such cell.
pub open spec fn lead_span(s: Seq<char>, d: Seq<int>) -> Seq<(int, int)> {
    if d.len() > 0 && !blank_upto(s, d[0]) {
        seq![(0, d[0])]
    } else {
        seq![]
    }
}

/// The span after the last pipe, when it is not empty: a line that ends
/// with a pipe has no such cell.
pub open spec fn tail_span(s: Seq<char>, d: Seq<int>) -> Seq<(int, int)> {
    if d.len() > 0 && d.last() + 1 < s.len() {
        seq![(d.last() + 1, s.len() as int)]
    } else {
        seq![]
    }
}

/// Character spans of the cells of a table line: the text between
/// consecutive unescaped pipes, with the text before the first pipe and
/// after the last one as cells of their own unless empty (only the outer
/// wrapping pipes are dropped). A line without a pipe has no cells.
pub open spec fn cell_spans(s: Seq<char>) -> Seq<(int, int)> {
    let d = delims(s, s.len() as int);
    lead_span(s, d) + between(d) + tail_span(s, d)
}

/// The same spans as byte offsets.
pub open spec fn byte_spans(s: Seq<char>) -> Seq<(usize, usize)> {
    cell_spans(s).map_values(|p: (int, int)| (boff(s, p.0) as usize, boff(s, p.1) as usize))
}

pub open spec fn ranges_view(v: Seq<Range<usize>>) -> Seq<(usize, usize)> {
    v.map_values(|r: Range<usize>| rv(r))
}

proof fn lemma_delims_bounds(s: Seq<char>, n: int)
    requires
        0 <= n <= s.len(),
    ensures
        forall|j: int| 0 <= j < delims(s, n).len() ==> 0 <= #[trigger] delims(s, n)[j] < n,
        forall|j: int, k: int|
            0 <= j < k < delims(s, n).len() ==> delims(s, n)[j] < delims(s, n)[k],
    decreases n,
{
    if n > 0 {
        lemma_delims_bounds(s, n - 1);
        let p = delims(s, n - 1);
        if is_delim(s, n - 1) {
            let q = p.push(n - 1);
            assert(delims(s, n) == q);
            assert forall|j: int| 0 <= j < q.len() implies 0 <= #[trigger] q[j] < n by {
                if j < p.len() {
                    assert(q[j] == p[j]);
                }
            }
            assert forall|j: int, k: int| 0 <= j < k < q.len() implies q[j] < q[k] by {
                assert(q[j] == p[j]);
                if k < p.len() {
                    assert(q[k] == p[k]);
                }
            }
        }
    }
}

/// Split a table line at its unescaped pipes, returning the byte ranges
/// of the cells (see [`cell_spans`]). Only the empty spans outside a
/// leading and a trailing pipe are dropped; a pipe after a backslash is
/// cell content, and a doubled backslash escapes only itself.
pub fn split_cells(line: &str) -> (out: Vec<Range<usize>>)
    requires
        blen(line@) <= usize::MAX,
    ensures
        ranges_view(out@) == byte_spans(line@),
{
    let s = chars_of(line);
    let ghost sv = s@;
    let ghost f = |p: (int, int)| (boff(sv, p.0) as usize, boff(sv, p.1) as usize);
    let n = s.len();
    let mut out: Vec<Range<usize>> = Vec::new();
    let mut start: usize = 0;
    let mut start_char: usize = 0;
    let mut prev_bs = false;
    let mut started = false;
    let mut lead_blank = true;
    let mut pos: usize = 0;
    let mut i: usize = 0;
    assert(sv.take(0) =~= Seq::<char>::empty());
    while i < n
        invariant
            n == sv.len(),
            sv == line@,
            s@ == sv,
            blen(sv) <= usize::MAX,
            f == (|p: (int, int)| (boff(sv, p.0) as usize, boff(sv, p.1) as usize)),
            i <= n,
            pos == boff(sv, i as int),
            prev_bs == active_bs(sv, i - 1),
            started == (delims(sv, i as int).len() > 0),
            !started ==> lead_blank == blank_upto(sv, i as int) && out@.len() == 0,
            started ==> start_char == delims(sv, i as int).last() + 1 && start == boff(
                sv,
                start_char as int,
            ),
            started ==> ranges_view(out@) == (lead_span(sv, delims(sv, i as int)) + between(
                delims(sv, i as int),
            )).map_values(f),
            start_char <= i,
        decreases n - i,
    {
        let c = s[i];
        proof {
            lemma_boff_step(sv, i as int);
            lemma_boff_mono(sv, i + 1, n as int);
            lemma_delims_bounds(sv, i as int);
        }
        let ghost d = delims(sv, i as int);
        let ghost old_out = out@;
        let is_d = c == '|' && !prev_bs;
        if !started && !is_d {
            lead_blank = lead_blank && crate::text::is_whitespace(c);
            proof {
                assert(blank_upto(sv, i + 1) == (blank_upto(sv, i as int) && is_ws(sv[i as int])));
            }
        }
        if c == '\\' && !prev_bs {
            prev_bs = true;
            assert(delims(sv, i + 1) == d);
        } else {
            if is_d {
                let ghost d2 = d.push(i as int);
                assert(delims(sv, i + 1) == d2);
                if started {
                    out.push(start..pos);
                    proof {
                        assert(d2[0] == d[0]);
                        assert(lead_span(sv, d2) == lead_span(sv, d));
                        assert(between(d2) =~= between(d).push((d.last() + 1, i as int)));
                        assert(ranges_view(out@) =~= ranges_view(old_out).push((start, pos)));
                        assert((lead_span(sv, d2) + between(d2)).map_values(f) =~= (lead_span(sv, d)
                            + between(d)).map_values(f).push(f((d.last() + 1, i as int))));
                    }
                } else {
                    if !lead_blank {
                        out.push(0..pos);
                    }
                    proof {
                        assert(between(d2) =~= Seq::<(int, int)>::empty());
                        assert(d2[0] == i);
                        assert(sv.take(0) =~= Seq::<char>::empty());
                        if !lead_blank {
                            assert(ranges_view(out@) =~= seq![(0usize, pos)]);
                            assert(boff(sv, 0) == 0);
                            assert((lead_span(sv, d2) + between(d2)).map_values(f) =~= seq![f((0, i as int))]);
                        } else {
                            assert((lead_span(sv, d2) + between(d2)).map_values(f) =~= Seq::<(usize, usize)>::empty());
                            assert(ranges_view(out@) =~= Seq::<(usize, usize)>::empty());
                        }
                    }
                }
                start = pos + 1;
                start_char = i + 1;
                started = true;
                proof {
                    assert(cw(c) == 1);
                }
            } else {
                assert(delims(sv, i + 1) == d);
            }
            prev_bs = false;
        }
        pos = pos + char_width(c);
        i = i + 1;
    }
    proof {
        assert(sv.take(n as int) =~= sv);
        lemma_delims_bounds(sv, n as int);
    }
    let ghost d = delims(sv, n as int);
    let ghost before = out@;
    if started && start_char < n {
        out.push(start..pos);
        proof {
            assert(ranges_view(out@) =~= ranges_view(before).push((start, pos)));
            assert(cell_spans(sv).map_values(f) =~= (lead_span(sv, d) + between(d)).map_values(f).push(
                f((d.last() + 1, n as int)),
            ));
        }
    } else {
        if started {
            assert(cell_spans(sv) =~= lead_span(sv, d) + between(d));
        } else {
            assert(cell_spans(sv) =~= Seq::<(int, int)>::empty());
            assert(ranges_view(out@) =~= Seq::<(usize, usize)>::empty());
        }
    }
    out
}

// ---------------------------------------------------------------------
// Line classification
// ---------------------------------------------------------------------

/// A character that may appear on a separator line.
pub open spec fn is_sep_char(c: char) -> bool {
    c == '|' || c == '-' || c == ':' || c == ' '
}

/// `s` is a GFM separator line: after trimming, non-empty, made only of
/// pipes, dashes, colons and spaces, with at least one dash.
pub open spec fn separator_line(s: Seq<char>) -> bool {
    let t = trim(s);
    &&& t.len() > 0
    &&& forall|i: int| 0 <= i < t.len() ==> is_sep_char(#[trigger] t[i])
    &&& exists|i: int| 0 <= i < t.len() && t[i] == '-'
}

/// Whether `s` is a GFM separator line (see [`separator_line`]).
pub fn is_separator_line(s: &str) -> (b: bool)
    ensures
        b == separator_line(s@),
{
    let v = chars_of(s);
    let t = trimmed(v.as_slice());
    if t.len() == 0 {
        return false;
    }
    let mut dash = false;
    let mut i: usize = 0;
    while i < t.len()
        invariant
            i <= t@.len(),
            t@ == trim(s@),
            forall|j: int| 0 <= j < i ==> is_sep_char(#[trigger] t@[j]),
            dash == exists|j: int| 0 <= j < i && t@[j] == '-',
        decreases t@.len() - i,
    {
        let c = t[i];
        if !(c == '|' || c == '-' || c == ':' || c == ' ') {
            return false;
        }
        if c == '-' {
            dash = true;
        }
        i = i + 1;
    }
    dash
}

/// `s` is the column-widths comment `<!-- rmd-cols: ... -->` (after
/// trimming).
pub open spec fn cols_comment(s: Seq<char>) -> bool {
    starts_with(trim(s), "<!-- rmd-cols:"@) && ends_with(trim(s), "-->"@)
}

/// Whether `s` is the column-widths persistence comment.
pub fn is_rmd_cols_comment(s: &str) -> (b: bool)
    ensures
        b == cols_comment(s@),
{
    let v = chars_of(s);
    let t = trimmed(v.as_slice());
    starts_with_str(t.as_slice(), "<!-- rmd-cols:") && ends_with_str(t.as_slice(), "-->")
}

// ---------------------------------------------------------------------
// Capturing the original lines of a table
// ---------------------------------------------------------------------

/// The captured lines for the lines `ls`, given whether the separator
/// was already seen and the index of the next body row. Blank lines and
/// the width comment are skipped.
pub open spec fn capture_from(ls: Seq<Seq<char>>, seen: bool, row: nat) -> Seq<LineView>
    decreases ls.len(),
{
    if ls.len() == 0 {
        seq![]
    } else {
        let l = ls[0];
        let rest = ls.drop_first();
        if trim(l).len() == 0 || cols_comment(l) {
            capture_from(rest, seen, row)
        } else if separator_line(l) {
            seq![LineView { raw: l, cell_spans: byte_spans(l), kind: LineKind::Separator }]
                + capture_from(rest, true, row)
        } else if !seen {
            seq![LineView { raw: l, cell_spans: byte_spans(l), kind: LineKind::Header }]
                + capture_from(rest, seen, row)
        } else {
            seq![LineView { raw: l, cell_spans: byte_spans(l), kind: LineKind::Body { row_index: row as usize } }]
                + capture_from(rest, seen, row + 1)
        }
    }
}

/// The original lines of a table source (see [`capture_from`]).
pub open spec fn captured(src: Seq<char>) -> Seq<LineView> {
    capture_from(lines(src), false, 0)
}

/// Every line of `lines(s)` is at most as long, in bytes, as `s`.
pub proof fn lemma_lines_blen(s: Seq<char>)
    ensures
        forall|j: int| 0 <= j < lines(s).len() ==> blen(#[trigger] lines(s)[j]) <= blen(s),
    decreases s.len(),
{
    if s.len() > 0 {
        let k = crate::text::find_char(s, '\n');
        crate::text::lemma_find_char(s, '\n');
        if k < s.len() {
            let rest = s.skip(k + 1 as int);
            lemma_lines_blen(rest);
            assert(s =~= s.take(k + 1 as int) + rest);
            crate::text::lemma_blen_concat(s.take(k + 1 as int), rest);
            let first = crate::text::strip_cr(s.take(k as int));
            assert(s.take(k + 1 as int) =~= s.take(k as int).push('\n'));
            assert(s.take(k + 1 as int).drop_last() =~= s.take(k as int));
            if s.take(k as int).len() > 0 && s.take(k as int).last() == '\r' {
                assert(first =~= s.take(k as int).drop_last());
            }
            assert(lines(s) == seq![first] + lines(rest));
            assert(blen(s.take(k + 1 as int)) == blen(s.take(k as int)) + cw('\n'));
            assert(blen(first) <= blen(s.take(k as int)));
            assert forall|j: int| 0 <= j < lines(s).len() implies blen(#[trigger] lines(s)[j]) <= blen(s) by {
                if j == 0 {
                    assert(lines(s)[0] == first);
                } else {
                    assert(lines(s)[j] == lines(rest)[j - 1]);
                }
            }
        }
    }
}

/// Capture the lines of a table source for the PreserveOriginal round
/// trip: each non-blank line other than the width comment, with its
/// cell spans and whether it is the header, the separator or which body
/// row.
pub fn capture_original_lines(table_src: &str) -> (out: Vec<OriginalLine>)
    requires
        blen(table_src@) <= usize::MAX,
    ensures
        lines_view(out@) == captured(table_src@),
{
    let v = chars_of(table_src);
    let ls = lines_of(v.as_slice());
    proof {
        lemma_lines_blen(table_src@);
    }
    let mut out: Vec<OriginalLine> = Vec::new();
    let mut seen = false;
    let mut row: usize = 0;
    let mut i: usize = 0;
    assert(views(ls@).skip(0) =~= views(ls@));
    while i < ls.len()
        invariant
            views(ls@) == lines(table_src@),
            forall|j: int| 0 <= j < lines(table_src@).len() ==> blen(#[trigger] lines(table_src@)[j]) <= blen(table_src@),
            blen(table_src@) <= usize::MAX,
            i <= ls@.len(),
            row <= i,
            captured(table_src@) == lines_view(out@) + capture_from(views(ls@).skip(i as int), seen, row as nat),
        decreases ls@.len() - i,
    {
        let ghost rest = views(ls@).skip(i as int);
        let line = &ls[i];
        assert(rest[0] == line@);
        assert(rest.drop_first() =~= views(ls@).skip(i + 1));
        assert(views(ls@)[i as int] == line@);
        let ghost before = out@;
        let blank = is_blank(line.as_slice());
        let text = string_of(line.as_slice());
        if blank || is_rmd_cols_comment(text.as_str()) {
            i = i + 1;
        } else {
            let sep = is_separator_line(text.as_str());
            let kind = if sep {
                seen = true;
                LineKind::Separator
            } else if !seen {
                LineKind::Header
            } else {
                let k = LineKind::Body { row_index: row };
                row = row + 1;
                k
            };
            let spans = split_cells(text.as_str());
            let ol = OriginalLine { raw: text, cell_spans: spans, kind };
            out.push(ol);
            proof {
                assert(lines_view(before).len() == before.len());
                assert(lines_view(out@) =~= lines_view(before).push(ol@));
                assert(ol@.cell_spans == byte_spans(line@));
            }
            i = i + 1;
        }
    }
    assert(views(ls@).skip(i as int) =~= Seq::<Seq<char>>::empty());
    assert(lines_view(out@) + Seq::<LineView>::empty() =~= lines_view(out@));
    out
}

// ---------------------------------------------------------------------
// Cells from parser ranges
// ---------------------------------------------------------------------

/// A space or a tab: the padding between a cell's content and its pipes.
pub open spec fn is_pad(c: char) -> bool {
    c == ' ' || c == '\t'
}

/// Move left from `k` over padding characters.
pub open spec fn pad_left(s: Seq<char>, k: int) -> int
    decreases k,
{
    if 0 < k <= s.len() && is_pad(s[k - 1]) {
        pad_left(s, k - 1)
    } else {
        k
    }
}

/// Move right from `k` over padding characters.
pub open spec fn pad_right(s: Seq<char>, k: int) -> int
    decreases s.len() - k,
{
    if 0 <= k < s.len() && is_pad(s[k]) {
        pad_right(s, k + 1)
    } else {
        k
    }
}

pub(crate) proof fn lemma_pad_bounds(s: Seq<char>, k: int)
    requires
        0 <= k <= s.len(),
    ensures
        0 <= pad_left(s, k) <= k,
        k <= pad_right(s, k) <= s.len(),
    decreases s.len() - k,
{
    lemma_pad_left_bounds(s, k);
    if k < s.len() && is_pad(s[k]) {
        lemma_pad_bounds(s, k + 1);
    }
}

pub(crate) proof fn lemma_pad_left_bounds(s: Seq<char>, k: int)
    requires
        0 <= k <= s.len(),
    ensures
        0 <= pad_left(s, k) <= k,
    decreases k,
{
    if k > 0 && is_pad(s[k - 1]) {
        lemma_pad_left_bounds(s, k - 1);
    }
}

/// The cell whose content lies between character indices `a` and `b`
/// of `s`: the span is widened over the surrounding padding, the content
/// is the trimmed source text (raw markdown, escapes included), and the
/// padding widths are counted modulo 256.
pub open spec fn cell_at(s: Seq<char>, a: int, b: int) -> CellView {
    let lo = pad_left(s, a);
    let hi = pad_right(s, b);
    let raw = s.subrange(lo, hi);
    CellView {
        range: (boff(s, lo) as usize, boff(s, hi) as usize),
        content: trim(raw),
        leading_ws: (pad_right(raw, 0) % 256) as u8,
        trailing_ws: ((raw.len() - pad_left(raw, raw.len() as int)) % 256) as u8,
    }
}

/// A byte range of `s` that starts and ends on character boundaries.
pub open spec fn valid_range(s: Seq<char>, a: int, b: int) -> bool {
    is_boundary(s, a) && is_boundary(s, b) && a <= b
}

/// `cell_at` for a byte range.
pub open spec fn cell_at_bytes(s: Seq<char>, a: int, b: int) -> CellView {
    cell_at(s, char_at_byte(s, a), char_at_byte(s, b))
}

pub(crate) fn pad_left_exec(s: &[char], k: usize) -> (r: usize)
    requires
        k <= s@.len(),
    ensures
        r == pad_left(s@, k as int),
{
    let mut i = k;
    while i > 0 && (s[i - 1] == ' ' || s[i - 1] == '\t')
        invariant
            i <= k <= s@.len(),
            pad_left(s@, k as int) == pad_left(s@, i as int),
        decreases i,
    {
        i = i - 1;
    }
    i
}

pub(crate) fn pad_right_exec(s: &[char], k: usize) -> (r: usize)
    requires
        k <= s@.len(),
    ensures
        r == pad_right(s@, k as int),
{
    let mut i = k;
    while i < s.len() && (s[i] == ' ' || s[i] == '\t')
        invariant
            k <= i <= s@.len(),
            pad_right(s@, k as int) == pad_right(s@, i as int),
        decreases s@.len() - i,
    {
        i = i + 1;
    }
    i
}

proof fn lemma_boff_pos(s: Seq<char>, k: int)
    requires
        0 <= k <= s.len(),
    ensures
        boff(s, k) <= blen(s),
{
    lemma_boff_mono(s, k, s.len() as int);
}

/// The cell between character indices `a <= b` of `s`.
fn cell_at_chars(s: &[char], a: usize, b: usize) -> (c: Cell)
    requires
        a <= b <= s@.len(),
        blen(s@) <= usize::MAX,
    ensures
        c@ == cell_at(s@, a as int, b as int),
{
    let lo = pad_left_exec(s, a);
    let hi = pad_right_exec(s, b);
    proof {
        lemma_pad_bounds(s@, a as int);
        lemma_pad_bounds(s@, b as int);
    }
    let raw = crate::text::slice_vec(s, lo, hi);
    let lead = pad_right_exec(raw.as_slice(), 0);
    let tail_start = pad_left_exec(raw.as_slice(), raw.len());
    proof {
        lemma_pad_bounds(raw@, 0);
        lemma_pad_bounds(raw@, raw@.len() as int);
    }
    let trail = raw.len() - tail_start;
    let tr = trimmed(raw.as_slice());
    let content = string_of(tr.as_slice());
    let start = byte_offset(s, lo);
    let end = byte_offset(s, hi);
    Cell {
        source_range: start..end,
        content,
        leading_ws: (lead % 256) as u8,
        trailing_ws: (trail % 256) as u8,
    }
}

/// Build a [`Cell`] from a byte range reported by the markdown parser:
/// the range is widened over the spaces and tabs up to the surrounding
/// pipes, so that edits keep the author's padding.
pub fn cell_from_range(buf: &str, r: Range<usize>) -> (c: Cell)
    requires
        valid_range(buf@, r.start as int, r.end as int),
        blen(buf@) <= usize::MAX,
    ensures
        c@ == cell_at_bytes(buf@, r.start as int, r.end as int),
{
    let s = chars_of(buf);
    let a = char_index(s.as_slice(), r.start);
    let b = char_index(s.as_slice(), r.end);
    match (a, b) {
        (Some(ka), Some(kb)) => {
            if ka > kb {
                proof {
                    lemma_boff_mono(s@, kb as int, ka as int);
                }
            }
            cell_at_chars(s.as_slice(), ka, kb)
        },
        _ => {
            assert(false);
            cell_at_chars(s.as_slice(), 0, 0)
        },
    }
}

// ---------------------------------------------------------------------
// The column-widths comment
// ---------------------------------------------------------------------

/// The widths written in a comment body: comma-separated, each trimmed;
/// an empty entry means no width, an entry that is not a `u32` too.
pub open spec fn widths_of(inside: Seq<char>) -> Seq<Option<u32>> {
    crate::text::split_on(inside, ',').map_values(
        |p: Seq<char>|
            if trim(p).len() == 0 {
                None
            } else {
                crate::text::parse_u32_spec(trim(p))
            },
    )
}

/// The text between `<!-- rmd-cols:` and `-->` of a trimmed comment
/// line, trimmed; `None` when the line is not such a comment.
pub open spec fn comment_inside(line: Seq<char>) -> Option<Seq<char>> {
    let t = trim(line);
    let p = "<!-- rmd-cols:"@;
    if starts_with(t, p) && ends_with(t.skip(p.len() as int), "-->"@) {
        let rest = t.skip(p.len() as int);
        Some(trim(rest.take(rest.len() - 3)))
    } else {
        None
    }
}

/// The width comment on the line just above the table starting at byte
/// `start`: its widths and the byte offset where the comment line
/// begins.
pub open spec fn widths_comment(s: Seq<char>, start: int) -> Option<(Seq<Option<u32>>, usize)> {
    let k = char_at_byte(s, start);
    if start == 0 || !(k >= 1 && s[k - 1] == '\n') {
        None
    } else {
        let cs = crate::text::rfind_char(s.take(k - 1), '\n') + 1;
        match comment_inside(s.subrange(cs, k - 1)) {
            Some(inside) => Some((widths_of(inside), boff(s, cs) as usize)),
            None => None,
        }
    }
}

/// Find the `<!-- rmd-cols: ... -->` comment on the line directly above
/// the table that starts at byte `table_start`, returning the widths it
/// lists (`180,,120` gives `[Some(180), None, Some(120)]`) and the
/// byte offset of the comment line.
pub fn extract_column_widths_comment(buffer: &str, table_start: usize) -> (r: Option<
    (Vec<Option<u32>>, usize),
>)
    requires
        is_boundary(buffer@, table_start as int),
        blen(buffer@) <= usize::MAX,
    ensures
        match r {
            Some((w, at)) => widths_comment(buffer@, table_start as int) == Some((w@, at)),
            None => widths_comment(buffer@, table_start as int) is None,
        },
{
    if table_start == 0 {
        return None;
    }
    let s = chars_of(buffer);
    let k = match char_index(s.as_slice(), table_start) {
        Some(k) => k,
        None => {
            return None;
        },
    };
    if !(k >= 1 && s[k - 1] == '\n') {
        return None;
    }
    let cs = match crate::text::rfind_char_before(s.as_slice(), k - 1, '\n') {
        Some(p) => p + 1,
        None => 0,
    };
    proof {
        if cs > 0 {
            assert(s@.take(k - 1).len() == k - 1);
        }
    }
    let line = crate::text::slice_vec(s.as_slice(), cs, k - 1);
    let t = trimmed(line.as_slice());
    let p = chars_of("<!-- rmd-cols:");
    proof {
        reveal_strlit("<!-- rmd-cols:");
        reveal_strlit("-->");
    }
    if !starts_with_str(t.as_slice(), "<!-- rmd-cols:") {
        return None;
    }
    let rest = crate::text::slice_vec(t.as_slice(), p.len(), t.len());
    assert(rest@ =~= t@.skip(p@.len() as int));
    if !ends_with_str(rest.as_slice(), "-->") {
        return None;
    }
    let body = crate::text::slice_vec(rest.as_slice(), 0, rest.len() - 3);
    assert(body@ =~= rest@.take(rest@.len() - 3));
    let inside = trimmed(body.as_slice());
    let pieces = crate::text::split_chars(inside.as_slice(), ',');
    let mut widths: Vec<Option<u32>> = Vec::new();
    let mut i: usize = 0;
    while i < pieces.len()
        invariant
            i <= pieces@.len(),
            views(pieces@) == crate::text::split_on(inside@, ','),
            widths@ =~= widths_of(inside@).take(i as int),
        decreases pieces@.len() - i,
    {
        let piece = trimmed(pieces[i].as_slice());
        assert(views(pieces@)[i as int] == pieces@[i as int]@);
        let w = if piece.len() == 0 {
            None
        } else {
            crate::text::parse_u32(piece.as_slice())
        };
        widths.push(w);
        i = i + 1;
    }
    assert(widths_of(inside@).take(i as int) =~= widths_of(inside@));
    let at = byte_offset(s.as_slice(), cs);
    Some((widths, at))
}

// ---------------------------------------------------------------------
// Tables from the markdown parser's events
// ---------------------------------------------------------------------

/// What the markdown parser reports about tables, with byte ranges.
/// Alignments are coded 0 (none), 1 (left), 2 (center), 3 (right).
pub enum MdEvent {
    TableStart { aligns: Vec<u8>, start: usize, end: usize },
    HeadStart,
    HeadEnd,
    RowStart,
    RowEnd,
    CellStart(usize),
    CellEnd(usize, usize),
    TableEnd,
    Other,
}

/// The table events that pulldown-cmark (tables enabled) reports for a
/// document with these characters.
pub uninterp spec fn md_table_events(doc: Seq<char>) -> Seq<MdEvent>;

/// The events of `pulldown_cmark::Parser::new_ext(buffer, ENABLE_TABLES)
/// .into_offset_iter()`, reduced to the table structure.
#[verifier::external_body]
fn table_events(buffer: &str) -> (r: Vec<MdEvent>)
    ensures
        r@ == md_table_events(buffer@),
{
    Parser::new_ext(buffer, Options::ENABLE_TABLES).into_offset_iter().map(|(e, r)| match e {
        Event::Start(Tag::Table(a)) => MdEvent::TableStart { aligns: a.iter().map(|x| *x as u8).collect(), start: r.start, end: r.end },
        Event::Start(Tag::TableHead) => MdEvent::HeadStart,
        Event::End(TagEnd::TableHead) => MdEvent::HeadEnd,
        Event::Start(Tag::TableRow) => MdEvent::RowStart,
        Event::End(TagEnd::TableRow) => MdEvent::RowEnd,
        Event::Start(Tag::TableCell) => MdEvent::CellStart(r.start),
        Event::End(TagEnd::TableCell) => MdEvent::CellEnd(r.start, r.end),
        Event::End(TagEnd::Table) => MdEvent::TableEnd,
        _ => MdEvent::Other,
    }).collect()
}

pub open spec fn align_of(code: u8) -> Alignment {
    if code == 1 {
        Alignment::Left
    } else if code == 2 {
        Alignment::Center
    } else if code == 3 {
        Alignment::Right
    } else {
        Alignment::Unaligned
    }
}

fn align_from_code(code: u8) -> (a: Alignment)
    ensures
        a == align_of(code),
{
    if code == 1 {
        Alignment::Left
    } else if code == 2 {
        Alignment::Center
    } else if code == 3 {
        Alignment::Right
    } else {
        Alignment::Unaligned
    }
}

/// What has been read of a table so far.
pub struct CollectState {
    pub headers: Seq<CellView>,
    pub rows: Seq<Seq<CellView>>,
    pub cur: Seq<CellView>,
    pub in_head: bool,
    pub cell_start: Option<usize>,
}

pub open spec fn collect_init() -> CollectState {
    CollectState { headers: seq![], rows: seq![], cur: seq![], in_head: false, cell_start: None }
}

/// One event's effect on a table being read. A cell spans from its start
/// event to its end event; a cell whose range is not a character range
/// of the document is left out.
pub open spec fn collect_step(s: Seq<char>, st: CollectState, e: MdEvent) -> CollectState {
    match e {
        MdEvent::HeadStart => CollectState { in_head: true, ..st },
        MdEvent::HeadEnd => CollectState { headers: st.cur, cur: seq![], in_head: false, ..st },
        MdEvent::RowStart => CollectState { cur: seq![], ..st },
        MdEvent::RowEnd => if !st.in_head {
            CollectState { rows: st.rows.push(st.cur), cur: seq![], ..st }
        } else {
            st
        },
        MdEvent::CellStart(start) => CollectState { cell_start: Some(start), ..st },
        MdEvent::CellEnd(start, end) => {
            let a = match st.cell_start {
                Some(x) => x,
                None => start,
            };
            if valid_range(s, a as int, end as int) {
                CollectState { cur: st.cur.push(cell_at_bytes(s, a as int, end as int)), cell_start: None, ..st }
            } else {
                CollectState { cell_start: None, ..st }
            }
        },
        _ => st,
    }
}

/// Read the events from `i` up to and including the end of the table;
/// returns the state and the index after the table's end event.
pub open spec fn collect_from(s: Seq<char>, evs: Seq<MdEvent>, i: int, st: CollectState) -> (CollectState, int)
    decreases evs.len() - i,
{
    if i < 0 || i >= evs.len() {
        (st, i)
    } else if evs[i] is TableEnd {
        (st, i + 1)
    } else {
        collect_from(s, evs, i + 1, collect_step(s, st, evs[i]))
    }
}

pub proof fn lemma_collect_advances(s: Seq<char>, evs: Seq<MdEvent>, i: int, st: CollectState)
    requires
        0 <= i,
    ensures
        collect_from(s, evs, i, st).1 >= i,
        i <= evs.len() ==> collect_from(s, evs, i, st).1 <= evs.len(),
    decreases evs.len() - i,
{
    if i < evs.len() && !(evs[i] is TableEnd) {
        lemma_collect_advances(s, evs, i + 1, collect_step(s, st, evs[i]));
    }
}

/// The table read from a table start event.
pub open spec fn table_from(
    s: Seq<char>,
    st: CollectState,
    aligns: Seq<u8>,
    start: usize,
    end: usize,
    id: u64,
) -> TableView {
    TableView {
        id,
        range: (start, end),
        alignments: aligns.map_values(|c: u8| align_of(c)),
        headers: st.headers,
        rows: st.rows,
        style: TableStyle::PreserveOriginal,
        column_widths: Seq::new(aligns.len(), |j: int| None),
        original_lines: Some(captured(s.subrange(char_at_byte(s, start as int), char_at_byte(s, end as int)))),
        sort_indicator: None,
    }
}

/// The tables read from the events from `i` on, numbered from `id`.
/// A table whose range is not a character range of the document is
/// left out (its number is still used).
pub open spec fn tables_from(s: Seq<char>, evs: Seq<MdEvent>, i: int, id: int) -> Seq<TableView>
    decreases evs.len() - i,
{
    if i < 0 || i >= evs.len() {
        seq![]
    } else {
        match evs[i] {
            MdEvent::TableStart { aligns, start, end } => {
                let (st, next) = collect_from(s, evs, i + 1, collect_init());
                proof {
                    lemma_collect_advances(s, evs, i + 1, collect_init());
                }
                let rest = tables_from(s, evs, next, id + 1);
                if valid_range(s, start as int, end as int) {
                    seq![table_from(s, st, aligns@, start, end, id as u64)] + rest
                } else {
                    rest
                }
            },
            _ => tables_from(s, evs, i + 1, id),
        }
    }
}

/// A table with the width comment above it bound: the comment's widths
/// become the column widths when their count matches, and the table's
/// range is widened to start at the comment.
pub open spec fn bind_comment(s: Seq<char>, t: TableView) -> TableView {
    match widths_comment(s, t.range.0 as int) {
        Some((w, at)) => TableView {
            column_widths: if w.len() == t.alignments.len() {
                w
            } else {
                t.column_widths
            },
            range: (at, t.range.1),
            ..t
        },
        None => t,
    }
}

/// The tables of a document, given its parser events.
pub open spec fn parsed_tables(s: Seq<char>, evs: Seq<MdEvent>) -> Seq<TableView> {
    tables_from(s, evs, 0, 1).map_values(|t: TableView| bind_comment(s, t))
}

pub open spec fn tables_view(ts: Seq<MarkdownTable>) -> Seq<TableView> {
    ts.map_values(|t: MarkdownTable| t@)
}

/// Read one table's events from `start` (just after its start event).
fn collect_table(
    buf: &str,
    s: &[char],
    events: &[MdEvent],
    start: usize,
) -> (r: (Vec<Cell>, Vec<Vec<Cell>>, usize))
    requires
        s@ == buf@,
        blen(s@) <= usize::MAX,
        start <= events@.len(),
    ensures
        ({
            let (st, next) = collect_from(s@, events@, start as int, collect_init());
            &&& cells_view(r.0@) == st.headers
            &&& rows_view(r.1@) == st.rows
            &&& r.2 == next
        }),
{
    let mut headers: Vec<Cell> = Vec::new();
    let mut rows: Vec<Vec<Cell>> = Vec::new();
    let mut cur: Vec<Cell> = Vec::new();
    let mut in_head = false;
    let mut cell_start: Option<usize> = None;
    let mut i = start;
    let ghost target = collect_from(s@, events@, start as int, collect_init());
    assert(cells_view(headers@) =~= Seq::<CellView>::empty());
    assert(cells_view(cur@) =~= Seq::<CellView>::empty());
    assert(rows_view(rows@) =~= Seq::<Seq<CellView>>::empty());
    loop
        invariant
            s@ == buf@,
            blen(s@) <= usize::MAX,
            start <= i <= events@.len(),
            target == collect_from(s@, events@, start as int, collect_init()),
            target == collect_from(
                s@,
                events@,
                i as int,
                CollectState {
                    headers: cells_view(headers@),
                    rows: rows_view(rows@),
                    cur: cells_view(cur@),
                    in_head,
                    cell_start,
                },
            ),
        decreases events@.len() - i,
    {
        if i >= events.len() {
            return (headers, rows, i);
        }
        let ghost st0 = CollectState {
            headers: cells_view(headers@),
            rows: rows_view(rows@),
            cur: cells_view(cur@),
            in_head,
            cell_start,
        };
        match &events[i] {
            MdEvent::TableEnd => {
                return (headers, rows, i + 1);
            },
            MdEvent::HeadStart => {
                in_head = true;
            },
            MdEvent::HeadEnd => {
                headers = cur;
                cur = Vec::new();
                in_head = false;
            },
            MdEvent::RowStart => {
                cur = Vec::new();
            },
            MdEvent::RowEnd => {
                if !in_head {
                    let row = cur;
                    cur = Vec::new();
                    let ghost before = rows@;
                    rows.push(row);
                    proof {
                        assert(rows_view(before).len() == before.len());
                        assert(rows_view(rows@) =~= rows_view(before).push(cells_view(row@)));
                    }
                }
            },
            MdEvent::CellStart(st) => {
                cell_start = Some(*st);
            },
            MdEvent::CellEnd(st, end) => {
                let a = match cell_start {
                    Some(x) => x,
                    None => *st,
                };
                cell_start = None;
                let ka = char_index(s, a);
                let kb = char_index(s, *end);
                if let (Some(x), Some(y)) = (ka, kb) {
                    proof {
                        if x <= y {
                            lemma_boff_mono(s@, x as int, y as int);
                        }
                    }
                    if x <= y {
                        let c = cell_at_chars(s, x, y);
                        let ghost before = cur@;
                        cur.push(c);
                        proof {
                            assert(cells_view(before).len() == before.len());
                            assert(cells_view(cur@) =~= cells_view(before).push(c@));
                        }
                    } else {
                        proof {
                            lemma_boff_mono(s@, y as int, x as int);
                        }
                    }
                }
            },
            MdEvent::TableStart { .. } => {},
            MdEvent::Other => {},
        }
        proof {
            let st1 = CollectState {
                headers: cells_view(headers@),
                rows: rows_view(rows@),
                cur: cells_view(cur@),
                in_head,
                cell_start,
            };
            assert(cells_view(Seq::<Cell>::empty()) =~= Seq::<CellView>::empty());
            if cur@.len() == 0 {
                assert(cells_view(cur@) =~= Seq::<CellView>::empty());
            }
            assert(st1 == collect_step(s@, st0, events@[i as int]));
        }
        i = i + 1;
    }
}

/// The tables of `buffer`, given the parser's events for it (see
/// [`parsed_tables`]). Tables are numbered from 1 in document order,
/// start in PreserveOriginal style with their original lines captured,
/// and take their column widths from a width comment directly above.
pub fn tables_from_events(buffer: &str, events: &[MdEvent]) -> (out: Vec<MarkdownTable>)
    requires
        blen(buffer@) <= usize::MAX,
        events@.len() < usize::MAX,
    ensures
        tables_view(out@) == parsed_tables(buffer@, events@),
{
    let s = chars_of(buffer);
    let mut tables: Vec<MarkdownTable> = Vec::new();
    let mut next_id: u64 = 1;
    let mut i: usize = 0;
    while i < events.len()
        invariant
            s@ == buffer@,
            blen(s@) <= usize::MAX,
            events@.len() < usize::MAX,
            i <= events@.len(),
            next_id <= i + 1,
            tables_from(s@, events@, 0, 1) == tables_view(tables@) + tables_from(s@, events@, i as int, next_id as int),
        decreases events@.len() - i,
    {
        match &events[i] {
            MdEvent::TableStart { aligns, start, end } => {
                let (headers, rows, next) = collect_table(buffer, s.as_slice(), events, i + 1);
                proof {
                    lemma_collect_advances(s@, events@, i + 1, collect_init());
                }
                let ka = char_index(s.as_slice(), *start);
                let kb = char_index(s.as_slice(), *end);
                let ghost before = tables@;
                if let (Some(x), Some(y)) = (ka, kb) {
                    if x <= y {
                        let mut alignments: Vec<Alignment> = Vec::new();
                        let mut widths: Vec<Option<u32>> = Vec::new();
                        let mut j: usize = 0;
                        while j < aligns.len()
                            invariant
                                j <= aligns@.len(),
                                alignments@ =~= aligns@.take(j as int).map_values(|c: u8| align_of(c)),
                                widths@ =~= Seq::new(j as nat, |k: int| None::<u32>),
                            decreases aligns@.len() - j,
                        {
                            alignments.push(align_from_code(aligns[j]));
                            widths.push(None);
                            j = j + 1;
                            assert(aligns@.take(j as int).map_values(|c: u8| align_of(c)) =~= aligns@.take(j - 1).map_values(|c: u8| align_of(c)).push(align_of(aligns@[j - 1])));
                        }
                        assert(aligns@.take(j as int) =~= aligns@);
                        let src = string_of(crate::text::slice_vec(s.as_slice(), x, y).as_slice());
                        proof {
                            lemma_boff_mono(s@, x as int, y as int);
                            crate::text::lemma_blen_concat(s@.take(x as int), s@.subrange(x as int, y as int));
                            assert(s@.take(y as int) =~= s@.take(x as int) + s@.subrange(x as int, y as int));
                            lemma_boff_mono(s@, y as int, s@.len() as int);
                        }
                        let lines = capture_original_lines(src.as_str());
                        let t = MarkdownTable {
                            id: next_id,
                            source_range: *start..*end,
                            alignments,
                            headers,
                            rows,
                            style: TableStyle::PreserveOriginal,
                            column_widths: widths,
                            original_lines: Some(lines),
                            sort_indicator: None,
                        };
                        tables.push(t);
                        proof {
                            assert(tables_view(before).len() == before.len());
                            assert(tables_view(tables@) =~= tables_view(before).push(t@));
                            assert(t@ == table_from(s@, collect_from(s@, events@, i + 1, collect_init()).0, aligns@, *start, *end, next_id));
                        }
                    } else {
                        proof {
                            lemma_boff_mono(s@, y as int, x as int);
                        }
                    }
                }
                next_id = next_id + 1;
                i = next;
            },
            _ => {
                i = i + 1;
            },
        }
    }
    assert(tables_from(s@, events@, i as int, next_id as int) =~= Seq::<TableView>::empty());
    assert(tables_view(tables@) + Seq::<TableView>::empty() =~= tables_view(tables@));
    let mut k: usize = 0;
    let ghost raw = tables_view(tables@);
    while k < tables.len()
        invariant
            s@ == buffer@,
            blen(s@) <= usize::MAX,
            raw == tables_from(s@, events@, 0, 1),
            tables@.len() == raw.len(),
            k <= tables@.len(),
            forall|j: int| 0 <= j < k ==> #[trigger] tables@[j]@ == bind_comment(s@, raw[j]),
            forall|j: int| k <= j < tables@.len() ==> #[trigger] tables@[j]@ == raw[j],
        decreases tables@.len() - k,
    {
        let at = tables[k].source_range.start;
        assert(tables@[k as int]@ == raw[k as int]);
        if char_index(s.as_slice(), at).is_some() {
            match extract_column_widths_comment(buffer, at) {
                Some((widths, cs)) => {
                    let mut t = tables.remove(k);
                    if widths.len() == t.alignments.len() {
                        t.column_widths = widths;
                    }
                    t.source_range.start = cs;
                    tables.insert(k, t);
                },
                None => {},
            }
        } else {
            assert(bind_comment(s@, raw[k as int]) == raw[k as int]) by {
                lemma_raw_tables_valid(s@, events@, 0, 1, k as int);
            }
        }
        k = k + 1;
    }
    assert(tables_view(tables@) =~= parsed_tables(buffer@, events@));
    tables
}

proof fn lemma_raw_tables_valid(s: Seq<char>, evs: Seq<MdEvent>, i: int, id: int, k: int)
    requires
        0 <= k < tables_from(s, evs, i, id).len(),
    ensures
        is_boundary(s, tables_from(s, evs, i, id)[k].range.0 as int),
    decreases evs.len() - i,
{
    if 0 <= i < evs.len() {
        match evs[i] {
            MdEvent::TableStart { aligns, start, end } => {
                let (st, next) = collect_from(s, evs, i + 1, collect_init());
                lemma_collect_advances(s, evs, i + 1, collect_init());
                if valid_range(s, start as int, end as int) {
                    if k > 0 {
                        lemma_raw_tables_valid(s, evs, next, id + 1, k - 1);
                    }
                } else {
                    lemma_raw_tables_valid(s, evs, next, id + 1, k);
                }
            },
            _ => {
                lemma_raw_tables_valid(s, evs, i + 1, id, k);
            },
        }
    }
}

/// All tables of `buffer`, in document order (see
/// [`tables_from_events`]); none when the parser reports more events
/// than can be counted.
pub fn parse_tables(buffer: &str) -> (out: Vec<MarkdownTable>)
    requires
        blen(buffer@) <= usize::MAX,
    ensures
        md_table_events(buffer@).len() < usize::MAX ==> tables_view(out@) == parsed_tables(
            buffer@,
            md_table_events(buffer@),
        ),
        md_table_events(buffer@).len() >= usize::MAX ==> out@.len() == 0,
{
    let events = table_events(buffer);
    if events.len() == usize::MAX {
        return Vec::new();
    }
    tables_from_events(buffer, events.as_slice())
}

// ---------------------------------------------------------------------
// Facts about captured spans
// ---------------------------------------------------------------------

/// The byte spans of a line are ordered, disjoint character ranges.
pub proof fn lemma_byte_spans_ok(l: Seq<char>)
    requires
        blen(l) <= usize::MAX,
    ensures
        crate::tables::serialize::spans_ok(l, byte_spans(l)),
        forall|j: int| 0 <= j < byte_spans(l).len() ==> #[trigger] byte_spans(l)[j].1 <= blen(l),
{
    let n = l.len() as int;
    let d = delims(l, n);
    lemma_delims_bounds(l, n);
    let cs = cell_spans(l);
    let ls = lead_span(l, d);
    let bt = between(d);
    let o = ls.len() as int;
    assert forall|j: int| 0 <= j < cs.len() implies 0 <= (#[trigger] cs[j]).0 <= cs[j].1 <= n && (j + 1 < cs.len() ==> cs[j].1 <= cs[j + 1].0) by {
        if j < o {
            assert(cs[j] == (0int, d[0]));
            if j + 1 < o + bt.len() {
                assert(cs[j + 1] == (d[0] + 1, d[1]));
            } else if j + 1 < cs.len() {
                assert(cs[j + 1] == (d.last() + 1, n));
            }
        } else if j < o + bt.len() {
            assert(cs[j] == (d[j - o] + 1, d[j - o + 1]));
            if j + 1 < o + bt.len() {
                assert(cs[j + 1] == (d[j - o + 1] + 1, d[j - o + 2]));
            } else if j + 1 < cs.len() {
                assert(cs[j + 1] == (d.last() + 1, n));
            }
        } else {
            assert(cs[j] == (d.last() + 1, n));
        }
    }
    assert forall|j: int, k: int| 0 <= j < k < cs.len() implies cs[j].1 <= cs[k].0 by {
        lemma_cell_spans_sorted(l, j, k);
    }
    let bs = byte_spans(l);
    assert forall|j: int| 0 <= j < bs.len() implies is_boundary(l, #[trigger] bs[j].0 as int) && is_boundary(l, bs[j].1 as int) && bs[j].0 <= bs[j].1 && bs[j].1 <= blen(l) by {
        let p = cs[j];
        lemma_boff_mono(l, p.0, p.1);
        lemma_boff_mono(l, p.1, n);
        assert(l.take(n) =~= l);
        assert(0 <= p.0 <= l.len() && boff(l, p.0) == bs[j].0 as int);
        assert(0 <= p.1 <= l.len() && boff(l, p.1) == bs[j].1 as int);
    }
    assert forall|j: int, k: int| 0 <= j < k < bs.len() implies bs[j].1 <= bs[k].0 by {
        lemma_boff_mono(l, cs[j].1, cs[k].0);
        lemma_boff_mono(l, cs[k].0, n);
    }
    assert forall|j: int| 0 <= j < bs.len() implies #[trigger] bs[j].1 <= blen(l) by {
        assert(is_boundary(l, bs[j].0 as int));
    }
}

proof fn lemma_cell_spans_sorted(l: Seq<char>, j: int, k: int)
    requires
        0 <= j < k < cell_spans(l).len(),
        forall|i: int| 0 <= i < cell_spans(l).len() ==> 0 <= (#[trigger] cell_spans(l)[i]).0 <= cell_spans(l)[i].1 && (i + 1 < cell_spans(l).len() ==> cell_spans(l)[i].1 <= cell_spans(l)[i + 1].0),
    ensures
        cell_spans(l)[j].1 <= cell_spans(l)[k].0,
    decreases k - j,
{
    let cs = cell_spans(l);
    if k > j + 1 {
        lemma_cell_spans_sorted(l, j, k - 1);
        assert(cs[k - 1].0 <= cs[k - 1].1);
        assert(cs[k - 1].1 <= cs[k].0);
    } else {
        assert(cs[j].1 <= cs[j + 1].0);
    }
}

/// Every captured line has well-formed spans.
pub proof fn lemma_captured_ok(ls: Seq<Seq<char>>, seen: bool, row: nat)
    requires
        forall|i: int| 0 <= i < ls.len() ==> blen(#[trigger] ls[i]) <= usize::MAX,
    ensures
        forall|i: int| 0 <= i < capture_from(ls, seen, row).len() ==> crate::tables::serialize::spans_ok(
            #[trigger] capture_from(ls, seen, row)[i].raw,
            capture_from(ls, seen, row)[i].cell_spans,
        ),
    decreases ls.len(),
{
    if ls.len() > 0 {
        let l = ls[0];
        let rest = ls.drop_first();
        assert(blen(ls[0]) <= usize::MAX);
        assert forall|i: int| 0 <= i < rest.len() implies blen(#[trigger] rest[i]) <= usize::MAX by {
            assert(rest[i] == ls[i + 1]);
        }
        lemma_byte_spans_ok(l);
        lemma_captured_ok(rest, true, row);
        lemma_captured_ok(rest, seen, row);
        lemma_captured_ok(rest, seen, row + 1);
        let c = capture_from(ls, seen, row);
        assert forall|i: int| 0 <= i < c.len() implies crate::tables::serialize::spans_ok(#[trigger] c[i].raw, c[i].cell_spans) by {
            if trim(l).len() == 0 || cols_comment(l) {
            } else if separator_line(l) {
                if i > 0 {
                    assert(c[i] == capture_from(rest, true, row)[i - 1]);
                }
            } else if !seen {
                if i > 0 {
                    assert(c[i] == capture_from(rest, seen, row)[i - 1]);
                }
            } else {
                if i > 0 {
                    assert(c[i] == capture_from(rest, seen, row + 1)[i - 1]);
                }
            }
        }
    }
}

} // verus!
