//! Smart paste: decide whether pasted clipboard content should become a
//! markdown table, and convert it.
//!
//! Detection tries, in order: an HTML `<table>` (spreadsheets and
//! browsers put one on the clipboard), a table that is already GFM,
//! tab-separated values, and comma-separated values (read by the `csv`
//! crate, so quoted commas work). Anything else is not a table and the
//! editor pastes it as plain text.

use vstd::prelude::*;
use crate::tables::model::{
    cells_view, rows_view, Alignment, Cell, CellView, MarkdownTable, TableStyle, TableView,
};
use crate::tables::parse::{md_table_events, parse_tables, parsed_tables, tables_view};
use crate::tables::serialize::{cells_ok, compact_text, pretty_text, to_gfm_compact, to_gfm_pretty};
use crate::text::{
    blen, boff, chars_of, char_at_byte, char_width, cw, find_char, find_char_from, find_from,
    find_seq_from, is_boundary, is_whitespace, is_ws, lead_ws, lemma_boff_mono, lemma_boff_step,
    lemma_char_at_byte, lemma_find_char, lines, lines_of, lowercase, occurs_at, push_str,
    slice_vec, split_chars, split_on, starts_with, string_of, to_lowercase, trail_ws, trim,
    trim_end, trim_start, views, replace_all,
};

verus! {

// ---------------------------------------------------------------------
// The detected kinds of paste
// ---------------------------------------------------------------------

/// What pasted clipboard content looks like. Each table kind carries the
/// detected shape (rows × columns) so the editor can describe the table
/// before converting it.
#[derive(Debug)]
pub enum TablePaste {
    /// HTML holding at least one `<table>`; `html` is that table.
    Html { html: String, rows: usize, cols: usize },
    /// A table that is already GFM.
    Gfm { text: String, rows: usize, cols: usize },
    /// Tab-separated values.
    Tsv { text: String, rows: usize, cols: usize },
    /// Comma-separated values (RFC 4180).
    Csv { text: String, rows: usize, cols: usize },
    /// Not table-shaped: paste as plain text.
    NotTable,
}

/// The mathematical content of a [`TablePaste`].
pub enum PasteView {
    Html(Seq<char>, usize, usize),
    Gfm(Seq<char>, usize, usize),
    Tsv(Seq<char>, usize, usize),
    Csv(Seq<char>, usize, usize),
    NotTable,
}

impl View for TablePaste {
    type V = PasteView;

    open spec fn view(&self) -> PasteView {
        match self {
            TablePaste::Html { html, rows, cols } => PasteView::Html(html@, *rows, *cols),
            TablePaste::Gfm { text, rows, cols } => PasteView::Gfm(text@, *rows, *cols),
            TablePaste::Tsv { text, rows, cols } => PasteView::Tsv(text@, *rows, *cols),
            TablePaste::Csv { text, rows, cols } => PasteView::Csv(text@, *rows, *cols),
            TablePaste::NotTable => PasteView::NotTable,
        }
    }
}

/// The shape of a table paste.
pub open spec fn shape_of(p: PasteView) -> Option<(usize, usize)> {
    match p {
        PasteView::Html(_, r, c) => Some((r, c)),
        PasteView::Gfm(_, r, c) => Some((r, c)),
        PasteView::Tsv(_, r, c) => Some((r, c)),
        PasteView::Csv(_, r, c) => Some((r, c)),
        PasteView::NotTable => None,
    }
}

impl TablePaste {
    /// `Some((rows, cols))` for the table kinds, `None` otherwise.
    pub fn shape(&self) -> (r: Option<(usize, usize)>)
        ensures
            r == shape_of(self@),
    {
        match self {
            TablePaste::Html { rows, cols, .. } => Some((*rows, *cols)),
            TablePaste::Gfm { rows, cols, .. } => Some((*rows, *cols)),
            TablePaste::Tsv { rows, cols, .. } => Some((*rows, *cols)),
            TablePaste::Csv { rows, cols, .. } => Some((*rows, *cols)),
            TablePaste::NotTable => None,
        }
    }
}

// ---------------------------------------------------------------------
// Lines and counts
// ---------------------------------------------------------------------

/// The lines of `ls` that are not blank.
pub open spec fn nonblank(ls: Seq<Seq<char>>) -> Seq<Seq<char>>
    decreases ls.len(),
{
    if ls.len() == 0 {
        seq![]
    } else if trim(ls.last()).len() > 0 {
        nonblank(ls.drop_last()).push(ls.last())
    } else {
        nonblank(ls.drop_last())
    }
}

fn nonblank_lines(s: &[char]) -> (r: Vec<Vec<char>>)
    ensures
        views(r@) == nonblank(lines(s@)),
{
    let ls = lines_of(s);
    let ghost lv = views(ls@);
    let mut out: Vec<Vec<char>> = Vec::new();
    let n = ls.len();
    let mut i: usize = 0;
    assert(lv.take(0) =~= Seq::<Seq<char>>::empty());
    while i < n
        invariant
            n == lv.len(),
            i <= n,
            lv == views(ls@),
            views(out@) == nonblank(lv.take(i as int)),
        decreases n - i,
    {
        let l = slice_vec(ls[i].as_slice(), 0, ls[i].len());
        assert(l@ =~= lv[i as int]);
        let ghost before = views(out@);
        assert(lv.take(i + 1).drop_last() =~= lv.take(i as int));
        assert(lv.take(i + 1).last() == l@);
        if !crate::text::is_blank(l.as_slice()) {
            out.push(l);
            assert(views(out@) =~= before.push(lv[i as int]));
        }
        i = i + 1;
    }
    assert(lv.take(n as int) =~= lv);
    out
}

/// How many times `c` occurs in `s`.
pub open spec fn count_char(s: Seq<char>, c: char) -> nat
    decreases s.len(),
{
    if s.len() == 0 {
        0
    } else {
        count_char(s.drop_last(), c) + if s.last() == c {
            1nat
        } else {
            0nat
        }
    }
}

fn count_chars(s: &[char], c: char) -> (n: usize)
    ensures
        n == count_char(s@, c),
{
    let mut n: usize = 0;
    let mut i: usize = 0;
    assert(s@.take(0) =~= Seq::<char>::empty());
    while i < s.len()
        invariant
            i <= s@.len(),
            n == count_char(s@.take(i as int), c),
            n <= i,
        decreases s@.len() - i,
    {
        assert(s@.take(i + 1).drop_last() =~= s@.take(i as int));
        if s[i] == c {
            n = n + 1;
        }
        i = i + 1;
    }
    assert(s@.take(i as int) =~= s@);
    n
}

proof fn lemma_nonblank(ls: Seq<Seq<char>>)
    ensures
        forall|k: int| 0 <= k < nonblank(ls).len() ==> trim(#[trigger] nonblank(ls)[k]).len() > 0,
    decreases ls.len(),
{
    if ls.len() > 0 {
        lemma_nonblank(ls.drop_last());
        let nb = nonblank(ls.drop_last());
        if trim(ls.last()).len() > 0 {
            assert forall|k: int| 0 <= k < nonblank(ls).len() implies trim(#[trigger] nonblank(ls)[k]).len() > 0 by {
                if k < nb.len() {
                    assert(nonblank(ls)[k] == nb[k]);
                }
            }
        }
    }
}

proof fn lemma_count_char_lt(s: Seq<char>, c: char, j: int)
    requires
        0 <= j < s.len(),
        s[j] != c,
    ensures
        count_char(s, c) < s.len(),
    decreases s.len(),
{
    lemma_count_char_le(s.drop_last(), c);
    if j < s.len() - 1 {
        assert(s.drop_last()[j] == s[j]);
        lemma_count_char_lt(s.drop_last(), c, j);
    }
}

proof fn lemma_count_char_le(s: Seq<char>, c: char)
    ensures
        count_char(s, c) <= s.len(),
    decreases s.len(),
{
    if s.len() > 0 {
        lemma_count_char_le(s.drop_last(), c);
    }
}

/// A non-blank line has a character that is not whitespace.
proof fn lemma_not_all_ws(t: Seq<char>) -> (k: int)
    requires
        trim(t).len() > 0,
    ensures
        0 <= k < t.len(),
        !is_ws(t[k]),
{
    crate::text::lemma_lead_ws(t);
    lead_ws(t) as int
}

// ---------------------------------------------------------------------
// GFM, TSV and CSV detection
// ---------------------------------------------------------------------

/// A character of a GFM separator row.
pub open spec fn sep_char(c: char) -> bool {
    c == '|' || c == '-' || c == ':' || c == ' '
}

/// The shape of `text` read as a GFM table: a header line starting with
/// `|` and a separator line of `| - :` and spaces with at least one `-`;
/// the rows are the non-blank lines, the columns the header's pipes
/// minus one (at least one).
pub open spec fn gfm_shape(text: Seq<char>) -> Option<(nat, nat)> {
    let ls = nonblank(lines(text));
    if ls.len() < 2 {
        None
    } else if !starts_with(trim_start(ls[0]), seq!['|']) {
        None
    } else {
        let sep = trim(ls[1]);
        if !sep.contains('-') || !(forall|i: int| 0 <= i < sep.len() ==> sep_char(#[trigger] sep[i])) {
            None
        } else {
            let pipes = count_char(ls[0], '|');
            Some((ls.len(), if pipes >= 2 { (pipes - 1) as nat } else { 1nat }))
        }
    }
}

/// The shape of `text` read as tab-separated values: at least two
/// non-blank lines with the same number (at least two) of fields.
pub open spec fn tsv_shape(text: Seq<char>) -> Option<(nat, nat)> {
    let ls = nonblank(lines(text));
    if ls.len() < 2 {
        None
    } else {
        let cols = count_char(ls[0], '\t') + 1;
        if cols < 2 {
            None
        } else if forall|i: int| 0 <= i < ls.len() ==> count_char(#[trigger] ls[i], '\t') + 1 == cols {
            Some((ls.len(), cols))
        } else {
            None
        }
    }
}

fn all_sep_chars(s: &[char]) -> (b: bool)
    ensures
        b == (s@.contains('-') && forall|i: int| 0 <= i < s@.len() ==> sep_char(#[trigger] s@[i])),
{
    let mut dash = false;
    let mut i: usize = 0;
    while i < s.len()
        invariant
            i <= s@.len(),
            forall|j: int| 0 <= j < i ==> sep_char(#[trigger] s@[j]),
            dash == (exists|j: int| 0 <= j < i && s@[j] == '-'),
        decreases s@.len() - i,
    {
        let c = s[i];
        if !(c == '|' || c == '-' || c == ':' || c == ' ') {
            assert(!sep_char(s@[i as int]));
            return false;
        }
        if c == '-' {
            dash = true;
        }
        i = i + 1;
    }
    proof {
        if dash {
            let j = choose|j: int| 0 <= j < i && s@[j] == '-';
            assert(s@[j] == '-');
        }
    }
    dash
}

fn looks_like_gfm(text: &[char]) -> (r: Option<(usize, usize)>)
    ensures
        match r {
            Some((rows, cols)) => gfm_shape(text@) == Some((rows as nat, cols as nat)),
            None => gfm_shape(text@) is None,
        },
{
    let ls = nonblank_lines(text);
    let ghost lv = views(ls@);
    if ls.len() < 2 {
        return None;
    }
    assert(lv[0] == ls@[0]@ && lv[1] == ls@[1]@);
    let head = crate::text::slice_vec(ls[0].as_slice(), 0, ls[0].len());
    assert(head@ =~= lv[0]);
    let (lo, _hi) = crate::text::trim_bounds(head.as_slice(), 0, head.len());
    assert(head@.subrange(0, head@.len() as int) =~= head@);
    proof {
        assert(trim_start(lv[0]) =~= head@.subrange(lo as int, head@.len() as int));
    }
    if !(lo < head.len() && head[lo] == '|') {
        proof {
            let t = trim_start(lv[0]);
            if starts_with(t, seq!['|']) {
                assert(t.take(1)[0] == '|');
                assert(t[0] == head@[lo as int]);
            }
        }
        return None;
    }
    assert(trim_start(lv[0]).subrange(0, 1) =~= seq!['|']);
    let sep = crate::text::trimmed(ls[1].as_slice());
    if !all_sep_chars(sep.as_slice()) {
        return None;
    }
    let pipes = count_chars(ls[0].as_slice(), '|');
    let cols = if pipes >= 2 { pipes - 1 } else { 1 };
    Some((ls.len(), cols))
}

fn looks_like_tsv(text: &[char]) -> (r: Option<(usize, usize)>)
    ensures
        match r {
            Some((rows, cols)) => tsv_shape(text@) == Some((rows as nat, cols as nat)),
            None => tsv_shape(text@) is None,
        },
{
    let ls = nonblank_lines(text);
    let ghost lv = views(ls@);
    if ls.len() < 2 {
        return None;
    }
    assert(lv[0] == ls@[0]@);
    let tabs = count_chars(ls[0].as_slice(), '\t');
    proof {
        lemma_nonblank(lines(text@));
        let k = lemma_not_all_ws(lv[0]);
        lemma_count_char_lt(lv[0], '\t', k);
    }
    if tabs == 0 {
        return None;
    }
    let mut i: usize = 0;
    while i < ls.len()
        invariant
            lv == views(ls@),
            lv == nonblank(lines(text@)),
            tabs < ls@[0].len(),
            i <= ls@.len(),
            tabs == count_char(lv[0], '\t'),
            forall|j: int| 0 <= j < i ==> count_char(#[trigger] lv[j], '\t') + 1 == tabs + 1,
        decreases ls@.len() - i,
    {
        assert(lv[i as int] == ls@[i as int]@);
        if count_chars(ls[i].as_slice(), '\t') != tabs {
            return None;
        }
        i = i + 1;
    }
    Some((ls.len(), tabs + 1))
}

/// The records the `csv` crate reads from `text` (no header row, every
/// record with the first one's number of fields), or `None` when it
/// reports an error.
pub uninterp spec fn csv_records(text: Seq<char>) -> Option<Seq<Seq<Seq<char>>>>;

pub open spec fn records_view(rows: Seq<Vec<String>>) -> Seq<Seq<Seq<char>>> {
    rows.map_values(|r: Vec<String>| r@.map_values(|s: String| s@))
}

/// Reads `text` with `csv::ReaderBuilder` (no headers, not flexible) and
/// collects every record's fields, or gives `None` on the first error.
#[verifier::external_body]
fn read_csv(text: &str) -> (r: Option<Vec<Vec<String>>>)
    ensures
        match r {
            Some(rows) => csv_records(text@) == Some(records_view(rows@)),
            None => csv_records(text@) is None,
        },
{
    let mut rdr = csv::ReaderBuilder::new().has_headers(false).flexible(false).from_reader(text.as_bytes());
    let rows: Result<Vec<Vec<String>>, csv::Error> = rdr.records().map(
        |r| r.map(|rec| rec.iter().map(String::from).collect()),
    ).collect();
    rows.ok()
}

/// The shape of `text` read as comma-separated values: it has a comma,
/// the `csv` crate reads it, and there are at least two records of the
/// same number (at least two) of fields.
pub open spec fn csv_shape(text: Seq<char>) -> Option<(nat, nat)> {
    if !text.contains(',') {
        None
    } else {
        match csv_records(text) {
            None => None,
            Some(rs) => if rs.len() < 2 || rs[0].len() < 2 {
                None
            } else if forall|i: int| 0 <= i < rs.len() ==> (#[trigger] rs[i]).len() == rs[0].len() {
                Some((rs.len(), rs[0].len()))
            } else {
                None
            },
        }
    }
}

fn looks_like_csv(text: &str) -> (r: Option<(usize, usize)>)
    ensures
        match r {
            Some((rows, cols)) => csv_shape(text@) == Some((rows as nat, cols as nat)),
            None => csv_shape(text@) is None,
        },
{
    let v = chars_of(text);
    let mut k: usize = 0;
    while k < v.len() && v[k] != ','
        invariant
            k <= v@.len(),
            v@ == text@,
            forall|j: int| 0 <= j < k ==> v@[j] != ',',
        decreases v@.len() - k,
    {
        k = k + 1;
    }
    if k == v.len() {
        assert(!text@.contains(','));
        return None;
    }
    assert(text@[k as int] == ',');
    let recs = match read_csv(text) {
        Some(r) => r,
        None => {
            return None;
        },
    };
    let ghost rv = records_view(recs@);
    if recs.len() < 2 {
        return None;
    }
    let cols = recs[0].len();
    assert(rv[0].len() == cols);
    if cols < 2 {
        return None;
    }
    let mut i: usize = 0;
    while i < recs.len()
        invariant
            rv == records_view(recs@),
            csv_records(text@) == Some(rv),
            text@.contains(','),
            rv.len() >= 2,
            i <= recs@.len(),
            cols == rv[0].len(),
            cols >= 2,
            forall|j: int| 0 <= j < i ==> (#[trigger] rv[j]).len() == cols,
        decreases recs@.len() - i,
    {
        assert(rv[i as int].len() == recs@[i as int]@.len());
        if recs[i].len() != cols {
            return None;
        }
        i = i + 1;
    }
    Some((recs.len(), cols))
}

// ---------------------------------------------------------------------
// Entities and inline tags
// ---------------------------------------------------------------------

/// The few entities a clipboard table uses, decoded in this order:
/// `&nbsp;`, `&amp;`, `&lt;`, `&gt;`, `&quot;`, `&#39;`.
pub open spec fn decode_entities(s: Seq<char>) -> Seq<char> {
    let a = replace_all(s, "&nbsp;"@, " "@);
    let b = replace_all(a, "&amp;"@, "&"@);
    let c = replace_all(b, "&lt;"@, "<"@);
    let d = replace_all(c, "&gt;"@, ">"@);
    let e = replace_all(d, "&quot;"@, "\""@);
    replace_all(e, "&#39;"@, "'"@)
}

fn decode_entities_exec(s: &[char]) -> (r: Vec<char>)
    ensures
        r@ == decode_entities(s@),
{
    proof {
        reveal_strlit("&nbsp;");
        reveal_strlit("&amp;");
        reveal_strlit("&lt;");
        reveal_strlit("&gt;");
        reveal_strlit("&quot;");
        reveal_strlit("&#39;");
    }
    let a = crate::text::replace_all_chars(s, "&nbsp;", " ");
    let b = crate::text::replace_all_chars(a.as_slice(), "&amp;", "&");
    let c = crate::text::replace_all_chars(b.as_slice(), "&lt;", "<");
    let d = crate::text::replace_all_chars(c.as_slice(), "&gt;", ">");
    let e = crate::text::replace_all_chars(d.as_slice(), "&quot;", "\"");
    crate::text::replace_all_chars(e.as_slice(), "&#39;", "'")
}

/// No character of `s` is `c`.
pub open spec fn free_of(s: Seq<char>, c: char) -> bool {
    forall|i: int| 0 <= i < s.len() ==> s[i] != c
}

proof fn lemma_free_concat(a: Seq<char>, b: Seq<char>, c: char)
    requires
        free_of(a, c),
        free_of(b, c),
    ensures
        free_of(a + b, c),
{
    assert forall|i: int| 0 <= i < (a + b).len() implies (a + b)[i] != c by {
        if i >= a.len() {
            assert((a + b)[i] == b[i - a.len()]);
        }
    }
}

/// Text without the pattern's first character is left as it is.
proof fn lemma_replace_free(s: Seq<char>, pat: Seq<char>, rep: Seq<char>)
    requires
        pat.len() > 0,
        free_of(s, pat[0]),
    ensures
        replace_all(s, pat, rep) == s,
    decreases s.len(),
{
    if s.len() > 0 {
        if pat.len() <= s.len() {
            assert(s.take(pat.len() as int)[0] == s[0]);
        }
        let t = s.drop_first();
        assert(free_of(t, pat[0])) by {
            assert forall|i: int| 0 <= i < t.len() implies t[i] != pat[0] by {
                assert(t[i] == s[i + 1]);
            }
        }
        lemma_replace_free(t, pat, rep);
        assert(seq![s[0]] + t =~= s);
    }
}

/// A prefix without the pattern's first character is passed over.
proof fn lemma_replace_prefix(a: Seq<char>, t: Seq<char>, pat: Seq<char>, rep: Seq<char>)
    requires
        pat.len() > 0,
        free_of(a, pat[0]),
    ensures
        replace_all(a + t, pat, rep) == a + replace_all(t, pat, rep),
    decreases a.len(),
{
    if a.len() > 0 {
        let s = a + t;
        assert(s[0] == a[0]);
        if pat.len() <= s.len() {
            assert(s.take(pat.len() as int)[0] == s[0]);
        }
        let a2 = a.drop_first();
        assert(free_of(a2, pat[0])) by {
            assert forall|i: int| 0 <= i < a2.len() implies a2[i] != pat[0] by {
                assert(a2[i] == a[i + 1]);
            }
        }
        assert(s.drop_first() =~= a2 + t);
        lemma_replace_prefix(a2, t, pat, rep);
        assert(seq![a[0]] + (a2 + replace_all(t, pat, rep)) =~= a + replace_all(t, pat, rep));
    } else {
        assert(a + t =~= t);
    }
}

/// A text that does not start with the pattern and holds its first
/// character only at its own start is left as it is.
proof fn lemma_replace_head_kept(s: Seq<char>, pat: Seq<char>, rep: Seq<char>)
    requires
        pat.len() > 0,
        s.len() > 0,
        !starts_with(s, pat),
        free_of(s.drop_first(), pat[0]),
    ensures
        replace_all(s, pat, rep) == s,
{
    lemma_replace_free(s.drop_first(), pat, rep);
    assert(seq![s[0]] + s.drop_first() =~= s);
}

/// The pattern followed by text without its first character becomes
/// the replacement followed by that text.
proof fn lemma_replace_head(pat: Seq<char>, t: Seq<char>, rep: Seq<char>)
    requires
        pat.len() > 0,
        free_of(t, pat[0]),
    ensures
        replace_all(pat + t, pat, rep) == rep + t,
{
    let s = pat + t;
    assert(s.take(pat.len() as int) =~= pat);
    assert(s.skip(pat.len() as int) =~= t);
    lemma_replace_free(t, pat, rep);
}

/// An entity that is not the pattern (they differ at their second
/// character) between plain texts is left as it is.
proof fn lemma_replace_other_entity(a: Seq<char>, e: Seq<char>, b: Seq<char>, pat: Seq<char>, rep: Seq<char>)
    requires
        free_of(a, '&'),
        free_of(b, '&'),
        e.len() >= 2,
        e[0] == '&',
        free_of(e.drop_first(), '&'),
        pat.len() >= 2,
        pat[0] == '&',
        e[1] != pat[1],
    ensures
        replace_all(a + e + b, pat, rep) == a + e + b,
{
    lemma_replace_prefix(a, e + b, pat, rep);
    let s = e + b;
    if pat.len() <= s.len() {
        assert(s.take(pat.len() as int)[1] == e[1]);
    }
    assert(s.drop_first() =~= e.drop_first() + b);
    lemma_free_concat(e.drop_first(), b, '&');
    lemma_replace_head_kept(s, pat, rep);
    assert(a + (e + b) =~= a + e + b);
}

/// The pattern's own entity between plain texts is replaced.
proof fn lemma_replace_own_entity(a: Seq<char>, e: Seq<char>, b: Seq<char>, rep: Seq<char>)
    requires
        free_of(a, '&'),
        free_of(b, '&'),
        e.len() >= 2,
        e[0] == '&',
        free_of(e.drop_first(), '&'),
    ensures
        replace_all(a + e + b, e, rep) == a + rep + b,
{
    lemma_replace_prefix(a, e + b, e, rep);
    lemma_replace_head(e, b, rep);
    assert(a + (e + b) =~= a + e + b);
    assert(a + (rep + b) =~= a + rep + b);
}

/// A lone `&` before text with no `&` and no `;` is left as it is by an
/// entity pattern (which ends with `;`).
proof fn lemma_replace_lone_amp(a: Seq<char>, b: Seq<char>, pat: Seq<char>, rep: Seq<char>)
    requires
        free_of(a, '&'),
        free_of(b, '&'),
        free_of(b, ';'),
        pat.len() >= 2,
        pat[0] == '&',
        pat[pat.len() - 1] == ';',
    ensures
        replace_all(a + seq!['&'] + b, pat, rep) == a + seq!['&'] + b,
{
    let s = seq!['&'] + b;
    lemma_replace_prefix(a, s, pat, rep);
    if starts_with(s, pat) {
        let k = pat.len() - 1;
        assert(s.take(pat.len() as int)[k] == s[k]);
        assert(s[k] == b[k - 1]);
    }
    assert(s.drop_first() =~= b);
    lemma_replace_head_kept(s, pat, rep);
    assert(a + (seq!['&'] + b) =~= a + seq!['&'] + b);
}

/// Entity decoding on text around one entity, the text holding no `&`
/// and no `;`: plain text is kept, and `&nbsp;`, `&amp;`, `&lt;`,
/// `&gt;`, `&quot;` and `&#39;` become a space, `&`, `<`, `>`, `"` and
/// `'`, with the text on both sides kept as it is.
pub proof fn lemma_decode_entities(a: Seq<char>, b: Seq<char>)
    requires
        free_of(a, '&'),
        free_of(a, ';'),
        free_of(b, '&'),
        free_of(b, ';'),
    ensures
        decode_entities(a) == a,
        decode_entities(a + "&nbsp;"@ + b) == a + " "@ + b,
        decode_entities(a + "&amp;"@ + b) == a + "&"@ + b,
        decode_entities(a + "&lt;"@ + b) == a + "<"@ + b,
        decode_entities(a + "&gt;"@ + b) == a + ">"@ + b,
        decode_entities(a + "&quot;"@ + b) == a + "\""@ + b,
        decode_entities(a + "&#39;"@ + b) == a + "'"@ + b,
{
    reveal_strlit("&nbsp;");
    reveal_strlit("&amp;");
    reveal_strlit("&lt;");
    reveal_strlit("&gt;");
    reveal_strlit("&quot;");
    reveal_strlit("&#39;");
    reveal_strlit(" ");
    reveal_strlit("&");
    reveal_strlit("<");
    reveal_strlit(">");
    reveal_strlit("\"");
    reveal_strlit("'");
    let ents = seq!["&nbsp;"@, "&amp;"@, "&lt;"@, "&gt;"@, "&quot;"@, "&#39;"@];
    let reps = seq![" "@, "&"@, "<"@, ">"@, "\""@, "'"@];
    assert forall|k: int| 0 <= k < 6 implies {
        &&& (#[trigger] ents[k]).len() >= 2
        &&& ents[k][0] == '&'
        &&& ents[k][ents[k].len() - 1] == ';'
        &&& free_of(ents[k].drop_first(), '&')
    } by {
        let e = ents[k];
        assert forall|i: int| 0 <= i < e.drop_first().len() implies e.drop_first()[i] != '&' by {
            assert(e.drop_first()[i] == e[i + 1]);
        }
    }
    lemma_decode_plain(a);
    lemma_decode_at(a, b, ents, reps, 0);
    lemma_decode_at(a, b, ents, reps, 1);
    lemma_decode_at(a, b, ents, reps, 2);
    lemma_decode_at(a, b, ents, reps, 3);
    lemma_decode_at(a, b, ents, reps, 4);
    lemma_decode_at(a, b, ents, reps, 5);
}

proof fn lemma_decode_plain(a: Seq<char>)
    requires
        free_of(a, '&'),
    ensures
        decode_entities(a) == a,
{
    reveal_strlit("&nbsp;");
    reveal_strlit("&amp;");
    reveal_strlit("&lt;");
    reveal_strlit("&gt;");
    reveal_strlit("&quot;");
    reveal_strlit("&#39;");
    lemma_replace_free(a, "&nbsp;"@, " "@);
    lemma_replace_free(a, "&amp;"@, "&"@);
    lemma_replace_free(a, "&lt;"@, "<"@);
    lemma_replace_free(a, "&gt;"@, ">"@);
    lemma_replace_free(a, "&quot;"@, "\""@);
    lemma_replace_free(a, "&#39;"@, "'"@);
}

/// One decoding step on `a + x + b`, where `x` is an entity or a single
/// replacement character: the step's own entity is replaced, anything
/// else is kept.
proof fn lemma_decode_step(a: Seq<char>, x: Seq<char>, b: Seq<char>, pat: Seq<char>, rep: Seq<char>)
    requires
        free_of(a, '&'),
        free_of(b, '&'),
        free_of(b, ';'),
        pat.len() >= 2,
        pat[0] == '&',
        pat[pat.len() - 1] == ';',
        free_of(pat.drop_first(), '&'),
        (x.len() >= 2 && x[0] == '&' && free_of(x.drop_first(), '&') && (x == pat || x[1] != pat[1]))
            || (x.len() == 1),
    ensures
        x == pat ==> replace_all(a + x + b, pat, rep) == a + rep + b,
        x != pat ==> replace_all(a + x + b, pat, rep) == a + x + b,
{
    if x.len() == 1 {
        if x[0] == '&' {
            assert(x =~= seq!['&']);
            lemma_replace_lone_amp(a, b, pat, rep);
        } else {
            assert(free_of(x, '&'));
            lemma_free_concat(a, x, '&');
            lemma_free_concat(a + x, b, '&');
            lemma_replace_free(a + x + b, pat, rep);
        }
    } else if x == pat {
        lemma_replace_own_entity(a, x, b, rep);
    } else {
        lemma_replace_other_entity(a, x, b, pat, rep);
    }
}

proof fn lemma_decode_at(a: Seq<char>, b: Seq<char>, ents: Seq<Seq<char>>, reps: Seq<Seq<char>>, k: int)
    requires
        free_of(a, '&'),
        free_of(b, '&'),
        free_of(b, ';'),
        ents == seq!["&nbsp;"@, "&amp;"@, "&lt;"@, "&gt;"@, "&quot;"@, "&#39;"@],
        reps == seq![" "@, "&"@, "<"@, ">"@, "\""@, "'"@],
        forall|j: int| 0 <= j < 6 ==> {
            &&& (#[trigger] ents[j]).len() >= 2
            &&& ents[j][0] == '&'
            &&& ents[j][ents[j].len() - 1] == ';'
            &&& free_of(ents[j].drop_first(), '&')
        },
        0 <= k < 6,
    ensures
        decode_entities(a + ents[k] + b) == a + reps[k] + b,
{
    reveal_strlit("&nbsp;");
    reveal_strlit("&amp;");
    reveal_strlit("&lt;");
    reveal_strlit("&gt;");
    reveal_strlit("&quot;");
    reveal_strlit("&#39;");
    reveal_strlit(" ");
    reveal_strlit("&");
    reveal_strlit("<");
    reveal_strlit(">");
    reveal_strlit("\"");
    reveal_strlit("'");
    let xs = Seq::new(7, |j: int| if j <= k { ents[k] } else { reps[k] });
    assert forall|j: int| 0 <= j < 6 implies (#[trigger] reps[j]).len() == 1 by {}
    assert forall|j: int, i: int| 0 <= j < 6 && 0 <= i < 6 && j != i implies #[trigger] ents[j][1]
        != #[trigger] ents[i][1] by {}
    assert forall|j: int| 0 <= j < 6 implies replace_all(a + #[trigger] xs[j] + b, ents[j], reps[j]) == a
        + xs[j + 1] + b by {
        if j <= k {
            assert(ents[k] == ents[j] || ents[k][1] != ents[j][1]);
            if j == k {
                assert(ents[k] == ents[j]);
            } else {
                assert(ents[k][1] != ents[j][1]);
                assert(ents[k] != ents[j]);
            }
        } else {
            assert(reps[k] != ents[j]);
        }
        lemma_decode_step(a, xs[j], b, ents[j], reps[j]);
    }
    let s1 = replace_all(a + xs[0] + b, ents[0], reps[0]);
    let s2 = replace_all(s1, ents[1], reps[1]);
    let s3 = replace_all(s2, ents[2], reps[2]);
    let s4 = replace_all(s3, ents[3], reps[3]);
    let s5 = replace_all(s4, ents[4], reps[4]);
    let s6 = replace_all(s5, ents[5], reps[5]);
    assert(s1 == a + xs[1] + b);
    assert(s2 == a + xs[2] + b);
    assert(s3 == a + xs[3] + b);
    assert(s4 == a + xs[4] + b);
    assert(s5 == a + xs[5] + b);
    assert(s6 == a + xs[6] + b);
    assert(decode_entities(a + ents[k] + b) == s6);
}

/// The text of `s` outside `<...>` tags: a `<` starts a tag, a `>` ends
/// it, and both are dropped.
pub open spec fn outside_tags(s: Seq<char>, in_tag: bool) -> Seq<char>
    decreases s.len(),
{
    if s.len() == 0 {
        seq![]
    } else if s[0] == '<' {
        outside_tags(s.drop_first(), true)
    } else if s[0] == '>' {
        outside_tags(s.drop_first(), false)
    } else if !in_tag {
        seq![s[0]] + outside_tags(s.drop_first(), in_tag)
    } else {
        outside_tags(s.drop_first(), in_tag)
    }
}

/// Inline HTML reduced to its text, entities decoded.
pub open spec fn strip_inline_tags(s: Seq<char>) -> Seq<char> {
    decode_entities(outside_tags(s, false))
}

fn strip_inline_tags_exec(s: &[char]) -> (r: Vec<char>)
    ensures
        r@ == strip_inline_tags(s@),
{
    let mut out: Vec<char> = Vec::new();
    let mut in_tag = false;
    let mut i: usize = 0;
    assert(s@.skip(0) =~= s@);
    while i < s.len()
        invariant
            i <= s@.len(),
            outside_tags(s@, false) == out@ + outside_tags(s@.skip(i as int), in_tag),
        decreases s@.len() - i,
    {
        let ghost rest = s@.skip(i as int);
        let ghost before = out@;
        assert(rest[0] == s@[i as int]);
        assert(rest.drop_first() =~= s@.skip(i + 1));
        let c = s[i];
        if c == '<' {
            in_tag = true;
        } else if c == '>' {
            in_tag = false;
        } else if !in_tag {
            out.push(c);
            assert(before + (seq![c] + outside_tags(rest.drop_first(), false)) =~= out@ + outside_tags(s@.skip(i + 1), false));
        }
        i = i + 1;
    }
    assert(s@.skip(i as int) =~= Seq::<char>::empty());
    assert(out@ + Seq::<char>::empty() =~= out@);
    decode_entities_exec(out.as_slice())
}

/// Number of leading `c`s of `s`.
pub open spec fn lead_count(s: Seq<char>, c: char) -> nat
    decreases s.len(),
{
    if s.len() > 0 && s[0] == c {
        1 + lead_count(s.drop_first(), c)
    } else {
        0
    }
}

/// Number of trailing `c`s of `s`.
pub open spec fn trail_count(s: Seq<char>, c: char) -> nat
    decreases s.len(),
{
    if s.len() > 0 && s.last() == c {
        1 + trail_count(s.drop_last(), c)
    } else {
        0
    }
}

pub open spec fn is_ascii_alnum_char(c: char) -> bool {
    ('a' <= c && c <= 'z') || ('A' <= c && c <= 'Z') || ('0' <= c && c <= '9')
}

/// Length of the run of ASCII letters and digits that starts `s`.
pub open spec fn alnum_run(s: Seq<char>) -> nat
    decreases s.len(),
{
    if s.len() > 0 && is_ascii_alnum_char(s[0]) {
        1 + alnum_run(s.drop_first())
    } else {
        0
    }
}

/// The name of a (lower-cased) tag such as `<a href=..>` or `</b>`, and
/// whether it is a closing tag: the `<`s, trailing `>`s and `/`s around
/// it dropped, then its leading letters and digits.
pub open spec fn tag_name(raw: Seq<char>) -> (Seq<char>, bool) {
    let a = raw.skip(lead_count(raw, '<') as int);
    let b = a.take(a.len() - trail_count(a, '>'));
    let inner = b.skip(lead_count(b, '/') as int);
    (inner.take(alnum_run(inner) as int), starts_with(raw, "</"@))
}

proof fn lemma_lead_count(s: Seq<char>, c: char, k: int)
    requires
        0 <= k <= s.len(),
        forall|j: int| 0 <= j < k ==> s[j] == c,
        k == s.len() || s[k] != c,
    ensures
        lead_count(s, c) == k,
    decreases s.len(),
{
    if k > 0 {
        assert forall|j: int| 0 <= j < k - 1 implies s.drop_first()[j] == c by {
            assert(s.drop_first()[j] == s[j + 1]);
        }
        if k < s.len() {
            assert(s.drop_first()[k - 1] == s[k]);
        }
        lemma_lead_count(s.drop_first(), c, k - 1);
    }
}

proof fn lemma_trail_count(s: Seq<char>, c: char, k: int)
    requires
        0 <= k <= s.len(),
        forall|j: int| s.len() - k <= j < s.len() ==> s[j] == c,
        k == s.len() || s[s.len() - k - 1] != c,
    ensures
        trail_count(s, c) == k,
    decreases s.len(),
{
    if k > 0 {
        assert forall|j: int| s.len() - 1 - (k - 1) <= j < s.len() - 1 implies s.drop_last()[j] == c by {
            assert(s.drop_last()[j] == s[j]);
        }
        if k < s.len() {
            assert(s.drop_last()[s.len() - 1 - (k - 1) - 1] == s[s.len() - k - 1]);
        }
        lemma_trail_count(s.drop_last(), c, k - 1);
    }
}

proof fn lemma_alnum_run(s: Seq<char>, k: int)
    requires
        0 <= k <= s.len(),
        forall|j: int| 0 <= j < k ==> is_ascii_alnum_char(s[j]),
        k == s.len() || !is_ascii_alnum_char(s[k]),
    ensures
        alnum_run(s) == k,
    decreases s.len(),
{
    if k > 0 {
        assert forall|j: int| 0 <= j < k - 1 implies is_ascii_alnum_char(s.drop_first()[j]) by {
            assert(s.drop_first()[j] == s[j + 1]);
        }
        if k < s.len() {
            assert(s.drop_first()[k - 1] == s[k]);
        }
        lemma_alnum_run(s.drop_first(), k - 1);
    }
}

#[verifier::spinoff_prover]
#[verifier::rlimit(50)]
fn tag_name_exec(raw: &[char]) -> (r: (Vec<char>, bool))
    ensures
        r.0@ == tag_name(raw@).0,
        r.1 == tag_name(raw@).1,
{
    let n = raw.len();
    let mut a: usize = 0;
    while a < n && raw[a] == '<'
        invariant
            a <= n == raw@.len(),
            forall|j: int| 0 <= j < a ==> raw@[j] == '<',
        decreases n - a,
    {
        a = a + 1;
    }
    proof {
        lemma_lead_count(raw@, '<', a as int);
    }
    let ghost sa = raw@.skip(a as int);
    let mut b = n;
    while b > a && raw[b - 1] == '>'
        invariant
            a <= b <= n == raw@.len(),
            forall|j: int| b <= j < n ==> raw@[j] == '>',
        decreases b - a,
    {
        b = b - 1;
    }
    proof {
        assert forall|j: int| sa.len() - (n - b) <= j < sa.len() implies sa[j] == '>' by {
            assert(sa[j] == raw@[j + a]);
        }
        if b > a {
            assert(sa[sa.len() - (n - b) - 1] == raw@[b - 1]);
        }
        lemma_trail_count(sa, '>', n - b);
    }
    let ghost sb = sa.take(sa.len() - trail_count(sa, '>'));
    assert(sb =~= raw@.subrange(a as int, b as int));
    let mut c = a;
    while c < b && raw[c] == '/'
        invariant
            a <= c <= b <= n == raw@.len(),
            forall|j: int| a <= j < c ==> raw@[j] == '/',
        decreases b - c,
    {
        c = c + 1;
    }
    proof {
        assert forall|j: int| 0 <= j < c - a implies sb[j] == '/' by {
            assert(sb[j] == raw@[j + a]);
        }
        if c < b {
            assert(sb[c - a] == raw@[c as int]);
        }
        lemma_lead_count(sb, '/', c - a);
    }
    let ghost inner = sb.skip(lead_count(sb, '/') as int);
    assert(inner =~= raw@.subrange(c as int, b as int));
    let mut d = c;
    while d < b && (('a' <= raw[d] && raw[d] <= 'z') || ('A' <= raw[d] && raw[d] <= 'Z') || ('0' <= raw[d] && raw[d] <= '9'))
        invariant
            c <= d <= b <= n == raw@.len(),
            forall|j: int| c <= j < d ==> is_ascii_alnum_char(raw@[j]),
        decreases b - d,
    {
        d = d + 1;
    }
    proof {
        assert forall|j: int| 0 <= j < d - c implies is_ascii_alnum_char(inner[j]) by {
            assert(inner[j] == raw@[j + c]);
        }
        if d < b {
            assert(inner[d - c] == raw@[d as int]);
        }
        lemma_alnum_run(inner, d - c);
    }
    let name = slice_vec(raw, c, d);
    assert(name@ =~= inner.take(alnum_run(inner) as int));
    let close = n >= 2 && raw[0] == '<' && raw[1] == '/';
    proof {
        reveal_strlit("</");
        if close {
            assert(raw@.subrange(0, 2) =~= "</"@);
        }
        if starts_with(raw@, "</"@) {
            assert(raw@.subrange(0, 2)[0] == raw@[0]);
            assert(raw@.subrange(0, 2)[1] == raw@[1]);
        }
    }
    (name, close)
}

// ---------------------------------------------------------------------
// Offsets across a lower-cased copy
// ---------------------------------------------------------------------
//
// The HTML path searches a lower-cased copy of the text and cuts the
// original at the byte offsets it found. Lower-casing keeps byte offsets
// for almost all text; where it does not, an offset may fall inside a
// character of the original, which `str` slicing refuses (it panics).
// The functions below give up at that point instead.

/// The characters of `h` between the byte offsets that the character
/// indices `a` and `b` of `l` have, or `None` when those offsets are not
/// in order on character boundaries of `h`.
pub open spec fn cross_slice(l: Seq<char>, a: int, b: int, h: Seq<char>) -> Option<Seq<char>> {
    let x = boff(l, a) as int;
    let y = boff(l, b) as int;
    if is_boundary(h, x) && is_boundary(h, y) && char_at_byte(h, x) <= char_at_byte(h, y) {
        Some(h.subrange(char_at_byte(h, x), char_at_byte(h, y)))
    } else {
        None
    }
}

fn boff_wide(s: &[char], k: usize) -> (b: u128)
    requires
        k <= s@.len(),
    ensures
        b == boff(s@, k as int),
        b <= 4 * k,
{
    let mut b: u128 = 0;
    let mut i: usize = 0;
    assert(s@.take(0) =~= Seq::<char>::empty());
    while i < k
        invariant
            i <= k <= s@.len(),
            b == boff(s@, i as int),
            b <= 4 * i,
        decreases k - i,
    {
        proof {
            lemma_boff_step(s@, i as int);
        }
        b = b + char_width(s[i]) as u128;
        i = i + 1;
    }
    b
}

fn index_at_byte(s: &[char], b: u128) -> (r: Option<usize>)
    ensures
        r matches Some(k) ==> k <= s@.len() && boff(s@, k as int) == b && char_at_byte(s@, b as int) == k,
        r is Some <==> is_boundary(s@, b as int),
{
    let mut acc: u128 = 0;
    let mut i: usize = 0;
    assert(s@.take(0) =~= Seq::<char>::empty());
    while i < s.len() && acc < b
        invariant
            i <= s@.len(),
            acc == boff(s@, i as int),
            acc <= b,
            acc <= 4 * i,
            forall|j: int| 0 <= j < i ==> boff(s@, j) < b,
        decreases s@.len() - i,
    {
        proof {
            lemma_boff_step(s@, i as int);
        }
        let w = char_width(s[i]) as u128;
        if w > b - acc {
            proof {
                assert forall|j: int| 0 <= j <= s@.len() implies boff(s@, j) != b by {
                    if j > i {
                        lemma_boff_mono(s@, i + 1, j);
                    }
                }
            }
            return None;
        }
        acc = acc + w;
        i = i + 1;
    }
    if acc == b {
        proof {
            lemma_char_at_byte(s@, i as int);
        }
        Some(i)
    } else {
        proof {
            assert forall|j: int| 0 <= j <= s@.len() implies boff(s@, j) != b by {
                if j > i {
                    lemma_boff_mono(s@, i as int, j);
                }
            }
        }
        None
    }
}

fn cross_slice_exec(l: &[char], a: usize, b: usize, h: &[char]) -> (r: Option<Vec<char>>)
    requires
        a <= b <= l@.len(),
    ensures
        match r {
            Some(v) => cross_slice(l@, a as int, b as int, h@) == Some(v@),
            None => cross_slice(l@, a as int, b as int, h@) is None,
        },
{
    let x = boff_wide(l, a);
    let y = boff_wide(l, b);
    match (index_at_byte(h, x), index_at_byte(h, y)) {
        (Some(i), Some(j)) => {
            if i <= j {
                Some(slice_vec(h, i, j))
            } else {
                None
            }
        },
        _ => None,
    }
}

fn lower_chars(s: &[char]) -> (r: Vec<char>)
    ensures
        r@ == lowercase(s@),
{
    let t = string_of(s);
    let l = to_lowercase(t.as_str());
    chars_of(l.as_str())
}

pub proof fn lemma_find_from(s: Seq<char>, p: Seq<char>, i: int)
    ensures
        find_from(s, p, i) == -1 || (i <= find_from(s, p, i) && occurs_at(s, p, find_from(s, p, i))),
    decreases s.len() + 1 - i,
{
    if !(i < 0 || i + p.len() > s.len()) && !occurs_at(s, p, i) {
        lemma_find_from(s, p, i + 1);
    }
}

/// How many times `p` occurs in `s`, counted left to right without
/// overlap.
pub open spec fn count_occ(s: Seq<char>, p: Seq<char>) -> nat
    decreases s.len(),
{
    if p.len() == 0 || s.len() < p.len() {
        0
    } else if starts_with(s, p) {
        1 + count_occ(s.skip(p.len() as int), p)
    } else {
        count_occ(s.drop_first(), p)
    }
}

proof fn lemma_count_occ_step(s: Seq<char>, p: Seq<char>, i: int)
    requires
        0 <= i <= s.len(),
        p.len() > 0,
    ensures
        count_occ(s.skip(i), p) == if find_from(s, p, i) < 0 {
            0
        } else {
            1 + count_occ(s.skip(find_from(s, p, i) + p.len()), p)
        },
    decreases s.len() - i,
{
    let t = s.skip(i);
    if i + p.len() > s.len() {
    } else if occurs_at(s, p, i) {
        assert(t.take(p.len() as int) =~= s.subrange(i, i + p.len()));
        assert(t.skip(p.len() as int) =~= s.skip(i + p.len()));
    } else {
        assert(t.take(p.len() as int) =~= s.subrange(i, i + p.len()));
        assert(t.drop_first() =~= s.skip(i + 1));
        lemma_count_occ_step(s, p, i + 1);
    }
}

fn count_occurrences(s: &[char], p: &str) -> (n: usize)
    requires
        p@.len() > 0,
    ensures
        n == count_occ(s@, p@),
{
    let pv = chars_of(p);
    let mut n: usize = 0;
    let mut i: usize = 0;
    assert(s@.skip(0) =~= s@);
    while i <= s.len()
        invariant
            pv@ == p@,
            p@.len() > 0,
            i <= s@.len() + p@.len(),
            n <= i,
            i <= s@.len() ==> count_occ(s@, p@) == n + count_occ(s@.skip(i as int), p@),
            i > s@.len() ==> count_occ(s@, p@) == n,
        decreases s@.len() + 1 - i,
    {
        proof {
            lemma_count_occ_step(s@, p@, i as int);
        }
        match find_seq_from(s, pv.as_slice(), i) {
            Some(k) => {
                n = n + 1;
                i = k + pv.len();
                if i == s.len() {
                    assert(s@.skip(i as int) =~= Seq::<char>::empty());
                    return n;
                }
            },
            None => {
                return n;
            },
        }
    }
    n
}

// ---------------------------------------------------------------------
// HTML table detection
// ---------------------------------------------------------------------

pub open spec fn max_nat(a: nat, b: nat) -> nat {
    if a >= b {
        a
    } else {
        b
    }
}

/// The first `<table>...</table>` of `h` (searched case-insensitively),
/// with its number of `<tr` tags and the larger of the numbers of `<td`
/// and `<th` tags of its first row; `None` without a table, without a
/// row, or without a cell in the first row.
pub open spec fn html_table_shape(h: Seq<char>) -> Option<(Seq<char>, nat, nat)> {
    let l = lowercase(h);
    let s = find_from(l, "<table"@, 0);
    let e = find_from(l, "</table>"@, s);
    let t = find_from(l, "<tr"@, s);
    let te = find_from(l, "</tr>"@, t);
    if s < 0 || e < 0 {
        None
    } else {
        match cross_slice(l, s, e + 8, h) {
            None => None,
            Some(block) => {
                let rows = count_occ(lowercase(block), "<tr"@);
                if rows < 1 || t < 0 || te < 0 {
                    None
                } else {
                    match cross_slice(l, t, te, h) {
                        None => None,
                        Some(tr) => {
                            let lt = lowercase(tr);
                            let cols = max_nat(count_occ(lt, "<td"@), count_occ(lt, "<th"@));
                            if cols < 1 {
                                None
                            } else {
                                Some((block, rows, cols))
                            }
                        },
                    }
                }
            },
        }
    }
}

fn extract_html_table(html: &str) -> (r: Option<(String, usize, usize)>)
    ensures
        match r {
            Some((b, rows, cols)) => html_table_shape(html@) == Some((b@, rows as nat, cols as nat)),
            None => html_table_shape(html@) is None,
        },
{
    proof {
        reveal_strlit("<table");
        reveal_strlit("</table>");
        reveal_strlit("<tr");
        reveal_strlit("</tr>");
        reveal_strlit("<td");
        reveal_strlit("<th");
    }
    let h = chars_of(html);
    let l = lower_chars(h.as_slice());
    let s = match find_seq_from(l.as_slice(), chars_of("<table").as_slice(), 0) {
        Some(k) => k,
        None => {
            return None;
        },
    };
    let e = match find_seq_from(l.as_slice(), chars_of("</table>").as_slice(), s) {
        Some(k) => k,
        None => {
            return None;
        },
    };
    let block = match cross_slice_exec(l.as_slice(), s, e + 8, h.as_slice()) {
        Some(b) => b,
        None => {
            return None;
        },
    };
    let lb = lower_chars(block.as_slice());
    let rows = count_occurrences(lb.as_slice(), "<tr");
    if rows < 1 {
        return None;
    }
    let t = match find_seq_from(l.as_slice(), chars_of("<tr").as_slice(), s) {
        Some(k) => k,
        None => {
            return None;
        },
    };
    let te = match find_seq_from(l.as_slice(), chars_of("</tr>").as_slice(), t) {
        Some(k) => k,
        None => {
            return None;
        },
    };
    let tr = match cross_slice_exec(l.as_slice(), t, te, h.as_slice()) {
        Some(v) => v,
        None => {
            return None;
        },
    };
    let lt = lower_chars(tr.as_slice());
    let td = count_occurrences(lt.as_slice(), "<td");
    let th = count_occurrences(lt.as_slice(), "<th");
    let cols = if td >= th { td } else { th };
    if cols < 1 {
        return None;
    }
    Some((string_of(block.as_slice()), rows, cols))
}

// ---------------------------------------------------------------------
// HTML cells to markdown
// ---------------------------------------------------------------------

/// The value of attribute `name` in the tag `tag`, written as
/// `name="..."` or else as `name='...'` (name matched case-insensitively).
pub open spec fn attr_value(tag: Seq<char>, name: Seq<char>) -> Option<Seq<char>> {
    let l = lowercase(tag);
    let n1 = name + "=\""@;
    let p1 = find_from(l, n1, 0);
    let n2 = name + "='"@;
    let p2 = find_from(l, n2, 0);
    if p1 >= 0 {
        let st = p1 + n1.len();
        let e = find_char(l.skip(st), '"');
        if st + e >= l.len() {
            None
        } else {
            cross_slice(l, st, st + e, tag)
        }
    } else if p2 >= 0 {
        let st = p2 + n2.len();
        let e = find_char(l.skip(st), '\'');
        if st + e >= l.len() {
            None
        } else {
            cross_slice(l, st, st + e, tag)
        }
    } else {
        None
    }
}

/// What an inline tag of a cell is written as: `<br>` stays, bold and
/// italic become `**` and `*`, code becomes a backtick; other tags are
/// dropped (`<a>` is handled apart).
pub open spec fn tag_markdown(name: Seq<char>) -> Seq<char> {
    if name == "br"@ {
        "<br>"@
    } else if name == "b"@ || name == "strong"@ {
        "**"@
    } else if name == "i"@ || name == "em"@ {
        "*"@
    } else if name == "code"@ {
        "`"@
    } else {
        seq![]
    }
}

pub proof fn lemma_char_at_byte_after(s: Seq<char>, i: int, y: int)
    requires
        0 <= i <= s.len(),
        is_boundary(s, y),
        y > boff(s, i),
    ensures
        i < char_at_byte(s, y) <= s.len(),
{
    let m = char_at_byte(s, y);
    if m <= i {
        lemma_boff_mono(s, m, i);
    }
}

/// The markdown of a cell's inner HTML from character `i` on, after `out`
/// so far: text is copied as it is, inline tags are translated, an
/// `<a href=..>..</a>` becomes `[text](href)`. It stops at a `<` without
/// a `>`, and where an offset found in a lower-cased copy is not a
/// character boundary of the cell.
pub open spec fn cell_md_from(c: Seq<char>, i: int, out: Seq<char>) -> Seq<char>
    decreases c.len() - i,
{
    if i < 0 || i >= c.len() {
        out
    } else if c[i] != '<' {
        cell_md_from(c, i + 1, out.push(c[i]))
    } else {
        let j = i + find_char(c.skip(i), '>');
        if j >= c.len() {
            out
        } else {
            let raw = c.subrange(i, j + 1);
            let (name, close) = tag_name(lowercase(raw));
            let k = j + 1;
            if name == "a"@ && !close {
                let href = match attr_value(raw, "href"@) {
                    Some(v) => v,
                    None => seq![],
                };
                let rest = c.skip(k);
                let lr = lowercase(rest);
                let r = find_from(lr, "</a>"@, 0);
                if r < 0 {
                    cell_md_from(c, k, out)
                } else {
                    match cross_slice(lr, 0, r, rest) {
                        None => out,
                        Some(inner) => {
                            let out2 = out + "["@ + strip_inline_tags(inner) + "]("@ + href + ")"@;
                            let y = (boff(c, k) + boff(lr, r) + 4) as int;
                            if is_boundary(c, y) {
                                proof {
                                    lemma_char_at_byte_after(c, k, y);
                                }
                                cell_md_from(c, char_at_byte(c, y), out2)
                            } else {
                                out2
                            }
                        },
                    }
                }
            } else {
                cell_md_from(c, k, out + tag_markdown(name))
            }
        }
    }
}

/// The markdown text of a cell's inner HTML: translated, entities
/// decoded, trimmed.
pub open spec fn cell_markdown(c: Seq<char>) -> Seq<char> {
    trim(decode_entities(cell_md_from(c, 0, seq![])))
}

fn attr_value_exec(tag: &[char], name: &str) -> (r: Option<Vec<char>>)
    ensures
        match r {
            Some(v) => attr_value(tag@, name@) == Some(v@),
            None => attr_value(tag@, name@) is None,
        },
{
    let l = lower_chars(tag);
    let mut n1 = chars_of(name);
    crate::text::push_str(&mut n1, "=\"");
    let mut n2 = chars_of(name);
    crate::text::push_str(&mut n2, "='");
    match find_seq_from(l.as_slice(), n1.as_slice(), 0) {
        Some(p) => {
            let st = p + n1.len();
            let e = find_char_from(l.as_slice(), st, '"');
            if e >= l.len() {
                return None;
            }
            cross_slice_exec(l.as_slice(), st, e, tag)
        },
        None => {
            match find_seq_from(l.as_slice(), n2.as_slice(), 0) {
                Some(p) => {
                    let st = p + n2.len();
                    let e = find_char_from(l.as_slice(), st, '\'');
                    if e >= l.len() {
                        return None;
                    }
                    cross_slice_exec(l.as_slice(), st, e, tag)
                },
                None => None,
            }
        },
    }
}

fn push_tag_markdown(out: &mut Vec<char>, name: &[char])
    ensures
        final(out)@ == old(out)@ + tag_markdown(name@),
{
    proof {
        reveal_strlit("br");
        reveal_strlit("b");
        reveal_strlit("strong");
        reveal_strlit("i");
        reveal_strlit("em");
        reveal_strlit("code");
    }
    if crate::text::eq_str(name, "br") {
        push_str(out, "<br>");
    } else if crate::text::eq_str(name, "b") || crate::text::eq_str(name, "strong") {
        push_str(out, "**");
    } else if crate::text::eq_str(name, "i") || crate::text::eq_str(name, "em") {
        push_str(out, "*");
    } else if crate::text::eq_str(name, "code") {
        push_str(out, "`");
    } else {
        assert(out@ =~= old(out)@ + tag_markdown(name@));
    }
}

fn html_cell_to_markdown(c: &[char]) -> (r: Vec<char>)
    ensures
        r@ == cell_markdown(c@),
{
    proof {
        reveal_strlit("a");
        reveal_strlit("href");
        reveal_strlit("</a>");
    }
    let mut out: Vec<char> = Vec::new();
    let mut i: usize = 0;
    while i < c.len()
        invariant
            i <= c@.len(),
            cell_md_from(c@, 0, seq![]) == cell_md_from(c@, i as int, out@),
        decreases c@.len() - i,
    {
        if c[i] != '<' {
            out.push(c[i]);
            i = i + 1;
        } else {
            let j = find_char_from(c, i, '>');
            if j >= c.len() {
                i = c.len();
                continue;
            }
            let raw = slice_vec(c, i, j + 1);
            let lraw = lower_chars(raw.as_slice());
            let (name, close) = tag_name_exec(lraw.as_slice());
            let k = j + 1;
            if crate::text::eq_str(name.as_slice(), "a") && !close {
                let href = match attr_value_exec(raw.as_slice(), "href") {
                    Some(v) => v,
                    None => Vec::new(),
                };
                let rest = slice_vec(c, k, c.len());
                assert(rest@ =~= c@.skip(k as int));
                let lr = lower_chars(rest.as_slice());
                match find_seq_from(lr.as_slice(), chars_of("</a>").as_slice(), 0) {
                    None => {
                        i = k;
                    },
                    Some(r) => {
                        match cross_slice_exec(lr.as_slice(), 0, r, rest.as_slice()) {
                            None => {
                                i = c.len();
                            },
                            Some(inner) => {
                                let plain = strip_inline_tags_exec(inner.as_slice());
                                crate::text::push_str(&mut out, "[");
                                crate::text::push_all(&mut out, plain.as_slice());
                                crate::text::push_str(&mut out, "](");
                                crate::text::push_all(&mut out, href.as_slice());
                                crate::text::push_str(&mut out, ")");
                                let y = boff_wide(c, k) + boff_wide(lr.as_slice(), r) + 4;
                                match index_at_byte(c, y) {
                                    Some(m) => {
                                        proof {
                                            lemma_char_at_byte_after(c@, k as int, y as int);
                                        }
                                        i = m;
                                    },
                                    None => {
                                        i = c.len();
                                    },
                                }
                            },
                        }
                    },
                }
            } else {
                push_tag_markdown(&mut out, name.as_slice());
                i = k;
            }
        }
    }
    let d = decode_entities_exec(out.as_slice());
    crate::text::trimmed(d.as_slice())
}

// ---------------------------------------------------------------------
// HTML rows
// ---------------------------------------------------------------------

/// The cells of a row's inner HTML from character `k` of its lower-cased
/// copy `l` on: each `<td ..>..</td>` or `<th ..>..</th>` in order, as
/// markdown. Other `<t..` tags are skipped; a tag or cell left open, or a
/// non-ASCII character after `<t`, ends the row.
pub open spec fn cells_from(t: Seq<char>, l: Seq<char>, k: int) -> Seq<Seq<char>>
    decreases l.len() + 1 - k,
{
    let p = find_from(l, "<t"@, k);
    if k < 0 || p < 0 || p + 2 >= l.len() || cw(l[p + 2]) != 1 {
        seq![]
    } else {
        proof {
            lemma_find_from(l, "<t"@, k);
        }
        if l[p + 2] != 'd' && l[p + 2] != 'h' {
            cells_from(t, l, p + 2)
        } else {
            let close = if l[p + 2] == 'd' {
                "</td>"@
            } else {
                "</th>"@
            };
            let a = p + find_char(l.skip(p), '>');
            let c = find_from(l, close, a + 1);
            if a >= l.len() || c < 0 {
                seq![]
            } else {
                proof {
                    lemma_find_from(l, close, a + 1);
                }
                match cross_slice(l, a + 1, c, t) {
                    None => seq![],
                    Some(inner) => seq![cell_markdown(inner)] + cells_from(t, l, c + close.len()),
                }
            }
        }
    }
}

/// The cells of a row's inner HTML.
pub open spec fn row_cells(t: Seq<char>) -> Seq<Seq<char>> {
    cells_from(t, lowercase(t), 0)
}

fn parse_html_row_cells(t: &[char]) -> (r: Vec<String>)
    ensures
        crate::text::strs(r@) == row_cells(t@),
{
    proof {
        reveal_strlit("<t");
        reveal_strlit("</td>");
        reveal_strlit("</th>");
    }
    let l = lower_chars(t);
    let ghost target = row_cells(t@);
    let mut cells: Vec<String> = Vec::new();
    let mut k: usize = 0;
    let mut stop = false;
    let lt = chars_of("<t");
    while !stop && k <= l.len()
        invariant
            lt@ == "<t"@,
            lt@.len() == 2,
            "</td>"@.len() == 5,
            "</th>"@.len() == 5,
            l@ == lowercase(t@),
            target == cells_from(t@, l@, 0),
            k <= l@.len() + 5,
            target == crate::text::strs(cells@) + cells_from(t@, l@, k as int),
            stop ==> cells_from(t@, l@, k as int) == Seq::<Seq<char>>::empty(),
        decreases l@.len() + 6 - k + (if stop { 0int } else { 1int }),
    {
        let ghost before = crate::text::strs(cells@);
        proof {
            lemma_find_from(l@, "<t"@, k as int);
        }
        match find_seq_from(l.as_slice(), lt.as_slice(), k) {
            None => {
                stop = true;
            },
            Some(p) => {
                if p + 2 >= l.len() || char_width(l[p + 2]) != 1 {
                    stop = true;
                } else {
                    let d = l[p + 2];
                    if d != 'd' && d != 'h' {
                        k = p + 2;
                    } else {
                        let close = if d == 'd' { chars_of("</td>") } else { chars_of("</th>") };
                        let a = find_char_from(l.as_slice(), p, '>');
                        if a >= l.len() {
                            stop = true;
                        } else {
                            match find_seq_from(l.as_slice(), close.as_slice(), a + 1) {
                                None => {
                                    stop = true;
                                },
                                Some(c) => {
                                    match cross_slice_exec(l.as_slice(), a + 1, c, t) {
                                        None => {
                                            stop = true;
                                        },
                                        Some(inner) => {
                                            let md = html_cell_to_markdown(inner.as_slice());
                                            let cell = string_of(md.as_slice());
                                            cells.push(cell);
                                            assert(crate::text::strs(cells@) =~= before.push(cell@));
                                            assert(before + (seq![cell@] + cells_from(t@, l@, c + close@.len())) =~= crate::text::strs(cells@) + cells_from(t@, l@, c + close@.len()));
                                            k = c + close.len();
                                        },
                                    }
                                },
                            }
                        }
                    }
                }
            },
        }
    }
    proof {
        if !stop {
            lemma_find_from(l@, "<t"@, k as int);
        }
    }
    assert(crate::text::strs(cells@) + Seq::<Seq<char>>::empty() =~= crate::text::strs(cells@));
    cells
}

/// The rows of an HTML table from character `k` of its lower-cased copy
/// `l` on: each `<tr ..>..</tr>` as its cells. `None` when a `<tr` tag
/// or row is left open, or where an offset is not a character boundary
/// of `h`.
pub open spec fn html_rows_from(h: Seq<char>, l: Seq<char>, k: int) -> Option<Seq<Seq<Seq<char>>>>
    decreases l.len() + 1 - k,
{
    let t = find_from(l, "<tr"@, k);
    if k < 0 || t < 0 {
        Some(seq![])
    } else {
        proof {
            lemma_find_from(l, "<tr"@, k);
        }
        let a = t + find_char(l.skip(t), '>');
        let c = find_from(l, "</tr>"@, a + 1);
        if a >= l.len() || c < 0 {
            None
        } else {
            proof {
                lemma_find_from(l, "</tr>"@, a + 1);
            }
            match cross_slice(l, a + 1, c, h) {
                None => None,
                Some(inner) => match html_rows_from(h, l, c + "</tr>"@.len()) {
                    None => None,
                    Some(rest) => Some(seq![row_cells(inner)] + rest),
                },
            }
        }
    }
}

/// The rows of the HTML table `h`, or `None` when it has none.
pub open spec fn html_table_rows(h: Seq<char>) -> Option<Seq<Seq<Seq<char>>>> {
    match html_rows_from(h, lowercase(h), 0) {
        Some(rs) => if rs.len() > 0 {
            Some(rs)
        } else {
            None
        },
        None => None,
    }
}

pub open spec fn rows_strs(rows: Seq<Vec<String>>) -> Seq<Seq<Seq<char>>> {
    records_view(rows)
}

fn parse_html_table_rows(html: &str) -> (r: Option<Vec<Vec<String>>>)
    ensures
        match r {
            Some(rows) => html_table_rows(html@) == Some(records_view(rows@)),
            None => html_table_rows(html@) is None,
        },
{
    proof {
        reveal_strlit("<tr");
        reveal_strlit("</tr>");
    }
    let h = chars_of(html);
    let l = lower_chars(h.as_slice());
    let ltr = chars_of("<tr");
    let lctr = chars_of("</tr>");
    let ghost all = html_rows_from(h@, l@, 0);
    let mut rows: Vec<Vec<String>> = Vec::new();
    let mut k: usize = 0;
    let mut stop = false;
    while !stop && k <= l.len()
        invariant
            ltr@ == "<tr"@,
            lctr@ == "</tr>"@,
            ltr@.len() == 3,
            lctr@.len() == 5,
            h@ == html@,
            l@ == lowercase(h@),
            all == html_rows_from(h@, l@, 0),
            k <= l@.len() + 5,
            all == match html_rows_from(h@, l@, k as int) {
                Some(rest) => Some(records_view(rows@) + rest),
                None => None::<Seq<Seq<Seq<char>>>>,
            },
            stop ==> html_rows_from(h@, l@, k as int) == Some(Seq::<Seq<Seq<char>>>::empty()),
        decreases l@.len() + 6 - k + (if stop { 0int } else { 1int }),
    {
        let ghost before = records_view(rows@);
        proof {
            lemma_find_from(l@, "<tr"@, k as int);
        }
        match find_seq_from(l.as_slice(), ltr.as_slice(), k) {
            None => {
                stop = true;
            },
            Some(t) => {
                let a = find_char_from(l.as_slice(), t, '>');
                if a >= l.len() {
                    return None;
                }
                let c = match find_seq_from(l.as_slice(), lctr.as_slice(), a + 1) {
                    Some(c) => c,
                    None => {
                        return None;
                    },
                };
                let inner = match cross_slice_exec(l.as_slice(), a + 1, c, h.as_slice()) {
                    Some(v) => v,
                    None => {
                        return None;
                    },
                };
                let row = parse_html_row_cells(inner.as_slice());
                rows.push(row);
                proof {
                    assert(records_view(rows@) =~= before.push(crate::text::strs(row@)));
                    match html_rows_from(h@, l@, c + 5) {
                        Some(rest) => {
                            assert(before + (seq![row_cells(inner@)] + rest) =~= records_view(rows@) + rest);
                        },
                        None => {},
                    }
                }
                k = c + lctr.len();
            },
        }
    }
    proof {
        if !stop {
            lemma_find_from(l@, "<tr"@, k as int);
        }
        match html_rows_from(h@, l@, k as int) {
            Some(rest) => {
                assert(rest =~= Seq::<Seq<Seq<char>>>::empty());
                assert(records_view(rows@) + rest =~= records_view(rows@));
            },
            None => {},
        }
    }
    if rows.len() == 0 {
        return None;
    }
    Some(rows)
}

// ---------------------------------------------------------------------
// Building a table from rows
// ---------------------------------------------------------------------

/// A new cell holding `c`, one space of padding on each side.
pub open spec fn fresh_cell(c: Seq<char>) -> CellView {
    CellView { range: (0, 0), content: c, leading_ws: 1, trailing_ws: 1 }
}

/// A row of `n` new cells: the fields of `x`, then empty cells.
pub open spec fn fresh_row(x: Seq<Seq<char>>, n: nat) -> Seq<CellView> {
    Seq::new(n, |i: int| fresh_cell(if i < x.len() { x[i] } else { seq![] }))
}

/// The largest number of fields in a row.
pub open spec fn widest(rows: Seq<Seq<Seq<char>>>) -> nat
    decreases rows.len(),
{
    if rows.len() == 0 {
        0
    } else {
        max_nat(widest(rows.drop_last()), rows.last().len())
    }
}

/// The table made of `rows`: the first row is the header, every row is
/// padded to the widest, no alignment and no width set. A table meant
/// to keep its original layout has none yet, so it is laid out pretty.
pub open spec fn fresh_table(rows: Seq<Seq<Seq<char>>>, style: TableStyle) -> TableView {
    let n = widest(rows);
    TableView {
        id: 0,
        range: (0, 0),
        alignments: Seq::new(n, |i: int| Alignment::Unaligned),
        headers: fresh_row(rows[0], n),
        rows: Seq::new((rows.len() - 1) as nat, |i: int| fresh_row(rows[i + 1], n)),
        style: if style == TableStyle::PreserveOriginal {
            TableStyle::Pretty
        } else {
            style
        },
        column_widths: Seq::new(n, |i: int| None),
        original_lines: None,
        sort_indicator: None,
    }
}

/// The GFM text of the table made of `rows`, compact or pretty as
/// `style` asks; `None` without rows or fields, or with a cell too large
/// for its width to be counted.
pub open spec fn rows_gfm(rows: Seq<Seq<Seq<char>>>, style: TableStyle) -> Option<Seq<char>> {
    if rows.len() == 0 || widest(rows) == 0 {
        None
    } else {
        let t = fresh_table(rows, style);
        if !crate::tables::serialize::sizes_ok(t) {
            None
        } else if style == TableStyle::Compact {
            Some(compact_text(t))
        } else {
            Some(pretty_text(t))
        }
    }
}

proof fn lemma_widest(rows: Seq<Seq<Seq<char>>>)
    ensures
        forall|i: int| 0 <= i < rows.len() ==> (#[trigger] rows[i]).len() <= widest(rows),
    decreases rows.len(),
{
    if rows.len() > 0 {
        lemma_widest(rows.drop_last());
        assert forall|i: int| 0 <= i < rows.len() implies (#[trigger] rows[i]).len() <= widest(rows) by {
            if i < rows.len() - 1 {
                assert(rows[i] == rows.drop_last()[i]);
            }
        }
    }
}

fn widest_exec(rows: &Vec<Vec<String>>) -> (n: usize)
    ensures
        n == widest(records_view(rows@)),
{
    let ghost rv = records_view(rows@);
    let mut n: usize = 0;
    let mut i: usize = 0;
    assert(rv.take(0) =~= Seq::<Seq<Seq<char>>>::empty());
    while i < rows.len()
        invariant
            rv == records_view(rows@),
            i <= rows@.len(),
            n == widest(rv.take(i as int)),
        decreases rows@.len() - i,
    {
        assert(rv.take(i + 1).drop_last() =~= rv.take(i as int));
        assert(rv.take(i + 1).last() == rv[i as int]);
        let m = rows[i].len();
        if m > n {
            n = m;
        }
        i = i + 1;
    }
    assert(rv.take(i as int) =~= rv);
    n
}

fn fresh_row_exec(x: &Vec<String>, n: usize) -> (r: Vec<Cell>)
    requires
        x@.len() <= n,
    ensures
        cells_view(r@) == fresh_row(crate::text::strs(x@), n as nat),
{
    let ghost xv = crate::text::strs(x@);
    let mut r: Vec<Cell> = Vec::new();
    let mut i: usize = 0;
    while i < n
        invariant
            i <= n,
            x@.len() <= n,
            xv == crate::text::strs(x@),
            cells_view(r@) =~= Seq::new(i as nat, |k: int| fresh_cell(if k < xv.len() { xv[k] } else { seq![] })),
        decreases n - i,
    {
        let ghost before = r@;
        let content = if i < x.len() { x[i].clone() } else { String::new() };
        let c = Cell { source_range: std::ops::Range { start: 0, end: 0 }, content, leading_ws: 1, trailing_ws: 1 };
        r.push(c);
        proof {
            if i < xv.len() {
                assert(xv[i as int] == x@[i as int]@);
            }
            assert(cells_view(before).len() == before.len());
            assert(cells_view(r@) =~= cells_view(before).push(c@));
        }
        i = i + 1;
    }
    r
}

fn cell_small(c: &Cell) -> (b: bool)
    ensures
        b == (4 * c@.content.len() + 8 <= usize::MAX),
{
    let v = chars_of(c.content.as_str());
    (v.len() as u128) * 4 + 8 <= usize::MAX as u128
}

fn sizes_fit(t: &MarkdownTable) -> (b: bool)
    ensures
        b == crate::tables::serialize::sizes_ok(t@),
{
    let ghost tv = t@;
    let mut i: usize = 0;
    while i < t.headers.len()
        invariant
            tv == t@,
            i <= t.headers@.len(),
            forall|c: int| 0 <= c < i ==> 4 * tv.headers[c].content.len() + 8 <= usize::MAX,
        decreases t.headers@.len() - i,
    {
        assert(tv.headers[i as int] == t.headers@[i as int]@);
        if !cell_small(&t.headers[i]) {
            return false;
        }
        i = i + 1;
    }
    let mut r: usize = 0;
    while r < t.rows.len()
        invariant
            tv == t@,
            r <= t.rows@.len(),
            forall|c: int| 0 <= c < tv.headers.len() ==> 4 * tv.headers[c].content.len() + 8 <= usize::MAX,
            forall|a: int, c: int|
                0 <= a < r && 0 <= c < tv.rows[a].len() ==> 4 * tv.rows[a][c].content.len() + 8 <= usize::MAX,
        decreases t.rows@.len() - r,
    {
        let row = &t.rows[r];
        assert(tv.rows[r as int] == cells_view(row@));
        let mut c: usize = 0;
        while c < row.len()
            invariant
                tv == t@,
                r < t.rows@.len(),
                row@ == t.rows@[r as int]@,
                tv.rows[r as int] == cells_view(row@),
                c <= row@.len(),
                forall|k: int| 0 <= k < c ==> 4 * tv.rows[r as int][k].content.len() + 8 <= usize::MAX,
            decreases row@.len() - c,
        {
            assert(tv.rows[r as int][c as int] == row@[c as int]@);
            if !cell_small(&row[c]) {
                return false;
            }
            c = c + 1;
        }
        r = r + 1;
    }
    true
}

fn rows_to_gfm(rows: &Vec<Vec<String>>, style: TableStyle) -> (r: Option<String>)
    ensures
        match r {
            Some(s) => rows_gfm(records_view(rows@), style) == Some(s@),
            None => rows_gfm(records_view(rows@), style) is None,
        },
{
    let ghost rv = records_view(rows@);
    if rows.len() == 0 {
        return None;
    }
    let n = widest_exec(rows);
    if n == 0 {
        return None;
    }
    proof {
        lemma_widest(rv);
        assert(rv[0].len() == rows@[0]@.len());
    }
    let headers = fresh_row_exec(&rows[0], n);
    let mut body: Vec<Vec<Cell>> = Vec::new();
    let mut i: usize = 1;
    while i < rows.len()
        invariant
            1 <= i <= rows@.len(),
            rv == records_view(rows@),
            n == widest(rv),
            forall|k: int| 0 <= k < rv.len() ==> (#[trigger] rv[k]).len() <= n,
            crate::tables::model::rows_view(body@) =~= Seq::new((i - 1) as nat, |k: int| fresh_row(rv[k + 1], n as nat)),
        decreases rows@.len() - i,
    {
        let ghost before = body@;
        assert(rv[i as int].len() == rows@[i as int]@.len());
        let row = fresh_row_exec(&rows[i], n);
        body.push(row);
        proof {
            assert(rv[i as int] == crate::text::strs(rows@[i as int]@));
            assert(crate::tables::model::rows_view(body@) =~= crate::tables::model::rows_view(before).push(cells_view(row@)));
        }
        i = i + 1;
    }
    let mut alignments: Vec<Alignment> = Vec::new();
    let mut widths: Vec<Option<u32>> = Vec::new();
    let mut k: usize = 0;
    while k < n
        invariant
            k <= n,
            alignments@ =~= Seq::new(k as nat, |j: int| Alignment::Unaligned),
            widths@ =~= Seq::new(k as nat, |j: int| None::<u32>),
        decreases n - k,
    {
        alignments.push(Alignment::Unaligned);
        widths.push(None);
        k = k + 1;
    }
    let shown = match style {
        TableStyle::PreserveOriginal => TableStyle::Pretty,
        other => other,
    };
    let table = MarkdownTable {
        id: 0,
        source_range: std::ops::Range { start: 0, end: 0 },
        alignments,
        headers,
        rows: body,
        style: shown,
        column_widths: widths,
        original_lines: None,
        sort_indicator: None,
    };
    assert(table@ =~= fresh_table(rv, style));
    if !sizes_fit(&table) {
        return None;
    }
    match style {
        TableStyle::Compact => Some(to_gfm_compact(&table)),
        _ => Some(to_gfm_pretty(&table)),
    }
}

// ---------------------------------------------------------------------
// Conversions
// ---------------------------------------------------------------------

/// The rows of tab-separated text: its non-blank lines split at tabs.
pub open spec fn tsv_rows(text: Seq<char>) -> Seq<Seq<Seq<char>>> {
    nonblank(lines(text)).map_values(|l: Seq<char>| split_on(l, '\t'))
}

fn tsv_to_gfm(text: &[char], style: TableStyle) -> (r: Option<String>)
    ensures
        match r {
            Some(s) => rows_gfm(tsv_rows(text@), style) == Some(s@),
            None => rows_gfm(tsv_rows(text@), style) is None,
        },
{
    let ls = nonblank_lines(text);
    let ghost lv = views(ls@);
    let mut rows: Vec<Vec<String>> = Vec::new();
    let mut i: usize = 0;
    while i < ls.len()
        invariant
            lv == views(ls@),
            i <= ls@.len(),
            records_view(rows@) =~= lv.take(i as int).map_values(|l: Seq<char>| split_on(l, '\t')),
        decreases ls@.len() - i,
    {
        let ghost before = records_view(rows@);
        let parts = split_chars(ls[i].as_slice(), '\t');
        let row = crate::text::strings_of(parts.as_slice());
        rows.push(row);
        proof {
            assert(lv[i as int] == ls@[i as int]@);
            assert(records_view(rows@) =~= before.push(crate::text::strs(row@)));
        }
        i = i + 1;
    }
    assert(lv.take(i as int) =~= lv);
    rows_to_gfm(&rows, style)
}

/// The GFM text of comma-separated text, read by the `csv` crate.
pub open spec fn csv_gfm(text: Seq<char>, style: TableStyle) -> Option<Seq<char>> {
    match csv_records(text) {
        Some(rs) => rows_gfm(rs, style),
        None => None,
    }
}

fn csv_to_gfm(text: &str, style: TableStyle) -> (r: Option<String>)
    ensures
        match r {
            Some(s) => csv_gfm(text@, style) == Some(s@),
            None => csv_gfm(text@, style) is None,
        },
{
    match read_csv(text) {
        Some(rows) => rows_to_gfm(&rows, style),
        None => None,
    }
}

/// The GFM text of an HTML table.
pub open spec fn html_gfm(html: Seq<char>, style: TableStyle) -> Option<Seq<char>> {
    match html_table_rows(html) {
        Some(rs) => rows_gfm(rs, style),
        None => None,
    }
}

/// Convert an HTML `<table>` to GFM: every `<tr>` is a row (the first is
/// the header), every `<td>`/`<th>` a cell, with bold, italic, code,
/// links and line breaks kept as markdown and other tags dropped. `None`
/// when no row is found.
pub fn html_table_to_gfm(html: &str, style: TableStyle) -> (r: Option<String>)
    ensures
        match r {
            Some(s) => html_gfm(html@, style) == Some(s@),
            None => html_gfm(html@, style) is None,
        },
{
    match parse_html_table_rows(html) {
        Some(rows) => rows_to_gfm(&rows, style),
        None => None,
    }
}

fn trimmed_end(s: &[char]) -> (r: Vec<char>)
    ensures
        r@ == trim_end(s@),
{
    let n = s.len();
    let mut hi = n;
    while hi > 0 && is_whitespace(s[hi - 1])
        invariant
            hi <= n == s@.len(),
            forall|j: int| hi <= j < n ==> is_ws(s@[j]),
        decreases hi,
    {
        hi = hi - 1;
    }
    proof {
        crate::text::lemma_trail_ws_is(s@, n - hi);
    }
    slice_vec(s, 0, hi)
}

fn cells_fit(t: &MarkdownTable) -> (b: bool)
    ensures
        b == cells_ok(t@),
{
    t.headers.len() <= t.alignments.len() && sizes_fit(t)
}

/// A GFM table from the clipboard, in the requested layout: unchanged
/// (with one final line end) to keep its original layout, else the first
/// table parsed from it written pretty or compact. Text in which no
/// table is found, or whose cells are too large to measure, stays as it
/// is.
pub open spec fn normalized_gfm(text: Seq<char>, style: TableStyle) -> Seq<char> {
    let evs = md_table_events(text);
    let ts = parsed_tables(text, evs);
    if style == TableStyle::PreserveOriginal {
        trim_end(text) + seq!['\n']
    } else if blen(text) > usize::MAX || evs.len() >= usize::MAX || ts.len() == 0 {
        text
    } else {
        let t = TableView { style: style, ..ts[0] };
        if !cells_ok(t) {
            text
        } else if style == TableStyle::Pretty {
            pretty_text(t)
        } else {
            compact_text(t)
        }
    }
}

fn normalize_gfm(text: &str, style: TableStyle) -> (r: String)
    ensures
        r@ == normalized_gfm(text@, style),
{
    let v = chars_of(text);
    if style == TableStyle::PreserveOriginal {
        let mut t = trimmed_end(v.as_slice());
        t.push('\n');
        return string_of(t.as_slice());
    }
    if crate::text::blen_checked(v.as_slice()).is_none() {
        return string_of(v.as_slice());
    }
    let mut tables = parse_tables(text);
    if tables.len() == 0 {
        return string_of(v.as_slice());
    }
    let mut t = tables.remove(0);
    t.style = style;
    if !cells_fit(&t) {
        return string_of(v.as_slice());
    }
    match style {
        TableStyle::Pretty => to_gfm_pretty(&t),
        _ => to_gfm_compact(&t),
    }
}

// ---------------------------------------------------------------------
// Detection and conversion
// ---------------------------------------------------------------------

/// What clipboard text and HTML are taken for: the HTML's table if it
/// has one; else, for the trimmed text, a GFM table, tab-separated
/// values or comma-separated values, tried in that order; else not a
/// table.
pub open spec fn detected(text: Option<Seq<char>>, html: Option<Seq<char>>) -> PasteView {
    let from_html = match html {
        Some(h) => html_table_shape(h),
        None => None,
    };
    match from_html {
        Some((b, r, c)) => PasteView::Html(b, r as usize, c as usize),
        None => match text {
            None => PasteView::NotTable,
            Some(t) => {
                let tt = trim(t);
                if tt.len() == 0 {
                    PasteView::NotTable
                } else {
                    match gfm_shape(tt) {
                        Some((r, c)) => PasteView::Gfm(tt, r as usize, c as usize),
                        None => match tsv_shape(tt) {
                            Some((r, c)) => PasteView::Tsv(tt, r as usize, c as usize),
                            None => match csv_shape(tt) {
                                Some((r, c)) => PasteView::Csv(tt, r as usize, c as usize),
                                None => PasteView::NotTable,
                            },
                        },
                    }
                }
            },
        },
    }
}

/// Look at the clipboard's text and HTML (either may be missing) and
/// pick the best reading as a table.
pub fn detect_table_paste(text: Option<&str>, html: Option<&str>) -> (r: TablePaste)
    ensures
        r@ == detected(
            match text {
                Some(t) => Some(t@),
                None => None,
            },
            match html {
                Some(h) => Some(h@),
                None => None,
            },
        ),
{
    match html {
        Some(h) => match extract_html_table(h) {
            Some((block, rows, cols)) => {
                return TablePaste::Html { html: block, rows, cols };
            },
            None => {},
        },
        None => {},
    }
    let t = match text {
        Some(t) => t,
        None => {
            return TablePaste::NotTable;
        },
    };
    let v = chars_of(t);
    let tt = crate::text::trimmed(v.as_slice());
    if tt.len() == 0 {
        return TablePaste::NotTable;
    }
    if let Some((rows, cols)) = looks_like_gfm(tt.as_slice()) {
        return TablePaste::Gfm { text: string_of(tt.as_slice()), rows, cols };
    }
    if let Some((rows, cols)) = looks_like_tsv(tt.as_slice()) {
        return TablePaste::Tsv { text: string_of(tt.as_slice()), rows, cols };
    }
    let ts = string_of(tt.as_slice());
    if let Some((rows, cols)) = looks_like_csv(ts.as_str()) {
        return TablePaste::Csv { text: ts, rows, cols };
    }
    TablePaste::NotTable
}

/// An HTML table on the clipboard wins over whatever its text looks
/// like.
pub proof fn lemma_html_table_first(text: Option<Seq<char>>, html: Seq<char>)
    requires
        html_table_shape(html) is Some,
    ensures
        detected(text, Some(html)) is Html,
{
}

/// Text that reads as a GFM table is taken as one, before any reading
/// as tab- or comma-separated values.
pub proof fn lemma_gfm_before_tsv_and_csv(text: Seq<char>)
    requires
        trim(text).len() > 0,
        gfm_shape(trim(text)) is Some,
    ensures
        detected(Some(text), None) is Gfm,
{
}

/// The GFM text a detected paste converts to.
pub open spec fn paste_gfm(p: PasteView, style: TableStyle) -> Option<Seq<char>> {
    match p {
        PasteView::Html(h, _, _) => html_gfm(h, style),
        PasteView::Gfm(t, _, _) => Some(normalized_gfm(t, style)),
        PasteView::Tsv(t, _, _) => rows_gfm(tsv_rows(t), style),
        PasteView::Csv(t, _, _) => csv_gfm(t, style),
        PasteView::NotTable => None,
    }
}

/// Convert a detected paste to GFM text in the requested layout; `None`
/// for what is not a table or does not convert.
pub fn paste_to_gfm(paste: &TablePaste, style: TableStyle) -> (r: Option<String>)
    ensures
        match r {
            Some(s) => paste_gfm(paste@, style) == Some(s@),
            None => paste_gfm(paste@, style) is None,
        },
{
    match paste {
        TablePaste::Html { html, .. } => html_table_to_gfm(html.as_str(), style),
        TablePaste::Gfm { text, .. } => Some(normalize_gfm(text.as_str(), style)),
        TablePaste::Tsv { text, .. } => {
            let v = chars_of(text.as_str());
            tsv_to_gfm(v.as_slice(), style)
        },
        TablePaste::Csv { text, .. } => csv_to_gfm(text.as_str(), style),
        TablePaste::NotTable => None,
    }
}

} // verus!
