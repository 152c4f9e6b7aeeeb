//! Writing a `MarkdownTable` back to GFM source, and the edits that
//! patch the document buffer.
//!
//! Three layouts share this module: `to_gfm_preserve` replays the
//! captured original lines and rewrites only the cells, `to_gfm_pretty`
//! pads every column to its widest cell, and `to_gfm_compact` uses one
//! space of padding.

use std::ops::Range;
use vstd::prelude::*;
use crate::tables::model::{
    cells_view, lines_view, rows_view, rv, Alignment, Cell, CellView, EditDelta, ErrorView,
    LineKind, LineView, MarkdownTable, OriginalLine, TableError, TableStyle, TableView,
};
use crate::tables::parse::{pad_left, pad_right};
use crate::text::{
    blen, boff, byte_offset, char_at_byte, char_index, chars_of, concat, dec, is_boundary,
    lemma_boff_mono, lemma_concat_push, push_all, push_dec, push_rep, rep, slice_vec, string_of,
    trim, trimmed,
};

verus! {

// ---------------------------------------------------------------------
// Escaping and padding
// ---------------------------------------------------------------------

/// How one character of cell content is written: a backslash is
/// doubled, a pipe is escaped and a newline becomes `<br>`.
pub open spec fn esc_char(c: char) -> Seq<char> {
    if c == '\\' {
        seq!['\\', '\\']
    } else if c == '|' {
        seq!['\\', '|']
    } else if c == '\n' {
        seq!['<', 'b', 'r', '>']
    } else {
        seq![c]
    }
}

/// Cell content as written into a table row.
pub open spec fn escape(s: Seq<char>) -> Seq<char>
    decreases s.len(),
{
    if s.len() == 0 {
        seq![]
    } else {
        escape(s.drop_last()) + esc_char(s.last())
    }
}

proof fn lemma_escape_push(s: Seq<char>, c: char)
    ensures
        escape(s.push(c)) == escape(s) + esc_char(c),
{
    assert(s.push(c).drop_last() =~= s);
}

proof fn lemma_escape_len(s: Seq<char>)
    ensures
        s.len() <= escape(s).len() <= 4 * s.len(),
    decreases s.len(),
{
    if s.len() > 0 {
        lemma_escape_len(s.drop_last());
    }
}

fn escape_chars(s: &[char]) -> (r: Vec<char>)
    ensures
        r@ == escape(s@),
{
    let mut out: Vec<char> = Vec::new();
    let mut i: usize = 0;
    assert(s@.take(0) =~= Seq::<char>::empty());
    while i < s.len()
        invariant
            i <= s@.len(),
            out@ == escape(s@.take(i as int)),
        decreases s@.len() - i,
    {
        let c = s[i];
        if c == '\\' {
            out.push('\\');
            out.push('\\');
        } else if c == '|' {
            out.push('\\');
            out.push('|');
        } else if c == '\n' {
            out.push('<');
            out.push('b');
            out.push('r');
            out.push('>');
        } else {
            out.push(c);
        }
        proof {
            assert(s@.take(i + 1) =~= s@.take(i as int).push(c));
            lemma_escape_push(s@.take(i as int), c);
        }
        i = i + 1;
    }
    assert(s@.take(i as int) =~= s@);
    out
}

/// Escape the characters that would break a GFM table row: backslash
/// first (so it is not escaped twice), then the pipe, then newlines as
/// `<br>`.
pub fn escape_cell(s: &str) -> (r: String)
    ensures
        r@ == escape(s@),
{
    let v = chars_of(s);
    string_of(escape_chars(v.as_slice()).as_slice())
}

/// `content` padded to `width` characters inside one space on each
/// side, placed by the column's alignment. Content at least as wide as
/// `width` gets the single spaces only.
pub open spec fn pad(a: Alignment, content: Seq<char>, width: nat) -> Seq<char> {
    if content.len() >= width {
        seq![' '] + content + seq![' ']
    } else {
        let extra = (width - content.len()) as nat;
        match a {
            Alignment::Right => seq![' '] + rep(' ', extra) + content + seq![' '],
            Alignment::Center => seq![' '] + rep(' ', extra / 2) + content + rep(' ', (extra - extra / 2) as nat)
                + seq![' '],
            _ => seq![' '] + content + rep(' ', extra) + seq![' '],
        }
    }
}

fn push_padded(out: &mut Vec<char>, a: Alignment, content: &[char], width: usize)
    ensures
        final(out)@ == old(out)@ + pad(a, content@, width as nat),
{
    let n = content.len();
    out.push(' ');
    if n >= width {
        push_all(out, content);
    } else {
        let extra = width - n;
        match a {
            Alignment::Right => {
                push_rep(out, ' ', extra);
                push_all(out, content);
            },
            Alignment::Center => {
                push_rep(out, ' ', extra / 2);
                push_all(out, content);
                push_rep(out, ' ', extra - extra / 2);
            },
            _ => {
                push_all(out, content);
                push_rep(out, ' ', extra);
            },
        }
    }
    out.push(' ');
    proof {
        let ghost o = old(out)@;
        assert(final(out)@ =~= o + pad(a, content@, width as nat));
    }
}

// ---------------------------------------------------------------------
// Column widths
// ---------------------------------------------------------------------

/// Written width of a cell.
pub open spec fn ew(c: CellView) -> nat {
    escape(c.content).len()
}

/// The widest written cell in column `col` over `rows`.
pub open spec fn rows_col_max(rows: Seq<Seq<CellView>>, col: int) -> nat
    decreases rows.len(),
{
    if rows.len() == 0 {
        0
    } else {
        let m = rows_col_max(rows.drop_last(), col);
        let r = rows.last();
        if 0 <= col < r.len() && ew(r[col]) > m {
            ew(r[col])
        } else {
            m
        }
    }
}

pub open spec fn max_nat(a: nat, b: nat) -> nat {
    if a >= b {
        a
    } else {
        b
    }
}

/// Width of column `col` in the pretty layout: its widest written cell,
/// and at least 3 (the minimum run of dashes).
pub open spec fn col_width(t: TableView, col: int) -> nat {
    let h = if 0 <= col < t.headers.len() {
        ew(t.headers[col])
    } else {
        0
    };
    max_nat(3, max_nat(h, rows_col_max(t.rows, col)))
}

pub open spec fn col_widths(t: TableView) -> Seq<nat> {
    Seq::new(t.alignments.len(), |col: int| col_width(t, col))
}

/// The cells of `t` are small enough that widths and offsets fit in
/// machine integers.
pub open spec fn sizes_ok(t: TableView) -> bool {
    &&& forall|c: int| 0 <= c < t.headers.len() ==> 4 * t.headers[c].content.len() + 8 <= usize::MAX
    &&& forall|r: int, c: int|
        0 <= r < t.rows.len() && 0 <= c < t.rows[r].len() ==> 4 * t.rows[r][c].content.len() + 8
            <= usize::MAX
}

fn column_widths(table: &MarkdownTable) -> (w: Vec<usize>)
    requires
        sizes_ok(table@),
    ensures
        w@.len() == table@.alignments.len(),
        forall|c: int| 0 <= c < w@.len() ==> #[trigger] w@[c] == col_width(table@, c),
{
    let ghost t = table@;
    let n = table.alignments.len();
    let mut w: Vec<usize> = Vec::new();
    let mut c: usize = 0;
    while c < n
        invariant
            t == table@,
            n == t.alignments.len(),
            c <= n,
            w@.len() == c,
            forall|k: int| 0 <= k < c ==> #[trigger] w@[k] == max_nat(
                3,
                if 0 <= k < t.headers.len() {
                    ew(t.headers[k])
                } else {
                    0
                },
            ),
        decreases n - c,
    {
        let mut v: usize = 3;
        if c < table.headers.len() {
            let e = escape_chars(chars_of(table.headers[c].content.as_str()).as_slice());
            assert(cells_view(table.headers@)[c as int] == table.headers@[c as int]@);
            proof {
                lemma_escape_len(t.headers[c as int].content);
            }
            if e.len() > v {
                v = e.len();
            }
        }
        w.push(v);
        c = c + 1;
    }
    let mut r: usize = 0;
    while r < table.rows.len()
        invariant
            t == table@,
            sizes_ok(t),
            n == t.alignments.len(),
            r <= t.rows.len(),
            w@.len() == n,
            forall|k: int| 0 <= k < n ==> #[trigger] w@[k] == max_nat(
                3,
                max_nat(
                    if 0 <= k < t.headers.len() {
                        ew(t.headers[k])
                    } else {
                        0
                    },
                    rows_col_max(t.rows.take(r as int), k),
                ),
            ),
        decreases t.rows.len() - r,
    {
        let row = &table.rows[r];
        assert(rows_view(table.rows@)[r as int] == cells_view(row@));
        assert(t.rows.take(r + 1).drop_last() =~= t.rows.take(r as int));
        let ghost wr = w@;
        let mut c: usize = 0;
        while c < n
            invariant
                t == table@,
                sizes_ok(t),
                n == t.alignments.len(),
                r < t.rows.len(),
                t.rows[r as int] == cells_view(row@),
                c <= n,
                w@.len() == n,
                forall|k: int| c <= k < n ==> #[trigger] w@[k] == wr[k],
                forall|k: int| 0 <= k < c ==> #[trigger] w@[k] == max_nat(
                    3,
                    max_nat(
                        if 0 <= k < t.headers.len() {
                            ew(t.headers[k])
                        } else {
                            0
                        },
                        rows_col_max(t.rows.take(r + 1), k),
                    ),
                ),
                forall|k: int| 0 <= k < n ==> #[trigger] wr[k] == max_nat(
                    3,
                    max_nat(
                        if 0 <= k < t.headers.len() {
                            ew(t.headers[k])
                        } else {
                            0
                        },
                        rows_col_max(t.rows.take(r as int), k),
                    ),
                ),
            decreases n - c,
        {
            proof {
                assert(t.rows.take(r + 1).drop_last() =~= t.rows.take(r as int));
                assert(t.rows.take(r + 1).last() == t.rows[r as int]);
            }
            if c < row.len() {
                let e = escape_chars(chars_of(row[c].content.as_str()).as_slice());
                assert(cells_view(row@)[c as int] == row@[c as int]@);
                proof {
                    lemma_escape_len(t.rows[r as int][c as int].content);
                }
                if e.len() > w[c] {
                    w.set(c, e.len());
                }
            }
            c = c + 1;
        }
        r = r + 1;
    }
    assert(t.rows.take(r as int) =~= t.rows);
    w
}

// ---------------------------------------------------------------------
// Compact layout
// ---------------------------------------------------------------------

/// A cell in the compact layout: one space each side, then a pipe.
pub open spec fn compact_cell(c: CellView) -> Seq<char> {
    seq![' '] + escape(c.content) + seq![' ', '|']
}

pub open spec fn compact_cells(cells: Seq<CellView>) -> Seq<Seq<char>> {
    cells.map_values(|c: CellView| compact_cell(c))
}

/// A row in the compact layout, without its line end.
pub open spec fn compact_line_text(cells: Seq<CellView>) -> Seq<char> {
    seq!['|'] + concat(compact_cells(cells))
}

/// The separator cell text for an alignment in the compact layout.
pub open spec fn compact_sep(a: Alignment) -> Seq<char> {
    match a {
        Alignment::Unaligned => seq!['-', '-', '-'],
        Alignment::Left => seq![':', '-', '-', '-'],
        Alignment::Center => seq![':', '-', '-', '-', ':'],
        Alignment::Right => seq!['-', '-', '-', ':'],
    }
}

pub open spec fn compact_seps(aligns: Seq<Alignment>) -> Seq<Seq<char>> {
    aligns.map_values(|a: Alignment| seq![' '] + compact_sep(a) + seq![' ', '|'])
}

pub open spec fn compact_rows(rows: Seq<Seq<CellView>>) -> Seq<Seq<char>> {
    rows.map_values(|r: Seq<CellView>| compact_line_text(r) + seq!['\n'])
}

pub open spec fn compact_text(t: TableView) -> Seq<char> {
    compact_line_text(t.headers) + seq!['\n'] + seq!['|'] + concat(compact_seps(t.alignments))
        + seq!['\n'] + concat(compact_rows(t.rows))
}

fn push_compact_cells(out: &mut Vec<char>, cells: &Vec<Cell>)
    ensures
        final(out)@ == old(out)@ + concat(compact_cells(cells_view(cells@))),
{
    let ghost start = out@;
    let mut i: usize = 0;
    assert(compact_cells(cells_view(cells@).take(0)) =~= Seq::<Seq<char>>::empty());
    while i < cells.len()
        invariant
            i <= cells@.len(),
            out@ == start + concat(compact_cells(cells_view(cells@).take(i as int))),
        decreases cells@.len() - i,
    {
        out.push(' ');
        let e = escape_chars(chars_of(cells[i].content.as_str()).as_slice());
        push_all(out, e.as_slice());
        out.push(' ');
        out.push('|');
        proof {
            let cv = cells_view(cells@);
            assert(cv[i as int] == cells@[i as int]@);
            assert(compact_cells(cv.take(i + 1)) =~= compact_cells(cv.take(i as int)).push(compact_cell(cv[i as int])));
            lemma_concat_push(compact_cells(cv.take(i as int)), compact_cell(cv[i as int]));
            assert(out@ =~= start + concat(compact_cells(cv.take(i + 1))));
        }
        i = i + 1;
    }
    assert(cells_view(cells@).take(i as int) =~= cells_view(cells@));
}

/// A row in the compact layout, without its line end.
fn compact_line(cells: &Vec<Cell>) -> (r: Vec<char>)
    ensures
        r@ == compact_line_text(cells_view(cells@)),
{
    let mut out: Vec<char> = Vec::new();
    out.push('|');
    push_compact_cells(&mut out, cells);
    out
}

fn compact_sep_exec(a: Alignment) -> (r: Vec<char>)
    ensures
        r@ == compact_sep(a),
{
    match a {
        Alignment::Unaligned => vec!['-', '-', '-'],
        Alignment::Left => vec![':', '-', '-', '-'],
        Alignment::Center => vec![':', '-', '-', '-', ':'],
        Alignment::Right => vec!['-', '-', '-', ':'],
    }
}

/// Write the table with one space of padding in every cell.
pub fn to_gfm_compact(table: &MarkdownTable) -> (r: String)
    ensures
        r@ == compact_text(table@),
{
    let ghost t = table@;
    let mut out = compact_line(&table.headers);
    out.push('\n');
    out.push('|');
    let ghost mid = out@;
    let mut i: usize = 0;
    assert(compact_seps(t.alignments.take(0)) =~= Seq::<Seq<char>>::empty());
    while i < table.alignments.len()
        invariant
            t == table@,
            i <= t.alignments.len(),
            out@ == mid + concat(compact_seps(t.alignments.take(i as int))),
        decreases t.alignments.len() - i,
    {
        out.push(' ');
        let sep = compact_sep_exec(table.alignments[i]);
        push_all(&mut out, sep.as_slice());
        out.push(' ');
        out.push('|');
        proof {
            let x = seq![' '] + compact_sep(t.alignments[i as int]) + seq![' ', '|'];
            assert(compact_seps(t.alignments.take(i + 1)) =~= compact_seps(t.alignments.take(i as int)).push(x));
            lemma_concat_push(compact_seps(t.alignments.take(i as int)), x);
        }
        i = i + 1;
    }
    assert(t.alignments.take(i as int) =~= t.alignments);
    out.push('\n');
    let ghost body = out@;
    let mut k: usize = 0;
    assert(compact_rows(t.rows.take(0)) =~= Seq::<Seq<char>>::empty());
    while k < table.rows.len()
        invariant
            t == table@,
            k <= t.rows.len(),
            out@ == body + concat(compact_rows(t.rows.take(k as int))),
        decreases t.rows.len() - k,
    {
        let line = compact_line(&table.rows[k]);
        push_all(&mut out, line.as_slice());
        out.push('\n');
        proof {
            assert(rows_view(table.rows@)[k as int] == cells_view(table.rows@[k as int]@));
            let x = compact_line_text(t.rows[k as int]) + seq!['\n'];
            assert(compact_rows(t.rows.take(k + 1)) =~= compact_rows(t.rows.take(k as int)).push(x));
            lemma_concat_push(compact_rows(t.rows.take(k as int)), x);
        }
        k = k + 1;
    }
    assert(t.rows.take(k as int) =~= t.rows);
    assert(out@ =~= compact_text(t));
    string_of(out.as_slice())
}

// ---------------------------------------------------------------------
// Pretty layout
// ---------------------------------------------------------------------

/// The separator cell for an alignment at width `w`.
pub open spec fn sep_inner(a: Alignment, w: nat) -> Seq<char> {
    match a {
        Alignment::Unaligned => rep('-', w),
        Alignment::Left => if w < 1 {
            seq!['-']
        } else {
            seq![':'] + rep('-', (w - 1) as nat)
        },
        Alignment::Right => if w < 1 {
            seq!['-']
        } else {
            rep('-', (w - 1) as nat) + seq![':']
        },
        Alignment::Center => if w < 2 {
            seq![':', '-', ':']
        } else {
            seq![':'] + rep('-', (w - 2) as nat) + seq![':']
        },
    }
}

pub open spec fn header_piece(t: TableView, c: int) -> Seq<char> {
    pad(t.alignments[c], escape(t.headers[c].content), col_width(t, c)) + seq!['|']
}

pub open spec fn header_pieces(t: TableView, n: nat) -> Seq<Seq<char>> {
    Seq::new(n, |c: int| header_piece(t, c))
}

/// The header line: each header cell padded to its column.
pub open spec fn pretty_header(t: TableView) -> Seq<char> {
    seq!['|'] + concat(header_pieces(t, t.headers.len())) + seq!['\n']
}

pub open spec fn sep_piece(t: TableView, c: int) -> Seq<char> {
    seq![' '] + sep_inner(t.alignments[c], col_width(t, c)) + seq![' ', '|']
}

pub open spec fn sep_pieces(t: TableView, n: nat) -> Seq<Seq<char>> {
    Seq::new(n, |c: int| sep_piece(t, c))
}

pub open spec fn pretty_separator(t: TableView) -> Seq<char> {
    seq!['|'] + concat(sep_pieces(t, t.alignments.len())) + seq!['\n']
}

pub open spec fn row_piece(t: TableView, row: Seq<CellView>, c: int) -> Seq<char> {
    pad(
        t.alignments[c],
        if c < row.len() {
            escape(row[c].content)
        } else {
            seq![]
        },
        col_width(t, c),
    ) + seq!['|']
}

pub open spec fn row_pieces(t: TableView, row: Seq<CellView>, n: nat) -> Seq<Seq<char>> {
    Seq::new(n, |c: int| row_piece(t, row, c))
}

/// A body row: one padded cell per column, cells past the last column
/// dropped and missing cells written empty.
pub open spec fn pretty_row(t: TableView, row: Seq<CellView>) -> Seq<char> {
    seq!['|'] + concat(row_pieces(t, row, t.alignments.len())) + seq!['\n']
}

pub open spec fn pretty_rows(t: TableView, rows: Seq<Seq<CellView>>) -> Seq<Seq<char>> {
    rows.map_values(|r: Seq<CellView>| pretty_row(t, r))
}

pub open spec fn pretty_text(t: TableView) -> Seq<char> {
    pretty_header(t) + pretty_separator(t) + concat(pretty_rows(t, t.rows))
}

fn push_sep_inner(out: &mut Vec<char>, a: Alignment, w: usize)
    ensures
        final(out)@ == old(out)@ + sep_inner(a, w as nat),
{
    let ghost o = out@;
    match a {
        Alignment::Unaligned => {
            push_rep(out, '-', w);
        },
        Alignment::Left => {
            if w < 1 {
                out.push('-');
            } else {
                out.push(':');
                push_rep(out, '-', w - 1);
            }
        },
        Alignment::Right => {
            if w < 1 {
                out.push('-');
            } else {
                push_rep(out, '-', w - 1);
                out.push(':');
            }
        },
        Alignment::Center => {
            if w < 2 {
                out.push(':');
                out.push('-');
                out.push(':');
            } else {
                out.push(':');
                push_rep(out, '-', w - 2);
                out.push(':');
            }
        },
    }
    assert(out@ =~= o + sep_inner(a, w as nat));
}

/// Write the table with every column padded to its widest cell; the
/// layout for newly created tables.
pub fn to_gfm_pretty(table: &MarkdownTable) -> (r: String)
    requires
        table@.headers.len() <= table@.alignments.len(),
        sizes_ok(table@),
    ensures
        r@ == pretty_text(table@),
{
    let ghost t = table@;
    let widths = column_widths(table);
    let mut out: Vec<char> = Vec::new();
    out.push('|');
    let mut col: usize = 0;
    assert(header_pieces(t, 0) =~= Seq::<Seq<char>>::empty());
    assert(out@ =~= seq!['|'] + concat(header_pieces(t, 0)));
    while col < table.headers.len()
        invariant
            t == table@,
            t.headers.len() <= t.alignments.len(),
            widths@.len() == t.alignments.len(),
            forall|c: int| 0 <= c < widths@.len() ==> #[trigger] widths@[c] == col_width(t, c),
            col <= t.headers.len(),
            out@ == seq!['|'] + concat(header_pieces(t, col as nat)),
        decreases t.headers.len() - col,
    {
        let e = escape_chars(chars_of(table.headers[col].content.as_str()).as_slice());
        assert(cells_view(table.headers@)[col as int] == table.headers@[col as int]@);
        push_padded(&mut out, table.alignments[col], e.as_slice(), widths[col]);
        out.push('|');
        proof {
            assert(header_pieces(t, (col + 1) as nat) =~= header_pieces(t, col as nat).push(header_piece(t, col as int)));
            lemma_concat_push(header_pieces(t, col as nat), header_piece(t, col as int));
        }
        col = col + 1;
    }
    out.push('\n');
    assert(out@ =~= pretty_header(t));
    let ghost sep_start = out@;
    out.push('|');
    let mut col: usize = 0;
    assert(sep_pieces(t, 0) =~= Seq::<Seq<char>>::empty());
    assert(out@ =~= sep_start + seq!['|'] + concat(sep_pieces(t, 0)));
    while col < table.alignments.len()
        invariant
            t == table@,
            widths@.len() == t.alignments.len(),
            forall|c: int| 0 <= c < widths@.len() ==> #[trigger] widths@[c] == col_width(t, c),
            col <= t.alignments.len(),
            out@ == sep_start + seq!['|'] + concat(sep_pieces(t, col as nat)),
        decreases t.alignments.len() - col,
    {
        out.push(' ');
        push_sep_inner(&mut out, table.alignments[col], widths[col]);
        out.push(' ');
        out.push('|');
        proof {
            assert(sep_pieces(t, (col + 1) as nat) =~= sep_pieces(t, col as nat).push(sep_piece(t, col as int)));
            lemma_concat_push(sep_pieces(t, col as nat), sep_piece(t, col as int));
        }
        col = col + 1;
    }
    out.push('\n');
    assert(out@ =~= pretty_header(t) + pretty_separator(t));
    let ghost body_start = out@;
    let mut k: usize = 0;
    assert(pretty_rows(t, t.rows.take(0)) =~= Seq::<Seq<char>>::empty());
    while k < table.rows.len()
        invariant
            t == table@,
            widths@.len() == t.alignments.len(),
            forall|c: int| 0 <= c < widths@.len() ==> #[trigger] widths@[c] == col_width(t, c),
            k <= t.rows.len(),
            out@ == body_start + concat(pretty_rows(t, t.rows.take(k as int))),
        decreases t.rows.len() - k,
    {
        let row = &table.rows[k];
        let ghost rvw = cells_view(row@);
        assert(rows_view(table.rows@)[k as int] == rvw);
        let ghost line_start = out@;
        out.push('|');
        let mut col: usize = 0;
        assert(row_pieces(t, rvw, 0) =~= Seq::<Seq<char>>::empty());
        assert(out@ =~= line_start + seq!['|'] + concat(row_pieces(t, rvw, 0)));
        while col < table.alignments.len()
            invariant
                t == table@,
                rvw == cells_view(row@),
                widths@.len() == t.alignments.len(),
                forall|c: int| 0 <= c < widths@.len() ==> #[trigger] widths@[c] == col_width(t, c),
                col <= t.alignments.len(),
                out@ == line_start + seq!['|'] + concat(row_pieces(t, rvw, col as nat)),
            decreases t.alignments.len() - col,
        {
            if col < row.len() {
                let e = escape_chars(chars_of(row[col].content.as_str()).as_slice());
                assert(rvw[col as int] == row@[col as int]@);
                push_padded(&mut out, table.alignments[col], e.as_slice(), widths[col]);
            } else {
                let e: Vec<char> = Vec::new();
                assert(e@ =~= Seq::<char>::empty());
                push_padded(&mut out, table.alignments[col], e.as_slice(), widths[col]);
            }
            out.push('|');
            proof {
                assert(row_pieces(t, rvw, (col + 1) as nat) =~= row_pieces(t, rvw, col as nat).push(row_piece(t, rvw, col as int)));
                lemma_concat_push(row_pieces(t, rvw, col as nat), row_piece(t, rvw, col as int));
            }
            col = col + 1;
        }
        out.push('\n');
        proof {
            assert(out@ =~= line_start + pretty_row(t, rvw));
            assert(pretty_rows(t, t.rows.take(k + 1)) =~= pretty_rows(t, t.rows.take(k as int)).push(pretty_row(t, t.rows[k as int])));
            lemma_concat_push(pretty_rows(t, t.rows.take(k as int)), pretty_row(t, t.rows[k as int]));
        }
        k = k + 1;
    }
    assert(t.rows.take(k as int) =~= t.rows);
    assert(out@ =~= pretty_text(t));
    string_of(out.as_slice())
}

// ---------------------------------------------------------------------
// The column-widths comment
// ---------------------------------------------------------------------

pub open spec fn width_text(w: Option<u32>) -> Seq<char> {
    match w {
        Some(n) => dec(n as nat),
        None => seq![],
    }
}

/// The widths joined by commas.
pub open spec fn joined_widths(ws: Seq<Option<u32>>) -> Seq<char>
    decreases ws.len(),
{
    if ws.len() == 0 {
        seq![]
    } else if ws.len() == 1 {
        width_text(ws[0])
    } else {
        joined_widths(ws.drop_last()) + seq![','] + width_text(ws.last())
    }
}

/// The persistence comment for the widths, when any column has one.
pub open spec fn widths_comment_text(ws: Seq<Option<u32>>) -> Option<Seq<char>> {
    if forall|i: int| 0 <= i < ws.len() ==> #[trigger] ws[i] is None {
        None
    } else {
        Some("<!-- rmd-cols: "@ + joined_widths(ws) + " -->"@)
    }
}

/// The `<!-- rmd-cols: ... -->` comment for `widths`, or `None` when no
/// column has a width. `Some(180)` is written `180`, `None` as nothing;
/// the comment reads back through `extract_column_widths_comment`.
pub fn build_column_widths_comment(widths: &[Option<u32>]) -> (r: Option<String>)
    ensures
        match r {
            Some(v) => widths_comment_text(widths@) == Some(v@),
            None => widths_comment_text(widths@) is None,
        },
{
    match comment_chars(widths) {
        Some(v) => Some(string_of(v.as_slice())),
        None => None,
    }
}

fn comment_chars(widths: &[Option<u32>]) -> (r: Option<Vec<char>>)
    ensures
        match r {
            Some(v) => widths_comment_text(widths@) == Some(v@),
            None => widths_comment_text(widths@) is None,
        },
{
    let mut any = false;
    let mut i: usize = 0;
    while i < widths.len()
        invariant
            i <= widths@.len(),
            any == exists|j: int| 0 <= j < i && !(#[trigger] widths@[j] is None),
        decreases widths@.len() - i,
    {
        if widths[i].is_some() {
            any = true;
        }
        i = i + 1;
    }
    if !any {
        return None;
    }
    let mut out: Vec<char> = Vec::new();
    crate::text::push_str(&mut out, "<!-- rmd-cols: ");
    let ghost head = out@;
    let mut i: usize = 0;
    assert(widths@.take(0) =~= Seq::<Option<u32>>::empty());
    while i < widths.len()
        invariant
            i <= widths@.len(),
            out@ == head + joined_widths(widths@.take(i as int)),
        decreases widths@.len() - i,
    {
        if i > 0 {
            out.push(',');
        }
        match widths[i] {
            Some(n) => push_dec(&mut out, n as u64),
            None => {},
        }
        proof {
            let p = widths@.take(i + 1);
            assert(p.drop_last() =~= widths@.take(i as int));
            assert(p.last() == widths@[i as int]);
            if i == 0 {
                assert(p.len() == 1);
            }
        }
        i = i + 1;
    }
    assert(widths@.take(i as int) =~= widths@);
    crate::text::push_str(&mut out, " -->");
    Some(out)
}

// ---------------------------------------------------------------------
// Preserve layout
// ---------------------------------------------------------------------

/// The spans of a line are ordered, do not overlap, and start and end
/// on character boundaries of the line.
pub open spec fn spans_ok(raw: Seq<char>, spans: Seq<(usize, usize)>) -> bool {
    &&& forall|j: int|
        0 <= j < spans.len() ==> is_boundary(raw, #[trigger] spans[j].0 as int) && is_boundary(
            raw,
            spans[j].1 as int,
        ) && spans[j].0 <= spans[j].1
    &&& forall|j: int, k: int| 0 <= j < k < spans.len() ==> spans[j].1 <= spans[k].0
}

/// Character index where span `j` starts or ends.
pub open spec fn span_lo(raw: Seq<char>, spans: Seq<(usize, usize)>, j: int) -> int {
    char_at_byte(raw, spans[j].0 as int)
}

pub open spec fn span_hi(raw: Seq<char>, spans: Seq<(usize, usize)>, j: int) -> int {
    char_at_byte(raw, spans[j].1 as int)
}

/// Where the text before span `j` begins: the end of span `j - 1`.
pub open spec fn gap_start(raw: Seq<char>, spans: Seq<(usize, usize)>, j: int) -> int {
    if j == 0 {
        0
    } else {
        span_hi(raw, spans, j - 1)
    }
}

/// The new text of a cell written over the original text `orig` of its
/// span: the original padding (at least one space each side) around
/// the escaped content, which is padded to the original content width.
pub open spec fn respan(orig: Seq<char>, content: Seq<char>) -> Seq<char> {
    let lead = pad_right(orig, 0);
    let trail = orig.len() - pad_left(orig, orig.len() as int);
    let e = escape(content);
    let inner = max_nat(trim(orig).len(), e.len());
    rep(' ', max_nat(lead as nat, 1)) + e + rep(' ', (inner - e.len()) as nat) + rep(
        ' ',
        max_nat(trail as nat, 1),
    )
}

pub open spec fn rebuild_piece(raw: Seq<char>, spans: Seq<(usize, usize)>, cells: Seq<CellView>, j: int) -> Seq<
    char,
> {
    raw.subrange(gap_start(raw, spans, j), span_lo(raw, spans, j)) + respan(
        raw.subrange(span_lo(raw, spans, j), span_hi(raw, spans, j)),
        cells[j].content,
    )
}

pub open spec fn rebuild_pieces(raw: Seq<char>, spans: Seq<(usize, usize)>, cells: Seq<CellView>, n: nat) -> Seq<
    Seq<char>,
> {
    Seq::new(n, |j: int| rebuild_piece(raw, spans, cells, j))
}

/// A captured line with the current cells written into its spans; a
/// line whose cell count no longer matches is written compactly.
pub open spec fn rebuilt_line(l: LineView, cells: Seq<CellView>) -> Seq<char> {
    if l.cell_spans.len() != cells.len() {
        compact_line_text(cells)
    } else {
        let n = cells.len();
        concat(rebuild_pieces(l.raw, l.cell_spans, cells, n)) + l.raw.subrange(
            gap_start(l.raw, l.cell_spans, n as int),
            l.raw.len() as int,
        )
    }
}

fn respan_exec(orig: &[char], content: &str) -> (r: Vec<char>)
    requires
        4 * content@.len() + 8 <= usize::MAX,
    ensures
        r@ == respan(orig@, content@),
{
    let lead = crate::tables::parse::pad_right_exec(orig, 0);
    let tail_start = crate::tables::parse::pad_left_exec(orig, orig.len());
    proof {
        crate::tables::parse::lemma_pad_bounds(orig@, 0);
        crate::tables::parse::lemma_pad_bounds(orig@, orig@.len() as int);
        lemma_escape_len(content@);
    }
    let trail = orig.len() - tail_start;
    let e = escape_chars(chars_of(content).as_slice());
    let inner_len = trimmed(orig).len();
    let inner = if inner_len >= e.len() { inner_len } else { e.len() };
    let mut out: Vec<char> = Vec::new();
    push_rep(&mut out, ' ', if lead >= 1 { lead } else { 1 });
    push_all(&mut out, e.as_slice());
    push_rep(&mut out, ' ', inner - e.len());
    push_rep(&mut out, ' ', if trail >= 1 { trail } else { 1 });
    assert(out@ =~= respan(orig@, content@));
    out
}

pub open spec fn cells_small(cells: Seq<CellView>) -> bool {
    forall|c: int| 0 <= c < cells.len() ==> 4 * #[trigger] cells[c].content.len() + 8 <= usize::MAX
}

/// Rewrite a captured line with the current cells, keeping everything
/// outside the cells' spans byte for byte.
fn rebuild_line(line: &OriginalLine, cells: &Vec<Cell>) -> (r: Vec<char>)
    requires
        spans_ok(line@.raw, line@.cell_spans),
        cells_small(cells_view(cells@)),
    ensures
        r@ == rebuilt_line(line@, cells_view(cells@)),
{
    let ghost l = line@;
    let ghost cv = cells_view(cells@);
    if line.cell_spans.len() != cells.len() {
        return compact_line(cells);
    }
    let raw = chars_of(line.raw.as_str());
    let n = cells.len();
    let mut out: Vec<char> = Vec::new();
    let mut prev: usize = 0;
    let mut j: usize = 0;
    assert(rebuild_pieces(l.raw, l.cell_spans, cv, 0) =~= Seq::<Seq<char>>::empty());
    while j < n
        invariant
            l == line@,
            cv == cells_view(cells@),
            cells_small(cv),
            raw@ == l.raw,
            spans_ok(l.raw, l.cell_spans),
            n == cells@.len(),
            n == l.cell_spans.len(),
            j <= n,
            prev == gap_start(l.raw, l.cell_spans, j as int),
            prev <= raw@.len(),
            out@ == concat(rebuild_pieces(l.raw, l.cell_spans, cv, j as nat)),
        decreases n - j,
    {
        let sp = &line.cell_spans[j];
        assert(l.cell_spans[j as int] == rv(line.cell_spans@[j as int]));
        let lo = match char_index(raw.as_slice(), sp.start) {
            Some(k) => k,
            None => {
                assert(false);
                0
            },
        };
        let hi = match char_index(raw.as_slice(), sp.end) {
            Some(k) => k,
            None => {
                assert(false);
                0
            },
        };
        proof {
            assert(spans_ok(l.raw, l.cell_spans));
            let spj = l.cell_spans[j as int];
            assert(is_boundary(l.raw, spj.0 as int) && is_boundary(l.raw, spj.1 as int) && spj.0 <= spj.1);
            if hi < lo {
                lemma_boff_mono(raw@, hi as int, lo as int);
            }
            if j > 0 {
                let pj = (j - 1) as int;
                assert(l.cell_spans[pj].1 <= l.cell_spans[j as int].0);
                if lo < prev {
                    lemma_boff_mono(raw@, lo as int, prev as int);
                }
            }
        }
        let gap = slice_vec(raw.as_slice(), prev, lo);
        push_all(&mut out, gap.as_slice());
        let orig = slice_vec(raw.as_slice(), lo, hi);
        assert(cv[j as int] == cells@[j as int]@);
        assert(4 * cv[j as int].content.len() + 8 <= usize::MAX);
        let p = respan_exec(orig.as_slice(), cells[j].content.as_str());
        push_all(&mut out, p.as_slice());
        proof {
            let x = rebuild_piece(l.raw, l.cell_spans, cv, j as int);
            assert(x =~= gap@ + p@);
            assert(rebuild_pieces(l.raw, l.cell_spans, cv, (j + 1) as nat) =~= rebuild_pieces(l.raw, l.cell_spans, cv, j as nat).push(x));
            lemma_concat_push(rebuild_pieces(l.raw, l.cell_spans, cv, j as nat), x);
        }
        prev = hi;
        j = j + 1;
    }
    let tail = slice_vec(raw.as_slice(), prev, raw.len());
    push_all(&mut out, tail.as_slice());
    out
}

/// One captured line in the preserve layout, with its line end. The
/// separator is kept as it was; a body line whose row is gone is dropped.
pub open spec fn preserve_line(t: TableView, l: LineView) -> Seq<char> {
    match l.kind {
        LineKind::Header => rebuilt_line(l, t.headers) + seq!['\n'],
        LineKind::Separator => l.raw + seq!['\n'],
        LineKind::Body { row_index } => if row_index < t.rows.len() {
            rebuilt_line(l, t.rows[row_index as int]) + seq!['\n']
        } else {
            seq![]
        },
    }
}

pub open spec fn preserve_lines(t: TableView, ls: Seq<LineView>) -> Seq<Seq<char>> {
    ls.map_values(|l: LineView| preserve_line(t, l))
}

/// The preserve layout; without captured lines, the pretty one.
pub open spec fn preserve_text(t: TableView) -> Seq<char> {
    match t.original_lines {
        Some(ls) => concat(preserve_lines(t, ls)),
        None => pretty_text(t),
    }
}

/// The header fits the columns and cell contents are of a size whose
/// widths can be counted.
pub open spec fn cells_ok(t: TableView) -> bool {
    &&& t.headers.len() <= t.alignments.len()
    &&& sizes_ok(t)
}

/// The captured lines, if any, have well-formed spans.
pub open spec fn lines_ok(t: TableView) -> bool {
    match t.original_lines {
        Some(ls) => forall|i: int| 0 <= i < ls.len() ==> spans_ok(#[trigger] ls[i].raw, ls[i].cell_spans),
        None => true,
    }
}

/// What writing a table in its own layout needs.
pub open spec fn writable(t: TableView) -> bool {
    &&& cells_ok(t)
    &&& t.style == TableStyle::PreserveOriginal ==> lines_ok(t)
}

/// Replay the captured original lines, rewriting only the cells; cells
/// that did not change come out byte for byte as they were.
pub fn to_gfm_preserve(table: &MarkdownTable, buffer: &str) -> (r: String)
    requires
        cells_ok(table@),
        lines_ok(table@),
    ensures
        r@ == preserve_text(table@),
{
    let ghost t = table@;
    let originals = match &table.original_lines {
        Some(ls) => ls,
        None => {
            return to_gfm_pretty(table);
        },
    };
    let ghost lv = lines_view(originals@);
    let mut out: Vec<char> = Vec::new();
    let mut i: usize = 0;
    assert(preserve_lines(t, lv.take(0)) =~= Seq::<Seq<char>>::empty());
    while i < originals.len()
        invariant
            t == table@,
            cells_ok(t),
            lines_ok(t),
            t.original_lines == Some(lv),
            lv == lines_view(originals@),
            i <= originals@.len(),
            out@ == concat(preserve_lines(t, lv.take(i as int))),
        decreases originals@.len() - i,
    {
        let line = &originals[i];
        assert(lv[i as int] == line@);
        let ghost before = out@;
        match line.kind {
            LineKind::Header => {
                proof {
                    assert forall|c: int| 0 <= c < t.headers.len() implies 4 * #[trigger] t.headers[c].content.len() + 8 <= usize::MAX by {}
                }
                let r = rebuild_line(line, &table.headers);
                push_all(&mut out, r.as_slice());
                out.push('\n');
            },
            LineKind::Separator => {
                let raw = chars_of(line.raw.as_str());
                push_all(&mut out, raw.as_slice());
                out.push('\n');
            },
            LineKind::Body { row_index } => {
                if row_index < table.rows.len() {
                    assert(rows_view(table.rows@)[row_index as int] == cells_view(table.rows@[row_index as int]@));
                    proof {
                        let row = t.rows[row_index as int];
                        assert forall|c: int| 0 <= c < row.len() implies 4 * #[trigger] row[c].content.len() + 8 <= usize::MAX by {}
                    }
                    let r = rebuild_line(line, &table.rows[row_index]);
                    push_all(&mut out, r.as_slice());
                    out.push('\n');
                }
            },
        }
        proof {
            let x = preserve_line(t, lv[i as int]);
            assert(out@ =~= before + x);
            assert(preserve_lines(t, lv.take(i + 1)) =~= preserve_lines(t, lv.take(i as int)).push(x));
            lemma_concat_push(preserve_lines(t, lv.take(i as int)), x);
        }
        i = i + 1;
    }
    assert(lv.take(i as int) =~= lv);
    string_of(out.as_slice())
}

/// The table's text in its own layout.
pub open spec fn layout_text(t: TableView) -> Seq<char> {
    match t.style {
        TableStyle::Compact => compact_text(t),
        TableStyle::Pretty => pretty_text(t),
        TableStyle::PreserveOriginal => preserve_text(t),
    }
}

/// The table's text in its own layout, after the width comment when any
/// column has a width.
pub open spec fn gfm_text(t: TableView) -> Seq<char> {
    match widths_comment_text(t.column_widths) {
        Some(c) => c + seq!['\n'] + layout_text(t),
        None => layout_text(t),
    }
}

/// Write a table as GFM in its own style. When any column has a width,
/// the `<!-- rmd-cols: ... -->` comment comes first, on its own line.
pub fn to_gfm(table: &MarkdownTable, buffer: &str) -> (r: String)
    requires
        writable(table@),
    ensures
        r@ == gfm_text(table@),
{
    let body = match table.style {
        TableStyle::Compact => to_gfm_compact(table),
        TableStyle::Pretty => to_gfm_pretty(table),
        TableStyle::PreserveOriginal => to_gfm_preserve(table, buffer),
    };
    match comment_chars(table.column_widths.as_slice()) {
        Some(c) => {
            let mut out = c;
            out.push('\n');
            let b = chars_of(body.as_str());
            push_all(&mut out, b.as_slice());
            string_of(out.as_slice())
        },
        None => body,
    }
}

// ---------------------------------------------------------------------
// Re-deriving cell ranges from written text
// ---------------------------------------------------------------------

/// Byte length of the lines, each with one line end.
pub open spec fn lines_total(ls: Seq<Seq<char>>) -> nat
    decreases ls.len(),
{
    if ls.len() == 0 {
        0
    } else {
        blen(ls[0]) + 1 + lines_total(ls.drop_first())
    }
}

pub proof fn lemma_lines_total(s: Seq<char>)
    ensures
        lines_total(crate::text::lines(s)) <= blen(s) + 1,
    decreases s.len(),
{
    if s.len() > 0 {
        let k = crate::text::find_char(s, '\n');
        crate::text::lemma_find_char(s, '\n');
        if k < s.len() {
            let rest = s.skip(k + 1 as int);
            lemma_lines_total(rest);
            assert(s =~= s.take(k + 1 as int) + rest);
            crate::text::lemma_blen_concat(s.take(k + 1 as int), rest);
            let first = crate::text::strip_cr(s.take(k as int));
            assert(s.take(k + 1 as int).drop_last() =~= s.take(k as int));
            assert(crate::text::lines(s) == seq![first] + crate::text::lines(rest));
            assert((seq![first] + crate::text::lines(rest)).drop_first() =~= crate::text::lines(rest));
            if s.take(k as int).len() > 0 && s.take(k as int).last() == '\r' {
                assert(first =~= s.take(k as int).drop_last());
            }
            assert(blen(s.take(k + 1 as int)) == blen(s.take(k as int)) + crate::text::cw('\n'));
            assert(blen(first) <= blen(s.take(k as int)));
            let ls = crate::text::lines(s);
            assert(ls[0] == first);
            assert(lines_total(ls) == blen(ls[0]) + 1 + lines_total(ls.drop_first()));
            assert(ls.drop_first() =~= crate::text::lines(rest));
        } else {
            assert(crate::text::lines(s) == seq![s]);
            assert(seq![s].drop_first() =~= Seq::<Seq<char>>::empty());
            assert(lines_total(Seq::<Seq<char>>::empty()) == 0);
            assert(lines_total(seq![s]) == blen(s) + 1 + lines_total(seq![s].drop_first()));
        }
    }
}

/// `cells` with the ranges of the first `spans.len()` cells set from
/// `spans`, offset by `at`.
pub open spec fn respan_cells(cells: Seq<CellView>, at: int, spans: Seq<(usize, usize)>) -> Seq<CellView> {
    Seq::new(
        cells.len(),
        |c: int|
            if c < spans.len() {
                CellView { range: ((at + spans[c].0) as usize, (at + spans[c].1) as usize), ..cells[c] }
            } else {
                cells[c]
            },
    )
}

/// New cell ranges from the lines of a table's text starting at byte
/// `cursor`: header lines set the header, body lines set the next row;
/// blank lines, the width comment and the separator only advance.
pub open spec fn refresh_from(
    h: Seq<CellView>,
    rows: Seq<Seq<CellView>>,
    ls: Seq<Seq<char>>,
    cursor: int,
    seen: bool,
    row: int,
) -> (Seq<CellView>, Seq<Seq<CellView>>)
    decreases ls.len(),
{
    if ls.len() == 0 {
        (h, rows)
    } else {
        let l = ls[0];
        let rest = ls.drop_first();
        let next = cursor + blen(l) + 1;
        if trim(l).len() == 0 || crate::tables::parse::cols_comment(l) {
            refresh_from(h, rows, rest, next, seen, row)
        } else if crate::tables::parse::separator_line(l) {
            refresh_from(h, rows, rest, next, true, row)
        } else if !seen {
            refresh_from(respan_cells(h, cursor, crate::tables::parse::byte_spans(l)), rows, rest, next, seen, row)
        } else if 0 <= row < rows.len() {
            refresh_from(
                h,
                rows.update(row, respan_cells(rows[row], cursor, crate::tables::parse::byte_spans(l))),
                rest,
                next,
                seen,
                row + 1,
            )
        } else {
            refresh_from(h, rows, rest, next, seen, row + 1)
        }
    }
}

/// The text of a table in the buffer.
pub open spec fn source_of(t: TableView, buf: Seq<char>) -> Seq<char> {
    buf.subrange(char_at_byte(buf, t.range.0 as int), char_at_byte(buf, t.range.1 as int))
}

/// The table with its cell ranges re-derived from its text in `buf`;
/// Pretty and Compact tables drop their captured lines, and captured
/// lines of a PreserveOriginal table are captured again.
pub open spec fn refreshed(t: TableView, buf: Seq<char>) -> TableView {
    let src = source_of(t, buf);
    let (h, r) = refresh_from(t.headers, t.rows, crate::text::lines(src), t.range.0 as int, false, 0);
    TableView {
        headers: h,
        rows: r,
        original_lines: match t.style {
            TableStyle::PreserveOriginal => match t.original_lines {
                Some(_) => Some(crate::tables::parse::captured(src)),
                None => None,
            },
            _ => None,
        },
        ..t
    }
}

fn respan_row(cells: &Vec<Cell>, at: usize, spans: &Vec<Range<usize>>) -> (out: Vec<Cell>)
    requires
        forall|c: int| 0 <= c < spans@.len() ==> at + (#[trigger] spans@[c]).end <= usize::MAX && at + spans@[c].start <= usize::MAX,
    ensures
        cells_view(out@) == respan_cells(cells_view(cells@), at as int, crate::tables::parse::ranges_view(spans@)),
{
    let ghost sv = crate::tables::parse::ranges_view(spans@);
    let mut out: Vec<Cell> = Vec::new();
    let mut i: usize = 0;
    while i < cells.len()
        invariant
            i <= cells@.len(),
            sv == crate::tables::parse::ranges_view(spans@),
            forall|c: int| 0 <= c < spans@.len() ==> at + (#[trigger] spans@[c]).end <= usize::MAX && at + spans@[c].start <= usize::MAX,
            cells_view(out@) =~= respan_cells(cells_view(cells@), at as int, sv).take(i as int),
        decreases cells@.len() - i,
    {
        let c = &cells[i];
        assert(cells_view(cells@)[i as int] == c@);
        let nc = if i < spans.len() {
            assert(sv[i as int] == rv(spans@[i as int]));
            Cell {
                source_range: Range { start: at + spans[i].start, end: at + spans[i].end },
                content: c.content.clone(),
                leading_ws: c.leading_ws,
                trailing_ws: c.trailing_ws,
            }
        } else {
            c.clone()
        };
        let ghost before = out@;
        out.push(nc);
        proof {
            assert(cells_view(before).len() == before.len());
            assert(cells_view(out@) =~= cells_view(before).push(nc@));
        }
        i = i + 1;
    }
    out
}

/// Re-derive every cell's byte range by scanning the table's text in
/// `buffer`, and drop or re-capture the original lines by style.
fn refresh_internal_ranges(table: &mut MarkdownTable, buffer: &str)
    requires
        crate::tables::parse::valid_range(buffer@, old(table)@.range.0 as int, old(table)@.range.1 as int),
        blen(buffer@) < usize::MAX,
    ensures
        final(table)@ == refreshed(old(table)@, buffer@),
{
    let ghost t0 = table@;
    let s = chars_of(buffer);
    let lo = match char_index(s.as_slice(), table.source_range.start) {
        Some(k) => k,
        None => {
            assert(false);
            0
        },
    };
    let hi = match char_index(s.as_slice(), table.source_range.end) {
        Some(k) => k,
        None => {
            assert(false);
            0
        },
    };
    proof {
        if hi < lo {
            lemma_boff_mono(s@, hi as int, lo as int);
        }
    }
    let src = slice_vec(s.as_slice(), lo, hi);
    assert(src@ == source_of(t0, buffer@));
    let ghost sv = src@;
    proof {
        crate::text::lemma_blen_concat(s@.take(lo as int), sv);
        assert(s@.take(hi as int) =~= s@.take(lo as int) + sv);
        lemma_boff_mono(s@, hi as int, s@.len() as int);
        lemma_lines_total(sv);
        crate::tables::parse::lemma_lines_blen(sv);
    }
    let ls = crate::text::lines_of(src.as_slice());
    let ghost lsv = crate::text::views(ls@);
    let ghost target = refresh_from(t0.headers, t0.rows, lsv, t0.range.0 as int, false, 0);
    let mut cursor: usize = table.source_range.start;
    let mut seen = false;
    let mut row: usize = 0;
    let mut i: usize = 0;
    assert(lsv.skip(0) =~= lsv);
    while i < ls.len()
        invariant
            lsv == crate::text::views(ls@),
            lsv == crate::text::lines(sv),
            forall|j: int| 0 <= j < lsv.len() ==> blen(#[trigger] lsv[j]) <= blen(sv),
            blen(sv) + t0.range.0 <= blen(buffer@),
            blen(buffer@) < usize::MAX,
            i <= ls@.len(),
            row <= i,
            cursor + lines_total(lsv.skip(i as int)) <= t0.range.0 + blen(sv) + 1,
            target == refresh_from(table@.headers, table@.rows, lsv.skip(i as int), cursor as int, seen, row as int),
            table@ == (TableView { headers: table@.headers, rows: table@.rows, ..t0 }),
            table@.rows.len() == t0.rows.len(),
        decreases ls@.len() - i,
    {
        let line = &ls[i];
        let ghost rest = lsv.skip(i as int);
        assert(rest[0] == line@);
        assert(rest.drop_first() =~= lsv.skip(i + 1));
        assert(lsv[i as int] == line@);
        let ghost len_line = blen(line@);
        let text = string_of(line.as_slice());
        let lb = crate::text::byte_offset(line.as_slice(), line.len());
        assert(line@.take(line@.len() as int) =~= line@);
        let next = cursor + lb + 1;
        if crate::text::is_blank(line.as_slice()) || crate::tables::parse::is_rmd_cols_comment(text.as_str()) {
        } else if crate::tables::parse::is_separator_line(text.as_str()) {
            seen = true;
        } else {
            let spans = crate::tables::parse::split_cells(text.as_str());
            proof {
                crate::tables::parse::lemma_byte_spans_ok(line@);
                assert forall|c: int| 0 <= c < spans@.len() implies cursor + (#[trigger] spans@[c]).end <= usize::MAX && cursor + spans@[c].start <= usize::MAX by {
                    let bs = crate::tables::parse::byte_spans(line@);
                    assert(bs[c] == rv(spans@[c]));
                    assert(bs[c].0 <= bs[c].1 <= blen(line@));
                }
            }
            if !seen {
                let nh = respan_row(&table.headers, cursor, &spans);
                table.headers = nh;
            } else {
                if row < table.rows.len() {
                    assert(rows_view(table.rows@)[row as int] == cells_view(table.rows@[row as int]@));
                    let nr = respan_row(&table.rows[row], cursor, &spans);
                    let ghost before = table.rows@;
                    table.rows.set(row, nr);
                    proof {
                        assert(rows_view(table.rows@) =~= rows_view(before).update(row as int, cells_view(nr@)));
                    }
                }
                row = row + 1;
            }
        }
        cursor = next;
        i = i + 1;
    }
    assert(lsv.skip(i as int) =~= Seq::<Seq<char>>::empty());
    match table.style {
        TableStyle::PreserveOriginal => {
            if table.original_lines.is_some() {
                let text = string_of(src.as_slice());
                let lines = crate::tables::parse::capture_original_lines(text.as_str());
                table.original_lines = Some(lines);
            }
        },
        _ => {
            table.original_lines = None;
        },
    }
}

// ---------------------------------------------------------------------
// Writing a table back into the buffer
// ---------------------------------------------------------------------

/// The numbers of an [`EditDelta`].
pub open spec fn delta_view(d: EditDelta) -> (isize, (usize, usize), (usize, usize)) {
    (d.byte_delta, rv(d.patched_range), rv(d.new_range))
}

/// The buffer after `text` replaces the table's range.
pub open spec fn rewritten_buffer(t: TableView, buf: Seq<char>, text: Seq<char>) -> Seq<char> {
    crate::text::splice(buf, t.range.0 as int, t.range.1 as int, text)
}

/// The table after `text` replaces its range: the range covers the new
/// text, the cell ranges are read again from it, and a PreserveOriginal
/// table captures its lines from it.
pub open spec fn rewritten_table(t: TableView, buf: Seq<char>, text: Seq<char>) -> TableView {
    let moved = TableView { range: (t.range.0, (t.range.0 + blen(text)) as usize), ..t };
    let r = refreshed(moved, rewritten_buffer(t, buf, text));
    if t.style == TableStyle::PreserveOriginal {
        TableView { original_lines: Some(crate::tables::parse::captured(text)), ..r }
    } else {
        r
    }
}

/// The delta of a rewrite: size change, old range, new range.
pub open spec fn rewrite_delta(t: TableView, text: Seq<char>) -> (isize, (usize, usize), (usize, usize)) {
    (
        (blen(text) - (t.range.1 - t.range.0)) as isize,
        t.range,
        (t.range.0, (t.range.0 + blen(text)) as usize),
    )
}

/// The buffer stays within the size of an allocation after the rewrite.
pub open spec fn fits(t: TableView, buf: Seq<char>, text: Seq<char>) -> bool {
    blen(buf) - (t.range.1 - t.range.0) + blen(text) < isize::MAX
}

/// The table and its buffer agree: the table's range is a character
/// range of the buffer, and the buffer is within allocation size.
pub open spec fn placed(t: TableView, buf: Seq<char>) -> bool {
    &&& crate::tables::parse::valid_range(buf, t.range.0 as int, t.range.1 as int)
    &&& blen(buf) < isize::MAX
}

pub open spec fn too_large(e: ErrorView) -> bool {
    e == ErrorView::InvalidStructure("table too large"@)
}

fn too_large_error() -> (e: TableError)
    ensures
        too_large(e@),
{
    TableError::InvalidStructure(String::from_str("table too large"))
}

/// Write `text` over the table's range, move the table's range to it
/// and read the cell ranges again.
fn rewrite(table: &mut MarkdownTable, buffer: &mut String, text: &[char]) -> (r: Result<EditDelta, TableError>)
    requires
        placed(old(table)@, old(buffer)@),
    ensures
        fits(old(table)@, old(buffer)@, text@) ==> (r matches Ok(d) && delta_view(d) == rewrite_delta(old(table)@, text@)
            && final(buffer)@ == rewritten_buffer(old(table)@, old(buffer)@, text@)
            && final(table)@ == rewritten_table(old(table)@, old(buffer)@, text@)),
        !fits(old(table)@, old(buffer)@, text@) ==> (r matches Err(e) && too_large(e@) && final(buffer)@
            == old(buffer)@ && final(table)@ == old(table)@),
{
    let ghost t0 = table@;
    let ghost b0 = buffer@;
    let style = table.style;
    let bv = chars_of(buffer.as_str());
    let buf_len = byte_offset(bv.as_slice(), bv.len());
    assert(bv@.take(bv@.len() as int) =~= bv@);
    let start = table.source_range.start;
    let end = table.source_range.end;
    proof {
        let ka = char_at_byte(b0, start as int);
        let kb = char_at_byte(b0, end as int);
        crate::text::lemma_splice(b0, start as int, end as int, text@);
        lemma_boff_mono(b0, ka, kb);
        lemma_boff_mono(b0, kb, b0.len() as int);
        assert(b0.take(b0.len() as int) =~= b0);
    }
    let old_len = end - start;
    let text_len = match crate::text::blen_checked(text) {
        Some(n) => n,
        None => {
            return Err(too_large_error());
        },
    };
    let rest = buf_len - old_len;
    if text_len >= (isize::MAX as usize) - rest {
        return Err(too_large_error());
    }
    let byte_delta = text_len as isize - old_len as isize;
    proof {
        crate::text::lemma_splice(b0, start as int, end as int, text@);
    }
    crate::text::replace_bytes(buffer, start, end, text);
    table.source_range = Range { start, end: start + text_len };
    refresh_internal_ranges(table, buffer.as_str());
    if style == TableStyle::PreserveOriginal {
        let ts = string_of(text);
        proof {
            crate::text::lemma_blen_concat(b0.take(char_at_byte(b0, start as int)), text@);
        }
        let lines = crate::tables::parse::capture_original_lines(ts.as_str());
        table.original_lines = Some(lines);
    }
    Ok(EditDelta {
        byte_delta,
        patched_range: Range { start, end },
        new_range: Range { start, end: start + text_len },
    })
}

/// The table as written by a structural edit: PreserveOriginal tables
/// are written in the pretty layout (there is no original line for new
/// structure), the other styles in their own.
pub open spec fn emitted(t: TableView) -> TableView {
    if t.style == TableStyle::PreserveOriginal {
        TableView { style: TableStyle::Pretty, ..t }
    } else {
        t
    }
}

/// The text a structural edit writes.
pub open spec fn structural_text(t: TableView) -> Seq<char> {
    gfm_text(emitted(t))
}

/// Write the whole table again after a change of structure (Pretty for
/// PreserveOriginal tables, which then capture the new lines).
fn re_serialize_structurally(table: &mut MarkdownTable, buffer: &mut String) -> (r: Result<EditDelta, TableError>)
    requires
        placed(old(table)@, old(buffer)@),
        cells_ok(old(table)@),
    ensures
        ({
            let t = old(table)@;
            let text = structural_text(t);
            &&& fits(t, old(buffer)@, text) ==> (r matches Ok(d) && delta_view(d) == rewrite_delta(t, text)
                && final(buffer)@ == rewritten_buffer(t, old(buffer)@, text) && final(table)@
                == rewritten_table(t, old(buffer)@, text))
            &&& !fits(t, old(buffer)@, text) ==> (r matches Err(e) && too_large(e@) && final(buffer)@
                == old(buffer)@ && final(table)@ == t)
        }),
{
    let original_style = table.style;
    if original_style == TableStyle::PreserveOriginal {
        table.style = TableStyle::Pretty;
    }
    let text = to_gfm(table, buffer.as_str());
    table.style = original_style;
    let tv = chars_of(text.as_str());
    rewrite(table, buffer, tv.as_slice())
}

// ---------------------------------------------------------------------
// Structural edits
// ---------------------------------------------------------------------

/// An empty cell; its range is filled in when the table is written.
pub open spec fn blank() -> CellView {
    CellView { range: (0, 0), content: seq![], leading_ws: 1, trailing_ws: 1 }
}

fn blank_cell() -> (c: Cell)
    ensures
        c@ == blank(),
{
    Cell { source_range: Range { start: 0, end: 0 }, content: String::new(), leading_ws: 1, trailing_ws: 1 }
}

fn blank_row(n: usize) -> (r: Vec<Cell>)
    ensures
        cells_view(r@) == Seq::new(n as nat, |i: int| blank()),
{
    let mut r: Vec<Cell> = Vec::new();
    let mut i: usize = 0;
    while i < n
        invariant
            i <= n,
            cells_view(r@) =~= Seq::new(i as nat, |k: int| blank()),
        decreases n - i,
    {
        let ghost before = r@;
        let b = blank_cell();
        r.push(b);
        assert(cells_view(before).len() == before.len());
        assert(cells_view(r@) =~= cells_view(before).push(b@));
        i = i + 1;
    }
    r
}

/// The outcome of a structural edit that changed the table to `t`:
/// written again as [`re_serialize_structurally`] does.
pub open spec fn restructured(
    t: TableView,
    buf: Seq<char>,
    r: Result<EditDelta, TableError>,
    t_out: TableView,
    buf_out: Seq<char>,
) -> bool {
    let text = structural_text(t);
    &&& fits(t, buf, text) ==> (r matches Ok(d) && delta_view(d) == rewrite_delta(t, text) && buf_out
        == rewritten_buffer(t, buf, text) && t_out == rewritten_table(t, buf, text))
    &&& !fits(t, buf, text) ==> (r matches Err(e) && too_large(e@) && buf_out == buf && t_out == t)
}

/// Failure with the table and buffer left as they were.
pub open spec fn refused(
    r: Result<EditDelta, TableError>,
    e: ErrorView,
    t: TableView,
    buf: Seq<char>,
    t_out: TableView,
    buf_out: Seq<char>,
) -> bool {
    r matches Err(x) && x@ == e && t_out == t && buf_out == buf
}

pub open spec fn row_inserted(t: TableView, buf: Seq<char>, at_index: usize, r: Result<EditDelta, TableError>, t_out: TableView, buf_out: Seq<char>) -> bool {
    let cols = t.alignments.len();
    if cols == 0 {
        refused(r, ErrorView::InvalidStructure("table has no columns"@), t, buf, t_out, buf_out)
    } else if at_index > t.rows.len() {
        refused(r, ErrorView::CellOutOfRange { row: at_index as i32, col: 0 }, t, buf, t_out, buf_out)
    } else {
        restructured(
            TableView { rows: t.rows.insert(at_index as int, Seq::new(cols, |i: int| blank())), ..t },
            buf,
            r,
            t_out,
            buf_out,
        )
    }
}

pub open spec fn row_deleted(t: TableView, buf: Seq<char>, row_index: usize, r: Result<EditDelta, TableError>, t_out: TableView, buf_out: Seq<char>) -> bool {
    if row_index >= t.rows.len() {
        refused(r, ErrorView::CellOutOfRange { row: row_index as i32, col: 0 }, t, buf, t_out, buf_out)
    } else {
        restructured(
            TableView { rows: t.rows.remove(row_index as int), ..t },
            buf,
            r,
            t_out,
            buf_out,
        )
    }
}

pub open spec fn alignment_set(t: TableView, buf: Seq<char>, col: usize, alignment: Alignment, r: Result<EditDelta, TableError>, t_out: TableView, buf_out: Seq<char>) -> bool {
    if col >= t.alignments.len() {
        refused(r, ErrorView::CellOutOfRange { row: -1i32, col }, t, buf, t_out, buf_out)
    } else if t.alignments[col as int] == alignment {
        &&& r matches Ok(d) && delta_view(d) == (0isize, (t.range.0, t.range.0), (t.range.0, t.range.0))
        &&& t_out == t
        &&& buf_out == buf
    } else {
        restructured(
            TableView { alignments: t.alignments.update(col as int, alignment), ..t },
            buf,
            r,
            t_out,
            buf_out,
        )
    }
}

pub open spec fn widths_set(t: TableView, buf: Seq<char>, widths: Seq<Option<u32>>, r: Result<EditDelta, TableError>, t_out: TableView, buf_out: Seq<char>) -> bool {
    if widths.len() != t.alignments.len() {
        refused(
            r,
            ErrorView::InvalidStructure(widths_count_message(widths.len(), t.alignments.len())),
            t,
            buf,
            t_out,
            buf_out,
        )
    } else {
        restructured(
            TableView { column_widths: widths, ..t },
            buf,
            r,
            t_out,
            buf_out,
        )
    }
}

pub open spec fn column_inserted(t: TableView, buf: Seq<char>, at_index: usize, alignment: Alignment, r: Result<EditDelta, TableError>, t_out: TableView, buf_out: Seq<char>) -> bool {
    if at_index > t.alignments.len() {
        refused(r, ErrorView::CellOutOfRange { row: -1i32, col: at_index }, t, buf, t_out, buf_out)
    } else {
        restructured(
            TableView {
                alignments: t.alignments.insert(at_index as int, alignment),
                headers: t.headers.insert(at_index as int, blank()),
                rows: t.rows.map_values(|row: Seq<CellView>| row_with_column(row, at_index as int)),
                column_widths: t.column_widths.insert(at_index as int, None),
                ..t
            },
            buf,
            r,
            t_out,
            buf_out,
        )
    }
}

pub open spec fn column_deleted(t: TableView, buf: Seq<char>, col_index: usize, r: Result<EditDelta, TableError>, t_out: TableView, buf_out: Seq<char>) -> bool {
    if t.alignments.len() <= 1 {
        refused(r, ErrorView::InvalidStructure("can't delete the only column"@), t, buf, t_out, buf_out)
    } else if col_index >= t.alignments.len() {
        refused(r, ErrorView::CellOutOfRange { row: -1i32, col: col_index }, t, buf, t_out, buf_out)
    } else {
        restructured(
            TableView {
                alignments: t.alignments.remove(col_index as int),
                headers: t.headers.remove(col_index as int),
                rows: t.rows.map_values(|row: Seq<CellView>| row_without_column(row, col_index as int)),
                column_widths: if col_index < t.column_widths.len() {
                    t.column_widths.remove(col_index as int)
                } else {
                    t.column_widths
                },
                ..t
            },
            buf,
            r,
            t_out,
            buf_out,
        )
    }
}

/// The text a reformat writes: the pretty layout, after the width
/// comment when the table has widths.
pub open spec fn reformat_text(t: TableView) -> Seq<char> {
    match widths_comment_text(t.column_widths) {
        Some(c) => c + seq!['\n'] + pretty_text(t),
        None => pretty_text(t),
    }
}

pub open spec fn reformatted(t: TableView, buf: Seq<char>, r: Result<EditDelta, TableError>, t_out: TableView, buf_out: Seq<char>) -> bool {
    let text = reformat_text(t);
    if t.alignments.len() == 0 {
        refused(r, ErrorView::InvalidStructure("table has no columns"@), t, buf, t_out, buf_out)
    } else {
        &&& fits(t, buf, text) ==> (r matches Ok(d) && delta_view(d) == rewrite_delta(t, text)
            && buf_out == rewritten_buffer(t, buf, text) && t_out == (TableView {
            style: TableStyle::PreserveOriginal,
            original_lines: Some(crate::tables::parse::captured(pretty_text(t))),
            ..rewritten_table(t, buf, text)
        }))
        &&& !fits(t, buf, text) ==> (r matches Err(e) && too_large(e@) && buf_out
            == buf && t_out == t)
    }
}

/// Insert an empty body row at `at_index` (0 ..= number of rows) and
/// write the table again.
pub fn insert_empty_row(table: &mut MarkdownTable, at_index: usize, buffer: &mut String) -> (r: Result<
    EditDelta,
    TableError,
>)
    requires
        placed(old(table)@, old(buffer)@),
        cells_ok(old(table)@),
    ensures
        row_inserted(old(table)@, old(buffer)@, at_index, r, final(table)@, final(buffer)@),
{
    let cols = table.alignments.len();
    if cols == 0 {
        return Err(TableError::InvalidStructure(String::from_str("table has no columns")));
    }
    if at_index > table.rows.len() {
        return Err(TableError::CellOutOfRange { row: at_index as i32, col: 0 });
    }
    let row = blank_row(cols);
    let ghost t = table@;
    table.rows.insert(at_index, row);
    proof {
        assert(rows_view(table.rows@) =~= t.rows.insert(at_index as int, cells_view(row@)));
        let t2 = table@;
        assert forall|r: int, c: int|
            0 <= r < t2.rows.len() && 0 <= c < t2.rows[r].len() implies 4 * t2.rows[r][c].content.len() + 8 <= usize::MAX by {
            if r < at_index {
                assert(t2.rows[r] == t.rows[r]);
            } else if r > at_index {
                assert(t2.rows[r] == t.rows[r - 1]);
            }
        }
    }
    re_serialize_structurally(table, buffer)
}

/// Delete the body row `row_index` and write the table again. The
/// header is never removed this way.
pub fn delete_row(table: &mut MarkdownTable, row_index: usize, buffer: &mut String) -> (r: Result<
    EditDelta,
    TableError,
>)
    requires
        placed(old(table)@, old(buffer)@),
        cells_ok(old(table)@),
    ensures
        row_deleted(old(table)@, old(buffer)@, row_index, r, final(table)@, final(buffer)@),
{
    if row_index >= table.rows.len() {
        return Err(TableError::CellOutOfRange { row: row_index as i32, col: 0 });
    }
    let ghost t = table@;
    table.rows.remove(row_index);
    proof {
        assert(rows_view(table.rows@) =~= t.rows.remove(row_index as int));
        let t2 = table@;
        assert forall|r: int, c: int|
            0 <= r < t2.rows.len() && 0 <= c < t2.rows[r].len() implies 4 * t2.rows[r][c].content.len() + 8 <= usize::MAX by {
            if r < row_index {
                assert(t2.rows[r] == t.rows[r]);
            } else {
                assert(t2.rows[r] == t.rows[r + 1]);
            }
        }
    }
    re_serialize_structurally(table, buffer)
}

/// Replace the body rows wholesale (the sort flow commits its new order
/// this way) and write the table again.
pub fn replace_rows(table: &mut MarkdownTable, new_rows: Vec<Vec<Cell>>, buffer: &mut String) -> (r: Result<
    EditDelta,
    TableError,
>)
    requires
        placed(old(table)@, old(buffer)@),
        cells_ok(TableView { rows: rows_view(new_rows@), ..old(table)@ }),
    ensures
        restructured(
            TableView { rows: rows_view(new_rows@), ..old(table)@ },
            old(buffer)@,
            r,
            final(table)@,
            final(buffer)@,
        ),
{
    table.rows = new_rows;
    re_serialize_structurally(table, buffer)
}

/// Set a column's alignment and write the table again. Setting the
/// alignment a column already has changes nothing and returns an empty
/// range at the table's start.
pub fn set_column_alignment(
    table: &mut MarkdownTable,
    col: usize,
    alignment: Alignment,
    buffer: &mut String,
) -> (r: Result<EditDelta, TableError>)
    requires
        placed(old(table)@, old(buffer)@),
        cells_ok(old(table)@),
    ensures
        alignment_set(old(table)@, old(buffer)@, col, alignment, r, final(table)@, final(buffer)@),
{
    if col >= table.alignments.len() {
        return Err(TableError::CellOutOfRange { row: -1, col });
    }
    if table.alignments[col] == alignment {
        let pin = table.source_range.start;
        return Ok(EditDelta {
            byte_delta: 0,
            patched_range: Range { start: pin, end: pin },
            new_range: Range { start: pin, end: pin },
        });
    }
    table.alignments.set(col, alignment);
    assert(table@.headers == old(table)@.headers && table@.rows == old(table)@.rows);
    assert(sizes_ok(table@));
    re_serialize_structurally(table, buffer)
}

/// The message for a widths list of the wrong length.
pub open spec fn widths_count_message(got: nat, cols: nat) -> Seq<char> {
    "column_widths length "@ + dec(got) + " doesn't match table columns "@ + dec(cols)
}

/// Set the persisted column widths (one per column) and write the table
/// again; all-`None` widths drop the width comment.
pub fn set_column_widths(table: &mut MarkdownTable, widths: Vec<Option<u32>>, buffer: &mut String) -> (r: Result<
    EditDelta,
    TableError,
>)
    requires
        placed(old(table)@, old(buffer)@),
        cells_ok(old(table)@),
    ensures
        widths_set(old(table)@, old(buffer)@, widths@, r, final(table)@, final(buffer)@),
{
    if widths.len() != table.alignments.len() {
        let mut m: Vec<char> = Vec::new();
        crate::text::push_str(&mut m, "column_widths length ");
        push_dec(&mut m, widths.len() as u64);
        crate::text::push_str(&mut m, " doesn't match table columns ");
        push_dec(&mut m, table.alignments.len() as u64);
        return Err(TableError::InvalidStructure(string_of(m.as_slice())));
    }
    table.column_widths = widths;
    assert(table@.headers == old(table)@.headers && table@.rows == old(table)@.rows);
    assert(sizes_ok(table@));
    re_serialize_structurally(table, buffer)
}

/// A row after inserting an empty column at `at`: padded with empty
/// cells up to `at` first.
pub open spec fn row_with_column(row: Seq<CellView>, at: int) -> Seq<CellView> {
    let padded = if row.len() < at {
        row + Seq::new((at - row.len()) as nat, |i: int| blank())
    } else {
        row
    };
    padded.insert(at, blank())
}

/// A row after deleting column `col`, when it has that column.
pub open spec fn row_without_column(row: Seq<CellView>, col: int) -> Seq<CellView> {
    if col < row.len() {
        row.remove(col)
    } else {
        row
    }
}

fn row_insert_blank(row: &Vec<Cell>, at: usize) -> (out: Vec<Cell>)
    ensures
        cells_view(out@) == row_with_column(cells_view(row@), at as int),
{
    let mut out = crate::tables::model::clone_cells(row);
    let ghost r0 = cells_view(row@);
    while out.len() < at
        invariant
            out@.len() <= at || out@.len() == r0.len(),
            r0.len() < at ==> cells_view(out@) =~= r0 + Seq::new((out@.len() - r0.len()) as nat, |i: int| blank()),
            r0.len() >= at ==> cells_view(out@) == r0,
            out@.len() >= r0.len(),
        decreases at - out@.len(),
    {
        let ghost before = out@;
        let b = blank_cell();
        out.push(b);
        assert(cells_view(before).len() == before.len());
        assert(cells_view(out@) =~= cells_view(before).push(b@));
    }
    let ghost before = out@;
    let b = blank_cell();
    out.insert(at, b);
    assert(cells_view(out@) =~= cells_view(before).insert(at as int, b@));
    proof {
        if r0.len() < at {
            assert(cells_view(before) =~= r0 + Seq::new((at - r0.len()) as nat, |i: int| blank()));
        }
    }
    out
}

/// Insert an empty column at `at_index` (0 ..= number of columns) with
/// `alignment`, in the header, every body row (short rows are padded
/// first), the alignments and the widths; then write the table again.
pub fn insert_column(
    table: &mut MarkdownTable,
    at_index: usize,
    alignment: Alignment,
    buffer: &mut String,
) -> (r: Result<EditDelta, TableError>)
    requires
        placed(old(table)@, old(buffer)@),
        cells_ok(old(table)@),
        at_index <= old(table)@.alignments.len() ==> at_index <= old(table)@.headers.len(),
        at_index <= old(table)@.alignments.len() ==> at_index <= old(table)@.column_widths.len(),
    ensures
        column_inserted(old(table)@, old(buffer)@, at_index, alignment, r, final(table)@, final(buffer)@),
{
    let cols = table.alignments.len();
    if at_index > cols {
        return Err(TableError::CellOutOfRange { row: -1, col: at_index });
    }
    let ghost t = table@;
    table.alignments.insert(at_index, alignment);
    let b = blank_cell();
    table.headers.insert(at_index, b);
    assert(cells_view(table.headers@) =~= t.headers.insert(at_index as int, b@));
    let mut rows: Vec<Vec<Cell>> = Vec::new();
    let mut i: usize = 0;
    while i < table.rows.len()
        invariant
            i <= table.rows@.len(),
            rows_view(table.rows@) == t.rows,
            rows_view(rows@) =~= t.rows.take(i as int).map_values(|row: Seq<CellView>| row_with_column(row, at_index as int)),
        decreases table.rows@.len() - i,
    {
        assert(rows_view(table.rows@)[i as int] == cells_view(table.rows@[i as int]@));
        let nr = row_insert_blank(&table.rows[i], at_index);
        let ghost before = rows@;
        rows.push(nr);
        assert(rows_view(before).len() == before.len());
        assert(rows_view(rows@) =~= rows_view(before).push(cells_view(nr@)));
        i = i + 1;
    }
    assert(t.rows.take(i as int) =~= t.rows);
    table.rows = rows;
    table.column_widths.insert(at_index, None);
    proof {
        let t2 = table@;
        assert forall|r: int, c: int|
            0 <= r < t2.rows.len() && 0 <= c < t2.rows[r].len() implies 4 * t2.rows[r][c].content.len() + 8 <= usize::MAX by {
            let row = t.rows[r];
            let padded = if row.len() < at_index {
                row + Seq::new((at_index - row.len()) as nat, |i: int| blank())
            } else {
                row
            };
            assert(t2.rows[r] == padded.insert(at_index as int, blank()));
            if c < at_index {
                assert(t2.rows[r][c] == padded[c]);
            } else if c > at_index {
                assert(t2.rows[r][c] == padded[c - 1]);
            }
        }
        assert forall|c: int| 0 <= c < t2.headers.len() implies 4 * t2.headers[c].content.len() + 8 <= usize::MAX by {
            if c < at_index {
                assert(t2.headers[c] == t.headers[c]);
            } else if c > at_index {
                assert(t2.headers[c] == t.headers[c - 1]);
            }
        }
    }
    re_serialize_structurally(table, buffer)
}

/// Delete column `col_index` from the header, the alignments, the
/// widths and every body row that has it; then write the table again.
/// The only column is never deleted.
pub fn delete_column(table: &mut MarkdownTable, col_index: usize, buffer: &mut String) -> (r: Result<
    EditDelta,
    TableError,
>)
    requires
        placed(old(table)@, old(buffer)@),
        cells_ok(old(table)@),
        1 < old(table)@.alignments.len() && col_index < old(table)@.alignments.len() ==> col_index
            < old(table)@.headers.len(),
    ensures
        column_deleted(old(table)@, old(buffer)@, col_index, r, final(table)@, final(buffer)@),
{
    let cols = table.alignments.len();
    if cols <= 1 {
        return Err(TableError::InvalidStructure(String::from_str("can't delete the only column")));
    }
    if col_index >= cols {
        return Err(TableError::CellOutOfRange { row: -1, col: col_index });
    }
    let ghost t = table@;
    table.alignments.remove(col_index);
    table.headers.remove(col_index);
    assert(cells_view(table.headers@) =~= t.headers.remove(col_index as int));
    let mut rows: Vec<Vec<Cell>> = Vec::new();
    let mut i: usize = 0;
    while i < table.rows.len()
        invariant
            i <= table.rows@.len(),
            rows_view(table.rows@) == t.rows,
            rows_view(rows@) =~= t.rows.take(i as int).map_values(|row: Seq<CellView>| row_without_column(row, col_index as int)),
        decreases table.rows@.len() - i,
    {
        assert(rows_view(table.rows@)[i as int] == cells_view(table.rows@[i as int]@));
        let mut nr = crate::tables::model::clone_cells(&table.rows[i]);
        if col_index < nr.len() {
            let ghost before = nr@;
            nr.remove(col_index);
            assert(cells_view(nr@) =~= cells_view(before).remove(col_index as int));
        }
        let ghost before = rows@;
        rows.push(nr);
        assert(rows_view(before).len() == before.len());
        assert(rows_view(rows@) =~= rows_view(before).push(cells_view(nr@)));
        i = i + 1;
    }
    assert(t.rows.take(i as int) =~= t.rows);
    table.rows = rows;
    if col_index < table.column_widths.len() {
        table.column_widths.remove(col_index);
    }
    proof {
        let t2 = table@;
        assert forall|r: int, c: int|
            0 <= r < t2.rows.len() && 0 <= c < t2.rows[r].len() implies 4 * t2.rows[r][c].content.len() + 8 <= usize::MAX by {
            let row = t.rows[r];
            if col_index < row.len() {
                if c < col_index {
                    assert(t2.rows[r][c] == row[c]);
                } else {
                    assert(t2.rows[r][c] == row[c + 1]);
                }
            } else {
                assert(t2.rows[r][c] == row[c]);
            }
        }
        assert forall|c: int| 0 <= c < t2.headers.len() implies 4 * t2.headers[c].content.len() + 8 <= usize::MAX by {
            if c < col_index {
                assert(t2.headers[c] == t.headers[c]);
            } else {
                assert(t2.headers[c] == t.headers[c + 1]);
            }
        }
    }
    re_serialize_structurally(table, buffer)
}

/// Rewrite the table in the pretty layout, from any style, and leave it
/// in PreserveOriginal style against the new text, so that later cell
/// edits patch it in place. The width comment is not written.
/// The pretty layout of a table, after its width comment when it has
/// one; and the pretty layout alone.
fn pretty_with_comment(table: &MarkdownTable) -> (r: (Vec<char>, String))
    requires
        cells_ok(table@),
    ensures
        r.0@ == reformat_text(table@),
        r.1@ == pretty_text(table@),
{
    let body = to_gfm_pretty(table);
    let bv = chars_of(body.as_str());
    match comment_chars(table.column_widths.as_slice()) {
        Some(c) => {
            let mut out = c;
            out.push('\n');
            push_all(&mut out, bv.as_slice());
            assert(out@ =~= reformat_text(table@));
            (out, body)
        },
        None => (bv, body),
    }
}

pub fn reformat_pretty(table: &mut MarkdownTable, buffer: &mut String) -> (r: Result<EditDelta, TableError>)
    requires
        placed(old(table)@, old(buffer)@),
        cells_ok(old(table)@),
    ensures
        reformatted(old(table)@, old(buffer)@, r, final(table)@, final(buffer)@),
{
    if table.alignments.len() == 0 {
        return Err(TableError::InvalidStructure(String::from_str("table has no columns")));
    }
    let (tv, body) = pretty_with_comment(table);
    let r = rewrite(table, buffer, tv.as_slice());
    match r {
        Ok(d) => {
            let ghost buf1 = buffer@;
            proof {
                let t = old(table)@;
                crate::text::lemma_splice(old(buffer)@, t.range.0 as int, t.range.1 as int, tv@);
                crate::text::lemma_blen_concat(old(buffer)@.take(char_at_byte(old(buffer)@, t.range.0 as int)), tv@);
                let kb = char_at_byte(old(buffer)@, t.range.1 as int);
                lemma_boff_mono(old(buffer)@, kb, old(buffer)@.len() as int);
                assert(old(buffer)@.take(old(buffer)@.len() as int) =~= old(buffer)@);
                assert(fits(t, old(buffer)@, tv@));
            }
            table.style = TableStyle::PreserveOriginal;
            proof {
                let t = old(table)@;
                match widths_comment_text(t.column_widths) {
                    Some(c) => {
                        crate::text::lemma_blen_concat(c + seq!['\n'], body@);
                    },
                    None => {},
                }
                assert(blen(body@) <= blen(tv@));
                let ka = char_at_byte(old(buffer)@, t.range.0 as int);
                let kb = char_at_byte(old(buffer)@, t.range.1 as int);
                lemma_boff_mono(old(buffer)@, ka, kb);
            }
            let lines = crate::tables::parse::capture_original_lines(body.as_str());
            table.original_lines = Some(lines);
            Ok(d)
        },
        Err(e) => Err(e),
    }
}

// ---------------------------------------------------------------------
// Cell edits
// ---------------------------------------------------------------------

/// The captured line that holds row `row` (`-1`: the header line).
pub open spec fn line_is(l: LineView, row: i32) -> bool {
    if row == -1 {
        l.kind is Header
    } else {
        match l.kind {
            LineKind::Body { row_index } => row_index as i32 == row,
            _ => false,
        }
    }
}

/// Index of the first line of `ls` that holds `row`, or `ls.len()`.
pub open spec fn first_line(ls: Seq<LineView>, row: i32) -> int
    decreases ls.len(),
{
    if ls.len() == 0 {
        0
    } else if line_is(ls[0], row) {
        0
    } else {
        1 + first_line(ls.drop_first(), row)
    }
}

proof fn lemma_first_line(ls: Seq<LineView>, row: i32)
    ensures
        0 <= first_line(ls, row) <= ls.len(),
        first_line(ls, row) < ls.len() ==> line_is(ls[first_line(ls, row)], row),
        forall|j: int| 0 <= j < first_line(ls, row) ==> !line_is(#[trigger] ls[j], row),
    decreases ls.len(),
{
    if ls.len() > 0 && !line_is(ls[0], row) {
        lemma_first_line(ls.drop_first(), row);
        assert forall|j: int| 0 <= j < first_line(ls, row) implies !line_is(#[trigger] ls[j], row) by {
            if j > 0 {
                assert(ls[j] == ls.drop_first()[j - 1]);
            }
        }
    }
}

proof fn lemma_first_line_is(ls: Seq<LineView>, row: i32, k: int)
    requires
        0 <= k <= ls.len(),
        k < ls.len() ==> line_is(ls[k], row),
        forall|j: int| 0 <= j < k ==> !line_is(#[trigger] ls[j], row),
    ensures
        first_line(ls, row) == k,
    decreases ls.len(),
{
    if ls.len() > 0 && k > 0 {
        assert(!line_is(ls[0], row));
        assert forall|j: int| 0 <= j < k - 1 implies !line_is(#[trigger] ls.drop_first()[j], row) by {
            assert(ls.drop_first()[j] == ls[j + 1]);
        }
        lemma_first_line_is(ls.drop_first(), row, k - 1);
    }
}

/// A captured line after cell `col` was rewritten to `padded`: the text
/// replaced inside the line, the span resized and the later spans moved.
pub open spec fn refreshed_line(l: LineView, col: usize, padded: Seq<char>) -> LineView {
    if col >= l.cell_spans.len() {
        l
    } else {
        let sp = l.cell_spans[col as int];
        let old_len = sp.1 - sp.0;
        let nl = blen(padded);
        LineView {
            raw: crate::text::splice(l.raw, sp.0 as int, sp.1 as int, padded),
            cell_spans: Seq::new(
                l.cell_spans.len(),
                |j: int|
                    if j < col {
                        l.cell_spans[j]
                    } else if j == col {
                        (sp.0, (sp.0 + nl) as usize)
                    } else {
                        ((l.cell_spans[j].0 - old_len + nl) as usize, (l.cell_spans[j].1 - old_len + nl) as usize)
                    },
            ),
            kind: l.kind,
        }
    }
}

/// The captured lines after cell `(row, col)` was rewritten to `padded`.
pub open spec fn refreshed_lines(ls: Seq<LineView>, row: i32, col: usize, padded: Seq<char>) -> Seq<LineView> {
    let k = first_line(ls, row);
    if k < ls.len() {
        ls.update(k, refreshed_line(ls[k], col, padded))
    } else {
        ls
    }
}

/// Each captured line is well formed and shorter than an allocation.
pub open spec fn lines_small(ls: Seq<LineView>) -> bool {
    forall|i: int|
        0 <= i < ls.len() ==> spans_ok(#[trigger] ls[i].raw, ls[i].cell_spans) && blen(ls[i].raw) < isize::MAX
}

/// Keep the captured line of `(row, col)` in step with an in-place edit
/// that wrote `padded` into the cell.
fn refresh_original_line(lines: &mut Vec<OriginalLine>, row: i32, col: usize, padded: &[char])
    requires
        lines_small(lines_view(old(lines)@)),
        blen(padded@) < isize::MAX,
    ensures
        lines_view(final(lines)@) == refreshed_lines(lines_view(old(lines)@), row, col, padded@),
{
    let ghost lv = lines_view(lines@);
    let mut k: usize = 0;
    let mut found = false;
    while k < lines.len() && !found
        invariant
            lv == lines_view(lines@),
            k <= lines@.len(),
            found ==> k < lines@.len() && line_is(lv[k as int], row),
            forall|j: int| 0 <= j < k ==> !line_is(#[trigger] lv[j], row),
        decreases lines@.len() - k + (if found { 0int } else { 1int }),
    {
        assert(lv[k as int] == lines@[k as int]@);
        let hit = if row == -1 {
            match lines[k].kind {
                LineKind::Header => true,
                _ => false,
            }
        } else {
            match lines[k].kind {
                LineKind::Body { row_index } => row_index as i32 == row,
                _ => false,
            }
        };
        if hit {
            found = true;
        } else {
            k = k + 1;
        }
    }
    proof {
        lemma_first_line_is(lv, row, k as int);
    }
    if k == lines.len() {
        return;
    }
    let line = &lines[k];
    assert(lv[k as int] == line@);
    if col >= line.cell_spans.len() {
        return;
    }
    let ghost l = line@;
    let sp = copy_range_local(&line.cell_spans[col]);
    assert(l.cell_spans[col as int] == rv(line.cell_spans@[col as int]));
    let raw = chars_of(line.raw.as_str());
    proof {
        assert(spans_ok(l.raw, l.cell_spans));
        assert(is_boundary(l.raw, l.cell_spans[col as int].0 as int) && is_boundary(l.raw, l.cell_spans[col as int].1 as int) && l.cell_spans[col as int].0 <= l.cell_spans[col as int].1);
        crate::text::lemma_splice(l.raw, sp.start as int, sp.end as int, padded@);
        let kb = char_at_byte(l.raw, sp.end as int);
        lemma_boff_mono(l.raw, kb, l.raw.len() as int);
        assert(l.raw.take(l.raw.len() as int) =~= l.raw);
    }
    let mut new_raw = line.raw.clone();
    crate::text::replace_bytes(&mut new_raw, sp.start, sp.end, padded);
    assert(new_raw@ == crate::text::splice(l.raw, sp.start as int, sp.end as int, padded@));
    let new_len = match crate::text::blen_checked(padded) {
        Some(n) => n,
        None => {
            assert(false);
            0
        },
    };
    let old_len = sp.end - sp.start;
    let n = line.cell_spans.len();
    let spans = moved_spans(line, col, old_len, new_len, Ghost(padded@));
    assert(refreshed_line(l, col, padded@).cell_spans.take(n as int) =~= refreshed_line(l, col, padded@).cell_spans);
    let nl = OriginalLine { raw: new_raw, cell_spans: spans, kind: line.kind };
    assert(nl@.raw == refreshed_line(l, col, padded@).raw);
    assert(nl@.cell_spans == refreshed_line(l, col, padded@).cell_spans);
    assert(nl@ == refreshed_line(l, col, padded@));
    lines.set(k, nl);
    assert(lines_view(lines@) =~= lv.update(k as int, nl@));
}

/// The spans of `line` after cell `col` grew from `old_len` to `new_len`
/// bytes.
fn moved_spans(line: &OriginalLine, col: usize, old_len: usize, new_len: usize, padded: Ghost<Seq<char>>) -> (spans: Vec<Range<usize>>)
    requires
        spans_ok(line@.raw, line@.cell_spans),
        blen(line@.raw) < isize::MAX,
        new_len == blen(padded@),
        new_len < isize::MAX,
        col < line@.cell_spans.len(),
        old_len == line@.cell_spans[col as int].1 - line@.cell_spans[col as int].0,
        line@.cell_spans[col as int].1 <= blen(line@.raw),
    ensures
        crate::tables::parse::ranges_view(spans@) =~= refreshed_line(line@, col, padded@).cell_spans,
{
    let ghost l = line@;
    let n = line.cell_spans.len();
    let sp = copy_range_local(&line.cell_spans[col]);
    assert(l.cell_spans[col as int] == rv(line.cell_spans@[col as int]));
    let mut spans: Vec<Range<usize>> = Vec::new();
    let mut j: usize = 0;
    while j < n
        invariant
            n == l.cell_spans.len(),
            l == line@,
            spans_ok(l.raw, l.cell_spans),
            blen(l.raw) < isize::MAX,
            new_len == blen(padded@),
            new_len < isize::MAX,
            col < n,
            rv(sp) == l.cell_spans[col as int],
            old_len == sp.end - sp.start,
            sp.end <= blen(l.raw),
            j <= n,
            crate::tables::parse::ranges_view(spans@) =~= refreshed_line(l, col, padded@).cell_spans.take(j as int),
        decreases n - j,
    {
        let cur = &line.cell_spans[j];
        assert(l.cell_spans[j as int] == rv(line.cell_spans@[j as int]));
        let ns = if j < col {
            Range { start: cur.start, end: cur.end }
        } else if j == col {
            Range { start: sp.start, end: sp.start + new_len }
        } else {
            proof {
                assert(l.cell_spans[col as int].1 <= l.cell_spans[j as int].0);
                assert(is_boundary(l.raw, l.cell_spans[j as int].1 as int) && l.cell_spans[j as int].0 <= l.cell_spans[j as int].1);
                let kj = char_at_byte(l.raw, l.cell_spans[j as int].1 as int);
                lemma_boff_mono(l.raw, kj, l.raw.len() as int);
                assert(l.raw.take(l.raw.len() as int) =~= l.raw);
            }
            Range { start: cur.start - old_len + new_len, end: cur.end - old_len + new_len }
        };
        let ghost before = spans@;
        spans.push(ns);
        assert(crate::tables::parse::ranges_view(spans@) =~= crate::tables::parse::ranges_view(before).push(rv(ns)));
        j = j + 1;
    }
    assert(refreshed_line(l, col, padded@).cell_spans.take(n as int) =~= refreshed_line(l, col, padded@).cell_spans);
    spans
}

fn copy_range_local(r: &Range<usize>) -> (c: Range<usize>)
    ensures
        c == *r,
{
    Range { start: r.start, end: r.end }
}

pub open spec fn sat_sub(a: int, b: int) -> int {
    if a > b {
        a - b
    } else {
        0
    }
}

pub open spec fn at_least_one(x: u8) -> u8 {
    if x >= 1 {
        x
    } else {
        1
    }
}

/// The room for content inside a cell's span, padding taken off.
pub open spec fn inner_width(c: CellView) -> int {
    sat_sub(sat_sub(c.range.1 - c.range.0, c.leading_ws as int), c.trailing_ws as int)
}

/// The text an in-place edit writes over the cell's span: the escaped
/// content padded to the old inner width, inside the cell's padding (at
/// least one space each side).
pub open spec fn in_place_text(c: CellView, e: Seq<char>) -> Seq<char> {
    let inner = if inner_width(c) >= e.len() {
        inner_width(c)
    } else {
        e.len() as int
    };
    rep(' ', at_least_one(c.leading_ws) as nat) + e + rep(' ', (inner - e.len()) as nat) + rep(
        ' ',
        at_least_one(c.trailing_ws) as nat,
    )
}

/// Every cell range and the table's end lie within the first `n` bytes.
pub open spec fn ranges_within(t: TableView, n: int) -> bool {
    &&& t.range.1 <= n
    &&& forall|c: int| 0 <= c < t.headers.len() ==> (#[trigger] t.headers[c]).range.0 <= n && t.headers[c].range.1 <= n
    &&& forall|r: int, c: int|
        0 <= r < t.rows.len() && 0 <= c < t.rows[r].len() ==> (#[trigger] t.rows[r][c]).range.0 <= n
            && t.rows[r][c].range.1 <= n
}

/// What an in-place edit of `(row, col)` needs: the cell's span is a
/// character range of the buffer, all ranges are inside the buffer, and
/// the captured lines are well formed.
pub open spec fn in_place_ok(t: TableView, buf: Seq<char>, row: i32, col: usize) -> bool {
    let c = crate::tables::model::cell_at(t, row, col);
    &&& crate::tables::parse::valid_range(buf, c.range.0 as int, c.range.1 as int)
    &&& ranges_within(t, blen(buf) as int)
    &&& match t.original_lines {
        Some(ls) => lines_small(ls),
        None => true,
    }
}

/// The table after an in-place edit wrote `padded` over cell `(row, col)`.
pub open spec fn in_place_table(t: TableView, row: i32, col: usize, content: Seq<char>, padded: Seq<char>) -> TableView {
    let c = crate::tables::model::cell_at(t, row, col);
    let t1 = crate::tables::model::with_cell(
        t,
        row,
        col,
        CellView { content, leading_ws: at_least_one(c.leading_ws), trailing_ws: at_least_one(c.trailing_ws), ..c },
    );
    let delta = (blen(padded) - (c.range.1 - c.range.0)) as isize;
    let t2 = TableView {
        headers: crate::tables::model::shift_cells(t1.headers, c.range.1, delta),
        rows: t1.rows.map_values(|r: Seq<CellView>| crate::tables::model::shift_cells(r, c.range.1, delta)),
        range: (t1.range.0, crate::tables::model::shift(t1.range.1, c.range.1, delta)),
        ..t1
    };
    match t2.original_lines {
        Some(ls) => TableView { original_lines: Some(refreshed_lines(ls, row, col, padded)), ..t2 },
        None => t2,
    }
}

/// The content fits the cell's current inner width.
pub open spec fn fits_in_place(t: TableView, row: i32, col: usize, content: Seq<char>) -> bool {
    escape(content).len() <= inner_width(crate::tables::model::cell_at(t, row, col))
}

/// The text written when an edit re-emits the whole table: the pretty
/// layout with the width comment for a PreserveOriginal table whose
/// cell outgrew its span, otherwise the table's own layout without it.
pub open spec fn reemit_text(t: TableView) -> Seq<char> {
    match t.style {
        TableStyle::PreserveOriginal => gfm_text(TableView { style: TableStyle::Pretty, ..t }),
        TableStyle::Pretty => pretty_text(t),
        TableStyle::Compact => compact_text(t),
    }
}

/// The outcome of [`update_cell`] on a cell that exists.
pub open spec fn cell_updated(
    t: TableView,
    buf: Seq<char>,
    row: i32,
    col: usize,
    content: Seq<char>,
    r: Result<EditDelta, TableError>,
    t_out: TableView,
    buf_out: Seq<char>,
) -> bool {
    let c = crate::tables::model::cell_at(t, row, col);
    if t.style == TableStyle::PreserveOriginal && fits_in_place(t, row, col, content) {
        let padded = in_place_text(c, escape(content));
        let grown = blen(buf) - (c.range.1 - c.range.0) + blen(padded) < isize::MAX;
        &&& grown ==> (r matches Ok(d) && delta_view(d) == (
            (blen(padded) - (c.range.1 - c.range.0)) as isize,
            c.range,
            crate::tables::model::cell_at(t_out, row, col).range,
        ) && buf_out == crate::text::splice(buf, c.range.0 as int, c.range.1 as int, padded) && t_out
            == in_place_table(t, row, col, content, padded))
        &&& !grown ==> (r matches Err(e) && too_large(e@) && buf_out == buf && t_out == t)
    } else {
        let t1 = crate::tables::model::with_cell(t, row, col, CellView { content, ..c });
        let text = reemit_text(t1);
        &&& fits(t1, buf, text) ==> (r matches Ok(d) && delta_view(d) == rewrite_delta(t1, text) && buf_out
            == rewritten_buffer(t1, buf, text) && t_out == rewritten_table(t1, buf, text))
        &&& !fits(t1, buf, text) ==> (r matches Err(e) && too_large(e@) && buf_out == buf && t_out == t1)
    }
}

/// The outcome of [`update_cell`]: an unknown cell is refused, a known
/// one updated as [`cell_updated`] says.
pub open spec fn cell_edited(
    t: TableView,
    buf: Seq<char>,
    row: i32,
    col: usize,
    content: Seq<char>,
    r: Result<EditDelta, TableError>,
    t_out: TableView,
    buf_out: Seq<char>,
) -> bool {
    if crate::tables::model::cell_exists(t, row, col) {
        cell_updated(t, buf, row, col, content, r, t_out, buf_out)
    } else {
        refused(r, ErrorView::CellOutOfRange { row, col }, t, buf, t_out, buf_out)
    }
}

/// What [`update_cell`] needs.
pub open spec fn editable(t: TableView, buf: Seq<char>, row: i32, col: usize, content: Seq<char>) -> bool {
    &&& placed(t, buf)
    &&& cells_ok(t)
    &&& 4 * content.len() + 8 <= usize::MAX
    &&& t.style == TableStyle::PreserveOriginal && crate::tables::model::cell_exists(t, row, col) ==> in_place_ok(
        t,
        buf,
        row,
        col,
    )
}

/// Edit one cell. An unknown cell is refused before the buffer is
/// touched. A PreserveOriginal table is patched in place when the new
/// content fits the cell, so every other byte stays as it was; when it
/// does not fit, or for Pretty and Compact tables, the whole table is
/// written again.
pub fn update_cell(
    table: &mut MarkdownTable,
    row: i32,
    col: usize,
    new_content: &str,
    buffer: &mut String,
) -> (r: Result<EditDelta, TableError>)
    requires
        editable(old(table)@, old(buffer)@, row, col, new_content@),
    ensures
        cell_edited(old(table)@, old(buffer)@, row, col, new_content@, r, final(table)@, final(buffer)@),
{
    match table.cell(row, col) {
        Ok(_) => {},
        Err(e) => {
            return Err(e);
        },
    }
    let ghost t = table@;
    let c = match table.cell(row, col) {
        Ok(c) => crate::tables::model::copy_range(&c.source_range),
        Err(_) => {
            return Err(TableError::CellOutOfRange { row, col });
        },
    };
    let (lead, trail) = match table.cell(row, col) {
        Ok(c) => (c.leading_ws, c.trailing_ws),
        Err(_) => {
            return Err(TableError::CellOutOfRange { row, col });
        },
    };
    let e = escape_chars(chars_of(new_content).as_slice());
    if table.style == TableStyle::PreserveOriginal {
        let old_len = c.end - c.start;
        let a = if old_len > lead as usize { old_len - lead as usize } else { 0 };
        let inner_existing = if a > trail as usize { a - trail as usize } else { 0 };
        if e.len() <= inner_existing {
            return update_cell_in_place(table, row, col, new_content, e, buffer);
        }
    }
    let content = String::from_str(new_content);
    match table.set_cell_content(row, col, content) {
        Ok(()) => {},
        Err(_) => {
            return Err(TableError::CellOutOfRange { row, col });
        },
    }
    proof {
        let t1 = table@;
        assert forall|c: int| 0 <= c < t1.headers.len() implies 4 * t1.headers[c].content.len() + 8 <= usize::MAX by {
            if row == -1 && c == col {
            } else {
                assert(t1.headers[c] == t.headers[c]);
            }
        }
        assert forall|r: int, c: int|
            0 <= r < t1.rows.len() && 0 <= c < t1.rows[r].len() implies 4 * t1.rows[r][c].content.len() + 8 <= usize::MAX by {
            if r == row && c == col {
            } else {
                assert(t1.rows[r][c] == t.rows[r][c]);
            }
        }
    }
    let text = match table.style {
        TableStyle::PreserveOriginal => {
            table.style = TableStyle::Pretty;
            let x = to_gfm(table, buffer.as_str());
            table.style = TableStyle::PreserveOriginal;
            x
        },
        TableStyle::Pretty => to_gfm_pretty(table),
        TableStyle::Compact => to_gfm_compact(table),
    };
    let tv = chars_of(text.as_str());
    rewrite(table, buffer, tv.as_slice())
}

proof fn lemma_edit_shift_ok(t: TableView, nc: CellView, row: i32, col: usize, end: usize, delta: isize, n: int)
    requires
        ranges_within(t, n),
        n < isize::MAX,
        n + delta < isize::MAX,
        crate::tables::model::cell_exists(t, row, col),
        nc.range == crate::tables::model::cell_at(t, row, col).range,
    ensures
        ({
            let t1 = crate::tables::model::with_cell(t, row, col, nc);
            &&& crate::tables::model::cells_shift_ok(t1.headers, end, delta)
            &&& forall|r: int| 0 <= r < t1.rows.len() ==> crate::tables::model::cells_shift_ok(#[trigger] t1.rows[r], end, delta)
            &&& crate::tables::model::shift_ok(t1.range.1, end, delta)
        }),
{
    let t1 = crate::tables::model::with_cell(t, row, col, nc);
    assert forall|c: int| 0 <= c < t1.headers.len() implies crate::tables::model::shift_ok(
        #[trigger] t1.headers[c].range.0,
        end,
        delta,
    ) && crate::tables::model::shift_ok(t1.headers[c].range.1, end, delta) by {
        assert(t.headers[c].range.0 <= n && t.headers[c].range.1 <= n);
    }
    assert forall|r: int| 0 <= r < t1.rows.len() implies crate::tables::model::cells_shift_ok(
        #[trigger] t1.rows[r],
        end,
        delta,
    ) by {
        assert forall|c: int| 0 <= c < t1.rows[r].len() implies crate::tables::model::shift_ok(
            #[trigger] t1.rows[r][c].range.0,
            end,
            delta,
        ) && crate::tables::model::shift_ok(t1.rows[r][c].range.1, end, delta) by {
            assert(t.rows[r][c].range.0 <= n && t.rows[r][c].range.1 <= n);
        }
    }
}

/// Patch the cell's span in the buffer with the new content padded to
/// the old width, then move the ranges after it and keep the captured
/// line in step.
#[verifier::spinoff_prover]
#[verifier::rlimit(50)]
fn update_cell_in_place(
    table: &mut MarkdownTable,
    row: i32,
    col: usize,
    new_content: &str,
    e: Vec<char>,
    buffer: &mut String,
) -> (r: Result<EditDelta, TableError>)
    requires
        placed(old(table)@, old(buffer)@),
        crate::tables::model::cell_exists(old(table)@, row, col),
        in_place_ok(old(table)@, old(buffer)@, row, col),
        e@ == escape(new_content@),
        fits_in_place(old(table)@, row, col, new_content@),
    ensures
        ({
            let t = old(table)@;
            let buf = old(buffer)@;
            let c = crate::tables::model::cell_at(t, row, col);
            let padded = in_place_text(c, escape(new_content@));
            let grown = blen(buf) - (c.range.1 - c.range.0) + blen(padded) < isize::MAX;
            &&& grown ==> (r matches Ok(d) && delta_view(d) == (
                (blen(padded) - (c.range.1 - c.range.0)) as isize,
                c.range,
                crate::tables::model::cell_at(final(table)@, row, col).range,
            ) && final(buffer)@ == crate::text::splice(buf, c.range.0 as int, c.range.1 as int, padded)
                && final(table)@ == in_place_table(t, row, col, new_content@, padded))
            &&& !grown ==> (r matches Err(x) && too_large(x@) && final(buffer)@ == buf && final(table)@ == t)
        }),
{
    let ghost t = table@;
    let ghost buf = buffer@;
    let ghost cv = crate::tables::model::cell_at(t, row, col);
    let (start, end, lead, trail) = match table.cell(row, col) {
        Ok(c) => (c.source_range.start, c.source_range.end, c.leading_ws, c.trailing_ws),
        Err(_) => {
            assert(false);
            return Err(TableError::CellOutOfRange { row, col });
        },
    };
    let old_len = end - start;
    let a = if old_len > lead as usize { old_len - lead as usize } else { 0 };
    let inner = if a > trail as usize { a - trail as usize } else { 0 };
    let lead1: u8 = if lead >= 1 { lead } else { 1 };
    let trail1: u8 = if trail >= 1 { trail } else { 1 };
    let mut padded: Vec<char> = Vec::new();
    push_rep(&mut padded, ' ', lead1 as usize);
    push_all(&mut padded, e.as_slice());
    push_rep(&mut padded, ' ', inner - e.len());
    push_rep(&mut padded, ' ', trail1 as usize);
    assert(padded@ =~= in_place_text(cv, escape(new_content@)));
    let bv = chars_of(buffer.as_str());
    let buf_len = byte_offset(bv.as_slice(), bv.len());
    assert(bv@.take(bv@.len() as int) =~= bv@);
    proof {
        crate::text::lemma_splice(buf, start as int, end as int, padded@);
        let kb = char_at_byte(buf, end as int);
        lemma_boff_mono(buf, kb, buf.len() as int);
        assert(buf.take(buf.len() as int) =~= buf);
    }
    let new_len = match crate::text::blen_checked(padded.as_slice()) {
        Some(n) => n,
        None => {
            return Err(too_large_error());
        },
    };
    if new_len >= (isize::MAX as usize) - (buf_len - old_len) {
        return Err(too_large_error());
    }
    let byte_delta = new_len as isize - old_len as isize;
    let old_cell = match table.cell(row, col) {
        Ok(c) => c.clone(),
        Err(_) => {
            assert(false);
            return Err(TableError::CellOutOfRange { row, col });
        },
    };
    let nc = Cell {
        source_range: old_cell.source_range,
        content: String::from_str(new_content),
        leading_ws: lead1,
        trailing_ws: trail1,
    };
    proof {
        lemma_edit_shift_ok(t, nc@, row, col, end, byte_delta, blen(buf) as int);
    }
    table.replace_cell(row, col, nc);
    crate::text::replace_bytes(buffer, start, end, padded.as_slice());
    table.shift_after(end, byte_delta);
    let new_range = match table.cell(row, col) {
        Ok(c) => crate::tables::model::copy_range(&c.source_range),
        Err(_) => {
            assert(false);
            return Err(TableError::CellOutOfRange { row, col });
        },
    };
    let mut ol = table.original_lines.take();
    match ol {
        Some(mut lines) => {
            refresh_original_line(&mut lines, row, col, padded.as_slice());
            table.original_lines = Some(lines);
        },
        None => {},
    }
    assert(table@ == in_place_table(t, row, col, new_content@, padded@));
    Ok(EditDelta { byte_delta, patched_range: Range { start, end }, new_range })
}

// ---------------------------------------------------------------------
// The edits as methods of the table
// ---------------------------------------------------------------------

impl MarkdownTable {
    /// Edit one cell (see [`update_cell`]).
    pub fn update_cell(&mut self, row: i32, col: usize, new_content: &str, buffer: &mut String) -> (r: Result<
        EditDelta,
        TableError,
    >)
        requires
            editable(old(self)@, old(buffer)@, row, col, new_content@),
        ensures
            cell_edited(old(self)@, old(buffer)@, row, col, new_content@, r, final(self)@, final(buffer)@),
    {
        update_cell(self, row, col, new_content, buffer)
    }

    /// Insert an empty body row (see [`insert_empty_row`]).
    pub fn insert_empty_row(&mut self, at_index: usize, buffer: &mut String) -> (r: Result<EditDelta, TableError>)
        requires
            placed(old(self)@, old(buffer)@),
            cells_ok(old(self)@),
        ensures
            row_inserted(old(self)@, old(buffer)@, at_index, r, final(self)@, final(buffer)@),
    {
        insert_empty_row(self, at_index, buffer)
    }

    /// Delete a body row (see [`delete_row`]).
    pub fn delete_row(&mut self, row_index: usize, buffer: &mut String) -> (r: Result<EditDelta, TableError>)
        requires
            placed(old(self)@, old(buffer)@),
            cells_ok(old(self)@),
        ensures
            row_deleted(old(self)@, old(buffer)@, row_index, r, final(self)@, final(buffer)@),
    {
        delete_row(self, row_index, buffer)
    }

    /// Insert an empty column (see [`insert_column`]).
    pub fn insert_column(&mut self, at_index: usize, alignment: Alignment, buffer: &mut String) -> (r: Result<
        EditDelta,
        TableError,
    >)
        requires
            placed(old(self)@, old(buffer)@),
            cells_ok(old(self)@),
            at_index <= old(self)@.alignments.len() ==> at_index <= old(self)@.headers.len(),
            at_index <= old(self)@.alignments.len() ==> at_index <= old(self)@.column_widths.len(),
        ensures
            column_inserted(old(self)@, old(buffer)@, at_index, alignment, r, final(self)@, final(buffer)@),
    {
        insert_column(self, at_index, alignment, buffer)
    }

    /// Delete a column (see [`delete_column`]).
    pub fn delete_column(&mut self, col_index: usize, buffer: &mut String) -> (r: Result<EditDelta, TableError>)
        requires
            placed(old(self)@, old(buffer)@),
            cells_ok(old(self)@),
            1 < old(self)@.alignments.len() && col_index < old(self)@.alignments.len() ==> col_index
                < old(self)@.headers.len(),
        ensures
            column_deleted(old(self)@, old(buffer)@, col_index, r, final(self)@, final(buffer)@),
    {
        delete_column(self, col_index, buffer)
    }

    /// Set a column's alignment (see [`set_column_alignment`]).
    pub fn set_column_alignment(&mut self, col: usize, alignment: Alignment, buffer: &mut String) -> (r: Result<
        EditDelta,
        TableError,
    >)
        requires
            placed(old(self)@, old(buffer)@),
            cells_ok(old(self)@),
        ensures
            alignment_set(old(self)@, old(buffer)@, col, alignment, r, final(self)@, final(buffer)@),
    {
        set_column_alignment(self, col, alignment, buffer)
    }

    /// Rewrite the table in the pretty layout (see [`reformat_pretty`]).
    pub fn reformat_pretty(&mut self, buffer: &mut String) -> (r: Result<EditDelta, TableError>)
        requires
            placed(old(self)@, old(buffer)@),
            cells_ok(old(self)@),
        ensures
            reformatted(old(self)@, old(buffer)@, r, final(self)@, final(buffer)@),
    {
        reformat_pretty(self, buffer)
    }

    /// Replace the body rows (see [`replace_rows`]).
    pub fn replace_rows(&mut self, new_rows: Vec<Vec<Cell>>, buffer: &mut String) -> (r: Result<EditDelta, TableError>)
        requires
            placed(old(self)@, old(buffer)@),
            cells_ok(TableView { rows: rows_view(new_rows@), ..old(self)@ }),
        ensures
            restructured(
                TableView { rows: rows_view(new_rows@), ..old(self)@ },
                old(buffer)@,
                r,
                final(self)@,
                final(buffer)@,
            ),
    {
        replace_rows(self, new_rows, buffer)
    }

    /// Set the persisted column widths (see [`set_column_widths`]).
    pub fn set_column_widths(&mut self, widths: Vec<Option<u32>>, buffer: &mut String) -> (r: Result<
        EditDelta,
        TableError,
    >)
        requires
            placed(old(self)@, old(buffer)@),
            cells_ok(old(self)@),
        ensures
            widths_set(old(self)@, old(buffer)@, widths@, r, final(self)@, final(buffer)@),
    {
        set_column_widths(self, widths, buffer)
    }
}

} // verus!
