//! What the table operations promise together: an edited cell reads back
//! what was written and nothing else changes, a row or column inserted
//! and then deleted at the same place leaves the table's cells as they
//! were, an alignment set is the alignment read, a cell edit changes the
//! buffer only inside the range it reports, a captured line whose cells
//! were not changed is written back byte for byte, a cell's text with no
//! backslash, pipe or newline is written as it is, and reformatting a
//! reformatted table changes nothing.

use vstd::prelude::*;
use crate::tables::model::{cell_at, cell_exists, Alignment, CellView, TableView};
use crate::tables::model::{LineKind, LineView};
use crate::tables::parse::{is_pad, pad_left, pad_right};
use crate::tables::serialize::{
    col_width, fits, header_pieces, rewritten_buffer, pretty_rows, pretty_text, reformat_text, reformatted, row_pieces,
    rows_col_max, sep_pieces,
    alignment_set, blank, cell_edited, column_deleted, column_inserted, esc_char, escape, gap_start,
    lines_ok, preserve_line, preserve_lines, preserve_text, rebuild_piece, rebuild_pieces,
    rebuilt_line, refresh_from, refreshed, respan, respan_cells,
    rewritten_table, row_deleted, row_inserted, row_with_column, row_without_column, span_hi,
    span_lo, spans_ok,
};
use crate::text::{
    blen, boff, char_at_byte, concat, is_boundary, is_ws, lead_ws, lemma_boff_mono, lemma_concat_push,
    lemma_lead_ws_is, lemma_trail_ws_is, rep, trail_ws, trim,
};

verus! {

/// Two cells hold the same text with the same padding (their byte
/// ranges may differ).
pub open spec fn same_cell(a: CellView, b: CellView) -> bool {
    a.content == b.content && a.leading_ws == b.leading_ws && a.trailing_ws == b.trailing_ws
}

pub open spec fn same_cells(a: Seq<CellView>, b: Seq<CellView>) -> bool {
    a.len() == b.len() && forall|c: int| 0 <= c < a.len() ==> same_cell(#[trigger] a[c], b[c])
}

pub open spec fn same_rows(a: Seq<Seq<CellView>>, b: Seq<Seq<CellView>>) -> bool {
    a.len() == b.len() && forall|r: int| 0 <= r < a.len() ==> same_cells(#[trigger] a[r], b[r])
}

/// Two tables hold the same cells (header and body), alignments and
/// widths.
pub open spec fn same_content(a: TableView, b: TableView) -> bool {
    &&& same_cells(a.headers, b.headers)
    &&& same_rows(a.rows, b.rows)
    &&& a.alignments == b.alignments
    &&& a.column_widths == b.column_widths
}

proof fn lemma_respan_same(cells: Seq<CellView>, at: int, spans: Seq<(usize, usize)>)
    ensures
        same_cells(respan_cells(cells, at, spans), cells),
{
}

proof fn lemma_refresh_same(
    h: Seq<CellView>,
    rows: Seq<Seq<CellView>>,
    ls: Seq<Seq<char>>,
    cursor: int,
    seen: bool,
    row: int,
)
    ensures
        same_cells(refresh_from(h, rows, ls, cursor, seen, row).0, h),
        same_rows(refresh_from(h, rows, ls, cursor, seen, row).1, rows),
    decreases ls.len(),
{
    if ls.len() > 0 {
        let l = ls[0];
        let rest = ls.drop_first();
        let next = cursor + crate::text::blen(l) + 1;
        if crate::text::trim(l).len() == 0 || crate::tables::parse::cols_comment(l) {
            lemma_refresh_same(h, rows, rest, next, seen, row);
        } else if crate::tables::parse::separator_line(l) {
            lemma_refresh_same(h, rows, rest, next, true, row);
        } else if !seen {
            let h2 = respan_cells(h, cursor, crate::tables::parse::byte_spans(l));
            lemma_respan_same(h, cursor, crate::tables::parse::byte_spans(l));
            lemma_refresh_same(h2, rows, rest, next, seen, row);
        } else if 0 <= row < rows.len() {
            let r2 = rows.update(row, respan_cells(rows[row], cursor, crate::tables::parse::byte_spans(l)));
            lemma_respan_same(rows[row], cursor, crate::tables::parse::byte_spans(l));
            lemma_refresh_same(h, r2, rest, next, seen, row + 1);
            let out = refresh_from(h, r2, rest, next, seen, row + 1).1;
            assert forall|r: int| 0 <= r < out.len() implies same_cells(#[trigger] out[r], rows[r]) by {
                assert(same_cells(out[r], r2[r]));
            }
        } else {
            lemma_refresh_same(h, rows, rest, next, seen, row + 1);
        }
    }
}

/// Writing a table's text back keeps its cells: only their byte ranges
/// are read again.
proof fn lemma_rewrite_same(t: TableView, buf: Seq<char>, text: Seq<char>)
    ensures
        same_content(rewritten_table(t, buf, text), t),
{
    let moved = TableView { range: (t.range.0, (t.range.0 + crate::text::blen(text)) as usize), ..t };
    let b = crate::tables::serialize::rewritten_buffer(t, buf, text);
    let src = crate::tables::serialize::source_of(moved, b);
    lemma_refresh_same(moved.headers, moved.rows, crate::text::lines(src), moved.range.0 as int, false, 0);
}

/// An edited cell reads back the new text, and every other cell, the
/// alignments and the widths stay as they were.
pub proof fn lemma_update_cell_reads_back(
    t: TableView,
    buf: Seq<char>,
    row: i32,
    col: usize,
    content: Seq<char>,
    r: Result<crate::tables::model::EditDelta, crate::tables::model::TableError>,
    t_out: TableView,
    buf_out: Seq<char>,
)
    requires
        cell_edited(t, buf, row, col, content, r, t_out, buf_out),
        r is Ok,
    ensures
        cell_exists(t, row, col),
        cell_exists(t_out, row, col),
        cell_at(t_out, row, col).content == content,
        same_cells(t_out.headers, if row == -1 {
            t.headers.update(col as int, CellView { content, ..t.headers[col as int] })
        } else {
            t.headers
        }) || row == -1,
        t_out.headers.len() == t.headers.len(),
        t_out.rows.len() == t.rows.len(),
        forall|rr: int, cc: int|
            #![trigger t_out.rows[rr][cc]]
            0 <= rr < t.rows.len() && 0 <= cc < t.rows[rr].len() && !(rr == row && cc == col)
                ==> cc < t_out.rows[rr].len() && same_cell(t_out.rows[rr][cc], t.rows[rr][cc]),
        forall|cc: int|
            #![trigger t_out.headers[cc]]
            0 <= cc < t.headers.len() && !(row == -1 && cc == col) ==> same_cell(t_out.headers[cc], t.headers[cc]),
        t_out.alignments == t.alignments,
        t_out.column_widths == t.column_widths,
{
    let c = cell_at(t, row, col);
    if t.style == crate::tables::model::TableStyle::PreserveOriginal && crate::tables::serialize::fits_in_place(
        t,
        row,
        col,
        content,
    ) {
    } else {
        let t1 = crate::tables::model::with_cell(t, row, col, CellView { content, ..c });
        let text = crate::tables::serialize::reemit_text(t1);
        if crate::tables::serialize::fits(t1, buf, text) {
            lemma_rewrite_same(t1, buf, text);
        }
    }
}

/// A successful cell edit changes the buffer only inside the range it
/// reports: the text before `patched_range` and after it is kept, and
/// `byte_delta` is the new text's length less the range's. That range is
/// the cell's own (an in-place patch) or the table's (a rewrite), so it
/// lies inside the table when the cell does.
pub proof fn lemma_update_cell_patches_only(
    t: TableView,
    buf: Seq<char>,
    row: i32,
    col: usize,
    content: Seq<char>,
    r: Result<crate::tables::model::EditDelta, crate::tables::model::TableError>,
    t_out: TableView,
    buf_out: Seq<char>,
)
    requires
        cell_edited(t, buf, row, col, content, r, t_out, buf_out),
        r is Ok,
    ensures
        ({
            let d = r.unwrap();
            let a = d.patched_range.start as int;
            let b = d.patched_range.end as int;
            exists|mid: Seq<char>|
                {
                    &&& buf_out == buf.take(char_at_byte(buf, a)) + mid + buf.skip(char_at_byte(buf, b))
                    &&& d.byte_delta == (blen(mid) - (b - a)) as isize
                }
        }),
        ({
            let d = r.unwrap();
            let c = cell_at(t, row, col);
            (d.patched_range.start == c.range.0 && d.patched_range.end == c.range.1) || (
            d.patched_range.start == t.range.0 && d.patched_range.end == t.range.1)
        }),
        ({
            let d = r.unwrap();
            let c = cell_at(t, row, col);
            t.range.0 <= c.range.0 && c.range.1 <= t.range.1 ==> t.range.0 <= d.patched_range.start
                && d.patched_range.end <= t.range.1
        }),
{
    let d = r.unwrap();
    let c = cell_at(t, row, col);
    if t.style == crate::tables::model::TableStyle::PreserveOriginal && crate::tables::serialize::fits_in_place(
        t,
        row,
        col,
        content,
    ) {
        let padded = crate::tables::serialize::in_place_text(c, escape(content));
        assert(d.patched_range.start == c.range.0 && d.patched_range.end == c.range.1);
        assert(buf_out == buf.take(char_at_byte(buf, c.range.0 as int)) + padded + buf.skip(char_at_byte(buf, c.range.1 as int)));

    } else {
        let t1 = crate::tables::model::with_cell(t, row, col, CellView { content, ..c });
        let text = crate::tables::serialize::reemit_text(t1);
        assert(crate::tables::serialize::fits(t1, buf, text));
        assert(d.patched_range.start == t1.range.0 && d.patched_range.end == t1.range.1);
        assert(buf_out == buf.take(char_at_byte(buf, t1.range.0 as int)) + text + buf.skip(char_at_byte(buf, t1.range.1 as int)));

    }
}

/// Inserting an empty row and then deleting the row at the same index
/// gives back the table's cells.
pub proof fn lemma_insert_then_delete_row(
    t: TableView,
    buf: Seq<char>,
    at: usize,
    r1: Result<crate::tables::model::EditDelta, crate::tables::model::TableError>,
    t1: TableView,
    buf1: Seq<char>,
    r2: Result<crate::tables::model::EditDelta, crate::tables::model::TableError>,
    t2: TableView,
    buf2: Seq<char>,
)
    requires
        row_inserted(t, buf, at, r1, t1, buf1),
        row_deleted(t1, buf1, at, r2, t2, buf2),
        r1 is Ok,
        r2 is Ok,
    ensures
        same_content(t2, t),
{
    let cols = t.alignments.len();
    let ti = TableView { rows: t.rows.insert(at as int, Seq::new(cols, |i: int| blank())), ..t };
    lemma_rewrite_same(ti, buf, crate::tables::serialize::structural_text(ti));
    let td = TableView { rows: t1.rows.remove(at as int), ..t1 };
    lemma_rewrite_same(td, buf1, crate::tables::serialize::structural_text(td));
    assert forall|r: int| 0 <= r < t.rows.len() implies same_cells(#[trigger] t2.rows[r], t.rows[r]) by {
        if r < at {
            assert(same_cells(t2.rows[r], td.rows[r]));
            assert(same_cells(t1.rows[r], ti.rows[r]));
        } else {
            assert(same_cells(t2.rows[r], td.rows[r]));
            assert(td.rows[r] == t1.rows[r + 1]);
            assert(same_cells(t1.rows[r + 1], ti.rows[r + 1]));
        }
    }
}

/// Setting a column's alignment makes it the alignment of that column
/// and leaves the cells as they were.
pub proof fn lemma_alignment_reads_back(
    t: TableView,
    buf: Seq<char>,
    col: usize,
    a: Alignment,
    r: Result<crate::tables::model::EditDelta, crate::tables::model::TableError>,
    t_out: TableView,
    buf_out: Seq<char>,
)
    requires
        alignment_set(t, buf, col, a, r, t_out, buf_out),
        r is Ok,
    ensures
        col < t.alignments.len(),
        t_out.alignments == t.alignments.update(col as int, a),
        same_cells(t_out.headers, t.headers),
        same_rows(t_out.rows, t.rows),
{
    if col < t.alignments.len() && t.alignments[col as int] != a {
        let ta = TableView { alignments: t.alignments.update(col as int, a), ..t };
        lemma_rewrite_same(ta, buf, crate::tables::serialize::structural_text(ta));
    } else {
        assert(t.alignments.update(col as int, a) =~= t.alignments);
    }
}

/// Inserting a column and then deleting the column at the same index
/// gives back the table's cells, for a table whose rows all reach that
/// index (a shorter row is padded by the insertion and stays padded).
pub proof fn lemma_insert_then_delete_column(
    t: TableView,
    buf: Seq<char>,
    at: usize,
    a: Alignment,
    r1: Result<crate::tables::model::EditDelta, crate::tables::model::TableError>,
    t1: TableView,
    buf1: Seq<char>,
    r2: Result<crate::tables::model::EditDelta, crate::tables::model::TableError>,
    t2: TableView,
    buf2: Seq<char>,
)
    requires
        column_inserted(t, buf, at, a, r1, t1, buf1),
        column_deleted(t1, buf1, at, r2, t2, buf2),
        r1 is Ok,
        r2 is Ok,
        at <= t.headers.len(),
        at <= t.column_widths.len(),
        forall|r: int| 0 <= r < t.rows.len() ==> at <= (#[trigger] t.rows[r]).len(),
    ensures
        same_content(t2, t),
{
    let ti = TableView {
        alignments: t.alignments.insert(at as int, a),
        headers: t.headers.insert(at as int, blank()),
        rows: t.rows.map_values(|row: Seq<CellView>| row_with_column(row, at as int)),
        column_widths: t.column_widths.insert(at as int, None),
        ..t
    };
    lemma_rewrite_same(ti, buf, crate::tables::serialize::structural_text(ti));
    let td = TableView {
        alignments: t1.alignments.remove(at as int),
        headers: t1.headers.remove(at as int),
        rows: t1.rows.map_values(|row: Seq<CellView>| row_without_column(row, at as int)),
        column_widths: if at < t1.column_widths.len() {
            t1.column_widths.remove(at as int)
        } else {
            t1.column_widths
        },
        ..t1
    };
    lemma_rewrite_same(td, buf1, crate::tables::serialize::structural_text(td));
    assert(td.alignments =~= t.alignments);
    assert(td.column_widths =~= t.column_widths);
    assert forall|c: int| 0 <= c < t.headers.len() implies same_cell(#[trigger] t2.headers[c], t.headers[c]) by {
        assert(same_cell(t2.headers[c], td.headers[c]));
        if c < at {
            assert(same_cell(t1.headers[c], ti.headers[c]));
        } else {
            assert(same_cell(t1.headers[c + 1], ti.headers[c + 1]));
        }
    }
    assert forall|r: int| 0 <= r < t.rows.len() implies same_cells(#[trigger] t2.rows[r], t.rows[r]) by {
        let row = t.rows[r];
        assert(same_cells(t2.rows[r], td.rows[r]));
        assert(same_cells(t1.rows[r], ti.rows[r]));
        assert(ti.rows[r] == row.insert(at as int, blank()));
        assert(td.rows[r] == t1.rows[r].remove(at as int));
        assert forall|c: int| 0 <= c < row.len() implies same_cell(#[trigger] t2.rows[r][c], row[c]) by {
            assert(same_cell(t2.rows[r][c], td.rows[r][c]));
            if c < at {
                assert(same_cell(t1.rows[r][c], ti.rows[r][c]));
            } else {
                assert(same_cell(t1.rows[r][c + 1], ti.rows[r][c + 1]));
            }
        }
    }
}

// ---------------------------------------------------------------------
// Unchanged cells keep their bytes
// ---------------------------------------------------------------------

/// The text of a cell in its line is its content as written (escaped, see
/// [`escape`]) with one or more spaces on each side; written out, the
/// content is not empty and neither starts nor ends with whitespace.
pub open spec fn kept_as_written(orig: Seq<char>, content: Seq<char>) -> bool {
    let e = escape(content);
    &&& e.len() > 0
    &&& !is_ws(e[0])
    &&& !is_ws(e.last())
    &&& exists|a: nat, b: nat| a >= 1 && b >= 1 && orig == rep(' ', a) + e + rep(' ', b)
}

proof fn lemma_pad_right_at(s: Seq<char>, a: int, k: int)
    requires
        0 <= k <= a < s.len(),
        forall|i: int| 0 <= i < a ==> s[i] == ' ',
        !is_pad(s[a]),
    ensures
        pad_right(s, k) == a,
    decreases a - k,
{
    if k < a {
        lemma_pad_right_at(s, a, k + 1);
    }
}

proof fn lemma_pad_left_at(s: Seq<char>, e: int, k: int)
    requires
        0 < e <= k <= s.len(),
        forall|i: int| e <= i < s.len() ==> s[i] == ' ',
        !is_pad(s[e - 1]),
    ensures
        pad_left(s, k) == e,
    decreases k - e,
{
    if k > e {
        lemma_pad_left_at(s, e, k - 1);
    }
}

/// A cell whose content is still what its line has between its padding
/// (see [`kept_as_written`]) is written back exactly as it was.
pub proof fn lemma_unchanged_cell_kept(orig: Seq<char>, content: Seq<char>)
    requires
        kept_as_written(orig, content),
    ensures
        respan(orig, content) == orig,
{
    let w = escape(content);
    let (a, b) = choose|a: nat, b: nat| a >= 1 && b >= 1 && orig == rep(' ', a) + w + rep(' ', b);
    let c = w.len() as int;
    let len = orig.len() as int;
    assert(len == a + c + b);
    assert forall|i: int| 0 <= i < a implies orig[i] == ' ' by {}
    assert forall|i: int| a + c <= i < len implies orig[i] == ' ' by {}
    assert(orig[a as int] == w[0]);
    assert(orig[a + c - 1] == w.last());
    assert(is_ws(' ') && is_ws('\t'));
    lemma_pad_right_at(orig, a as int, 0);
    lemma_pad_left_at(orig, a + c, len);
    lemma_lead_ws_is(orig, a as int);
    let ts = orig.skip(a as int);
    assert(ts =~= w + rep(' ', b));
    assert forall|j: int| ts.len() - b <= j < ts.len() implies is_ws(ts[j]) by {}
    assert(ts[ts.len() - b - 1] == w.last());
    lemma_trail_ws_is(ts, b as int);
    assert(trim(orig) =~= w);
    assert(rep(' ', 0) =~= Seq::<char>::empty());
    assert(respan(orig, content) =~= orig);
}

proof fn lemma_char_at_byte_order(s: Seq<char>, b1: int, b2: int)
    requires
        is_boundary(s, b1),
        is_boundary(s, b2),
        b1 <= b2,
    ensures
        0 <= char_at_byte(s, b1) <= char_at_byte(s, b2) <= s.len(),
        boff(s, char_at_byte(s, b1)) == b1,
{
    let k1 = char_at_byte(s, b1);
    let k2 = char_at_byte(s, b2);
    if k1 > k2 {
        lemma_boff_mono(s, k2, k1);
    }
}

/// Every cell still holds what the line has between its padding (see
/// [`kept_as_written`]).
pub open spec fn cells_kept(l: LineView, cells: Seq<CellView>) -> bool {
    &&& cells.len() == l.cell_spans.len()
    &&& forall|j: int|
        0 <= j < cells.len() ==> kept_as_written(
            l.raw.subrange(span_lo(l.raw, l.cell_spans, j), span_hi(l.raw, l.cell_spans, j)),
            #[trigger] cells[j].content,
        )
}

#[verifier::rlimit(40)]
proof fn lemma_pieces_prefix(l: LineView, cells: Seq<CellView>, k: int)
    requires
        spans_ok(l.raw, l.cell_spans),
        cells_kept(l, cells),
        0 <= k <= cells.len(),
    ensures
        0 <= gap_start(l.raw, l.cell_spans, k) <= l.raw.len(),
        concat(rebuild_pieces(l.raw, l.cell_spans, cells, k as nat)) == l.raw.subrange(
            0,
            gap_start(l.raw, l.cell_spans, k),
        ),
    decreases k,
{
    let raw = l.raw;
    let spans = l.cell_spans;
    if k == 0 {
        assert(rebuild_pieces(raw, spans, cells, 0) =~= Seq::<Seq<char>>::empty());
        assert(raw.subrange(0, 0) =~= Seq::<char>::empty());
    } else {
        let j = k - 1;
        lemma_pieces_prefix(l, cells, j);
        let g = gap_start(raw, spans, j);
        let lo = span_lo(raw, spans, j);
        let hi = span_hi(raw, spans, j);
        lemma_char_at_byte_order(raw, spans[j].0 as int, spans[j].1 as int);
        if j > 0 {
            lemma_char_at_byte_order(raw, spans[j - 1].1 as int, spans[j].0 as int);
        }
        assert(0 <= g <= lo <= hi <= raw.len());
        lemma_unchanged_cell_kept(raw.subrange(lo, hi), cells[j].content);
        let piece = rebuild_piece(raw, spans, cells, j);
        assert(piece =~= raw.subrange(g, hi));
        assert(rebuild_pieces(raw, spans, cells, k as nat) =~= rebuild_pieces(raw, spans, cells, j as nat).push(piece));
        lemma_concat_push(rebuild_pieces(raw, spans, cells, j as nat), piece);
        assert(gap_start(raw, spans, k) == hi);
        assert(raw.subrange(0, g) + raw.subrange(g, hi) =~= raw.subrange(0, hi));
    }
}

/// A captured line whose cells all still hold what it has between their
/// padding (see [`kept_as_written`]) is written back byte for byte: the
/// preserve layout changes nothing that was not edited.
pub proof fn lemma_unchanged_line_kept(l: LineView, cells: Seq<CellView>)
    requires
        spans_ok(l.raw, l.cell_spans),
        cells_kept(l, cells),
    ensures
        rebuilt_line(l, cells) == l.raw,
{
    let n = cells.len() as int;
    lemma_pieces_prefix(l, cells, n);
    assert(l.raw.subrange(0, gap_start(l.raw, l.cell_spans, n)) + l.raw.subrange(
        gap_start(l.raw, l.cell_spans, n),
        l.raw.len() as int,
    ) =~= l.raw);
}

/// Every cell of a captured line still holds what the line has between
/// its padding; a body line's row still exists.
pub open spec fn line_unchanged(t: TableView, l: LineView) -> bool {
    match l.kind {
        LineKind::Header => cells_kept(l, t.headers),
        LineKind::Body { row_index } => row_index < t.rows.len() && cells_kept(
            l,
            t.rows[row_index as int],
        ),
        LineKind::Separator => true,
    }
}

/// A table in the preserve layout whose captured lines were not edited
/// (see [`line_unchanged`]) is written back as those lines, each ended by
/// a newline.
pub proof fn lemma_unchanged_table_kept(t: TableView)
    requires
        t.original_lines is Some,
        lines_ok(t),
        forall|i: int|
            0 <= i < t.original_lines.unwrap().len() ==> line_unchanged(
                t,
                #[trigger] t.original_lines.unwrap()[i],
            ),
    ensures
        preserve_text(t) == concat(
            t.original_lines.unwrap().map_values(|l: LineView| l.raw + seq!['\n']),
        ),
{
    let ls = t.original_lines.unwrap();
    let want = ls.map_values(|l: LineView| l.raw + seq!['\n']);
    assert forall|i: int| 0 <= i < ls.len() implies #[trigger] preserve_lines(t, ls)[i] == want[i] by {
        let l = ls[i];
        assert(line_unchanged(t, l));
        assert(spans_ok(l.raw, l.cell_spans));
        match l.kind {
            LineKind::Header => {
                lemma_unchanged_line_kept(l, t.headers);
            },
            LineKind::Body { row_index } => {
                lemma_unchanged_line_kept(l, t.rows[row_index as int]);
            },
            LineKind::Separator => {},
        }
    }
    assert(preserve_lines(t, ls) =~= want);
}

// ---------------------------------------------------------------------
// Writing a cell's text back
// ---------------------------------------------------------------------

/// Text with no backslash, pipe or newline: what [`escape`] writes as it is.
pub open spec fn plain(x: Seq<char>) -> bool {
    forall|i: int| 0 <= i < x.len() ==> #[trigger] x[i] != '\\' && x[i] != '|' && x[i] != '\n'
}

/// A cell's text with no backslash, pipe or newline is written as it is,
/// so an unedited cell of that kind keeps its bytes when its table is
/// written again. (A backslash is doubled and a pipe escaped: the source
/// text `foo \| bar` is written `foo \\\| bar`.)
pub proof fn lemma_plain_written_as_is(x: Seq<char>)
    requires
        plain(x),
    ensures
        escape(x) == x,
    decreases x.len(),
{
    if x.len() > 0 {
        let y = x.drop_last();
        assert forall|i: int| 0 <= i < y.len() implies #[trigger] y[i] != '\\' && y[i] != '|' && y[i] != '\n' by {
            assert(y[i] == x[i]);
        }
        lemma_plain_written_as_is(y);
        assert(x[x.len() - 1] != '\\' && x[x.len() - 1] != '|' && x[x.len() - 1] != '\n');
        assert(y.push(x.last()) =~= x);
    }
}

// ---------------------------------------------------------------------
// Reformatting twice
// ---------------------------------------------------------------------

proof fn lemma_rows_col_max_same(a: Seq<Seq<CellView>>, b: Seq<Seq<CellView>>, col: int)
    requires
        same_rows(a, b),
    ensures
        rows_col_max(a, col) == rows_col_max(b, col),
    decreases a.len(),
{
    if a.len() > 0 {
        let n = a.len() - 1;
        assert forall|r: int| 0 <= r < n implies same_cells(#[trigger] a.drop_last()[r], b.drop_last()[r]) by {
            assert(same_cells(a[r], b[r]));
        }
        lemma_rows_col_max_same(a.drop_last(), b.drop_last(), col);
        assert(same_cells(a[n], b[n]));
        if 0 <= col < a[n].len() {
            assert(same_cell(a[n][col], b[n][col]));
        }
    }
}

proof fn lemma_col_width_same(a: TableView, b: TableView, col: int)
    requires
        same_content(a, b),
    ensures
        col_width(a, col) == col_width(b, col),
{
    lemma_rows_col_max_same(a.rows, b.rows, col);
    if 0 <= col < a.headers.len() {
        assert(same_cell(a.headers[col], b.headers[col]));
    }
}

/// Tables with the same cells, alignments and widths are written alike
/// in the pretty layout.
proof fn lemma_pretty_same(a: TableView, b: TableView)
    requires
        same_content(a, b),
    ensures
        pretty_text(a) == pretty_text(b),
{
    assert forall|c: int| 0 <= c < a.headers.len() implies #[trigger] header_pieces(a, a.headers.len())[c]
        == header_pieces(b, b.headers.len())[c] by {
        lemma_col_width_same(a, b, c);
        assert(same_cell(a.headers[c], b.headers[c]));
    }
    assert(header_pieces(a, a.headers.len()) =~= header_pieces(b, b.headers.len()));
    assert forall|c: int| 0 <= c < a.alignments.len() implies #[trigger] sep_pieces(a, a.alignments.len())[c]
        == sep_pieces(b, b.alignments.len())[c] by {
        lemma_col_width_same(a, b, c);
    }
    assert(sep_pieces(a, a.alignments.len()) =~= sep_pieces(b, b.alignments.len()));
    assert forall|r: int| 0 <= r < a.rows.len() implies #[trigger] pretty_rows(a, a.rows)[r] == pretty_rows(
        b,
        b.rows,
    )[r] by {
        let ra = a.rows[r];
        let rb = b.rows[r];
        assert(same_cells(ra, rb));
        assert forall|c: int| 0 <= c < a.alignments.len() implies #[trigger] row_pieces(a, ra, a.alignments.len())[c]
            == row_pieces(b, rb, b.alignments.len())[c] by {
            lemma_col_width_same(a, b, c);
            if c < ra.len() {
                assert(same_cell(ra[c], rb[c]));
            }
        }
        assert(row_pieces(a, ra, a.alignments.len()) =~= row_pieces(b, rb, b.alignments.len()));
    }
    assert(pretty_rows(a, a.rows) =~= pretty_rows(b, b.rows));
}

proof fn lemma_reformat_ok(
    t: TableView,
    buf: Seq<char>,
    r: Result<crate::tables::model::EditDelta, crate::tables::model::TableError>,
    t1: TableView,
    buf1: Seq<char>,
)
    requires
        reformatted(t, buf, r, t1, buf1),
        r is Ok,
    ensures
        t.alignments.len() > 0,
        fits(t, buf, reformat_text(t)),
        buf1 == rewritten_buffer(t, buf, reformat_text(t)),
        r matches Ok(d) && d.byte_delta == (blen(reformat_text(t)) - (t.range.1 - t.range.0)) as isize,
        same_content(t1, t),
        t1.range == (t.range.0, (t.range.0 + blen(reformat_text(t))) as usize),
{
    let text = reformat_text(t);
    if t.alignments.len() > 0 && fits(t, buf, text) {
        lemma_rewrite_same(t, buf, text);
    }
}

proof fn lemma_same_content_trans(a: TableView, b: TableView, c: TableView)
    requires
        same_content(a, b),
        same_content(b, c),
    ensures
        same_content(a, c),
{
    assert forall|i: int| 0 <= i < a.headers.len() implies same_cell(#[trigger] a.headers[i], c.headers[i]) by {
        assert(same_cell(a.headers[i], b.headers[i]));
        assert(same_cell(b.headers[i], c.headers[i]));
    }
    assert forall|r: int| 0 <= r < a.rows.len() implies same_cells(#[trigger] a.rows[r], c.rows[r]) by {
        assert(same_cells(a.rows[r], b.rows[r]));
        assert(same_cells(b.rows[r], c.rows[r]));
        assert forall|i: int| 0 <= i < a.rows[r].len() implies same_cell(#[trigger] a.rows[r][i], c.rows[r][i]) by {
            assert(same_cell(a.rows[r][i], b.rows[r][i]));
            assert(same_cell(b.rows[r][i], c.rows[r][i]));
        }
    }
}

proof fn lemma_splice_size(buf: Seq<char>, a: int, b: int, text: Seq<char>)
    requires
        is_boundary(buf, a),
        is_boundary(buf, b),
        a <= b,
        blen(buf) - (b - a) + blen(text) < isize::MAX,
    ensures
        a + blen(text) < isize::MAX,
        blen(crate::text::splice(buf, a, b, text)) == blen(buf) - (b - a) + blen(text),
{
    crate::text::lemma_splice(buf, a, b, text);
    let kb = char_at_byte(buf, b);
    lemma_boff_mono(buf, kb, buf.len() as int);
}

/// Writing a text over the range it already fills changes nothing.
proof fn lemma_splice_again(buf: Seq<char>, a: int, b: int, text: Seq<char>)
    requires
        is_boundary(buf, a),
        is_boundary(buf, b),
        a <= b,
    ensures
        ({
            let buf1 = crate::text::splice(buf, a, b, text);
            crate::text::splice(buf1, a, a + blen(text), text) == buf1
        }),
{
    crate::text::lemma_splice(buf, a, b, text);
    let ka = char_at_byte(buf, a);
    let kb = char_at_byte(buf, b);
    let buf1 = crate::text::splice(buf, a, b, text);
    assert(buf1.take(ka) =~= buf.take(ka));
    assert(buf1.skip(ka + text.len()) =~= buf.skip(kb));
}

/// Reformatting is idempotent: reformat a table, then reformat the
/// result (or any table read back with the same cells, alignments and
/// widths at the same place) and the second reformat changes nothing:
/// it succeeds with a zero delta, leaves the buffer as the first left
/// it, and keeps the cells.
pub proof fn lemma_reformat_twice(
    t: TableView,
    buf: Seq<char>,
    r1: Result<crate::tables::model::EditDelta, crate::tables::model::TableError>,
    t1: TableView,
    buf1: Seq<char>,
    t2: TableView,
    r2: Result<crate::tables::model::EditDelta, crate::tables::model::TableError>,
    t3: TableView,
    buf2: Seq<char>,
)
    requires
        crate::tables::parse::valid_range(buf, t.range.0 as int, t.range.1 as int),
        reformatted(t, buf, r1, t1, buf1),
        r1 is Ok,
        same_content(t2, t1),
        t2.range == t1.range,
        reformatted(t2, buf1, r2, t3, buf2),
    ensures
        r2 matches Ok(d) && d.byte_delta == 0,
        buf2 == buf1,
        same_content(t3, t2),
{
    let text = reformat_text(t);
    lemma_reformat_ok(t, buf, r1, t1, buf1);
    lemma_same_content_trans(t2, t1, t);
    lemma_pretty_same(t2, t);
    assert(reformat_text(t2) == text);
    lemma_splice_size(buf, t.range.0 as int, t.range.1 as int, text);
    assert(t2.range.1 - t2.range.0 == blen(text));
    assert(fits(t2, buf1, text));
    lemma_reformat_ok(t2, buf1, r2, t3, buf2);
    lemma_splice_again(buf, t.range.0 as int, t.range.1 as int, text);
}

} // verus!
