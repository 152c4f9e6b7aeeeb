//! Core data structures for the markdown table subsystem.

use std::ops::Range;
use vstd::prelude::*;
use crate::text::{dec, push_dec, push_str, chars_of, compare_chars, lemma_lex_order_antisym, lemma_lex_order_trans, lex_order, lowercase, string_of, to_lowercase, trim, trimmed};

verus! {

/// Stable identifier for a table in a document.
pub type TableId = u64;

/// A parsed markdown table. Cells hold raw markdown source; all ranges
/// are byte offsets into the document buffer.
#[derive(Debug)]
pub struct MarkdownTable {
    pub id: TableId,
    pub source_range: Range<usize>,
    pub alignments: Vec<Alignment>,
    pub headers: Vec<Cell>,
    pub rows: Vec<Vec<Cell>>,
    pub style: TableStyle,
    pub column_widths: Vec<Option<u32>>,
    pub original_lines: Option<Vec<OriginalLine>>,
    pub sort_indicator: Option<(usize, SortDirection)>,
}

/// A single table cell. `source_range` covers the content between the
/// surrounding pipes, padding included.
#[derive(Debug)]
pub struct Cell {
    pub source_range: Range<usize>,
    /// The trimmed source text, raw markdown as written (an escaped pipe
    /// stays `\|`).
    pub content: String,
    pub leading_ws: u8,
    pub trailing_ws: u8,
}

#[derive(Clone, Copy, Debug, PartialEq, Eq, Structural)]
pub enum Alignment {
    Unaligned,
    Left,
    Center,
    Right,
}

/// Round-trip strategy for re-serialising a table after edits.
#[derive(Clone, Copy, Debug, PartialEq, Eq, Structural)]
pub enum TableStyle {
    Compact,
    Pretty,
    PreserveOriginal,
}

/// One line of original table source (PreserveOriginal round trip).
#[derive(Debug)]
pub struct OriginalLine {
    pub raw: String,
    pub cell_spans: Vec<Range<usize>>,
    pub kind: LineKind,
}

#[derive(Clone, Copy, Debug, PartialEq, Eq, Structural)]
pub enum LineKind {
    Header,
    Separator,
    Body { row_index: usize },
}

/// Information returned by an edit.
#[derive(Debug)]
pub struct EditDelta {
    pub byte_delta: isize,
    pub patched_range: Range<usize>,
    pub new_range: Range<usize>,
}

/// Sort direction for [`sort_rows`].
#[derive(Clone, Copy, Debug, PartialEq, Eq, Structural)]
pub enum SortDirection {
    Unsorted,
    Ascending,
    Descending,
}

/// Direction for [`MarkdownTable::navigate`].
#[derive(Clone, Copy, Debug, PartialEq, Eq, Structural)]
pub enum NavDirection {
    Next,
    Prev,
    Down,
    Up,
}

/// Result of a navigation query.
#[derive(Clone, Copy, Debug, PartialEq, Eq, Structural)]
pub struct NavTarget {
    pub row: i32,
    pub col: usize,
    pub created_row: bool,
}

/// Errors produced by the table subsystem.
#[derive(Clone, Debug)]
pub enum TableError {
    CellOutOfRange { row: i32, col: usize },
    TableNotFound(TableId),
    NotPreserveMode,
    InvalidCsv(String),
    InvalidHtml(String),
    InvalidStructure(String),
}

// ---------------------------------------------------------------------
// Views
// ---------------------------------------------------------------------

/// A byte range as a pair of offsets.
pub open spec fn rv(r: Range<usize>) -> (usize, usize) {
    (r.start, r.end)
}

/// The mathematical content of a [`Cell`].
pub struct CellView {
    pub range: (usize, usize),
    pub content: Seq<char>,
    pub leading_ws: u8,
    pub trailing_ws: u8,
}

impl View for Cell {
    type V = CellView;

    open spec fn view(&self) -> CellView {
        CellView {
            range: rv(self.source_range),
            content: self.content@,
            leading_ws: self.leading_ws,
            trailing_ws: self.trailing_ws,
        }
    }
}

/// The mathematical content of an [`OriginalLine`].
pub struct LineView {
    pub raw: Seq<char>,
    pub cell_spans: Seq<(usize, usize)>,
    pub kind: LineKind,
}

impl View for OriginalLine {
    type V = LineView;

    open spec fn view(&self) -> LineView {
        LineView {
            raw: self.raw@,
            cell_spans: self.cell_spans@.map_values(|r: Range<usize>| rv(r)),
            kind: self.kind,
        }
    }
}

pub open spec fn cells_view(cells: Seq<Cell>) -> Seq<CellView> {
    cells.map_values(|c: Cell| c@)
}

pub open spec fn rows_view(rows: Seq<Vec<Cell>>) -> Seq<Seq<CellView>> {
    rows.map_values(|r: Vec<Cell>| cells_view(r@))
}

pub open spec fn lines_view(lines: Seq<OriginalLine>) -> Seq<LineView> {
    lines.map_values(|l: OriginalLine| l@)
}

/// The mathematical content of a [`MarkdownTable`].
pub struct TableView {
    pub id: u64,
    pub range: (usize, usize),
    pub alignments: Seq<Alignment>,
    pub headers: Seq<CellView>,
    pub rows: Seq<Seq<CellView>>,
    pub style: TableStyle,
    pub column_widths: Seq<Option<u32>>,
    pub original_lines: Option<Seq<LineView>>,
    pub sort_indicator: Option<(usize, SortDirection)>,
}

impl View for MarkdownTable {
    type V = TableView;

    open spec fn view(&self) -> TableView {
        TableView {
            id: self.id,
            range: rv(self.source_range),
            alignments: self.alignments@,
            headers: cells_view(self.headers@),
            rows: rows_view(self.rows@),
            style: self.style,
            column_widths: self.column_widths@,
            original_lines: match self.original_lines {
                Some(ls) => Some(lines_view(ls@)),
                None => None,
            },
            sort_indicator: self.sort_indicator,
        }
    }
}

/// The mathematical content of a [`TableError`].
pub enum ErrorView {
    CellOutOfRange { row: i32, col: usize },
    TableNotFound(TableId),
    NotPreserveMode,
    InvalidCsv(Seq<char>),
    InvalidHtml(Seq<char>),
    InvalidStructure(Seq<char>),
}

impl View for TableError {
    type V = ErrorView;

    open spec fn view(&self) -> ErrorView {
        match self {
            TableError::CellOutOfRange { row, col } => ErrorView::CellOutOfRange { row: *row, col: *col },
            TableError::TableNotFound(id) => ErrorView::TableNotFound(*id),
            TableError::NotPreserveMode => ErrorView::NotPreserveMode,
            TableError::InvalidCsv(m) => ErrorView::InvalidCsv(m@),
            TableError::InvalidHtml(m) => ErrorView::InvalidHtml(m@),
            TableError::InvalidStructure(m) => ErrorView::InvalidStructure(m@),
        }
    }
}

/// A number as `i32`'s `Display` writes it.
pub open spec fn signed_dec(v: int) -> Seq<char> {
    if v < 0 {
        "-"@ + dec((0 - v) as nat)
    } else {
        dec(v as nat)
    }
}

/// What a table error says.
pub open spec fn error_text(e: ErrorView) -> Seq<char> {
    match e {
        ErrorView::CellOutOfRange { row, col } => "cell ("@ + signed_dec(row as int) + ", "@ + dec(
            col as nat,
        ) + ") is out of range"@,
        ErrorView::TableNotFound(id) => "table "@ + dec(id as nat) + " not found"@,
        ErrorView::NotPreserveMode => "operation requires PreserveOriginal mode"@,
        ErrorView::InvalidCsv(m) => "invalid CSV: "@ + m,
        ErrorView::InvalidHtml(m) => "invalid HTML: "@ + m,
        ErrorView::InvalidStructure(m) => "invalid table structure: "@ + m,
    }
}

impl TableError {
    /// The error as a sentence (what its `Display` would write).
    pub fn message(&self) -> (s: String)
        ensures
            s@ == error_text(self@),
    {
        let mut out: Vec<char> = Vec::new();
        match self {
            TableError::CellOutOfRange { row, col } => {
                push_str(&mut out, "cell (");
                if *row < 0 {
                    push_str(&mut out, "-");
                    let mag: u64 = (0i64 - *row as i64) as u64;
                    push_dec(&mut out, mag);
                } else {
                    push_dec(&mut out, *row as u64);
                }
                push_str(&mut out, ", ");
                push_dec(&mut out, *col as u64);
                push_str(&mut out, ") is out of range");
            },
            TableError::TableNotFound(id) => {
                push_str(&mut out, "table ");
                push_dec(&mut out, *id);
                push_str(&mut out, " not found");
            },
            TableError::NotPreserveMode => {
                push_str(&mut out, "operation requires PreserveOriginal mode");
            },
            TableError::InvalidCsv(m) => {
                push_str(&mut out, "invalid CSV: ");
                push_str(&mut out, m.as_str());
            },
            TableError::InvalidHtml(m) => {
                push_str(&mut out, "invalid HTML: ");
                push_str(&mut out, m.as_str());
            },
            TableError::InvalidStructure(m) => {
                push_str(&mut out, "invalid table structure: ");
                push_str(&mut out, m.as_str());
            },
        }
        string_of(out.as_slice())
    }
}

/// A copy of `r`.
pub fn copy_range(r: &Range<usize>) -> (c: Range<usize>)
    ensures
        c == *r,
{
    Range { start: r.start, end: r.end }
}

impl Clone for Cell {
    fn clone(&self) -> (c: Self)
        ensures
            c@ == self@,
    {
        Cell {
            source_range: copy_range(&self.source_range),
            content: self.content.clone(),
            leading_ws: self.leading_ws,
            trailing_ws: self.trailing_ws,
        }
    }
}

/// A copy of a row of cells.
pub fn clone_cells(cells: &Vec<Cell>) -> (c: Vec<Cell>)
    ensures
        cells_view(c@) == cells_view(cells@),
{
    let mut out: Vec<Cell> = Vec::new();
    let mut i: usize = 0;
    while i < cells.len()
        invariant
            i <= cells@.len(),
            cells_view(out@) =~= cells_view(cells@.take(i as int)),
        decreases cells@.len() - i,
    {
        let c = cells[i].clone();
        assert(c@ == cells@[i as int]@);
        let ghost prev = out@;
        assert(cells_view(prev).len() == prev.len());
        assert(prev.len() == i);
        out.push(c);
        assert(out@ == prev.push(c));
        i = i + 1;
        assert(cells_view(out@) =~= cells_view(cells@.take(i as int))) by {
            assert forall|k: int| 0 <= k < i implies cells_view(out@)[k] == cells_view(
                cells@.take(i as int),
            )[k] by {
                if k < i - 1 {
                    assert(cells_view(prev)[k] == cells_view(cells@.take(i - 1))[k]);
                }
            }
        }
    }
    assert(cells@.take(cells@.len() as int) =~= cells@);
    out
}

/// A copy of a list of rows.
pub fn clone_rows(rows: &Vec<Vec<Cell>>) -> (c: Vec<Vec<Cell>>)
    ensures
        rows_view(c@) == rows_view(rows@),
{
    let mut out: Vec<Vec<Cell>> = Vec::new();
    let mut i: usize = 0;
    while i < rows.len()
        invariant
            i <= rows@.len(),
            rows_view(out@) =~= rows_view(rows@.take(i as int)),
        decreases rows@.len() - i,
    {
        let c = clone_cells(&rows[i]);
        let ghost prev = out@;
        assert(rows_view(prev).len() == prev.len());
        assert(prev.len() == i);
        out.push(c);
        assert(out@ == prev.push(c));
        i = i + 1;
        assert(rows_view(out@) =~= rows_view(rows@.take(i as int))) by {
            assert forall|k: int| 0 <= k < i implies rows_view(out@)[k] == rows_view(
                rows@.take(i as int),
            )[k] by {
                if k < i - 1 {
                    assert(rows_view(prev)[k] == rows_view(rows@.take(i - 1))[k]);
                }
            }
        }
    }
    assert(rows@.take(rows@.len() as int) =~= rows@);
    out
}

impl Clone for OriginalLine {
    fn clone(&self) -> (c: Self)
        ensures
            c@ == self@,
    {
        let mut spans: Vec<Range<usize>> = Vec::new();
        let mut i: usize = 0;
        while i < self.cell_spans.len()
            invariant
                i <= self.cell_spans@.len(),
                spans@ == self.cell_spans@.take(i as int),
            decreases self.cell_spans@.len() - i,
        {
            spans.push(copy_range(&self.cell_spans[i]));
            i = i + 1;
            assert(spans@ =~= self.cell_spans@.take(i as int));
        }
        assert(self.cell_spans@.take(self.cell_spans@.len() as int) =~= self.cell_spans@);
        OriginalLine { raw: self.raw.clone(), cell_spans: spans, kind: self.kind }
    }
}

impl Clone for EditDelta {
    fn clone(&self) -> (c: Self)
        ensures
            c == *self,
    {
        EditDelta {
            byte_delta: self.byte_delta,
            patched_range: copy_range(&self.patched_range),
            new_range: copy_range(&self.new_range),
        }
    }
}

// ---------------------------------------------------------------------
// Cell addressing
// ---------------------------------------------------------------------

/// Whether `(row, col)` names an existing cell (`row == -1` is the header).
pub open spec fn cell_exists(t: TableView, row: i32, col: usize) -> bool {
    if row == -1 {
        col < t.headers.len()
    } else {
        0 <= row < t.rows.len() && col < t.rows[row as int].len()
    }
}

/// The cell at `(row, col)`, meaningful when [`cell_exists`] holds.
pub open spec fn cell_at(t: TableView, row: i32, col: usize) -> CellView {
    if row == -1 {
        t.headers[col as int]
    } else {
        t.rows[row as int][col as int]
    }
}

/// `t` with the cell at `(row, col)` replaced by `c`.
pub open spec fn with_cell(t: TableView, row: i32, col: usize, c: CellView) -> TableView {
    if row == -1 {
        TableView { headers: t.headers.update(col as int, c), ..t }
    } else {
        TableView { rows: t.rows.update(row as int, t.rows[row as int].update(col as int, c)), ..t }
    }
}

impl MarkdownTable {
    /// Borrow a cell. `row == -1` is the header.
    pub fn cell(&self, row: i32, col: usize) -> (r: Result<&Cell, TableError>)
        ensures
            r is Ok <==> cell_exists(self@, row, col),
            r matches Ok(c) ==> c@ == cell_at(self@, row, col),
            r matches Err(e) ==> e@ == (ErrorView::CellOutOfRange { row, col }),
    {
        if row == -1 {
            if col < self.headers.len() {
                return Ok(&self.headers[col]);
            }
        } else if row >= 0 && (row as usize) < self.rows.len() {
            if col < self.rows[row as usize].len() {
                return Ok(&self.rows[row as usize][col]);
            }
        }
        Err(TableError::CellOutOfRange { row, col })
    }

    /// Replaces the content of the cell at `(row, col)`; the other
    /// fields of the cell and the rest of the table stay as they were.
    pub fn set_cell_content(&mut self, row: i32, col: usize, content: String) -> (r: Result<
        (),
        TableError,
    >)
        ensures
            r is Ok <==> cell_exists(old(self)@, row, col),
            r matches Err(e) ==> e@ == (ErrorView::CellOutOfRange { row, col }) && final(self)@
                == old(self)@,
            r is Ok ==> final(self)@ == with_cell(
                old(self)@,
                row,
                col,
                CellView { content: content@, ..cell_at(old(self)@, row, col) },
            ),
    {
        if row == -1 {
            if col < self.headers.len() {
                let c = self.headers.remove(col);
                self.headers.insert(col, Cell { content, ..c });
                assert(cells_view(self.headers@) =~= cells_view(old(self).headers@).update(
                    col as int,
                    CellView { content: content@, ..cell_at(old(self)@, row, col) },
                ));
                return Ok(());
            }
        } else if row >= 0 && (row as usize) < self.rows.len() {
            let r = row as usize;
            if col < self.rows[r].len() {
                let mut the_row = self.rows.remove(r);
                let c = the_row.remove(col);
                the_row.insert(col, Cell { content, ..c });
                self.rows.insert(r, the_row);
                assert(cells_view(the_row@) =~= cells_view(old(self).rows@[r as int]@).update(
                    col as int,
                    CellView { content: content@, ..cell_at(old(self)@, row, col) },
                ));
                assert(rows_view(self.rows@) =~= rows_view(old(self).rows@).update(
                    r as int,
                    cells_view(the_row@),
                ));
                return Ok(());
            }
        }
        Err(TableError::CellOutOfRange { row, col })
    }
}

proof fn lemma_cells_view_update(cells: Seq<Cell>, i: int, c: Cell)
    requires
        0 <= i < cells.len(),
    ensures
        cells_view(cells.update(i, c)) == cells_view(cells).update(i, c@),
{
    assert(cells_view(cells.update(i, c)) =~= cells_view(cells).update(i, c@));
}

proof fn lemma_rows_view_update(rows: Seq<Vec<Cell>>, i: int, row: Seq<Cell>)
    requires
        0 <= i < rows.len(),
    ensures
        forall|v: Vec<Cell>| v@ == row ==> #[trigger] rows_view(rows.update(i, v)) == rows_view(rows).update(i, cells_view(row)),
{
    assert forall|v: Vec<Cell>| v@ == row implies #[trigger] rows_view(rows.update(i, v)) == rows_view(rows).update(i, cells_view(row)) by {
        assert(rows_view(rows.update(i, v)) =~= rows_view(rows).update(i, cells_view(row)));
    }
}

impl MarkdownTable {
    /// Mutably borrow a cell. `row == -1` is the header.
    pub fn cell_mut(&mut self, row: i32, col: usize) -> (r: Result<&mut Cell, TableError>)
        ensures
            cell_exists(old(self)@, row, col) ==> (r matches Ok(c) && (*c)@ == cell_at(old(self)@, row, col)
                && final(self)@ == with_cell(old(self)@, row, col, (*final(c))@)),
            !cell_exists(old(self)@, row, col) ==> (r matches Err(e) && e@ == (ErrorView::CellOutOfRange { row, col })
                && final(self)@ == old(self)@),
    {
        if row == -1 {
            if col < self.headers.len() {
                let c = &mut self.headers[col];
                proof {
                    lemma_cells_view_update(old(self).headers@, col as int, *final(c));
                }
                return Ok(c);
            }
        } else if row >= 0 && (row as usize) < self.rows.len() {
            let r = row as usize;
            if col < self.rows[r].len() {
                let c = &mut self.rows[r][col];
                proof {
                    lemma_cells_view_update(old(self).rows@[r as int]@, col as int, *final(c));
                    lemma_rows_view_update(old(self).rows@, r as int, old(self).rows@[r as int]@.update(col as int, *final(c)));
                }
                return Ok(c);
            }
        }
        Err(TableError::CellOutOfRange { row, col })
    }

    /// Replaces the cell at an existing `(row, col)` by `c`.
    pub(crate) fn replace_cell(&mut self, row: i32, col: usize, c: Cell)
        requires
            cell_exists(old(self)@, row, col),
        ensures
            final(self)@ == with_cell(old(self)@, row, col, c@),
    {
        if row == -1 {
            let ghost h = cells_view(self.headers@);
            self.headers.set(col, c);
            assert(cells_view(self.headers@) =~= h.update(col as int, c@));
        } else {
            let r = row as usize;
            assert(rows_view(self.rows@)[r as int] == cells_view(self.rows@[r as int]@));
            let mut the_row = clone_cells(&self.rows[r]);
            let ghost before = cells_view(the_row@);
            the_row.set(col, c);
            assert(cells_view(the_row@) =~= before.update(col as int, c@));
            let ghost rs = rows_view(self.rows@);
            self.rows.set(r, the_row);
            assert(rows_view(self.rows@) =~= rs.update(r as int, cells_view(the_row@)));
        }
    }
}

// ---------------------------------------------------------------------
// Shifting ranges
// ---------------------------------------------------------------------

/// `v` moved by `delta` when it lies at or after `after`.
pub open spec fn shift(v: usize, after: usize, delta: isize) -> usize {
    if v >= after {
        (v + delta) as usize
    } else {
        v
    }
}

/// The shift of `v` stays inside `isize` (and `v` itself is a valid
/// byte offset of an allocation, at most `isize::MAX`).
pub open spec fn shift_ok(v: usize, after: usize, delta: isize) -> bool {
    v >= after ==> v <= isize::MAX && v + delta <= isize::MAX
}

pub open spec fn shift_range(r: (usize, usize), after: usize, delta: isize) -> (usize, usize) {
    (shift(r.0, after, delta), shift(r.1, after, delta))
}

pub open spec fn shift_cell(c: CellView, after: usize, delta: isize) -> CellView {
    CellView { range: shift_range(c.range, after, delta), ..c }
}

pub open spec fn shift_cells(cs: Seq<CellView>, after: usize, delta: isize) -> Seq<CellView> {
    cs.map_values(|c: CellView| shift_cell(c, after, delta))
}

pub open spec fn cells_shift_ok(cs: Seq<CellView>, after: usize, delta: isize) -> bool {
    forall|j: int|
        0 <= j < cs.len() ==> shift_ok(#[trigger] cs[j].range.0, after, delta) && shift_ok(
            cs[j].range.1,
            after,
            delta,
        )
}

fn shift_value(v: usize, after: usize, delta: isize) -> (r: usize)
    requires
        shift_ok(v, after, delta),
    ensures
        r == shift(v, after, delta),
{
    if v >= after {
        (v as isize + delta) as usize
    } else {
        v
    }
}

fn shifted_cells(cells: &Vec<Cell>, after: usize, delta: isize) -> (out: Vec<Cell>)
    requires
        cells_shift_ok(cells_view(cells@), after, delta),
    ensures
        cells_view(out@) == shift_cells(cells_view(cells@), after, delta),
{
    let mut out: Vec<Cell> = Vec::new();
    let mut i: usize = 0;
    while i < cells.len()
        invariant
            i <= cells@.len(),
            cells_shift_ok(cells_view(cells@), after, delta),
            cells_view(out@) =~= shift_cells(cells_view(cells@.take(i as int)), after, delta),
        decreases cells@.len() - i,
    {
        let c = &cells[i];
        assert(cells_view(cells@)[i as int] == c@);
        assert(shift_ok(cells_view(cells@)[i as int].range.0, after, delta));
        let nc = Cell {
            source_range: Range {
                start: shift_value(c.source_range.start, after, delta),
                end: shift_value(c.source_range.end, after, delta),
            },
            content: c.content.clone(),
            leading_ws: c.leading_ws,
            trailing_ws: c.trailing_ws,
        };
        let ghost prev = out@;
        assert(cells_view(prev).len() == prev.len());
        out.push(nc);
        i = i + 1;
        assert(cells_view(out@) =~= shift_cells(cells_view(cells@.take(i as int)), after, delta))
            by {
            assert forall|k: int| 0 <= k < i implies cells_view(out@)[k] == shift_cells(
                cells_view(cells@.take(i as int)),
                after,
                delta,
            )[k] by {
                if k < i - 1 {
                    assert(cells_view(prev)[k] == shift_cells(
                        cells_view(cells@.take(i - 1)),
                        after,
                        delta,
                    )[k]);
                }
            }
        }
    }
    assert(cells@.take(cells@.len() as int) =~= cells@);
    out
}

impl MarkdownTable {
    /// Shift every cell range endpoint at or after `after` by `delta`
    /// bytes, and the table's own end likewise (its start stays).
    pub fn shift_after(&mut self, after: usize, delta: isize)
        requires
            cells_shift_ok(old(self)@.headers, after, delta),
            forall|r: int|
                0 <= r < old(self)@.rows.len() ==> cells_shift_ok(
                    #[trigger] old(self)@.rows[r],
                    after,
                    delta,
                ),
            shift_ok(old(self)@.range.1, after, delta),
        ensures
            final(self)@ == (TableView {
                headers: shift_cells(old(self)@.headers, after, delta),
                rows: old(self)@.rows.map_values(
                    |r: Seq<CellView>| shift_cells(r, after, delta),
                ),
                range: (old(self)@.range.0, shift(old(self)@.range.1, after, delta)),
                ..old(self)@
            }),
    {
        let new_headers = shifted_cells(&self.headers, after, delta);
        self.headers = new_headers;
        let mut i: usize = 0;
        while i < self.rows.len()
            invariant
                i <= self.rows@.len(),
                self.rows@.len() == old(self).rows@.len(),
                forall|r: int|
                    0 <= r < old(self)@.rows.len() ==> cells_shift_ok(
                        #[trigger] old(self)@.rows[r],
                        after,
                        delta,
                    ),
                forall|r: int|
                    0 <= r < i ==> #[trigger] cells_view(self.rows@[r]@) == shift_cells(
                        cells_view(old(self).rows@[r]@),
                        after,
                        delta,
                    ),
                forall|r: int| i <= r < self.rows@.len() ==> #[trigger] self.rows@[r] == old(self).rows@[r],
                self.headers == new_headers,
                self.source_range == old(self).source_range,
                self.id == old(self).id,
                self.alignments == old(self).alignments,
                self.style == old(self).style,
                self.column_widths == old(self).column_widths,
                self.original_lines == old(self).original_lines,
                self.sort_indicator == old(self).sort_indicator,
            decreases self.rows@.len() - i,
        {
            assert(old(self)@.rows[i as int] == cells_view(self.rows@[i as int]@));
            let new_row = shifted_cells(&self.rows[i], after, delta);
            self.rows.set(i, new_row);
            i = i + 1;
        }
        let end = shift_value(self.source_range.end, after, delta);
        self.source_range = Range { start: self.source_range.start, end };
        assert(self@.rows =~= old(self)@.rows.map_values(
            |r: Seq<CellView>| shift_cells(r, after, delta),
        ));
    }
}

// ---------------------------------------------------------------------
// Navigation
// ---------------------------------------------------------------------

/// Where Tab / Shift+Tab / Enter / Shift+Enter lead from `(row, col)` in
/// a table of `cols` columns and `body` body rows (header row is `-1`).
pub open spec fn nav_target(cols: nat, body: i32, row: i32, col: usize, dir: NavDirection) -> NavTarget {
    if cols == 0 {
        NavTarget { row, col, created_row: false }
    } else {
        let last = (cols - 1) as usize;
        match dir {
            NavDirection::Next => if col + 1 < cols {
                NavTarget { row, col: (col + 1) as usize, created_row: false }
            } else if row == -1 {
                NavTarget { row: 0, col: 0, created_row: body == 0 }
            } else if row + 1 < body {
                NavTarget { row: (row + 1) as i32, col: 0, created_row: false }
            } else {
                NavTarget { row: body, col: 0, created_row: true }
            },
            NavDirection::Prev => if col > 0 {
                NavTarget { row, col: (col - 1) as usize, created_row: false }
            } else if row > 0 {
                NavTarget { row: (row - 1) as i32, col: last, created_row: false }
            } else if row == 0 {
                NavTarget { row: -1i32, col: last, created_row: false }
            } else {
                NavTarget { row, col, created_row: false }
            },
            NavDirection::Down => if row == -1 {
                NavTarget { row: 0, col, created_row: body == 0 }
            } else if row + 1 < body {
                NavTarget { row: (row + 1) as i32, col, created_row: false }
            } else {
                NavTarget { row: body, col, created_row: true }
            },
            NavDirection::Up => if row == -1 {
                NavTarget { row, col, created_row: false }
            } else if row == 0 {
                NavTarget { row: -1i32, col, created_row: false }
            } else {
                NavTarget { row: (row - 1) as i32, col, created_row: false }
            },
        }
    }
}

/// The arithmetic of a navigation step stays inside the integer types
/// (the step to the next row or column exists).
pub open spec fn nav_in_range(cols: nat, row: i32, col: usize, dir: NavDirection) -> bool {
    cols > 0 ==> match dir {
        NavDirection::Next => (col + 1 <= usize::MAX) && (col + 1 >= cols && row != -1 ==> row
            < i32::MAX),
        NavDirection::Down => row != -1 ==> row < i32::MAX,
        NavDirection::Up => row != -1 && row != 0 ==> row > i32::MIN,
        NavDirection::Prev => true,
    }
}

impl MarkdownTable {
    /// The cell to focus after a navigation key press in `(row, col)`.
    pub fn navigate(&self, row: i32, col: usize, dir: NavDirection) -> (t: NavTarget)
        requires
            nav_in_range(self.alignments@.len(), row, col, dir),
        ensures
            t == nav_target(self.alignments@.len(), self.rows@.len() as i32, row, col, dir),
    {
        let cols = self.alignments.len();
        let body_rows = self.rows.len() as i32;
        if cols == 0 {
            return NavTarget { row, col, created_row: false };
        }
        let last_col = cols - 1;
        match dir {
            NavDirection::Next => {
                if col + 1 < cols {
                    NavTarget { row, col: col + 1, created_row: false }
                } else if row == -1 {
                    NavTarget { row: 0, col: 0, created_row: body_rows == 0 }
                } else if row + 1 < body_rows {
                    NavTarget { row: row + 1, col: 0, created_row: false }
                } else {
                    NavTarget { row: body_rows, col: 0, created_row: true }
                }
            },
            NavDirection::Prev => {
                if col > 0 {
                    NavTarget { row, col: col - 1, created_row: false }
                } else if row > 0 {
                    NavTarget { row: row - 1, col: last_col, created_row: false }
                } else if row == 0 {
                    NavTarget { row: -1, col: last_col, created_row: false }
                } else {
                    NavTarget { row, col, created_row: false }
                }
            },
            NavDirection::Down => {
                if row == -1 {
                    NavTarget { row: 0, col, created_row: body_rows == 0 }
                } else if row + 1 < body_rows {
                    NavTarget { row: row + 1, col, created_row: false }
                } else {
                    NavTarget { row: body_rows, col, created_row: true }
                }
            },
            NavDirection::Up => {
                if row == -1 {
                    NavTarget { row, col, created_row: false }
                } else if row == 0 {
                    NavTarget { row: -1i32, col, created_row: false }
                } else {
                    NavTarget { row: row - 1, col, created_row: false }
                }
            },
        }
    }
}

// ---------------------------------------------------------------------
// Sorting
// ---------------------------------------------------------------------

/// What orders one row under a sort: whether its cell is empty (after
/// trimming), the rank of its numeric value, and its case-folded text.
pub struct SortKey {
    pub empty: bool,
    pub rank: u64,
    pub text: Seq<char>,
}

/// The trimmed content of column `col` of a row (empty when the row is
/// shorter).
pub open spec fn cell_text(row: Seq<CellView>, col: usize) -> Seq<char> {
    if col < row.len() {
        trim(row[col as int].content)
    } else {
        seq![]
    }
}

pub open spec fn row_key(rows: Seq<Seq<CellView>>, col: usize, ranks: Option<Seq<u64>>, i: int) -> SortKey {
    let t = cell_text(rows[i], col);
    SortKey {
        empty: t.len() == 0,
        rank: match ranks {
            Some(r) => r[i],
            None => 0,
        },
        text: lowercase(t),
    }
}

/// Row order: empty cells last in either direction; otherwise by rank
/// (numeric columns) or by case-folded text, reversed when descending.
pub open spec fn key_order(a: SortKey, b: SortKey, numeric: bool, desc: bool) -> int {
    if a.empty && b.empty {
        0
    } else if a.empty {
        1
    } else if b.empty {
        -1
    } else {
        let base = if numeric {
            if a.rank < b.rank {
                -1
            } else if a.rank > b.rank {
                1
            } else {
                0
            }
        } else {
            lex_order(a.text, b.text)
        };
        if desc {
            -base
        } else {
            base
        }
    }
}

pub proof fn lemma_key_order(a: SortKey, b: SortKey, c: SortKey, numeric: bool, desc: bool)
    ensures
        key_order(a, b, numeric, desc) == -key_order(b, a, numeric, desc),
        key_order(a, b, numeric, desc) <= 0 && key_order(b, c, numeric, desc) <= 0 ==> key_order(
            a,
            c,
            numeric,
            desc,
        ) <= 0,
{
    lemma_lex_order_antisym(a.text, b.text);
    lemma_lex_order_antisym(b.text, c.text);
    lemma_lex_order_antisym(a.text, c.text);
    if !numeric && !a.empty && !b.empty && !c.empty {
        if !desc {
            if lex_order(a.text, b.text) <= 0 && lex_order(b.text, c.text) <= 0 {
                lemma_lex_order_trans(a.text, b.text, c.text);
            }
        } else {
            if lex_order(c.text, b.text) <= 0 && lex_order(b.text, a.text) <= 0 {
                lemma_lex_order_trans(c.text, b.text, a.text);
            }
        }
    }
}

/// `p` lists each of `0..n` exactly once.
pub open spec fn is_permutation(p: Seq<int>, n: nat) -> bool {
    &&& p.len() == n
    &&& forall|k: int| 0 <= k < p.len() ==> 0 <= #[trigger] p[k] < n
    &&& forall|k: int, l: int| 0 <= k < l < p.len() ==> p[k] != p[l]
}

/// `p` is in order under [`key_order`], ties kept in their original order.
pub open spec fn stably_sorted(
    rows: Seq<Seq<CellView>>,
    col: usize,
    ranks: Option<Seq<u64>>,
    desc: bool,
    p: Seq<int>,
) -> bool {
    forall|k: int, l: int|
        0 <= k < l < p.len() ==> {
            let o = key_order(
                row_key(rows, col, ranks, #[trigger] p[k]),
                row_key(rows, col, ranks, #[trigger] p[l]),
                ranks is Some,
                desc,
            );
            o <= 0 && (o == 0 ==> p[k] < p[l])
        }
}

/// `out` is `rows` reordered by a stable sort on column `col`.
pub open spec fn sorted_rows(
    rows: Seq<Seq<CellView>>,
    col: usize,
    ranks: Option<Seq<u64>>,
    desc: bool,
    out: Seq<Seq<CellView>>,
) -> bool {
    exists|p: Seq<int>|
        {
            &&& is_permutation(p, rows.len())
            &&& stably_sorted(rows, col, ranks, desc, p)
            &&& out.len() == rows.len()
            &&& forall|k: int| 0 <= k < out.len() ==> #[trigger] out[k] == rows[p[k]]
        }
}

struct RowKey {
    empty: bool,
    rank: u64,
    text: Vec<char>,
}

spec fn key_matches(k: RowKey, s: SortKey, numeric: bool) -> bool {
    &&& k.empty == s.empty
    &&& k.rank == s.rank
    &&& !s.empty && !numeric ==> k.text@ == s.text
}

spec fn key_view(k: RowKey) -> SortKey {
    SortKey { empty: k.empty, rank: k.rank, text: k.text@ }
}

fn compare_keys(a: &RowKey, b: &RowKey, numeric: bool, desc: bool) -> (r: i8)
    ensures
        r as int == key_order(key_view(*a), key_view(*b), numeric, desc),
{
    if a.empty && b.empty {
        return 0;
    }
    if a.empty {
        return 1;
    }
    if b.empty {
        return -1;
    }
    let base: i8 = if numeric {
        if a.rank < b.rank {
            -1
        } else if a.rank > b.rank {
            1
        } else {
            0
        }
    } else {
        compare_chars(a.text.as_slice(), b.text.as_slice())
    };
    proof {
        lemma_lex_order_antisym(a.text@, b.text@);
    }
    if desc {
        -base
    } else {
        base
    }
}

proof fn lemma_key_order_matches(a: RowKey, b: RowKey, sa: SortKey, sb: SortKey, numeric: bool, desc: bool)
    requires
        key_matches(a, sa, numeric),
        key_matches(b, sb, numeric),
    ensures
        key_order(key_view(a), key_view(b), numeric, desc) == key_order(sa, sb, numeric, desc),
{
}

/// The key of one row.
fn key_for(row: &Vec<Cell>, col: usize, rank: u64, numeric: bool) -> (k: RowKey)
    ensures
        k.empty == (cell_text(cells_view(row@), col).len() == 0),
        k.rank == rank,
        !k.empty && !numeric ==> k.text@ == lowercase(cell_text(cells_view(row@), col)),
{
    if col >= row.len() {
        return RowKey { empty: true, rank, text: Vec::new() };
    }
    let content = chars_of(row[col].content.as_str());
    assert(cells_view(row@)[col as int].content == content@);
    let t = trimmed(content.as_slice());
    if t.len() == 0 {
        return RowKey { empty: true, rank, text: Vec::new() };
    }
    if numeric {
        return RowKey { empty: false, rank, text: Vec::new() };
    }
    let ts = string_of(t.as_slice());
    let low = to_lowercase(ts.as_str());
    RowKey { empty: false, rank, text: chars_of(low.as_str()) }
}

proof fn lemma_insert_sorted(
    rv: Seq<Seq<CellView>>,
    col: usize,
    ranks: Option<Seq<u64>>,
    desc: bool,
    p0: Seq<int>,
    i: int,
    j: int,
)
    requires
        0 <= i,
        is_permutation(p0, i as nat),
        stably_sorted(rv, col, ranks, desc, p0),
        0 <= j <= p0.len(),
        j > 0 ==> key_order(
            row_key(rv, col, ranks, p0[j - 1]),
            row_key(rv, col, ranks, i),
            ranks is Some,
            desc,
        ) <= 0,
        forall|m: int|
            j <= m < p0.len() ==> key_order(
                row_key(rv, col, ranks, #[trigger] p0[m]),
                row_key(rv, col, ranks, i),
                ranks is Some,
                desc,
            ) > 0,
    ensures
        is_permutation(p0.insert(j, i), (i + 1) as nat),
        stably_sorted(rv, col, ranks, desc, p0.insert(j, i)),
{
    let q = p0.insert(j, i);
    let numeric = ranks is Some;
    assert(q[j] == i);
    assert forall|k: int| 0 <= k < j implies #[trigger] q[k] == p0[k] by {}
    assert forall|k: int| j < k < q.len() implies #[trigger] q[k] == p0[k - 1] by {}
    assert forall|k: int| 0 <= k < q.len() implies 0 <= #[trigger] q[k] < i + 1 by {
        if k < j {
            assert(q[k] == p0[k]);
        } else if k > j {
            assert(q[k] == p0[k - 1]);
        }
    }
    assert forall|k: int, l: int| 0 <= k < l < q.len() implies q[k] != q[l] by {
        if k < j && l < j {
            assert(q[k] == p0[k] && q[l] == p0[l]);
        } else if k < j && l == j {
            assert(q[k] == p0[k]);
        } else if k < j && l > j {
            assert(q[k] == p0[k] && q[l] == p0[l - 1]);
        } else if k == j {
            assert(q[l] == p0[l - 1]);
        } else {
            assert(q[k] == p0[k - 1] && q[l] == p0[l - 1]);
        }
    }
    assert forall|k: int, l: int| 0 <= k < l < q.len() implies {
        let o = key_order(
            row_key(rv, col, ranks, #[trigger] q[k]),
            row_key(rv, col, ranks, #[trigger] q[l]),
            ranks is Some,
            desc,
        );
        o <= 0 && (o == 0 ==> q[k] < q[l])
    } by {
        let ki = row_key(rv, col, ranks, i);
        if k < j && l < j {
            assert(q[k] == p0[k] && q[l] == p0[l]);
        } else if k < j && l == j {
            let a = row_key(rv, col, ranks, p0[k]);
            let b = row_key(rv, col, ranks, p0[j - 1]);
            if k < j - 1 {
                assert(key_order(a, b, numeric, desc) <= 0);
            } else {
                lemma_key_order(a, a, a, numeric, desc);
            }
            lemma_key_order(a, b, ki, numeric, desc);
        } else if k < j && l > j {
            assert(q[k] == p0[k] && q[l] == p0[l - 1]);
        } else if k == j {
            let b = row_key(rv, col, ranks, p0[l - 1]);
            assert(key_order(b, ki, numeric, desc) > 0);
            lemma_key_order(ki, b, ki, numeric, desc);
        } else {
            assert(q[k] == p0[k - 1] && q[l] == p0[l - 1]);
        }
    }
}

/// Sort `rows` by the content of column `col`, stably. Empty cells go
/// last in either direction. A numeric column is ordered by
/// `numeric_ranks` (the rank of each row's value among the column's
/// numbers; equal values share a rank), any other column by
/// case-folded text. `SortDirection::Unsorted` returns `rows` as they are.
pub fn sort_rows(
    rows: Vec<Vec<Cell>>,
    col: usize,
    direction: SortDirection,
    numeric_ranks: Option<Vec<u64>>,
) -> (out: Vec<Vec<Cell>>)
    requires
        numeric_ranks matches Some(r) ==> r@.len() == rows@.len(),
    ensures
        direction == SortDirection::Unsorted ==> rows_view(out@) == rows_view(rows@),
        direction != SortDirection::Unsorted ==> sorted_rows(
            rows_view(rows@),
            col,
            match numeric_ranks {
                Some(r) => Some(r@),
                None => None,
            },
            direction == SortDirection::Descending,
            rows_view(out@),
        ),
{
    if direction == SortDirection::Unsorted {
        return rows;
    }
    let desc = direction == SortDirection::Descending;
    let numeric = numeric_ranks.is_some();
    let ghost ranks = match &numeric_ranks {
        Some(r) => Some(r@),
        None => None,
    };
    let ghost rv = rows_view(rows@);
    let n = rows.len();
    let mut keys: Vec<RowKey> = Vec::new();
    let mut i: usize = 0;
    while i < n
        invariant
            n == rows@.len(),
            rv == rows_view(rows@),
            i <= n,
            keys@.len() == i,
            numeric == ranks is Some,
            numeric_ranks matches Some(r) ==> r@.len() == n && ranks == Some(r@),
            numeric_ranks is None ==> ranks is None,
            forall|k: int| 0 <= k < i ==> key_matches(#[trigger] keys@[k], row_key(rv, col, ranks, k), numeric),
        decreases n - i,
    {
        let rank = match &numeric_ranks {
            Some(r) => r[i],
            None => 0,
        };
        let k = key_for(&rows[i], col, rank, numeric);
        assert(rv[i as int] == cells_view(rows@[i as int]@));
        assert(key_matches(k, row_key(rv, col, ranks, i as int), numeric));
        keys.push(k);
        i = i + 1;
    }
    // Insertion sort of row indices; equal keys keep their order.
    let mut idx: Vec<usize> = Vec::new();
    let mut i: usize = 0;
    while i < n
        invariant
            n == rows@.len(),
            rv == rows_view(rows@),
            numeric == ranks is Some,
            keys@.len() == n,
            i <= n,
            forall|k: int| 0 <= k < n ==> key_matches(#[trigger] keys@[k], row_key(rv, col, ranks, k), numeric),
            is_permutation(idx@.map_values(|x: usize| x as int), i as nat),
            stably_sorted(rv, col, ranks, desc, idx@.map_values(|x: usize| x as int)),
        decreases n - i,
    {
        let mut j = idx.len();
        proof {
            let p0 = idx@.map_values(|x: usize| x as int);
            assert forall|k: int| 0 <= k < idx@.len() implies 0 <= #[trigger] idx@[k] < i by {
                assert(p0[k] == idx@[k] as int);
            }
        }
        while j > 0 && compare_keys(&keys[idx[j - 1]], &keys[i], numeric, desc) > 0
            invariant
                j <= idx@.len(),
                idx@.len() == i,
                i < n,
                keys@.len() == n,
                forall|k: int| 0 <= k < idx@.len() ==> 0 <= #[trigger] idx@[k] < i,
                forall|m: int|
                    j <= m < idx@.len() ==> key_order(
                        row_key(rv, col, ranks, #[trigger] idx@[m] as int),
                        row_key(rv, col, ranks, i as int),
                        numeric,
                        desc,
                    ) > 0,
                forall|k: int| 0 <= k < n ==> key_matches(#[trigger] keys@[k], row_key(rv, col, ranks, k), numeric),
            decreases j,
        {
            proof {
                let a = idx@[j - 1] as int;
                lemma_key_order_matches(keys@[a], keys@[i as int], row_key(rv, col, ranks, a), row_key(rv, col, ranks, i as int), numeric, desc);
            }
            j = j - 1;
        }
        proof {
            if j > 0 {
                let a = idx@[j - 1] as int;
                lemma_key_order_matches(keys@[a], keys@[i as int], row_key(rv, col, ranks, a), row_key(rv, col, ranks, i as int), numeric, desc);
            }
        }
        let ghost old_idx = idx@;
        idx.insert(j, i);
        proof {
            let p0 = old_idx.map_values(|x: usize| x as int);
            assert(idx@.map_values(|x: usize| x as int) =~= p0.insert(j as int, i as int));
            if j > 0 {
                assert(p0[j - 1] == old_idx[j - 1] as int);
            }
            assert forall|m: int| j <= m < p0.len() implies key_order(
                row_key(rv, col, ranks, #[trigger] p0[m]),
                row_key(rv, col, ranks, i as int),
                numeric,
                desc,
            ) > 0 by {
                assert(p0[m] == old_idx[m] as int);
            }
            lemma_insert_sorted(rv, col, ranks, desc, p0, i as int, j as int);
        }
        i = i + 1;
    }
    let mut out: Vec<Vec<Cell>> = Vec::new();
    let mut k: usize = 0;
    proof {
        let p0 = idx@.map_values(|x: usize| x as int);
        assert forall|m: int| 0 <= m < n implies 0 <= #[trigger] idx@[m] < n by {
            assert(p0[m] == idx@[m] as int);
        }
    }
    while k < n
        invariant
            n == rows@.len(),
            rv == rows_view(rows@),
            idx@.len() == n,
            forall|m: int| 0 <= m < n ==> 0 <= #[trigger] idx@[m] < n,
            k <= n,
            out@.len() == k,
            forall|m: int| 0 <= m < k ==> #[trigger] cells_view(out@[m]@) == rv[idx@[m] as int],
        decreases n - k,
    {
        let r = clone_cells(&rows[idx[k]]);
        out.push(r);
        k = k + 1;
    }
    proof {
        let p = idx@.map_values(|x: usize| x as int);
        let ov = rows_view(out@);
        assert forall|m: int| 0 <= m < ov.len() implies #[trigger] ov[m] == rv[p[m]] by {
            assert(ov[m] == cells_view(out@[m]@));
        }
        assert(is_permutation(p, rv.len()));
    }
    out
}

// ---------------------------------------------------------------------
// Numeric columns
// ---------------------------------------------------------------------

pub open spec fn is_digit_char(c: char) -> bool {
    '0' <= c <= '9'
}

pub open spec fn all_digits(s: Seq<char>) -> bool {
    forall|i: int| 0 <= i < s.len() ==> is_digit_char(#[trigger] s[i])
}

pub open spec fn drop_sign(s: Seq<char>) -> Seq<char> {
    if s.len() > 0 && (s[0] == '+' || s[0] == '-') {
        s.drop_first()
    } else {
        s
    }
}

/// ASCII case-insensitive equality with a lower-case word.
pub open spec fn eq_ignore_case(s: Seq<char>, w: Seq<char>) -> bool {
    s.len() == w.len() && forall|i: int| 0 <= i < s.len() ==> crate::tables::render::ascii_lower(#[trigger] s[i]) == w[i]
}

/// The mantissa of a decimal number: digits with at most one point and
/// at least one digit.
pub open spec fn mantissa(m: Seq<char>) -> bool {
    ||| (m.len() > 0 && all_digits(m))
    ||| exists|p: int|
        0 <= p < m.len() && m[p] == '.' && all_digits(m.take(p)) && all_digits(m.skip(p + 1)) && m.len() >= 2
}

/// An exponent after `e`: an optional sign and one or more digits.
pub open spec fn exponent(x: Seq<char>) -> bool {
    drop_sign(x).len() > 0 && all_digits(drop_sign(x))
}

pub open spec fn is_e(c: char) -> bool {
    c == 'e' || c == 'E'
}

/// A decimal number: mantissa, then optionally `e` and an exponent.
pub open spec fn number_text(t: Seq<char>) -> bool {
    let k = first_e(t);
    if k < t.len() {
        mantissa(t.take(k)) && exponent(t.skip(k + 1))
    } else {
        mantissa(t)
    }
}

/// Index of the first `e` or `E`, or the length.
pub open spec fn first_e(t: Seq<char>) -> int
    decreases t.len(),
{
    if t.len() == 0 {
        0
    } else if is_e(t[0]) {
        0
    } else {
        1 + first_e(t.drop_first())
    }
}

/// What `f64::from_str` accepts: an optional sign, then `inf`,
/// `infinity`, `nan` (any case) or a decimal number.
pub open spec fn float_text(s: Seq<char>) -> bool {
    let t = drop_sign(s);
    eq_ignore_case(t, "inf"@) || eq_ignore_case(t, "infinity"@) || eq_ignore_case(t, "nan"@) || number_text(t)
}

fn all_digits_exec(s: &[char], lo: usize, hi: usize) -> (b: bool)
    requires
        lo <= hi <= s@.len(),
    ensures
        b == all_digits(s@.subrange(lo as int, hi as int)),
{
    let mut i = lo;
    while i < hi
        invariant
            lo <= i <= hi <= s@.len(),
            forall|j: int| lo <= j < i ==> is_digit_char(#[trigger] s@[j]),
        decreases hi - i,
    {
        if !(s[i] >= '0' && s[i] <= '9') {
            assert(s@.subrange(lo as int, hi as int)[i - lo] == s@[i as int]);
            return false;
        }
        i = i + 1;
    }
    assert forall|j: int| 0 <= j < hi - lo implies is_digit_char(#[trigger] s@.subrange(lo as int, hi as int)[j]) by {
        assert(s@.subrange(lo as int, hi as int)[j] == s@[j + lo]);
    }
    true
}

fn mantissa_exec(s: &[char], lo: usize, hi: usize) -> (b: bool)
    requires
        lo <= hi <= s@.len(),
    ensures
        b == mantissa(s@.subrange(lo as int, hi as int)),
{
    let ghost m = s@.subrange(lo as int, hi as int);
    if hi == lo {
        return false;
    }
    if all_digits_exec(s, lo, hi) {
        return true;
    }
    let mut p = lo;
    while p < hi && s[p] != '.'
        invariant
            lo <= p <= hi <= s@.len(),
            m == s@.subrange(lo as int, hi as int),
            forall|j: int| lo <= j < p ==> s@[j] != '.',
        decreases hi - p,
    {
        p = p + 1;
    }
    if p == hi {
        proof {
            assert forall|q: int| 0 <= q < m.len() && m[q] == '.' implies false by {
                assert(m[q] == s@[q + lo]);
            }
        }
        return false;
    }
    let ok = all_digits_exec(s, lo, p) && all_digits_exec(s, p + 1, hi) && hi - lo >= 2;
    proof {
        let q = (p - lo) as int;
        assert(m[q] == '.');
        assert(m.take(q) =~= s@.subrange(lo as int, p as int));
        assert(m.skip(q + 1) =~= s@.subrange(p + 1, hi as int));
        if !ok {
            assert forall|r: int|
                0 <= r < m.len() && m[r] == '.' && all_digits(m.take(r)) && all_digits(m.skip(r + 1)) && m.len() >= 2 implies false by {
                if r < q {
                    assert(m.skip(r + 1)[q - r - 1] == m[q]);
                } else if r > q {
                    assert(m.take(r)[q] == m[q]);
                    assert(m[r] == s@[r + lo]);
                }
            }
        }
    }
    ok
}

fn eq_ignore_case_exec(s: &[char], lo: usize, w: &str) -> (b: bool)
    requires
        lo <= s@.len(),
    ensures
        b == eq_ignore_case(s@.skip(lo as int), w@),
{
    let wv = crate::text::chars_of(w);
    if s.len() - lo != wv.len() {
        return false;
    }
    let mut i: usize = 0;
    while i < wv.len()
        invariant
            wv@ == w@,
            lo <= s@.len(),
            s@.len() - lo == wv@.len(),
            s@.len() <= usize::MAX,
            lo + wv@.len() == s@.len(),
            i <= wv@.len(),
            forall|j: int| 0 <= j < i ==> crate::tables::render::ascii_lower(#[trigger] s@.skip(lo as int)[j]) == wv@[j],
        decreases wv@.len() - i,
    {
        let c = s[lo + i];
        let lc = if c >= 'A' && c <= 'Z' { ((c as u8) + 32) as char } else { c };
        assert(s@.skip(lo as int)[i as int] == c);
        if lc != wv[i] {
            return false;
        }
        i = i + 1;
    }
    true
}

/// Whether `s` is text that `f64::from_str` accepts (see [`float_text`]).
pub fn is_float_text(s: &[char]) -> (b: bool)
    ensures
        b == float_text(s@),
{
    let lo: usize = if s.len() > 0 && (s[0] == '+' || s[0] == '-') { 1 } else { 0 };
    let ghost t = drop_sign(s@);
    assert(t =~= s@.skip(lo as int));
    if eq_ignore_case_exec(s, lo, "inf") || eq_ignore_case_exec(s, lo, "infinity") || eq_ignore_case_exec(s, lo, "nan") {
        return true;
    }
    let mut k = lo;
    while k < s.len() && !(s[k] == 'e' || s[k] == 'E')
        invariant
            lo <= k <= s@.len(),
            t =~= s@.skip(lo as int),
            first_e(t) == (k - lo) + first_e(s@.skip(k as int)),
        decreases s@.len() - k,
    {
        assert(s@.skip(k as int).drop_first() =~= s@.skip(k + 1));
        k = k + 1;
    }
    assert(first_e(s@.skip(k as int)) == 0);
    assert(t.len() == s@.len() - lo);
    if k < s.len() {
        assert(t.take((k - lo) as int) =~= s@.subrange(lo as int, k as int));
        let mut e = k + 1;
        if e < s.len() && (s[e] == '+' || s[e] == '-') {
            e = e + 1;
        }
        assert(drop_sign(t.skip((k - lo + 1) as int)) =~= s@.subrange(e as int, s@.len() as int));
        mantissa_exec(s, lo, k) && e < s.len() && all_digits_exec(s, e, s.len())
    } else {
        assert(t =~= s@.subrange(lo as int, s@.len() as int));
        mantissa_exec(s, lo, s.len())
    }
}

/// A column is numeric when it has a non-empty cell and every non-empty
/// cell is a number `f64::from_str` accepts.
pub open spec fn numeric_column(rows: Seq<Seq<CellView>>, col: usize) -> bool {
    &&& exists|r: int| 0 <= r < rows.len() && cell_text(rows[r], col).len() > 0
    &&& forall|r: int| 0 <= r < rows.len() && cell_text(#[trigger] rows[r], col).len() > 0 ==> float_text(cell_text(rows[r], col))
}

/// `true` when at least one non-empty cell exists in `col` and every
/// non-empty cell parses as a float; empty cells are skipped.
pub fn is_numeric_column(rows: &[Vec<Cell>], col: usize) -> (b: bool)
    ensures
        b == numeric_column(rows_view(rows@), col),
{
    let ghost rv = rows_view(rows@);
    let mut any = false;
    let mut r: usize = 0;
    while r < rows.len()
        invariant
            rv == rows_view(rows@),
            r <= rows@.len(),
            any == exists|k: int| 0 <= k < r && cell_text(rv[k], col).len() > 0,
            forall|k: int| 0 <= k < r && cell_text(#[trigger] rv[k], col).len() > 0 ==> float_text(cell_text(rv[k], col)),
        decreases rows@.len() - r,
    {
        let row = &rows[r];
        assert(rv[r as int] == cells_view(row@));
        let t: Vec<char> = if col < row.len() {
            assert(cells_view(row@)[col as int] == row@[col as int]@);
            trimmed(chars_of(row[col].content.as_str()).as_slice())
        } else {
            Vec::new()
        };
        assert(t@ == cell_text(rv[r as int], col));
        if t.len() > 0 {
            if !is_float_text(t.as_slice()) {
                return false;
            }
            any = true;
        }
        r = r + 1;
    }
    any
}

} // verus!
