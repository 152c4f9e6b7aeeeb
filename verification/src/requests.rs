//! The decisions behind the editor's table requests. The preview sends
//! tab-delimited messages (`table_id\trow\tcol\t...`); this module reads
//! their fields, names the structural operation a message asks for, says
//! what it does to the table and where the focus lands afterwards, runs
//! the tri-state sort control and column resizing, and turns a smart
//! paste into its result.

use vstd::prelude::*;
use crate::tables::model::{
    Alignment, Cell, EditDelta, MarkdownTable, NavDirection, SortDirection, TableError, TableStyle,
    TableView,
};
use crate::tables::serialize::{
    alignment_set, cells_ok, column_deleted, column_inserted, placed, reformatted, row_deleted,
    row_inserted,
};
use crate::tables::paste::{
    detect_table_paste, detected, paste_gfm, paste_to_gfm, shape_of, PasteView, TablePaste,
};
use crate::text::{
    chars_of, dec, eq_str, parse_i32, parse_i32_spec, parse_u32, parse_u32_spec, parse_u64,
    parse_u64_spec, parse_usize, parse_usize_spec, push_dec, push_str, slice_vec, split_chars,
    split_on, splitn, splitn_chars, string_of, trim, trimmed, views,
};

verus! {

// ---------------------------------------------------------------------
// Message fields
// ---------------------------------------------------------------------

/// Piece `i` of `ps`, empty when there are fewer pieces.
pub open spec fn piece(ps: Seq<Seq<char>>, i: int) -> Seq<char> {
    if 0 <= i < ps.len() {
        ps[i]
    } else {
        seq![]
    }
}

/// A table id field: its `u64` value, 0 when it does not read as one.
pub open spec fn id_field(p: Seq<char>) -> u64 {
    match parse_u64_spec(p) {
        Some(v) => v,
        None => 0,
    }
}

/// A row field (`-1` is the header): its `i32` value, 0 when it does not
/// read as one.
pub open spec fn row_field(p: Seq<char>) -> i32 {
    match parse_i32_spec(p) {
        Some(v) => v,
        None => 0,
    }
}

/// A column field: its `usize` value, 0 when it does not read as one.
pub open spec fn col_field(p: Seq<char>) -> usize {
    match parse_usize_spec(p) {
        Some(v) => v,
        None => 0,
    }
}

pub(crate) fn piece_at(ps: &Vec<Vec<char>>, i: usize) -> (r: Vec<char>)
    ensures
        r@ == piece(views(ps@), i as int),
{
    if i < ps.len() {
        let p = &ps[i];
        let r = slice_vec(p.as_slice(), 0, p.len());
        assert(r@ =~= p@);
        r
    } else {
        Vec::new()
    }
}

fn id_of(p: &[char]) -> (r: u64)
    ensures
        r == id_field(p@),
{
    match parse_u64(p) {
        Some(v) => v,
        None => 0,
    }
}

fn row_of(p: &[char]) -> (r: i32)
    ensures
        r == row_field(p@),
{
    match parse_i32(p) {
        Some(v) => v,
        None => 0,
    }
}

fn col_of(p: &[char]) -> (r: usize)
    ensures
        r == col_field(p@),
{
    match parse_usize(p) {
        Some(v) => v,
        None => 0,
    }
}

/// The fields of a `table_id\trow\tcol\trest` message; the rest keeps any
/// further tabs and newlines.
pub open spec fn cell_fields(m: Seq<char>) -> (u64, i32, usize, Seq<char>) {
    let ps = splitn(m, 4, '\t');
    (id_field(piece(ps, 0)), row_field(piece(ps, 1)), col_field(piece(ps, 2)), piece(ps, 3))
}

/// A request naming one cell of a table: the table's id, the row (`-1`
/// is the header), the column and the rest of the message.
pub struct CellRequest {
    pub table_id: u64,
    pub row: i32,
    pub col: usize,
    pub rest: String,
}

/// Read the fields of a `table_id\trow\tcol\trest` message.
pub fn parse_cell_request(message: &str) -> (r: CellRequest)
    ensures
        (r.table_id, r.row, r.col, r.rest@) == cell_fields(message@),
{
    let m = chars_of(message);
    let ps = splitn_chars(m.as_slice(), 4, '\t');
    let p0 = piece_at(&ps, 0);
    let p1 = piece_at(&ps, 1);
    let p2 = piece_at(&ps, 2);
    let p3 = piece_at(&ps, 3);
    CellRequest {
        table_id: id_of(p0.as_slice()),
        row: row_of(p1.as_slice()),
        col: col_of(p2.as_slice()),
        rest: string_of(p3.as_slice()),
    }
}

/// A cell edit (`table_id\trow\tcol\tcontent`): `None` when the table id
/// is 0 or does not read as a number, which the editor ignores.
pub fn edit_request(message: &str) -> (r: Option<CellRequest>)
    ensures
        match r {
            Some(q) => (q.table_id, q.row, q.col, q.rest@) == cell_fields(message@)
                && q.table_id != 0,
            None => cell_fields(message@).0 == 0,
        },
{
    let q = parse_cell_request(message);
    if q.table_id == 0 {
        None
    } else {
        Some(q)
    }
}

/// The navigation direction a message names.
pub open spec fn nav_direction_of(s: Seq<char>) -> Option<NavDirection> {
    if s == "next"@ {
        Some(NavDirection::Next)
    } else if s == "prev"@ {
        Some(NavDirection::Prev)
    } else if s == "down"@ {
        Some(NavDirection::Down)
    } else if s == "up"@ {
        Some(NavDirection::Up)
    } else {
        None
    }
}

/// `next`, `prev`, `down` or `up` as a direction.
pub fn nav_direction(s: &[char]) -> (r: Option<NavDirection>)
    ensures
        r == nav_direction_of(s@),
{
    if eq_str(s, "next") {
        Some(NavDirection::Next)
    } else if eq_str(s, "prev") {
        Some(NavDirection::Prev)
    } else if eq_str(s, "down") {
        Some(NavDirection::Down)
    } else if eq_str(s, "up") {
        Some(NavDirection::Up)
    } else {
        None
    }
}

/// Tab or Enter pressed in a cell: where the cursor was and which way it
/// moves.
pub struct NavRequest {
    pub table_id: u64,
    pub row: i32,
    pub col: usize,
    pub direction: NavDirection,
}

/// A navigation (`table_id\trow\tcol\tdirection`): `None` when the
/// direction is not one of `next`, `prev`, `down`, `up`, or the table id
/// is 0.
pub fn navigate_request(message: &str) -> (r: Option<NavRequest>)
    ensures
        ({
            let (id, row, col, rest) = cell_fields(message@);
            match r {
                Some(q) => q.table_id == id && q.row == row && q.col == col && id != 0
                    && nav_direction_of(rest) == Some(q.direction),
                None => id == 0 || nav_direction_of(rest) is None,
            }
        }),
{
    let q = parse_cell_request(message);
    let rest = chars_of(q.rest.as_str());
    match nav_direction(rest.as_slice()) {
        Some(d) => {
            if q.table_id == 0 {
                None
            } else {
                Some(NavRequest { table_id: q.table_id, row: q.row, col: q.col, direction: d })
            }
        },
        None => None,
    }
}

// ---------------------------------------------------------------------
// Structural operations
// ---------------------------------------------------------------------

/// The structural operations of the table context menu.
#[derive(Clone, Copy, Debug, PartialEq, Eq, Structural)]
pub enum StructureOp {
    RowAbove,
    RowBelow,
    ColLeft,
    ColRight,
    RowDelete,
    ColDelete,
    AlignLeft,
    AlignCenter,
    AlignRight,
    AlignNone,
    Reformat,
}

/// The operation a message names.
pub open spec fn structure_op_of(s: Seq<char>) -> Option<StructureOp> {
    if s == "row-above"@ {
        Some(StructureOp::RowAbove)
    } else if s == "row-below"@ {
        Some(StructureOp::RowBelow)
    } else if s == "col-left"@ {
        Some(StructureOp::ColLeft)
    } else if s == "col-right"@ {
        Some(StructureOp::ColRight)
    } else if s == "row-delete"@ {
        Some(StructureOp::RowDelete)
    } else if s == "col-delete"@ {
        Some(StructureOp::ColDelete)
    } else if s == "align-left"@ {
        Some(StructureOp::AlignLeft)
    } else if s == "align-center"@ {
        Some(StructureOp::AlignCenter)
    } else if s == "align-right"@ {
        Some(StructureOp::AlignRight)
    } else if s == "align-none"@ {
        Some(StructureOp::AlignNone)
    } else if s == "reformat"@ {
        Some(StructureOp::Reformat)
    } else {
        None
    }
}

/// The operation named by `s` (`row-above`, `col-delete`, `align-left`,
/// `reformat`, ...).
pub fn structure_op(s: &[char]) -> (r: Option<StructureOp>)
    ensures
        r == structure_op_of(s@),
{
    if eq_str(s, "row-above") {
        Some(StructureOp::RowAbove)
    } else if eq_str(s, "row-below") {
        Some(StructureOp::RowBelow)
    } else if eq_str(s, "col-left") {
        Some(StructureOp::ColLeft)
    } else if eq_str(s, "col-right") {
        Some(StructureOp::ColRight)
    } else if eq_str(s, "row-delete") {
        Some(StructureOp::RowDelete)
    } else if eq_str(s, "col-delete") {
        Some(StructureOp::ColDelete)
    } else if eq_str(s, "align-left") {
        Some(StructureOp::AlignLeft)
    } else if eq_str(s, "align-center") {
        Some(StructureOp::AlignCenter)
    } else if eq_str(s, "align-right") {
        Some(StructureOp::AlignRight)
    } else if eq_str(s, "align-none") {
        Some(StructureOp::AlignNone)
    } else if eq_str(s, "reformat") {
        Some(StructureOp::Reformat)
    } else {
        None
    }
}

/// A structural request: the cell it was made on and the operation,
/// `None` when the operation is not one this editor knows.
pub struct StructureRequest {
    pub table_id: u64,
    pub row: i32,
    pub col: usize,
    pub op: Option<StructureOp>,
}

/// A structural request (`table_id\trow\tcol\top`): `None` when the table
/// id is 0 or the operation is empty.
pub fn structure_request(message: &str) -> (r: Option<StructureRequest>)
    ensures
        ({
            let (id, row, col, rest) = cell_fields(message@);
            match r {
                Some(q) => q.table_id == id && q.row == row && q.col == col && id != 0
                    && rest.len() > 0 && q.op == structure_op_of(rest),
                None => id == 0 || rest.len() == 0,
            }
        }),
{
    let q = parse_cell_request(message);
    let rest = chars_of(q.rest.as_str());
    if q.table_id == 0 || rest.len() == 0 {
        return None;
    }
    let op = structure_op(rest.as_slice());
    Some(StructureRequest { table_id: q.table_id, row: q.row, col: q.col, op })
}

/// Whether the operation adds or removes rows or columns. Those end the
/// table's sort history; alignment and reformatting keep it.
pub open spec fn changes_row_set(op: StructureOp) -> bool {
    ||| op == StructureOp::RowAbove
    ||| op == StructureOp::RowBelow
    ||| op == StructureOp::ColLeft
    ||| op == StructureOp::ColRight
    ||| op == StructureOp::RowDelete
    ||| op == StructureOp::ColDelete
}

impl StructureOp {
    /// Whether this operation ends the table's sort history (see
    /// [`changes_row_set`]).
    pub fn invalidates_sort(&self) -> (b: bool)
        ensures
            b == changes_row_set(*self),
    {
        match self {
            StructureOp::RowAbove | StructureOp::RowBelow | StructureOp::ColLeft
            | StructureOp::ColRight | StructureOp::RowDelete | StructureOp::ColDelete => true,
            _ => false,
        }
    }
}

/// What a structural operation does to the table model.
#[derive(Clone, Copy, Debug, PartialEq, Eq, Structural)]
pub enum TableAction {
    /// Insert an empty body row at this index.
    InsertRow(usize),
    /// Insert a column at this index.
    InsertColumn(usize),
    /// Delete this body row.
    DeleteRow(usize),
    /// Delete this column.
    DeleteColumn(usize),
    /// Set this column's alignment.
    Align(usize, Alignment),
    /// Rewrite the table in the pretty layout.
    Reformat,
}

/// Why a structural operation is refused on the header row.
#[derive(Clone, Copy, Debug, PartialEq, Eq, Structural)]
pub enum StructureRefusal {
    RowAboveHeader,
    DeleteHeader,
}

/// The body row a cell's row stands for (the header counts as row 0).
pub open spec fn body_row(row: i32) -> usize {
    if row < 0 {
        0
    } else {
        row as usize
    }
}

/// The action for `op` on cell (`row`, `col`); inserting above or
/// deleting the header row is refused.
pub open spec fn structure_plan(op: StructureOp, row: i32, col: usize) -> Result<
    TableAction,
    StructureRefusal,
> {
    match op {
        StructureOp::RowAbove => if row == -1 {
            Err(StructureRefusal::RowAboveHeader)
        } else {
            Ok(TableAction::InsertRow(body_row(row)))
        },
        StructureOp::RowBelow => Ok(
            TableAction::InsertRow(
                if row == -1 {
                    0
                } else {
                    (body_row(row) + 1) as usize
                },
            ),
        ),
        StructureOp::ColLeft => Ok(TableAction::InsertColumn(col)),
        StructureOp::ColRight => Ok(TableAction::InsertColumn((col + 1) as usize)),
        StructureOp::RowDelete => if row == -1 {
            Err(StructureRefusal::DeleteHeader)
        } else {
            Ok(TableAction::DeleteRow(body_row(row)))
        },
        StructureOp::ColDelete => Ok(TableAction::DeleteColumn(col)),
        StructureOp::AlignLeft => Ok(TableAction::Align(col, Alignment::Left)),
        StructureOp::AlignCenter => Ok(TableAction::Align(col, Alignment::Center)),
        StructureOp::AlignRight => Ok(TableAction::Align(col, Alignment::Right)),
        StructureOp::AlignNone => Ok(TableAction::Align(col, Alignment::Unaligned)),
        StructureOp::Reformat => Ok(TableAction::Reformat),
    }
}

/// What `op` on cell (`row`, `col`) does to the table (see
/// [`structure_plan`]).
pub fn plan_structure(op: StructureOp, row: i32, col: usize) -> (r: Result<
    TableAction,
    StructureRefusal,
>)
    requires
        op == StructureOp::ColRight ==> col < usize::MAX,
    ensures
        r == structure_plan(op, row, col),
{
    let body: usize = if row < 0 {
        0
    } else {
        row as usize
    };
    match op {
        StructureOp::RowAbove => if row == -1 {
            Err(StructureRefusal::RowAboveHeader)
        } else {
            Ok(TableAction::InsertRow(body))
        },
        StructureOp::RowBelow => Ok(
            TableAction::InsertRow(
                if row == -1 {
                    0
                } else {
                    body + 1
                },
            ),
        ),
        StructureOp::ColLeft => Ok(TableAction::InsertColumn(col)),
        StructureOp::ColRight => Ok(TableAction::InsertColumn(col + 1)),
        StructureOp::RowDelete => if row == -1 {
            Err(StructureRefusal::DeleteHeader)
        } else {
            Ok(TableAction::DeleteRow(body))
        },
        StructureOp::ColDelete => Ok(TableAction::DeleteColumn(col)),
        StructureOp::AlignLeft => Ok(TableAction::Align(col, Alignment::Left)),
        StructureOp::AlignCenter => Ok(TableAction::Align(col, Alignment::Center)),
        StructureOp::AlignRight => Ok(TableAction::Align(col, Alignment::Right)),
        StructureOp::AlignNone => Ok(TableAction::Align(col, Alignment::Unaligned)),
        StructureOp::Reformat => Ok(TableAction::Reformat),
    }
}

/// What carrying out `action` on a table and its buffer does (see the
/// table operations of [`crate::tables::serialize`]); an inserted column
/// is unaligned.
pub open spec fn action_done(
    action: TableAction,
    t: TableView,
    buf: Seq<char>,
    r: Result<EditDelta, TableError>,
    t_out: TableView,
    buf_out: Seq<char>,
) -> bool {
    match action {
        TableAction::InsertRow(at) => row_inserted(t, buf, at, r, t_out, buf_out),
        TableAction::InsertColumn(at) => column_inserted(t, buf, at, Alignment::Unaligned, r, t_out, buf_out),
        TableAction::DeleteRow(at) => row_deleted(t, buf, at, r, t_out, buf_out),
        TableAction::DeleteColumn(at) => column_deleted(t, buf, at, r, t_out, buf_out),
        TableAction::Align(col, a) => alignment_set(t, buf, col, a, r, t_out, buf_out),
        TableAction::Reformat => reformatted(t, buf, r, t_out, buf_out),
    }
}

/// Carry out a planned structural action on a table and its buffer.
pub fn apply_table_action(table: &mut MarkdownTable, action: TableAction, buffer: &mut String) -> (r: Result<
    EditDelta,
    TableError,
>)
    requires
        placed(old(table)@, old(buffer)@),
        cells_ok(old(table)@),
        action matches TableAction::InsertColumn(at) ==> (at <= old(table)@.alignments.len() ==> at
            <= old(table)@.headers.len() && at <= old(table)@.column_widths.len()),
        action matches TableAction::DeleteColumn(at) ==> (1 < old(table)@.alignments.len() && at
            < old(table)@.alignments.len() ==> at < old(table)@.headers.len()),
    ensures
        action_done(action, old(table)@, old(buffer)@, r, final(table)@, final(buffer)@),
{
    match action {
        TableAction::InsertRow(at) => table.insert_empty_row(at, buffer),
        TableAction::InsertColumn(at) => table.insert_column(at, Alignment::Unaligned, buffer),
        TableAction::DeleteRow(at) => table.delete_row(at, buffer),
        TableAction::DeleteColumn(at) => table.delete_column(at, buffer),
        TableAction::Align(col, a) => table.set_column_alignment(col, a, buffer),
        TableAction::Reformat => table.reformat_pretty(buffer),
    }
}

/// The notice for a refused operation.
pub open spec fn refusal_text(r: StructureRefusal) -> Seq<char> {
    match r {
        StructureRefusal::RowAboveHeader => "Can't insert a row above the header"@,
        StructureRefusal::DeleteHeader => "Can't delete the header row"@,
    }
}

impl StructureRefusal {
    /// The notice shown for this refusal.
    pub fn message(&self) -> (s: String)
        ensures
            s@ == refusal_text(*self),
    {
        match self {
            StructureRefusal::RowAboveHeader => String::from_str(
                "Can't insert a row above the header",
            ),
            StructureRefusal::DeleteHeader => String::from_str("Can't delete the header row"),
        }
    }
}

/// Where the focus lands after `op` succeeded on cell (`row`, `col`),
/// given the table's column and body row counts after the operation.
pub open spec fn focus_after(op: StructureOp, row: i32, col: usize, n_cols: nat, n_body: int) -> Option<
    (i32, usize),
> {
    match op {
        StructureOp::RowAbove => Some(((row + 1) as i32, col)),
        StructureOp::RowBelow => Some(
            (
                if row == -1 {
                    0i32
                } else {
                    row
                },
                col,
            ),
        ),
        StructureOp::ColLeft => Some((row, (col + 1) as usize)),
        StructureOp::ColRight => Some((row, col)),
        StructureOp::RowDelete => if n_body == 0 {
            Some((-1i32, col))
        } else if row <= n_body - 1 {
            Some((row, col))
        } else {
            Some(((n_body - 1) as i32, col))
        },
        StructureOp::ColDelete => if n_cols == 0 {
            None
        } else if col <= n_cols - 1 {
            Some((row, col))
        } else {
            Some((row, (n_cols - 1) as usize))
        },
        _ => Some((row, col)),
    }
}

/// The cell to focus after `op` succeeded (see [`focus_after`]).
pub fn post_op_focus(op: StructureOp, row: i32, col: usize, n_cols: usize, n_body: usize) -> (r:
    Option<(i32, usize)>)
    requires
        op == StructureOp::RowAbove ==> row < i32::MAX,
        op == StructureOp::ColLeft ==> col < usize::MAX,
        n_body <= i32::MAX,
    ensures
        r == focus_after(op, row, col, n_cols as nat, n_body as int),
{
    let nb = n_body as i32;
    match op {
        StructureOp::RowAbove => Some((row + 1, col)),
        StructureOp::RowBelow => Some(
            (
                if row == -1 {
                    0
                } else {
                    row
                },
                col,
            ),
        ),
        StructureOp::ColLeft => Some((row, col + 1)),
        StructureOp::ColRight => Some((row, col)),
        StructureOp::RowDelete => if nb == 0 {
            Some((-1, col))
        } else if row <= nb - 1 {
            Some((row, col))
        } else {
            Some((nb - 1, col))
        },
        StructureOp::ColDelete => if n_cols == 0 {
            None
        } else if col <= n_cols - 1 {
            Some((row, col))
        } else {
            Some((row, n_cols - 1))
        },
        _ => Some((row, col)),
    }
}

/// The notice after reformatting a table of `n_cols` columns.
pub open spec fn reformat_text(n_cols: nat) -> Seq<char> {
    "Table reformatted to pretty style ("@ + dec(n_cols) + " column"@ + (if n_cols == 1 {
        ""@
    } else {
        "s"@
    }) + ")"@
}

/// "Table reformatted to pretty style (N columns)", singular for one.
pub fn reformat_message(n_cols: usize) -> (s: String)
    ensures
        s@ == reformat_text(n_cols as nat),
{
    let mut out: Vec<char> = Vec::new();
    push_str(&mut out, "Table reformatted to pretty style (");
    push_dec(&mut out, n_cols as u64);
    push_str(&mut out, " column");
    if n_cols != 1 {
        push_str(&mut out, "s");
    } else {
        push_str(&mut out, "");
    }
    push_str(&mut out, ")");
    string_of(out.as_slice())
}

// ---------------------------------------------------------------------
// Sorting
// ---------------------------------------------------------------------

/// The fields of a `table_id\tcol\trest` message.
pub open spec fn column_fields(m: Seq<char>) -> (u64, usize, Seq<char>) {
    let ps = splitn(m, 3, '\t');
    (id_field(piece(ps, 0)), col_field(piece(ps, 1)), piece(ps, 2))
}

/// The sort direction a message names: `asc`, `desc`, or `off`.
pub open spec fn sort_direction_of(s: Seq<char>) -> Option<SortDirection> {
    if s == "asc"@ {
        Some(SortDirection::Ascending)
    } else if s == "desc"@ {
        Some(SortDirection::Descending)
    } else if s == "off"@ {
        Some(SortDirection::Unsorted)
    } else {
        None
    }
}

/// A click on a column's sort control.
pub struct SortRequest {
    pub table_id: u64,
    pub col: usize,
    pub direction: SortDirection,
}

/// A sort request (`table_id\tcol\tdirection`): `None` when the direction
/// is not `asc`, `desc` or `off`, or the table id is 0.
pub fn sort_request(message: &str) -> (r: Option<SortRequest>)
    ensures
        ({
            let (id, col, rest) = column_fields(message@);
            match r {
                Some(q) => q.table_id == id && q.col == col && id != 0 && sort_direction_of(rest)
                    == Some(q.direction),
                None => id == 0 || sort_direction_of(rest) is None,
            }
        }),
{
    let m = chars_of(message);
    let ps = splitn_chars(m.as_slice(), 3, '\t');
    let p0 = piece_at(&ps, 0);
    let p1 = piece_at(&ps, 1);
    let p2 = piece_at(&ps, 2);
    let id = id_of(p0.as_slice());
    let col = col_of(p1.as_slice());
    let direction = if eq_str(p2.as_slice(), "asc") {
        SortDirection::Ascending
    } else if eq_str(p2.as_slice(), "desc") {
        SortDirection::Descending
    } else if eq_str(p2.as_slice(), "off") {
        SortDirection::Unsorted
    } else {
        return None;
    };
    if id == 0 {
        return None;
    }
    Some(SortRequest { table_id: id, col, direction })
}

/// The rows a table had before its first sort, kept so that the sort
/// control can go back to them (Ascending, Descending, Off). Any cell edit
/// or change to the table's rows or columns drops it.
pub struct TableSortSnapshot {
    pub original_rows: Vec<Vec<Cell>>,
    pub col: usize,
    pub direction: SortDirection,
}

/// What a sort request does.
#[derive(Clone, Copy, Debug, PartialEq, Eq, Structural)]
pub enum SortPlan {
    /// The column is not in the table: nothing changes.
    OutOfRange,
    /// Off was asked for but no pre-sort order is kept: nothing changes.
    Untracked,
    /// Off: put back the kept rows and drop the snapshot.
    Restore,
    /// Sort the kept pre-sort rows (so descending is the reverse order of
    /// the original, ties kept stable) and keep them.
    SortFromSnapshot,
    /// Sort the table's current rows and keep them as the pre-sort order.
    SortFromTable,
}

/// The plan for sorting column `col` of a table of `n_cols` columns.
pub open spec fn sort_plan_of(has_snapshot: bool, n_cols: nat, col: usize, direction: SortDirection) -> SortPlan {
    if col >= n_cols {
        SortPlan::OutOfRange
    } else if direction == SortDirection::Unsorted {
        if has_snapshot {
            SortPlan::Restore
        } else {
            SortPlan::Untracked
        }
    } else if has_snapshot {
        SortPlan::SortFromSnapshot
    } else {
        SortPlan::SortFromTable
    }
}

/// Decide what a sort request does (see [`sort_plan_of`]).
pub fn plan_sort(has_snapshot: bool, n_cols: usize, col: usize, direction: SortDirection) -> (p: SortPlan)
    ensures
        p == sort_plan_of(has_snapshot, n_cols as nat, col, direction),
{
    if col >= n_cols {
        SortPlan::OutOfRange
    } else {
        match direction {
            SortDirection::Unsorted => if has_snapshot {
                SortPlan::Restore
            } else {
                SortPlan::Untracked
            },
            _ => if has_snapshot {
                SortPlan::SortFromSnapshot
            } else {
                SortPlan::SortFromTable
            },
        }
    }
}

/// The notice for a plan that changes nothing.
pub open spec fn sort_refusal_text(p: SortPlan) -> Seq<char> {
    match p {
        SortPlan::OutOfRange => "Column out of range for sort"@,
        SortPlan::Untracked => "Original row order not tracked (cleared by a recent edit)"@,
        _ => ""@,
    }
}

impl SortPlan {
    /// The notice shown when the plan changes nothing; empty otherwise.
    pub fn refusal(&self) -> (s: String)
        ensures
            s@ == sort_refusal_text(*self),
    {
        match self {
            SortPlan::OutOfRange => String::from_str("Column out of range for sort"),
            SortPlan::Untracked => String::from_str(
                "Original row order not tracked (cleared by a recent edit)",
            ),
            _ => String::from_str(""),
        }
    }
}

/// The notice after going back to the pre-sort order of column `col`
/// (counted from 1 in the text).
pub open spec fn restored_text(col: nat) -> Seq<char> {
    "Sort cleared \u{2014} column "@ + dec(col + 1) + " restored to original order"@
}

/// "Sort cleared — column N restored to original order".
pub fn restored_message(col: usize) -> (s: String)
    requires
        col < usize::MAX,
    ensures
        s@ == restored_text(col as nat),
{
    let mut out: Vec<char> = Vec::new();
    push_str(&mut out, "Sort cleared \u{2014} column ");
    push_dec(&mut out, col as u64 + 1);
    push_str(&mut out, " restored to original order");
    string_of(out.as_slice())
}

/// The notice after sorting column `col` (counted from 1 in the text).
pub open spec fn sorted_text(col: nat, direction: SortDirection) -> Seq<char> {
    "Sorted by column "@ + dec(col + 1) + " ("@ + (if direction == SortDirection::Ascending {
        "ascending"@
    } else {
        "descending"@
    }) + ")"@
}

/// "Sorted by column N (ascending)" or "(descending)".
pub fn sorted_message(col: usize, direction: SortDirection) -> (s: String)
    requires
        col < usize::MAX,
    ensures
        s@ == sorted_text(col as nat, direction),
{
    let mut out: Vec<char> = Vec::new();
    push_str(&mut out, "Sorted by column ");
    push_dec(&mut out, col as u64 + 1);
    push_str(&mut out, " (");
    match direction {
        SortDirection::Ascending => push_str(&mut out, "ascending"),
        _ => push_str(&mut out, "descending"),
    }
    push_str(&mut out, ")");
    string_of(out.as_slice())
}

// ---------------------------------------------------------------------
// Column widths
// ---------------------------------------------------------------------

/// One width as the resize handle sends it: blank for an unset column,
/// otherwise a `u32` (anything else also reads as unset).
pub open spec fn width_of(p: Seq<char>) -> Option<u32> {
    let t = trim(p);
    if t.len() == 0 {
        None
    } else {
        parse_u32_spec(t)
    }
}

/// The comma-separated widths of a resize message (`180,,120`).
pub open spec fn widths_of(csv: Seq<char>) -> Seq<Option<u32>> {
    split_on(csv, ',').map_values(|p: Seq<char>| width_of(p))
}

/// Read comma-separated column widths (see [`widths_of`]).
pub fn parse_widths(csv: &[char]) -> (w: Vec<Option<u32>>)
    ensures
        w@ == widths_of(csv@),
{
    let parts = split_chars(csv, ',');
    let ghost ps = views(parts@);
    let mut w: Vec<Option<u32>> = Vec::new();
    let mut i: usize = 0;
    while i < parts.len()
        invariant
            i <= parts@.len(),
            ps == views(parts@),
            ps == split_on(csv@, ','),
            w@ == ps.take(i as int).map_values(|p: Seq<char>| width_of(p)),
        decreases parts@.len() - i,
    {
        let t = trimmed(parts[i].as_slice());
        let v = if t.len() == 0 {
            None
        } else {
            parse_u32(t.as_slice())
        };
        assert(ps[i as int] == parts@[i as int]@);
        w.push(v);
        i = i + 1;
        assert(w@ =~= ps.take(i as int).map_values(|p: Seq<char>| width_of(p)));
    }
    assert(ps.take(parts@.len() as int) =~= ps);
    w
}

/// The fields of a `table_id\trest` message.
pub open spec fn width_fields(m: Seq<char>) -> (u64, Seq<char>) {
    let ps = splitn(m, 2, '\t');
    (id_field(piece(ps, 0)), piece(ps, 1))
}

/// Column widths committed from a resize drag.
pub struct ResizeRequest {
    pub table_id: u64,
    pub widths: Vec<Option<u32>>,
}

/// A resize request (`table_id\twidths`): `None` when the table id is 0.
pub fn resize_request(message: &str) -> (r: Option<ResizeRequest>)
    ensures
        match r {
            Some(q) => q.table_id == width_fields(message@).0 && q.table_id != 0 && q.widths@
                == widths_of(width_fields(message@).1),
            None => width_fields(message@).0 == 0,
        },
{
    let m = chars_of(message);
    let ps = splitn_chars(m.as_slice(), 2, '\t');
    let p0 = piece_at(&ps, 0);
    let p1 = piece_at(&ps, 1);
    let id = id_of(p0.as_slice());
    if id == 0 {
        return None;
    }
    let widths = parse_widths(p1.as_slice());
    Some(ResizeRequest { table_id: id, widths })
}

/// What a resize request does.
#[derive(Clone, Copy, Debug, PartialEq, Eq, Structural)]
pub enum ResizePlan {
    /// The number of widths is not the number of columns: ignored.
    Mismatch,
    /// The widths are those the table has: nothing to do.
    Unchanged,
    /// Write the new widths.
    Apply,
}

/// The plan for new `widths` on a table of `n_cols` columns whose widths
/// are `current`.
pub open spec fn resize_plan_of(widths: Seq<Option<u32>>, current: Seq<Option<u32>>, n_cols: nat) -> ResizePlan {
    if widths.len() != n_cols {
        ResizePlan::Mismatch
    } else if widths == current {
        ResizePlan::Unchanged
    } else {
        ResizePlan::Apply
    }
}

/// Decide what a resize request does (see [`resize_plan_of`]).
pub fn plan_resize(widths: &[Option<u32>], current: &[Option<u32>], n_cols: usize) -> (p: ResizePlan)
    ensures
        p == resize_plan_of(widths@, current@, n_cols as nat),
{
    if widths.len() != n_cols {
        return ResizePlan::Mismatch;
    }
    if widths.len() != current.len() {
        assert(widths@.len() != current@.len());
        assert(widths@ != current@);
        return ResizePlan::Apply;
    }
    let mut i: usize = 0;
    while i < widths.len()
        invariant
            i <= widths@.len(),
            widths@.len() == current@.len(),
            widths@.len() == n_cols,
            forall|j: int| 0 <= j < i ==> widths@[j] == current@[j],
        decreases widths@.len() - i,
    {
        let same = match (widths[i], current[i]) {
            (Some(a), Some(b)) => a == b,
            (None, None) => true,
            _ => false,
        };
        if !same {
            assert(widths@[i as int] != current@[i as int]);
            assert(widths@ != current@);
            return ResizePlan::Apply;
        }
        i = i + 1;
    }
    assert(widths@ =~= current@);
    ResizePlan::Unchanged
}

/// The notice when the number of widths does not match the table.
pub open spec fn mismatch_text(got: nat, n_cols: nat) -> Seq<char> {
    "Resize ignored: got "@ + dec(got) + " widths, table has "@ + dec(n_cols) + " columns"@
}

/// "Resize ignored: got N widths, table has M columns".
pub fn mismatch_message(got: usize, n_cols: usize) -> (s: String)
    ensures
        s@ == mismatch_text(got as nat, n_cols as nat),
{
    let mut out: Vec<char> = Vec::new();
    push_str(&mut out, "Resize ignored: got ");
    push_dec(&mut out, got as u64);
    push_str(&mut out, " widths, table has ");
    push_dec(&mut out, n_cols as u64);
    push_str(&mut out, " columns");
    string_of(out.as_slice())
}

// ---------------------------------------------------------------------
// Smart paste
// ---------------------------------------------------------------------

/// A clipboard that reads as a table, converted: the pretty GFM text, the
/// number of body rows and of columns, and what it was read as.
pub struct TablePasteResult {
    pub markdown: String,
    pub body_rows: usize,
    pub cols: usize,
    pub origin: String,
}

/// What a detected paste is reported as.
pub open spec fn origin_text(p: PasteView) -> Seq<char> {
    match p {
        PasteView::Tsv(..) => "TSV"@,
        PasteView::Csv(..) => "CSV"@,
        PasteView::Gfm(..) => "Markdown"@,
        PasteView::Html(..) => "HTML table"@,
        PasteView::NotTable => ""@,
    }
}

/// The characters of an optional string.
pub open spec fn opt_view(o: Option<String>) -> Option<Seq<char>> {
    match o {
        Some(s) => Some(s@),
        None => None,
    }
}

/// Convert clipboard text and HTML to a pretty GFM table: `None` when
/// neither reads as a table (the editor then pastes the text as it is) or
/// the table does not convert.
pub fn convert_table_paste(text: Option<String>, html: Option<String>) -> (r: Option<TablePasteResult>)
    ensures
        ({
            let p = detected(opt_view(text), opt_view(html));
            match r {
                Some(q) => p !is NotTable && paste_gfm(p, TableStyle::Pretty) == Some(q.markdown@)
                    && q.origin@ == origin_text(p) && (shape_of(p) matches Some((rows, cols))
                    && q.cols == cols && q.body_rows == (if rows > 0 {
                    rows - 1
                } else {
                    0
                })),
                None => p is NotTable || paste_gfm(p, TableStyle::Pretty) is None,
            }
        }),
{
    let t: Option<&str> = match &text {
        Some(s) => Some(s.as_str()),
        None => None,
    };
    let h: Option<&str> = match &html {
        Some(s) => Some(s.as_str()),
        None => None,
    };
    let found = detect_table_paste(t, h);
    let origin = match &found {
        TablePaste::Tsv { .. } => String::from_str("TSV"),
        TablePaste::Csv { .. } => String::from_str("CSV"),
        TablePaste::Gfm { .. } => String::from_str("Markdown"),
        TablePaste::Html { .. } => String::from_str("HTML table"),
        TablePaste::NotTable => {
            return None;
        },
    };
    let markdown = match paste_to_gfm(&found, TableStyle::Pretty) {
        Some(m) => m,
        None => {
            return None;
        },
    };
    let (rows, cols) = match found.shape() {
        Some(rc) => rc,
        None => {
            return None;
        },
    };
    let body_rows = if rows > 0 {
        rows - 1
    } else {
        0
    };
    Some(TablePasteResult { markdown, body_rows, cols, origin })
}

} // verus!
