use rendermd_core::requests::{
    apply_table_action, convert_table_paste, edit_request, mismatch_message, navigate_request, parse_cell_request,
    parse_widths, plan_resize, plan_sort, plan_structure, post_op_focus, reformat_message,
    resize_request, restored_message, sort_request, sorted_message, structure_request,
    ResizePlan, SortPlan, StructureOp, StructureRefusal, TableAction,
};
use rendermd_core::tables::model::{Alignment, NavDirection, SortDirection, TableError, TableStyle};
use rendermd_core::tables::parse::parse_tables;
use rendermd_core::tables::paste::{detect_table_paste, paste_to_gfm};

#[test]
fn cell_request_keeps_tabs_in_the_rest() {
    let q = parse_cell_request("12\t-1\t3\thello\tworld\nnext");
    assert_eq!(q.table_id, 12);
    assert_eq!(q.row, -1);
    assert_eq!(q.col, 3);
    assert_eq!(q.rest, "hello\tworld\nnext");
}

#[test]
fn unreadable_fields_read_as_zero() {
    let q = parse_cell_request("abc\tx\t");
    assert_eq!(q.table_id, 0);
    assert_eq!(q.row, 0);
    assert_eq!(q.col, 0);
    assert_eq!(q.rest, "");
    let q = parse_cell_request("+7\t+2\t99999999999999999999999\tz");
    assert_eq!(q.table_id, 7);
    assert_eq!(q.row, 2);
    assert_eq!(q.col, 0);
}

#[test]
fn edit_request_ignores_table_zero() {
    assert!(edit_request("0\t1\t1\tx").is_none());
    let q = edit_request("3\t0\t1\tnew text").unwrap();
    assert_eq!((q.table_id, q.row, q.col), (3, 0, 1));
    assert_eq!(q.rest, "new text");
}

#[test]
fn navigate_request_reads_the_direction() {
    let q = navigate_request("5\t0\t1\tnext").unwrap();
    assert_eq!(q.direction, NavDirection::Next);
    assert_eq!((q.table_id, q.row, q.col), (5, 0, 1));
    assert_eq!(navigate_request("5\t-1\t0\tup").unwrap().direction, NavDirection::Up);
    assert!(navigate_request("5\t0\t1\tsideways").is_none());
    assert!(navigate_request("0\t0\t1\tdown").is_none());
}

#[test]
fn structure_request_names_the_operation() {
    let q = structure_request("5\t-1\t0\trow-above").unwrap();
    assert_eq!(q.op, Some(StructureOp::RowAbove));
    assert_eq!(q.row, -1);
    let q = structure_request("5\t2\t1\tspin").unwrap();
    assert_eq!(q.op, None);
    assert!(structure_request("5\t2\t1\t").is_none());
    assert!(structure_request("0\t2\t1\treformat").is_none());
    assert_eq!(structure_request("1\t0\t0\talign-none").unwrap().op, Some(StructureOp::AlignNone));
}

#[test]
fn header_row_refusals() {
    let r = plan_structure(StructureOp::RowAbove, -1, 0).unwrap_err();
    assert_eq!(r, StructureRefusal::RowAboveHeader);
    assert_eq!(r.message(), "Can't insert a row above the header");
    let r = plan_structure(StructureOp::RowDelete, -1, 0).unwrap_err();
    assert_eq!(r.message(), "Can't delete the header row");
}

#[test]
fn structure_plans() {
    assert_eq!(plan_structure(StructureOp::RowBelow, -1, 2), Ok(TableAction::InsertRow(0)));
    assert_eq!(plan_structure(StructureOp::RowBelow, 3, 2), Ok(TableAction::InsertRow(4)));
    assert_eq!(plan_structure(StructureOp::RowAbove, 3, 2), Ok(TableAction::InsertRow(3)));
    assert_eq!(plan_structure(StructureOp::ColLeft, 0, 2), Ok(TableAction::InsertColumn(2)));
    assert_eq!(plan_structure(StructureOp::ColRight, 0, 2), Ok(TableAction::InsertColumn(3)));
    assert_eq!(plan_structure(StructureOp::RowDelete, 1, 0), Ok(TableAction::DeleteRow(1)));
    assert_eq!(plan_structure(StructureOp::ColDelete, 1, 4), Ok(TableAction::DeleteColumn(4)));
    assert_eq!(
        plan_structure(StructureOp::AlignNone, 0, 1),
        Ok(TableAction::Align(1, Alignment::Unaligned))
    );
    assert_eq!(
        plan_structure(StructureOp::AlignCenter, 0, 1),
        Ok(TableAction::Align(1, Alignment::Center))
    );
    assert_eq!(plan_structure(StructureOp::Reformat, 0, 1), Ok(TableAction::Reformat));
}

#[test]
fn row_and_column_changes_end_the_sort_history() {
    assert!(StructureOp::RowAbove.invalidates_sort());
    assert!(StructureOp::ColDelete.invalidates_sort());
    assert!(!StructureOp::AlignLeft.invalidates_sort());
    assert!(!StructureOp::Reformat.invalidates_sort());
}

#[test]
fn focus_after_structural_operations() {
    assert_eq!(post_op_focus(StructureOp::RowAbove, 2, 1, 3, 4), Some((3, 1)));
    assert_eq!(post_op_focus(StructureOp::RowBelow, -1, 1, 3, 4), Some((0, 1)));
    assert_eq!(post_op_focus(StructureOp::RowBelow, 2, 1, 3, 4), Some((2, 1)));
    assert_eq!(post_op_focus(StructureOp::ColLeft, 2, 1, 3, 4), Some((2, 2)));
    assert_eq!(post_op_focus(StructureOp::ColRight, 2, 1, 3, 4), Some((2, 1)));
    assert_eq!(post_op_focus(StructureOp::RowDelete, 0, 1, 3, 0), Some((-1, 1)));
    assert_eq!(post_op_focus(StructureOp::RowDelete, 5, 1, 3, 3), Some((2, 1)));
    assert_eq!(post_op_focus(StructureOp::ColDelete, 0, 4, 0, 3), None);
    assert_eq!(post_op_focus(StructureOp::ColDelete, 0, 4, 2, 3), Some((0, 1)));
    assert_eq!(post_op_focus(StructureOp::AlignRight, 1, 1, 2, 3), Some((1, 1)));
}

#[test]
fn reformat_notice() {
    assert_eq!(reformat_message(1), "Table reformatted to pretty style (1 column)");
    assert_eq!(reformat_message(3), "Table reformatted to pretty style (3 columns)");
    assert_eq!(reformat_message(0), "Table reformatted to pretty style (0 columns)");
}

#[test]
fn sort_requests() {
    let q = sort_request("7\t2\tasc").unwrap();
    assert_eq!((q.table_id, q.col, q.direction), (7, 2, SortDirection::Ascending));
    assert_eq!(sort_request("7\t0\toff").unwrap().direction, SortDirection::Unsorted);
    assert_eq!(sort_request("7\t0\tdesc").unwrap().direction, SortDirection::Descending);
    assert!(sort_request("7\t2\tup").is_none());
    assert!(sort_request("0\t2\tasc").is_none());
}

#[test]
fn sort_plans_and_notices() {
    assert_eq!(plan_sort(true, 3, 3, SortDirection::Ascending), SortPlan::OutOfRange);
    assert_eq!(plan_sort(false, 3, 1, SortDirection::Unsorted), SortPlan::Untracked);
    assert_eq!(plan_sort(true, 3, 1, SortDirection::Unsorted), SortPlan::Restore);
    assert_eq!(plan_sort(true, 3, 1, SortDirection::Descending), SortPlan::SortFromSnapshot);
    assert_eq!(plan_sort(false, 3, 1, SortDirection::Ascending), SortPlan::SortFromTable);
    assert_eq!(SortPlan::OutOfRange.refusal(), "Column out of range for sort");
    assert_eq!(
        SortPlan::Untracked.refusal(),
        "Original row order not tracked (cleared by a recent edit)"
    );
    assert_eq!(sorted_message(0, SortDirection::Descending), "Sorted by column 1 (descending)");
    assert_eq!(sorted_message(9, SortDirection::Ascending), "Sorted by column 10 (ascending)");
    assert_eq!(
        restored_message(2),
        "Sort cleared \u{2014} column 3 restored to original order"
    );
}

#[test]
fn column_widths() {
    assert_eq!(parse_widths(&"180,,120".chars().collect::<Vec<_>>()), vec![Some(180), None, Some(120)]);
    assert_eq!(parse_widths(&" 90 , x".chars().collect::<Vec<_>>()), vec![Some(90), None]);
    assert_eq!(parse_widths(&[]), vec![None]);
    let q = resize_request("4\t180,,120").unwrap();
    assert_eq!(q.table_id, 4);
    assert_eq!(q.widths, vec![Some(180), None, Some(120)]);
    assert!(resize_request("0\t1,2").is_none());
}

#[test]
fn resize_plans() {
    let cur = vec![Some(100), None];
    assert_eq!(plan_resize(&[Some(100)], &cur, 2), ResizePlan::Mismatch);
    assert_eq!(plan_resize(&[Some(100), None], &cur, 2), ResizePlan::Unchanged);
    assert_eq!(plan_resize(&[Some(100), Some(5)], &cur, 2), ResizePlan::Apply);
    assert_eq!(plan_resize(&[None, None], &[], 2), ResizePlan::Apply);
    assert_eq!(mismatch_message(2, 3), "Resize ignored: got 2 widths, table has 3 columns");
}

#[test]
fn table_paste_results() {
    let text = "a\tb\n1\t2\n3\t4".to_string();
    let r = convert_table_paste(Some(text.clone()), None).unwrap();
    assert_eq!(r.origin, "TSV");
    assert_eq!(r.body_rows, 2);
    assert_eq!(r.cols, 2);
    let expected = paste_to_gfm(&detect_table_paste(Some(&text), None), TableStyle::Pretty).unwrap();
    assert_eq!(r.markdown, expected);
    assert!(r.markdown.starts_with("| a"));
    assert!(convert_table_paste(Some("just some words".into()), None).is_none());
    assert!(convert_table_paste(None, None).is_none());
    let html = "<table><tr><th>x</th></tr><tr><td>1</td></tr></table>".to_string();
    let r = convert_table_paste(None, Some(html)).unwrap();
    assert_eq!(r.origin, "HTML table");
    assert_eq!((r.body_rows, r.cols), (1, 1));
    let md = "| h |\n| --- |\n| v |".to_string();
    assert_eq!(convert_table_paste(Some(md), None).unwrap().origin, "Markdown");
}

#[test]
fn table_error_messages() {
    assert_eq!(TableError::CellOutOfRange { row: -1, col: 3 }.message(), "cell (-1, 3) is out of range");
    assert_eq!(TableError::CellOutOfRange { row: 12, col: 0 }.message(), "cell (12, 0) is out of range");
    assert_eq!(TableError::TableNotFound(42).message(), "table 42 not found");
    assert_eq!(TableError::NotPreserveMode.message(), "operation requires PreserveOriginal mode");
    assert_eq!(TableError::InvalidCsv("bad".into()).message(), "invalid CSV: bad");
    assert_eq!(TableError::InvalidHtml("x".into()).message(), "invalid HTML: x");
    assert_eq!(TableError::InvalidStructure("y".into()).message(), "invalid table structure: y");
    assert_eq!(TableError::CellOutOfRange { row: i32::MIN, col: 0 }.message(), "cell (-2147483648, 0) is out of range");
}

#[test]
fn applied_actions_change_the_table_as_planned() {
    let src = "| a | b |\n|---|---|\n| 1 | 2 |\n";
    let mut buffer = String::from(src);
    let mut t = parse_tables(&buffer).remove(0);
    apply_table_action(&mut t, TableAction::InsertRow(1), &mut buffer).unwrap();
    assert_eq!(t.rows.len(), 2);
    apply_table_action(&mut t, TableAction::DeleteRow(1), &mut buffer).unwrap();
    assert_eq!(t.rows.len(), 1);
    apply_table_action(&mut t, TableAction::InsertColumn(2), &mut buffer).unwrap();
    assert_eq!(t.alignments, vec![Alignment::Unaligned; 3]);
    apply_table_action(&mut t, TableAction::DeleteColumn(2), &mut buffer).unwrap();
    assert_eq!(t.alignments.len(), 2);
    apply_table_action(&mut t, TableAction::Align(1, Alignment::Right), &mut buffer).unwrap();
    assert_eq!(t.alignments[1], Alignment::Right);
    assert!(buffer.contains("-:"));
    let d = apply_table_action(&mut t, TableAction::Reformat, &mut buffer).unwrap();
    assert_eq!(t.style, TableStyle::PreserveOriginal);
    let again = apply_table_action(&mut t, TableAction::Reformat, &mut buffer).unwrap();
    assert_eq!(again.byte_delta, 0);
    let _ = d;
    let err = apply_table_action(&mut t, TableAction::DeleteRow(5), &mut buffer).unwrap_err();
    assert!(matches!(err, TableError::CellOutOfRange { row: 5, col: 0 }));
}
