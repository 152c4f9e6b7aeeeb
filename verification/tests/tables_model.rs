use rendermd_core::tables::model::{
    is_float_text, is_numeric_column, sort_rows, Alignment, Cell, MarkdownTable, NavDirection, NavTarget,
    SortDirection, TableError, TableStyle,
};

fn sample_table() -> MarkdownTable {
    MarkdownTable {
        id: 1,
        source_range: 0..40,
        alignments: vec![Alignment::Unaligned, Alignment::Unaligned],
        headers: vec![
            Cell { source_range: 1..7, content: "a".into(), leading_ws: 1, trailing_ws: 1 },
            Cell { source_range: 8..14, content: "b".into(), leading_ws: 1, trailing_ws: 1 },
        ],
        rows: vec![vec![
            Cell { source_range: 25..31, content: "1".into(), leading_ws: 1, trailing_ws: 1 },
            Cell { source_range: 32..38, content: "2".into(), leading_ws: 1, trailing_ws: 1 },
        ]],
        style: TableStyle::Compact,
        column_widths: vec![None, None],
        original_lines: None,
        sort_indicator: None,
    }
}

/// Rank of each row's value in a numeric column (equal values share a
/// rank), as the caller computes it from the `f64` parse.
fn numeric_ranks(rows: &[Vec<Cell>], col: usize) -> Option<Vec<u64>> {
    if !is_numeric_column(rows, col) {
        return None;
    }
    let vals: Vec<f64> = rows
        .iter()
        .map(|r| r.get(col).map(|c| c.content.trim().parse::<f64>().unwrap_or(0.0)).unwrap_or(0.0))
        .collect();
    Some(vals.iter().map(|v| {
        let mut smaller: Vec<f64> = vals.iter().copied().filter(|s| s < v).collect();
        smaller.sort_by(|a, b| a.partial_cmp(b).unwrap());
        smaller.dedup();
        smaller.len() as u64
    }).collect())
}

fn sort(rows: Vec<Vec<Cell>>, col: usize, dir: SortDirection) -> Vec<Vec<Cell>> {
    let r = numeric_ranks(&rows, col);
    sort_rows(rows, col, dir, r)
}

#[test]
fn cell_accessor_handles_header_and_body() {
    let t = sample_table();
    assert_eq!(t.cell(-1, 0).unwrap().content, "a");
    assert_eq!(t.cell(0, 1).unwrap().content, "2");
    assert!(matches!(t.cell(99, 0), Err(TableError::CellOutOfRange { .. })));
}

#[test]
fn shift_after_moves_only_affected_ranges() {
    let mut t = sample_table();
    t.shift_after(20, 5);
    assert_eq!(t.headers[0].source_range, 1..7);
    assert_eq!(t.rows[0][0].source_range, 30..36);
    assert_eq!(t.source_range, 0..45);
}

#[test]
fn navigate_next_advances_within_row() {
    let t = sample_table();
    let n = t.navigate(0, 0, NavDirection::Next);
    assert_eq!(n, NavTarget { row: 0, col: 1, created_row: false });
}

#[test]
fn navigate_next_wraps_header_to_body() {
    let t = sample_table();
    let n = t.navigate(-1, 1, NavDirection::Next);
    assert_eq!(n, NavTarget { row: 0, col: 0, created_row: false });
}

#[test]
fn navigate_next_at_last_cell_signals_new_row() {
    let t = sample_table();
    let n = t.navigate(0, 1, NavDirection::Next);
    assert_eq!(n, NavTarget { row: 1, col: 0, created_row: true });
}

#[test]
fn navigate_prev_wraps_to_previous_row_end() {
    let t = sample_table();
    let n = t.navigate(0, 0, NavDirection::Prev);
    assert_eq!(n, NavTarget { row: -1, col: 1, created_row: false });
}

#[test]
fn navigate_prev_no_op_at_top_left_of_header() {
    let t = sample_table();
    let n = t.navigate(-1, 0, NavDirection::Prev);
    assert_eq!(n, NavTarget { row: -1, col: 0, created_row: false });
}

#[test]
fn navigate_down_appends_row_at_end() {
    let t = sample_table();
    let n = t.navigate(0, 1, NavDirection::Down);
    assert_eq!(n, NavTarget { row: 1, col: 1, created_row: true });
}

#[test]
fn navigate_down_from_header_lands_in_body() {
    let t = sample_table();
    let n = t.navigate(-1, 0, NavDirection::Down);
    assert_eq!(n, NavTarget { row: 0, col: 0, created_row: false });
}

#[test]
fn navigate_up_from_first_body_lands_in_header() {
    let t = sample_table();
    let n = t.navigate(0, 1, NavDirection::Up);
    assert_eq!(n, NavTarget { row: -1, col: 1, created_row: false });
}

#[test]
fn navigate_handles_empty_body() {
    let t = MarkdownTable { rows: vec![], ..sample_table() };
    let n = t.navigate(-1, 1, NavDirection::Next);
    assert_eq!(n, NavTarget { row: 0, col: 0, created_row: true });
}

fn rows_with(values: &[&[&str]]) -> Vec<Vec<Cell>> {
    values
        .iter()
        .map(|row| {
            row.iter()
                .map(|c| Cell { source_range: 0..0, content: (*c).to_string(), leading_ws: 1, trailing_ws: 1 })
                .collect()
        })
        .collect()
}

#[test]
fn sort_rows_numeric_column_uses_numeric_order() {
    let rows = rows_with(&[&["x", "2"], &["y", "10"], &["z", "1"]]);
    let sorted = sort(rows, 1, SortDirection::Ascending);
    assert_eq!(sorted[0][1].content, "1");
    assert_eq!(sorted[1][1].content, "2");
    assert_eq!(sorted[2][1].content, "10");
}

#[test]
fn sort_rows_text_column_uses_case_insensitive_order() {
    let rows = rows_with(&[&["Banana"], &["apple"], &["Cherry"]]);
    let sorted = sort(rows, 0, SortDirection::Ascending);
    assert_eq!(sorted[0][0].content, "apple");
    assert_eq!(sorted[1][0].content, "Banana");
    assert_eq!(sorted[2][0].content, "Cherry");
}

#[test]
fn sort_rows_descending() {
    let rows = rows_with(&[&["a"], &["c"], &["b"]]);
    let sorted = sort(rows, 0, SortDirection::Descending);
    assert_eq!(sorted[0][0].content, "c");
    assert_eq!(sorted[1][0].content, "b");
    assert_eq!(sorted[2][0].content, "a");
}

#[test]
fn sort_rows_none_is_identity() {
    let rows = rows_with(&[&["b"], &["a"], &["c"]]);
    let sorted = sort(rows.clone(), 0, SortDirection::Unsorted);
    for (orig, after) in rows.iter().zip(sorted.iter()) {
        assert_eq!(orig[0].content, after[0].content);
    }
}

#[test]
fn sort_rows_empty_cells_go_last() {
    let rows = rows_with(&[&["b"], &[""], &["a"]]);
    let sorted = sort(rows, 0, SortDirection::Ascending);
    assert_eq!(sorted[0][0].content, "a");
    assert_eq!(sorted[1][0].content, "b");
    assert_eq!(sorted[2][0].content, "");
    let rows = rows_with(&[&["b"], &[""], &["a"]]);
    let sorted = sort(rows, 0, SortDirection::Descending);
    assert_eq!(sorted[0][0].content, "b");
    assert_eq!(sorted[1][0].content, "a");
    assert_eq!(sorted[2][0].content, "");
}

#[test]
fn sort_rows_mixed_numeric_and_text_uses_text_order() {
    let rows = rows_with(&[&["abc"], &["2"], &["10"]]);
    let sorted = sort(rows, 0, SortDirection::Ascending);
    assert_eq!(sorted[0][0].content, "10");
    assert_eq!(sorted[1][0].content, "2");
    assert_eq!(sorted[2][0].content, "abc");
}

#[test]
fn sort_rows_is_stable_for_ties() {
    let rows = rows_with(&[&["a", "first"], &["a", "second"], &["a", "third"]]);
    let sorted = sort(rows, 0, SortDirection::Ascending);
    assert_eq!(sorted[0][1].content, "first");
    assert_eq!(sorted[1][1].content, "second");
    assert_eq!(sorted[2][1].content, "third");
}

#[test]
fn sort_rows_handles_negative_and_float_numerics() {
    let rows = rows_with(&[&["-3"], &["1.5"], &["0"], &["-0.5"]]);
    let sorted = sort(rows, 0, SortDirection::Ascending);
    assert_eq!(sorted[0][0].content, "-3");
    assert_eq!(sorted[1][0].content, "-0.5");
    assert_eq!(sorted[2][0].content, "0");
    assert_eq!(sorted[3][0].content, "1.5");
}

#[test]
fn is_numeric_column_skips_empty_cells() {
    let rows = rows_with(&[&["2"], &[""], &["10"]]);
    assert!(is_numeric_column(&rows, 0));
}

#[test]
fn is_numeric_column_false_for_mixed() {
    let rows = rows_with(&[&["2"], &["abc"], &["10"]]);
    assert!(!is_numeric_column(&rows, 0));
}

#[test]
fn is_numeric_column_false_for_all_empty() {
    let rows = rows_with(&[&[""], &[""], &[""]]);
    assert!(!is_numeric_column(&rows, 0));
}

#[test]
fn navigate_single_column_table() {
    let t = MarkdownTable {
        alignments: vec![Alignment::Unaligned],
        headers: vec![Cell { source_range: 1..3, content: "a".into(), leading_ws: 1, trailing_ws: 1 }],
        rows: vec![vec![Cell { source_range: 6..8, content: "1".into(), leading_ws: 1, trailing_ws: 1 }]],
        ..sample_table()
    };
    let n = t.navigate(-1, 0, NavDirection::Next);
    assert_eq!(n.row, 0);
    assert_eq!(n.col, 0);
    let n = t.navigate(0, 0, NavDirection::Next);
    assert!(n.created_row);
}

#[test]
fn float_text_accepts_rust_float_syntax() {
    for ok in ["1", "-0.5", "+3.", ".5", "1e10", "2.5E-3", "inf", "-Infinity", "NaN"] {
        let v: Vec<char> = ok.chars().collect();
        assert!(is_float_text(&v), "{ok}");
        assert!(ok.parse::<f64>().is_ok());
    }
    for bad in ["", ".", "e5", "1e", "1.2.3", "abc", "--1", "0x10"] {
        let v: Vec<char> = bad.chars().collect();
        assert!(!is_float_text(&v), "{bad}");
        assert!(bad.parse::<f64>().is_err());
    }
}

#[test]
fn cell_mut_edits_in_place() {
    let mut t = sample_table();
    t.cell_mut(0, 1).unwrap().content = "9".into();
    assert_eq!(t.rows[0][1].content, "9");
    assert!(matches!(t.cell_mut(-1, 5), Err(TableError::CellOutOfRange { row: -1, col: 5 })));
}
