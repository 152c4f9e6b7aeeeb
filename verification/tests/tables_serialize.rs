use rendermd_core::tables::model::{Alignment, MarkdownTable, TableError, TableStyle};
use rendermd_core::tables::parse::parse_tables;
use rendermd_core::tables::serialize::{
    build_column_widths_comment, escape_cell, to_gfm_compact, to_gfm_preserve, to_gfm_pretty,
};
fn round_trip_preserve(src: &str) -> String {
    let tables = parse_tables(src);
    let t = &tables[0];
    to_gfm_preserve(t, src)
}

#[test]
fn preserve_round_trips_compact_unchanged() {
    let src = "| a | b |\n|---|---|\n| 1 | 2 |\n";
    let out = round_trip_preserve(src);
    // Trailing newline differences are acceptable; compare trimmed.
    assert_eq!(out.trim_end(), src.trim_end());
}

#[test]
fn preserve_round_trips_padded_unchanged() {
    let src = "| name  | score |\n|-------|------:|\n| Alice |    42 |\n";
    let out = round_trip_preserve(src);
    assert_eq!(out.trim_end(), src.trim_end());
}

#[test]
fn pretty_emits_aligned_columns() {
    let mut tables = parse_tables("| a | name |\n|---|------|\n| x | longer |\n");
    let t = &mut tables[0];
    t.style = TableStyle::Pretty;
    let out = to_gfm_pretty(t);
    // Header and body row should agree on column widths.
    let lines: Vec<&str> = out.lines().collect();
    let header_pipes: Vec<usize> = lines[0].match_indices('|').map(|(i, _)| i).collect();
    let body_pipes: Vec<usize> = lines[2].match_indices('|').map(|(i, _)| i).collect();
    assert_eq!(header_pipes, body_pipes);
}

#[test]
fn compact_uses_single_space_padding() {
    let mut tables = parse_tables("| name | score |\n|------|-------|\n| Alice | 42 |\n");
    let t = &mut tables[0];
    t.style = TableStyle::Compact;
    let out = to_gfm_compact(t);
    assert!(out.starts_with("| name |"));
    assert!(out.contains("| Alice |"));
}

#[test]
fn update_cell_preserve_keeps_unchanged_bytes_byte_identical() {
    let original =
        "| name  | score |\n|-------|------:|\n| Alice |    42 |\n| Bob   |    99 |\n";
    let mut buffer = String::from(original);
    let mut tables = parse_tables(&buffer);
    let t = &mut tables[0];

    // Edit body row 0 col 0: Alice → Alex (4 chars, fits existing width).
    let delta = t.update_cell(0, 0, "Alex", &mut buffer).unwrap();
    assert_eq!(delta.byte_delta, 0); // no width change

    // Header and unrelated body row should be byte-identical to original.
    assert!(buffer.contains("| name  | score |"));
    assert!(buffer.contains("| Bob   |    99 |"));
    // Edited cell shows "Alex" with preserved padding.
    assert!(buffer.contains("| Alex  |"));
}

#[test]
fn update_cell_preserve_grows_width_when_content_longer() {
    let original = "| name  |\n|-------|\n| Alice |\n";
    let mut buffer = String::from(original);
    let mut tables = parse_tables(&buffer);
    let t = &mut tables[0];

    let delta = t.update_cell(0, 0, "Alexandra", &mut buffer).unwrap();
    assert!(delta.byte_delta > 0);
    assert!(buffer.contains("Alexandra"));
    // Cell source range must reflect the new length.
    let cell = t.cell(0, 0).unwrap();
    assert_eq!(&buffer[cell.source_range.clone()].trim(), &"Alexandra");
}

#[test]
fn update_cell_preserve_grow_keeps_column_pipes_aligned() {
    // Before: pipes line up at fixed positions. After: a long
    // edit should re-pad neighbours so pipes still line up,
    // not leave the edited cell wider than its column siblings.
    let mut buffer = String::from("| a | b |\n|---|---|\n| 1 | 2 |\n| 3 | 4 |\n");
    let mut tables = parse_tables(&buffer);
    let t = &mut tables[0];
    t.update_cell(0, 0, "much longer cell", &mut buffer)
        .unwrap();

    let lines: Vec<&str> = buffer.lines().collect();
    // All four lines should have pipes at the same column positions.
    let header_pipes: Vec<usize> = lines[0].match_indices('|').map(|(i, _)| i).collect();
    for line in &lines[1..] {
        let pipes: Vec<usize> = line.match_indices('|').map(|(i, _)| i).collect();
        assert_eq!(
            pipes, header_pipes,
            "pipe positions drifted on line: {line}"
        );
    }
}

#[test]
fn update_cell_pretty_re_aligns_columns() {
    let mut buffer = String::from("| a | name |\n|---|------|\n| x | y |\n");
    let mut tables = parse_tables(&buffer);
    let t = &mut tables[0];
    t.style = TableStyle::Pretty;
    t.original_lines = None;

    t.update_cell(0, 1, "longer", &mut buffer).unwrap();
    let lines: Vec<&str> = buffer.lines().collect();
    assert!(lines[2].contains("longer"));
    // Header line should be at least as long as body line.
    assert!(lines[0].len() >= lines[2].len() - 1);
}

#[test]
fn update_cell_escapes_pipes() {
    let mut buffer = String::from("| a |\n|---|\n| x |\n");
    let mut tables = parse_tables(&buffer);
    let t = &mut tables[0];

    t.update_cell(0, 0, "foo | bar", &mut buffer).unwrap();
    assert!(buffer.contains("foo \\| bar"));
}

#[test]
fn update_cell_handles_multiline_via_br() {
    let mut buffer = String::from("| a |\n|---|\n| x |\n");
    let mut tables = parse_tables(&buffer);
    let t = &mut tables[0];

    t.update_cell(0, 0, "line1\nline2", &mut buffer).unwrap();
    assert!(buffer.contains("line1<br>line2"));
}

#[test]
fn update_cell_out_of_range_errors_without_buffer_change() {
    let mut buffer = String::from("| a |\n|---|\n| x |\n");
    let before = buffer.clone();
    let mut tables = parse_tables(&buffer);
    let t = &mut tables[0];

    let err = t.update_cell(99, 0, "x", &mut buffer).unwrap_err();
    assert!(matches!(err, TableError::CellOutOfRange { .. }));
    assert_eq!(buffer, before);
}

#[test]
fn shift_after_runs_on_in_place_edit() {
    let mut buffer = String::from("| a |\n|---|\n| short |\n");
    let mut tables = parse_tables(&buffer);
    let t = &mut tables[0];
    let original_end = t.source_range.end;

    t.update_cell(0, 0, "much longer text", &mut buffer)
        .unwrap();
    assert!(t.source_range.end > original_end);
}

#[test]
fn escape_cell_idempotent_for_safe_content() {
    assert_eq!(escape_cell("foo bar"), "foo bar");
    assert_eq!(escape_cell("**bold**"), "**bold**");
}

#[test]
fn escape_cell_handles_backslash_before_pipe() {
    // \ -> \\ first, then | -> \| → original literal backslash stays
    // distinguishable from an escape sequence.
    assert_eq!(escape_cell("a\\|b"), "a\\\\\\|b");
}

#[test]
fn insert_empty_row_appends_at_end() {
    let mut buffer = String::from("| a | b |\n|---|---|\n| 1 | 2 |\n");
    let mut tables = parse_tables(&buffer);
    let t = &mut tables[0];
    let before_rows = t.rows.len();
    let delta = t.insert_empty_row(before_rows, &mut buffer).unwrap();
    assert_eq!(t.rows.len(), before_rows + 1);
    assert!(delta.byte_delta > 0);
    // Buffer now has a new blank row line.
    assert!(buffer.matches('\n').count() >= 4);
}

#[test]
fn insert_empty_row_at_middle_position() {
    let mut buffer = String::from("| a |\n|---|\n| 1 |\n| 2 |\n");
    let mut tables = parse_tables(&buffer);
    let t = &mut tables[0];
    t.insert_empty_row(1, &mut buffer).unwrap();
    assert_eq!(t.rows.len(), 3);
    // The inserted row is at index 1 → empty.
    assert!(t.rows[1].iter().all(|c| c.content.is_empty()));
    // Surrounding rows are intact.
    assert_eq!(t.rows[0][0].content, "1");
    assert_eq!(t.rows[2][0].content, "2");
}

#[test]
fn insert_empty_row_in_preserve_table_recaptures_original_lines() {
    let original = "| name  | score |\n|-------|------:|\n| Alice |    42 |\n";
    let mut buffer = String::from(original);
    let mut tables = parse_tables(&buffer);
    let t = &mut tables[0];
    assert_eq!(t.style, TableStyle::PreserveOriginal);

    t.insert_empty_row(1, &mut buffer).unwrap();
    assert_eq!(t.rows.len(), 2);
    // Style stays PreserveOriginal even though we re-serialised
    // through Pretty for the emit.
    assert_eq!(t.style, TableStyle::PreserveOriginal);
    // original_lines re-captured against the new source.
    assert!(t.original_lines.is_some());
    // Subsequent cell edit should still work in PreserveOriginal mode.
    t.update_cell(1, 0, "Bob", &mut buffer).unwrap();
    assert!(buffer.contains("Bob"));
}

#[test]
fn insert_empty_row_out_of_range_errors() {
    let mut buffer = String::from("| a |\n|---|\n| 1 |\n");
    let mut tables = parse_tables(&buffer);
    let t = &mut tables[0];
    let err = t.insert_empty_row(99, &mut buffer).unwrap_err();
    assert!(matches!(err, TableError::CellOutOfRange { .. }));
}

#[test]
fn delete_row_removes_target() {
    let mut buffer = String::from("| a |\n|---|\n| 1 |\n| 2 |\n| 3 |\n");
    let mut tables = parse_tables(&buffer);
    let t = &mut tables[0];
    t.delete_row(1, &mut buffer).unwrap();
    assert_eq!(t.rows.len(), 2);
    assert_eq!(t.rows[0][0].content, "1");
    assert_eq!(t.rows[1][0].content, "3");
}

#[test]
fn delete_last_row_leaves_header_only_table() {
    let mut buffer = String::from("| a |\n|---|\n| 1 |\n");
    let mut tables = parse_tables(&buffer);
    let t = &mut tables[0];
    t.delete_row(0, &mut buffer).unwrap();
    assert_eq!(t.rows.len(), 0);
    assert!(buffer.contains("| a |") || buffer.contains("|a|") || buffer.contains("| a"));
}

#[test]
fn delete_row_out_of_range_errors() {
    let mut buffer = String::from("| a |\n|---|\n| 1 |\n");
    let mut tables = parse_tables(&buffer);
    let t = &mut tables[0];
    assert!(matches!(
        t.delete_row(5, &mut buffer).unwrap_err(),
        TableError::CellOutOfRange { .. }
    ));
}

#[test]
fn insert_column_at_end_adds_to_header_and_body() {
    let mut buffer = String::from("| a | b |\n|---|---|\n| 1 | 2 |\n");
    let mut tables = parse_tables(&buffer);
    let t = &mut tables[0];
    t.insert_column(2, Alignment::Unaligned, &mut buffer).unwrap();
    assert_eq!(t.alignments.len(), 3);
    assert_eq!(t.headers.len(), 3);
    assert_eq!(t.rows[0].len(), 3);
    assert!(t.headers[2].content.is_empty());
}

#[test]
fn insert_column_at_start_shifts_existing_cells_right() {
    let mut buffer = String::from("| a | b |\n|---|---|\n| 1 | 2 |\n");
    let mut tables = parse_tables(&buffer);
    let t = &mut tables[0];
    t.insert_column(0, Alignment::Unaligned, &mut buffer).unwrap();
    assert_eq!(t.headers[0].content, "");
    assert_eq!(t.headers[1].content, "a");
    assert_eq!(t.rows[0][1].content, "1");
}

#[test]
fn insert_column_with_alignment_preserved_in_separator() {
    let mut buffer = String::from("| a |\n|---|\n| 1 |\n");
    let mut tables = parse_tables(&buffer);
    let t = &mut tables[0];
    t.insert_column(1, Alignment::Right, &mut buffer).unwrap();
    // Right alignment renders the separator with a trailing colon.
    assert!(buffer.contains("-:"), "buffer: {buffer}");
}

#[test]
fn delete_column_removes_from_header_and_body() {
    let mut buffer = String::from("| a | b | c |\n|---|---|---|\n| 1 | 2 | 3 |\n");
    let mut tables = parse_tables(&buffer);
    let t = &mut tables[0];
    t.delete_column(1, &mut buffer).unwrap();
    assert_eq!(t.headers.len(), 2);
    assert_eq!(t.headers[0].content, "a");
    assert_eq!(t.headers[1].content, "c");
    assert_eq!(t.rows[0].len(), 2);
    assert_eq!(t.rows[0][1].content, "3");
}

#[test]
fn delete_only_column_refused() {
    let mut buffer = String::from("| a |\n|---|\n| 1 |\n");
    let mut tables = parse_tables(&buffer);
    let t = &mut tables[0];
    let err = t.delete_column(0, &mut buffer).unwrap_err();
    assert!(matches!(err, TableError::InvalidStructure(_)));
    // Table unchanged.
    assert_eq!(t.headers.len(), 1);
}

#[test]
fn delete_column_out_of_range_errors() {
    let mut buffer = String::from("| a | b |\n|---|---|\n| 1 | 2 |\n");
    let mut tables = parse_tables(&buffer);
    let t = &mut tables[0];
    let err = t.delete_column(99, &mut buffer).unwrap_err();
    assert!(matches!(err, TableError::CellOutOfRange { .. }));
}

#[test]
fn structural_op_preserves_preserve_original_style() {
    let mut buffer = String::from("| name  | score |\n|-------|------:|\n| Alice |    42 |\n");
    let mut tables = parse_tables(&buffer);
    let t = &mut tables[0];
    assert_eq!(t.style, TableStyle::PreserveOriginal);
    t.insert_column(2, Alignment::Unaligned, &mut buffer).unwrap();
    assert_eq!(t.style, TableStyle::PreserveOriginal);
    // original_lines re-captured against the new source.
    assert!(t.original_lines.is_some());
    // Per-cell edit still works in PreserveOriginal mode.
    t.update_cell(0, 0, "Bob", &mut buffer).unwrap();
    assert!(buffer.contains("Bob"));
}

#[test]
fn reformat_pretty_aligns_columns_from_compact_source() {
    let original = "| a | name |\n|---|------|\n| x | longer cell |\n";
    let mut buffer = String::from(original);
    let mut tables = parse_tables(&buffer);
    let t = &mut tables[0];
    t.reformat_pretty(&mut buffer).unwrap();
    // After reformat, header and body row should align pipe positions.
    let lines: Vec<&str> = buffer.lines().collect();
    let head_pipes: Vec<usize> = lines[0].match_indices('|').map(|(i, _)| i).collect();
    let body_pipes: Vec<usize> = lines[2].match_indices('|').map(|(i, _)| i).collect();
    assert_eq!(head_pipes, body_pipes);
}

#[test]
fn reformat_pretty_leaves_style_in_preserve_mode() {
    let mut buffer = String::from("| a | b |\n|---|---|\n| 1 | 2 |\n");
    let mut tables = parse_tables(&buffer);
    let t = &mut tables[0];
    assert_eq!(t.style, TableStyle::PreserveOriginal);
    t.reformat_pretty(&mut buffer).unwrap();
    assert_eq!(t.style, TableStyle::PreserveOriginal);
    // original_lines re-captured from the new (pretty) source.
    assert!(t.original_lines.is_some());
}

#[test]
fn reformat_pretty_then_cell_edit_is_minimum_diff() {
    let mut buffer = String::from("| a | name |\n|---|------|\n| x | y |\n");
    let mut tables = parse_tables(&buffer);
    let t = &mut tables[0];
    t.reformat_pretty(&mut buffer).unwrap();
    // After reformat, an in-place cell edit shouldn't disturb other cells.
    let before = buffer.clone();
    t.update_cell(0, 0, "z", &mut buffer).unwrap();
    // The unchanged cells (e.g., header) should be byte-identical.
    let header_line_before = before.lines().next().unwrap();
    let header_line_after = buffer.lines().next().unwrap();
    assert_eq!(header_line_before, header_line_after);
}

#[test]
fn reformat_pretty_normalises_alignment_separator() {
    // Three-dash separator → pretty re-emit should still encode
    // alignment correctly even when widths grow.
    let mut buffer = String::from("| name | score |\n|:--|--:|\n| Alice | 42 |\n");
    let mut tables = parse_tables(&buffer);
    let t = &mut tables[0];
    t.reformat_pretty(&mut buffer).unwrap();
    // Left alignment: starting colon. Right alignment: trailing colon.
    assert!(buffer.contains(":-"), "buffer: {buffer}");
    assert!(buffer.contains("-:"), "buffer: {buffer}");
}

#[test]
fn reformat_pretty_idempotent_on_already_pretty() {
    let mut buffer = String::from("| name  | score |\n|-------|-------|\n| Alice |    42 |\n");
    let mut tables = parse_tables(&buffer);
    let t = &mut tables[0];
    let first = buffer.clone();
    t.reformat_pretty(&mut buffer).unwrap();
    let after_first = buffer.clone();
    // Second reformat should produce identical bytes.
    let mut tables2 = parse_tables(&buffer);
    tables2[0].reformat_pretty(&mut buffer).unwrap();
    assert_eq!(buffer, after_first);
    let _ = first;
}

#[test]
fn reformat_pretty_empty_columns_errors() {
    // Build a degenerate table by hand — parser won't produce
    // alignments.len() == 0, but the function should refuse anyway.
    let mut table = MarkdownTable {
        id: 1,
        source_range: 0..0,
        alignments: vec![],
        headers: vec![],
        rows: vec![],
        style: TableStyle::PreserveOriginal,
        column_widths: vec![],
        original_lines: None,
        sort_indicator: None,
    };
    let mut buf = String::new();
    let err = table.reformat_pretty(&mut buf).unwrap_err();
    assert!(matches!(err, TableError::InvalidStructure(_)));
}

#[test]
fn set_column_alignment_updates_alignments() {
    let mut buffer = String::from("| a | b |\n|---|---|\n| 1 | 2 |\n");
    let mut tables = parse_tables(&buffer);
    let t = &mut tables[0];
    t.set_column_alignment(1, Alignment::Center, &mut buffer)
        .unwrap();
    assert_eq!(t.alignments[1], Alignment::Center);
    assert!(buffer.contains(":-:") || buffer.contains(":---:"));
}

#[test]
fn set_column_alignment_renders_left_separator() {
    let mut buffer = String::from("| a |\n|---|\n| 1 |\n");
    let mut tables = parse_tables(&buffer);
    let t = &mut tables[0];
    t.set_column_alignment(0, Alignment::Left, &mut buffer)
        .unwrap();
    assert!(buffer.contains(":-"), "buffer: {buffer}");
}

#[test]
fn set_column_alignment_renders_right_separator() {
    let mut buffer = String::from("| a |\n|---|\n| 1 |\n");
    let mut tables = parse_tables(&buffer);
    let t = &mut tables[0];
    t.set_column_alignment(0, Alignment::Right, &mut buffer)
        .unwrap();
    assert!(buffer.contains("-:"), "buffer: {buffer}");
}

#[test]
fn set_column_alignment_no_op_returns_empty_range() {
    let mut buffer = String::from("| a |\n|---|\n| 1 |\n");
    let buffer_before = buffer.clone();
    let mut tables = parse_tables(&buffer);
    let t = &mut tables[0];
    // Column already has Alignment::Unaligned.
    let delta = t
        .set_column_alignment(0, Alignment::Unaligned, &mut buffer)
        .unwrap();
    assert!(delta.patched_range.is_empty());
    assert_eq!(delta.byte_delta, 0);
    // Buffer untouched.
    assert_eq!(buffer, buffer_before);
}

#[test]
fn set_column_alignment_out_of_range_errors() {
    let mut buffer = String::from("| a |\n|---|\n| 1 |\n");
    let mut tables = parse_tables(&buffer);
    let t = &mut tables[0];
    let err = t
        .set_column_alignment(5, Alignment::Center, &mut buffer)
        .unwrap_err();
    assert!(matches!(err, TableError::CellOutOfRange { .. }));
}

#[test]
fn set_column_alignment_preserves_preserve_original_style() {
    let original = "| name  | score |\n|-------|-------|\n| Alice |    42 |\n";
    let mut buffer = String::from(original);
    let mut tables = parse_tables(&buffer);
    let t = &mut tables[0];
    assert_eq!(t.style, TableStyle::PreserveOriginal);
    t.set_column_alignment(1, Alignment::Right, &mut buffer)
        .unwrap();
    assert_eq!(t.style, TableStyle::PreserveOriginal);
    assert!(t.original_lines.is_some());
    // Subsequent per-cell edits still patch in place.
    t.update_cell(0, 0, "Bob", &mut buffer).unwrap();
    assert!(buffer.contains("Bob"));
}

#[test]
fn insert_column_pads_short_rows() {
    // Hand-crafted: parser never produces ragged rows but model
    // could after a sequence of edits. Defensive.
    let mut buffer = String::from("| a | b |\n|---|---|\n| 1 | 2 |\n");
    let mut tables = parse_tables(&buffer);
    let t = &mut tables[0];
    // Artificially make a row short to exercise the padding path.
    t.rows[0].pop();
    t.insert_column(2, Alignment::Unaligned, &mut buffer).unwrap();
    assert_eq!(t.rows[0].len(), 3);
}

#[test]
fn set_column_widths_emits_comment() {
    let mut buffer = String::from("| a | b |\n|---|---|\n| 1 | 2 |\n");
    let mut tables = parse_tables(&buffer);
    let t = &mut tables[0];
    t.set_column_widths(vec![Some(180), None], &mut buffer)
        .unwrap();
    // Persistence comment now sits above the table.
    assert!(
        buffer.starts_with("<!-- rmd-cols: 180, -->\n"),
        "got: {buffer}"
    );
    // Re-parse should round-trip.
    let parsed = parse_tables(&buffer);
    assert_eq!(parsed[0].column_widths, vec![Some(180), None]);
}

#[test]
fn set_column_widths_all_none_drops_comment() {
    // Pre-existing comment, then set widths to all-None — the
    // emit should not include the comment anymore.
    let mut buffer =
        String::from("<!-- rmd-cols: 100,200 -->\n| a | b |\n|---|---|\n| 1 | 2 |\n");
    let mut tables = parse_tables(&buffer);
    assert_eq!(tables[0].column_widths, vec![Some(100), Some(200)]);
    let t = &mut tables[0];
    t.set_column_widths(vec![None, None], &mut buffer).unwrap();
    assert!(
        !buffer.contains("rmd-cols"),
        "comment was not removed: {buffer}"
    );
}

#[test]
fn set_column_widths_wrong_count_errors() {
    let mut buffer = String::from("| a | b |\n|---|---|\n| 1 | 2 |\n");
    let mut tables = parse_tables(&buffer);
    let t = &mut tables[0];
    let err = t
        .set_column_widths(vec![Some(100), Some(200), Some(300)], &mut buffer)
        .unwrap_err();
    assert!(matches!(err, TableError::InvalidStructure(_)));
}

#[test]
fn set_column_widths_preserves_preserve_original_mode() {
    let original = "| name  | score |\n|-------|------:|\n| Alice |    42 |\n";
    let mut buffer = String::from(original);
    let mut tables = parse_tables(&buffer);
    let t = &mut tables[0];
    assert_eq!(t.style, TableStyle::PreserveOriginal);
    t.set_column_widths(vec![Some(120), None], &mut buffer)
        .unwrap();
    assert_eq!(t.style, TableStyle::PreserveOriginal);
    // Cell edits still work surgically after widths are set.
    t.update_cell(0, 0, "Bob", &mut buffer).unwrap();
    assert!(buffer.contains("Bob"));
    assert!(buffer.contains("rmd-cols"));
}

#[test]
fn column_widths_survive_insert_column() {
    let mut buffer =
        String::from("<!-- rmd-cols: 100,200 -->\n| a | b |\n|---|---|\n| 1 | 2 |\n");
    let mut tables = parse_tables(&buffer);
    let t = &mut tables[0];
    t.insert_column(1, Alignment::Unaligned, &mut buffer).unwrap();
    // Existing widths preserved; the inserted column slot is None.
    assert_eq!(t.column_widths, vec![Some(100), None, Some(200)]);
    // Re-parse confirms the same values came back out.
    let parsed = parse_tables(&buffer);
    assert_eq!(parsed[0].column_widths, vec![Some(100), None, Some(200)]);
}

#[test]
fn column_widths_survive_delete_column() {
    let mut buffer = String::from(
        "<!-- rmd-cols: 100,200,300 -->\n| a | b | c |\n|---|---|---|\n| 1 | 2 | 3 |\n",
    );
    let mut tables = parse_tables(&buffer);
    let t = &mut tables[0];
    t.delete_column(1, &mut buffer).unwrap();
    assert_eq!(t.column_widths, vec![Some(100), Some(300)]);
    let parsed = parse_tables(&buffer);
    assert_eq!(parsed[0].column_widths, vec![Some(100), Some(300)]);
}

#[test]
fn column_widths_survive_cell_edit_in_preserve_mode() {
    let mut buffer =
        String::from("<!-- rmd-cols: 100,200 -->\n| a | b |\n|---|---|\n| 1 | 2 |\n");
    let mut tables = parse_tables(&buffer);
    let t = &mut tables[0];
    t.update_cell(0, 0, "z", &mut buffer).unwrap();
    // Comment still sits above the table after a surgical edit.
    assert!(buffer.starts_with("<!-- rmd-cols: 100,200 -->\n"));
}

#[test]
fn build_column_widths_comment_format() {
    assert_eq!(
        build_column_widths_comment(&[Some(180), None, Some(120)]),
        Some("<!-- rmd-cols: 180,,120 -->".to_string())
    );
    assert_eq!(build_column_widths_comment(&[None, None]), None);
    assert_eq!(
        build_column_widths_comment(&[Some(50)]),
        Some("<!-- rmd-cols: 50 -->".to_string())
    );
}

#[test]
fn delete_column_below_a_short_header_row() {
    let mut buffer = String::from("| a | b | c |\n|---|---|---|\n| 1 | 2 | 3 |\n");
    let mut t = parse_tables(&buffer).remove(0);
    t.headers.pop();
    t.delete_column(0, &mut buffer).unwrap();
    assert_eq!(t.alignments.len(), 2);
    assert_eq!(t.headers.len(), 1);
    assert_eq!(t.headers[0].content, "b");
    assert_eq!(t.rows[0].len(), 2);
    assert_eq!(t.rows[0][0].content, "2");
    assert_eq!(t.rows[0][1].content, "3");
}

#[test]
fn insert_column_into_a_short_header_row() {
    let mut buffer = String::from("| a | b | c |\n|---|---|---|\n| 1 | 2 | 3 |\n");
    let mut t = parse_tables(&buffer).remove(0);
    t.headers.pop();
    t.insert_column(1, Alignment::Unaligned, &mut buffer).unwrap();
    assert_eq!(t.alignments.len(), 4);
    assert_eq!(t.headers.len(), 3);
    assert_eq!(t.headers[0].content, "a");
    assert_eq!(t.headers[1].content, "");
    assert_eq!(t.headers[2].content, "b");
    assert_eq!(t.rows[0][1].content, "");
    assert_eq!(t.rows[0][2].content, "2");
}
