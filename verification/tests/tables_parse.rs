use rendermd_core::tables::model::{Alignment, TableStyle};
use rendermd_core::tables::parse::{
    capture_original_lines, cell_from_range, extract_column_widths_comment, is_rmd_cols_comment,
    is_separator_line, parse_tables, split_cells,
};

#[test]
fn parses_simple_table() {
    let src = "| a | b |\n|---|---|\n| 1 | 2 |\n";
    let tables = parse_tables(src);
    assert_eq!(tables.len(), 1);
    let t = &tables[0];
    assert_eq!(t.headers.len(), 2);
    assert_eq!(t.headers[0].content, "a");
    assert_eq!(t.headers[1].content, "b");
    assert_eq!(t.rows.len(), 1);
    assert_eq!(t.rows[0][0].content, "1");
    assert_eq!(t.rows[0][1].content, "2");
}

#[test]
fn parses_alignment_separator() {
    let src = "| a | b | c |\n|:--|:-:|--:|\n| 1 | 2 | 3 |\n";
    let tables = parse_tables(src);
    assert_eq!(tables[0].alignments, vec![Alignment::Left, Alignment::Center, Alignment::Right]);
}

#[test]
fn parsed_table_defaults_to_preserve_original() {
    let src = "| a | b |\n|---|---|\n| 1 | 2 |\n";
    let tables = parse_tables(src);
    assert_eq!(tables[0].style, TableStyle::PreserveOriginal);
    assert!(tables[0].original_lines.is_some());
    assert_eq!(tables[0].original_lines.as_ref().unwrap().len(), 3);
}

#[test]
fn cell_source_range_includes_padding() {
    let src = "|  name  | score |\n|--------|-------|\n|  Alice |  42   |\n";
    let tables = parse_tables(src);
    let header = &tables[0].headers[0];
    assert_eq!(&src[header.source_range.clone()], "  name  ");
    assert_eq!(header.leading_ws, 2);
    assert_eq!(header.trailing_ws, 2);
    assert_eq!(header.content, "name");
}

#[test]
fn parses_multiple_tables_with_separate_ids() {
    let src = "| a |\n|---|\n| 1 |\n\n| b |\n|---|\n| 2 |\n";
    let tables = parse_tables(src);
    assert_eq!(tables.len(), 2);
    assert_ne!(tables[0].id, tables[1].id);
    assert!(tables[0].source_range.end <= tables[1].source_range.start);
}

#[test]
fn split_cells_handles_escaped_pipes() {
    let line = "| foo \\| bar | baz |";
    let cells = split_cells(line);
    assert_eq!(cells.len(), 2);
    assert_eq!(&line[cells[0].clone()], " foo \\| bar ");
    assert_eq!(&line[cells[1].clone()], " baz ");
}

#[test]
fn is_separator_line_recognises_alignment_colons() {
    assert!(is_separator_line("|---|---|"));
    assert!(is_separator_line("|:---|---:|"));
    assert!(is_separator_line("| :---: | :---: |"));
    assert!(!is_separator_line("| a | b |"));
    assert!(!is_separator_line("|||"));
}

#[test]
fn cell_content_inline_markdown_preserved() {
    let src = "| **bold** | [link](x) |\n|---|---|\n| `code` | _em_ |\n";
    let t = &parse_tables(src)[0];
    assert_eq!(t.headers[0].content, "**bold**");
    assert_eq!(t.headers[1].content, "[link](x)");
    assert_eq!(t.rows[0][0].content, "`code`");
    assert_eq!(t.rows[0][1].content, "_em_");
}

#[test]
fn empty_cells_round_trip() {
    let src = "| a |  |\n|---|---|\n|   | b |\n";
    let t = &parse_tables(src)[0];
    assert_eq!(t.headers[0].content, "a");
    assert_eq!(t.headers[1].content, "");
    assert_eq!(t.rows[0][0].content, "");
    assert_eq!(t.rows[0][1].content, "b");
}

#[test]
fn parses_column_widths_comment() {
    let src = "<!-- rmd-cols: 180,,120 -->\n| a | b | c |\n|---|---|---|\n| 1 | 2 | 3 |\n";
    let t = &parse_tables(src)[0];
    assert_eq!(t.column_widths, vec![Some(180), None, Some(120)]);
    assert_eq!(t.source_range.start, 0);
    assert!(src[t.source_range.clone()].starts_with("<!-- rmd-cols:"));
}

#[test]
fn column_widths_comment_ignored_when_count_mismatches() {
    let src = "<!-- rmd-cols: 100,200,300 -->\n| a | b |\n|---|---|\n| 1 | 2 |\n";
    let t = &parse_tables(src)[0];
    assert_eq!(t.column_widths, vec![None, None]);
    assert_eq!(t.source_range.start, 0);
}

#[test]
fn column_widths_comment_missing_leaves_defaults() {
    let src = "| a | b |\n|---|---|\n| 1 | 2 |\n";
    let t = &parse_tables(src)[0];
    assert_eq!(t.column_widths, vec![None, None]);
    assert!(src[..t.source_range.start].is_empty());
}

#[test]
fn column_widths_comment_with_surrounding_text_not_bound() {
    let src = "foo <!-- rmd-cols: 10,20 -->\n| a | b |\n|---|---|\n| 1 | 2 |\n";
    let t = &parse_tables(src)[0];
    assert_eq!(t.column_widths, vec![None, None]);
}

#[test]
fn extract_column_widths_handles_extra_whitespace() {
    let src = "<!-- rmd-cols:  100, , 200  -->\n| a | b | c |\n|---|---|---|\n";
    let (widths, start) = extract_column_widths_comment(src, src.find("| a").unwrap()).unwrap();
    assert_eq!(widths, vec![Some(100), None, Some(200)]);
    assert_eq!(start, 0);
}

#[test]
fn split_cells_byte_offsets_after_multibyte_text() {
    let line = "| é | ✓ |";
    let cells = split_cells(line);
    assert_eq!(cells.len(), 2);
    assert_eq!(&line[cells[0].clone()], " é ");
    assert_eq!(&line[cells[1].clone()], " ✓ ");
}

#[test]
fn split_cells_double_backslash_does_not_escape_pipe() {
    let line = "| a \\\\| b |";
    let cells = split_cells(line);
    assert_eq!(cells.len(), 2);
    assert_eq!(&line[cells[0].clone()], " a \\\\");
}

#[test]
fn cols_comment_and_capture() {
    assert!(is_rmd_cols_comment("  <!-- rmd-cols: 1,2 -->  "));
    assert!(!is_rmd_cols_comment("<!-- other -->"));
    let lines = capture_original_lines("| a |\n\n|---|\n| 1 |\n| 2 |");
    assert_eq!(lines.len(), 4);
    assert_eq!(lines[3].raw, "| 2 |");
}

#[test]
fn cell_from_range_widens_over_padding() {
    let buf = "|\t x  |";
    let c = cell_from_range(buf, 3..4);
    assert_eq!(c.source_range, 1..6);
    assert_eq!(c.content, "x");
    assert_eq!(c.leading_ws, 2);
    assert_eq!(c.trailing_ws, 2);
}

#[test]
fn parse_tables_non_ascii_ranges() {
    let src = "Intro — ünïcode\n\n| naïve | 日本 |\n|---|---|\n| ✓ | x |\n";
    let tables = parse_tables(src);
    assert_eq!(tables.len(), 1);
    let t = &tables[0];
    assert_eq!(&src[t.headers[1].source_range.clone()].trim(), &"日本");
    assert_eq!(t.rows[0][0].content, "✓");
}

#[test]
fn split_cells_keeps_text_before_the_first_pipe() {
    assert_eq!(split_cells("a | b"), vec![0..2, 3..5]);
    assert_eq!(split_cells("| foo \\| bar | baz |"), vec![1..13, 14..19]);
    assert_eq!(split_cells("  | a |"), vec![3..6]);
    assert_eq!(split_cells("no pipes"), vec![]);
}
