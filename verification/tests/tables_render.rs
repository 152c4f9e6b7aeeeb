use rendermd_core::tables::parse::parse_tables;
use rendermd_core::tables::render::{inject_table_attrs, percent_encode};
#[test]
fn percent_encode_handles_simple_text() {
    assert_eq!(percent_encode("Alice"), "Alice");
    assert_eq!(percent_encode("a b"), "a%20b");
    assert_eq!(percent_encode("**bold**"), "%2A%2Abold%2A%2A");
}

#[test]
fn percent_encode_handles_pipe_and_backslash() {
    assert_eq!(percent_encode("foo | bar"), "foo%20%7C%20bar");
    assert_eq!(percent_encode("a\\|b"), "a%5C%7Cb");
}

#[test]
fn inject_no_tables_passes_through_unchanged() {
    let html = "<p>hello <strong>world</strong></p>";
    assert_eq!(inject_table_attrs(html, &[]), html);
}

#[test]
fn inject_adds_data_attrs_to_simple_table() {
    let src = "| a | b |\n|---|---|\n| 1 | 2 |\n";
    let tables = parse_tables(src);
    let html = "<table>\n<thead>\n<tr><th>a</th><th>b</th></tr>\n</thead>\n<tbody>\n<tr><td>1</td><td>2</td></tr>\n</tbody>\n</table>\n";
    let out = inject_table_attrs(html, &tables);
    assert!(out.contains(r#"data-table-id="1""#), "got: {out}");
    assert!(out.contains(r#"data-row="-1""#));
    assert!(out.contains(r#"data-row="0""#));
    assert!(out.contains(r#"data-col="0""#));
    assert!(out.contains(r#"data-col="1""#));
    assert!(out.contains(r#"class="rmd-cell""#));
    assert!(out.contains(r#"data-raw="a""#));
    assert!(out.contains(r#"data-raw="1""#));
}

#[test]
fn inject_preserves_cell_inner_html() {
    let src = "| **bold** | x |\n|---|---|\n| a | b |\n";
    let tables = parse_tables(src);
    let html = "<table><thead><tr><th><strong>bold</strong></th><th>x</th></tr></thead><tbody><tr><td>a</td><td>b</td></tr></tbody></table>";
    let out = inject_table_attrs(html, &tables);
    // Inner content untouched.
    assert!(out.contains("<strong>bold</strong>"));
    // Raw markdown source preserved in data-raw.
    assert!(out.contains("%2A%2Abold%2A%2A"));
}

#[test]
fn inject_handles_multiple_tables_with_separate_ids() {
    let src = "| a |\n|---|\n| 1 |\n\n| b |\n|---|\n| 2 |\n";
    let tables = parse_tables(src);
    let html = "<table><thead><tr><th>a</th></tr></thead><tbody><tr><td>1</td></tr></tbody></table>\n<table><thead><tr><th>b</th></tr></thead><tbody><tr><td>2</td></tr></tbody></table>";
    let out = inject_table_attrs(html, &tables);
    assert!(out.contains(r#"data-table-id="1""#));
    assert!(out.contains(r#"data-table-id="2""#));
    // Each table has its own row indexing.
    let first_table = out.split("</table>").next().unwrap();
    assert!(first_table.contains(r#"data-col="0""#));
}

#[test]
fn inject_uses_percent_encoding_compatible_with_js() {
    let src = "| **a** |\n|---|\n| 1 |\n";
    let tables = parse_tables(src);
    let html =
        "<table><thead><tr><th>a</th></tr></thead><tbody><tr><td>1</td></tr></tbody></table>";
    let out = inject_table_attrs(html, &tables);
    // The encoded `**a**` is %2A%2Aa%2A%2A — decodes via decodeURIComponent.
    assert!(out.contains("%2A%2Aa%2A%2A"));
}

#[test]
fn inject_does_not_break_when_html_has_more_tables_than_parsed() {
    // Defensive: extra `<table>` HTML the parser didn't see gets
    // no injection but doesn't break the scan for following text.
    let src = "| a |\n|---|\n| 1 |\n";
    let tables = parse_tables(src);
    assert_eq!(tables.len(), 1);
    let html = "<table><thead><tr><th>a</th></tr></thead><tbody><tr><td>1</td></tr></tbody></table>\n<table><tr><td>raw</td></tr></table>";
    let out = inject_table_attrs(html, &tables);
    // First table gets attrs.
    assert!(out.contains(r#"data-table-id="1""#));
    // The trailing raw table is left alone; no panic, no malformed
    // output, no data-table-id="2".
    assert!(!out.contains(r#"data-table-id="2""#));
    assert!(out.contains("<td>raw</td>"));
}

#[test]
fn injection_emits_data_align_from_separator_alignment() {
    let src = "| a | b | c |\n|:--|:-:|--:|\n| 1 | 2 | 3 |\n";
    let tables = parse_tables(src);
    let html = "<table><thead><tr><th>a</th><th>b</th><th>c</th></tr></thead><tbody><tr><td>1</td><td>2</td><td>3</td></tr></tbody></table>";
    let out = inject_table_attrs(html, &tables);
    assert!(out.contains(r#"data-align="left""#), "got: {out}");
    assert!(out.contains(r#"data-align="center""#));
    assert!(out.contains(r#"data-align="right""#));
}

#[test]
fn injection_defaults_data_align_to_none() {
    let src = "| a |\n|---|\n| 1 |\n";
    let tables = parse_tables(src);
    let html =
        "<table><thead><tr><th>a</th></tr></thead><tbody><tr><td>1</td></tr></tbody></table>";
    let out = inject_table_attrs(html, &tables);
    assert!(out.contains(r#"data-align="none""#));
}

#[test]
fn injection_adds_fixed_layout_class_when_widths_set() {
    let src = "<!-- rmd-cols: 180,120 -->\n| a | b |\n|---|---|\n| 1 | 2 |\n";
    let tables = parse_tables(src);
    assert_eq!(tables[0].column_widths, vec![Some(180), Some(120)]);
    let html = "<table><thead><tr><th>a</th><th>b</th></tr></thead><tbody><tr><td>1</td><td>2</td></tr></tbody></table>";
    let out = inject_table_attrs(html, &tables);
    assert!(
        out.contains(r#"<table class="rmd-table-fixed""#),
        "got: {out}"
    );
    // Header cells carry the inline width style.
    assert!(out.contains(r#"style="width: 180px""#));
    assert!(out.contains(r#"style="width: 120px""#));
    // Body cells do NOT (header row drives table-layout: fixed).
    let body_start = out.find("<tbody>").unwrap();
    assert!(!out[body_start..].contains("style=\"width:"));
}

#[test]
fn injection_no_width_class_when_all_widths_none() {
    let src = "| a | b |\n|---|---|\n| 1 | 2 |\n";
    let tables = parse_tables(src);
    let html = "<table><thead><tr><th>a</th><th>b</th></tr></thead><tbody><tr><td>1</td><td>2</td></tr></tbody></table>";
    let out = inject_table_attrs(html, &tables);
    assert!(!out.contains("rmd-table-fixed"));
    assert!(!out.contains("style=\"width:"));
}

#[test]
fn injection_partial_widths_paints_only_set_columns() {
    let src = "<!-- rmd-cols: 180,,90 -->\n| a | b | c |\n|---|---|---|\n| 1 | 2 | 3 |\n";
    let tables = parse_tables(src);
    let html = "<table><thead><tr><th>a</th><th>b</th><th>c</th></tr></thead><tbody><tr><td>1</td><td>2</td><td>3</td></tr></tbody></table>";
    let out = inject_table_attrs(html, &tables);
    assert!(out.contains(r#"<table class="rmd-table-fixed""#));
    assert!(out.contains(r#"style="width: 180px""#));
    assert!(out.contains(r#"style="width: 90px""#));
    // Middle column has no explicit width — no style attribute.
    // Find the second <th and verify it has no style=.
    let head = out.find("<thead>").unwrap();
    let body = out.find("<tbody>").unwrap();
    let head_slice = &out[head..body];
    // Count style= occurrences in the header — should be exactly 2.
    assert_eq!(
        head_slice.matches("style=").count(),
        2,
        "head: {head_slice}"
    );
}

#[test]
fn injection_round_trips_through_comrak_style_output() {
    // Smoke: pipe-encoded cells stay correctly encoded.
    let src = "| name | note |\n|------|------|\n| Alice | foo \\| bar |\n";
    let tables = parse_tables(src);
    let html = "<table><thead><tr><th>name</th><th>note</th></tr></thead><tbody><tr><td>Alice</td><td>foo | bar</td></tr></tbody></table>";
    let out = inject_table_attrs(html, &tables);
    // The cell's data-raw should contain the (escaped) form as
    // stored in the parsed model — pulldown-cmark keeps the
    // escaped backslash in the source content.
    // Cell content from the parser is `foo \| bar` (raw).
    assert!(out.contains("data-raw=\"foo%20%5C%7C%20bar\""));
}

#[test]
fn data_raw_is_the_cell_source_as_written() {
    let src = "| path |\n|------|\n| C:\\path |\n";
    let tables = parse_tables(src);
    assert_eq!(tables[0].rows[0][0].content, "C:\\path");
    let html = "<table><thead><tr><th>path</th></tr></thead><tbody><tr><td>C:\\path</td></tr></tbody></table>";
    let out = inject_table_attrs(html, &tables);
    assert!(out.contains(&format!("data-raw=\"{}\"", percent_encode("C:\\path"))), "{out}");
    assert!(out.contains("%5Cpath"));
    assert!(!out.contains("%5C%5C"));
}
