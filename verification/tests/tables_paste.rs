use rendermd_core::tables::model::TableStyle;
use rendermd_core::tables::parse::parse_tables;
use rendermd_core::tables::paste::{detect_table_paste, html_table_to_gfm, paste_to_gfm, TablePaste};

#[test]
fn detects_tsv() {
    let text = "name\tscore\nAlice\t42\nBob\t99\n";
    match detect_table_paste(Some(text), None) {
        TablePaste::Tsv { rows, cols, .. } => {
            assert_eq!(rows, 3);
            assert_eq!(cols, 2);
        }
        other => panic!("expected TSV, got {other:?}"),
    }
}

#[test]
fn detects_csv() {
    let text = "name,score\nAlice,42\nBob,99\n";
    match detect_table_paste(Some(text), None) {
        TablePaste::Csv { rows, cols, .. } => {
            assert_eq!(rows, 3);
            assert_eq!(cols, 2);
        }
        other => panic!("expected CSV, got {other:?}"),
    }
}

#[test]
fn detects_csv_with_quoted_commas() {
    let text = "name,bio\nAlice,\"a, the first\"\nBob,b\n";
    let detected = detect_table_paste(Some(text), None);
    assert!(matches!(detected, TablePaste::Csv { .. }));
    let md = paste_to_gfm(&detected, TableStyle::Pretty).unwrap();
    assert!(md.contains("a, the first"));
}

#[test]
fn detects_gfm() {
    let text = "| a | b |\n|---|---|\n| 1 | 2 |\n";
    let detected = detect_table_paste(Some(text), None);
    assert!(matches!(detected, TablePaste::Gfm { .. }));
}

#[test]
fn detects_html_table_from_excel_style_paste() {
    let html = r#"<html><body><table border="0"><tr><td>a</td><td>b</td></tr><tr><td>1</td><td>2</td></tr></table></body></html>"#;
    let detected = detect_table_paste(None, Some(html));
    match detected {
        TablePaste::Html { rows, cols, .. } => {
            assert_eq!(rows, 2);
            assert_eq!(cols, 2);
        }
        other => panic!("expected HTML, got {other:?}"),
    }
}

#[test]
fn html_overrides_tsv_when_both_present() {
    let html = "<table><tr><td>X</td></tr></table>";
    let text = "ignored\ttext\nfallback\trow\n";
    let detected = detect_table_paste(Some(text), Some(html));
    assert!(matches!(detected, TablePaste::Html { .. }));
}

#[test]
fn plain_prose_returns_none() {
    let text = "this is just a paragraph of text\nwith multiple lines\nbut no table\n";
    let detected = detect_table_paste(Some(text), None);
    assert!(matches!(detected, TablePaste::NotTable));
}

#[test]
fn ragged_tsv_returns_none() {
    let text = "a\tb\tc\n1\t2\n3\t4\t5\n";
    assert!(matches!(detect_table_paste(Some(text), None), TablePaste::NotTable));
}

#[test]
fn tsv_to_gfm_produces_valid_table() {
    let text = "name\tscore\nAlice\t42\nBob\t99\n";
    let detected = detect_table_paste(Some(text), None);
    let md = paste_to_gfm(&detected, TableStyle::Pretty).unwrap();
    let parsed = parse_tables(&md);
    assert_eq!(parsed.len(), 1);
    assert_eq!(parsed[0].rows.len(), 2);
    assert_eq!(parsed[0].alignments.len(), 2);
}

#[test]
fn csv_with_pipe_in_cell_escapes_on_conversion() {
    let text = "name,note\nAlice,\"pipes | inside\"\n";
    let detected = detect_table_paste(Some(text), None);
    let md = paste_to_gfm(&detected, TableStyle::Pretty).unwrap();
    assert!(md.contains("pipes \\| inside"));
}

#[test]
fn html_cell_inline_markup_preserved() {
    let html = "<table><tr><th>name</th></tr><tr><td><b>Alice</b></td></tr></table>";
    let detected = detect_table_paste(None, Some(html));
    let md = paste_to_gfm(&detected, TableStyle::Pretty).unwrap();
    assert!(md.contains("**Alice**"), "got: {md}");
}

#[test]
fn html_cell_link_preserved() {
    let html = r#"<table><tr><th>name</th></tr><tr><td><a href="https://x.example">x</a></td></tr></table>"#;
    let detected = detect_table_paste(None, Some(html));
    let md = paste_to_gfm(&detected, TableStyle::Pretty).unwrap();
    assert!(md.contains("[x](https://x.example)"), "got: {md}");
}

#[test]
fn pretty_paste_output_has_aligned_columns() {
    let text = "short\tlong-header\nx\tyyyyyyyyy\n";
    let detected = detect_table_paste(Some(text), None);
    let md = paste_to_gfm(&detected, TableStyle::Pretty).unwrap();
    let lines: Vec<&str> = md.lines().collect();
    let header_pipes: Vec<usize> = lines[0].match_indices('|').map(|(i, _)| i).collect();
    let body_pipes: Vec<usize> = lines[2].match_indices('|').map(|(i, _)| i).collect();
    assert_eq!(header_pipes, body_pipes, "{md}");
}

#[test]
fn paste_shapes_and_trimmed_text() {
    let d = detect_table_paste(Some("\n\n| a | b | c |\n| :-- | --: | --- |\n\n| 1 | 2 | 3 |\n  "), None);
    assert_eq!(d.shape(), Some((3, 3)));
    match d {
        TablePaste::Gfm { text, .. } => assert!(text.starts_with("| a |") && text.ends_with("| 3 |")),
        other => panic!("expected GFM, got {other:?}"),
    }
    assert_eq!(detect_table_paste(Some("   \n\t"), None).shape(), None);
    assert_eq!(detect_table_paste(None, None).shape(), None);
    // A separator row needs a dash.
    assert!(matches!(detect_table_paste(Some("| a |\n| : |\n"), None), TablePaste::NotTable));
    // One field per line is no TSV, and one record no CSV.
    assert!(matches!(detect_table_paste(Some("a,b\n"), None), TablePaste::NotTable));
    assert!(matches!(detect_table_paste(Some("a,b\n1,2,3\n"), None), TablePaste::NotTable));
}

#[test]
fn html_table_shape_counts_first_row_cells() {
    let html = "<p>x</p><TABLE><TR><TH>a</TH><TH>b</TH><TH>c</TH></TR><tr><td>1</td></tr></TABLE>tail";
    match detect_table_paste(None, Some(html)) {
        TablePaste::Html { html, rows, cols } => {
            assert_eq!((rows, cols), (2, 3));
            assert_eq!(html, "<TABLE><TR><TH>a</TH><TH>b</TH><TH>c</TH></TR><tr><td>1</td></tr></TABLE>");
        }
        other => panic!("expected HTML, got {other:?}"),
    }
    assert!(matches!(detect_table_paste(None, Some("<table></table>")), TablePaste::NotTable));
}

#[test]
fn html_cells_translate_inline_tags_and_entities() {
    let html = "<table><tr><th>h</th><th>k</th></tr><tr><td> <i>it</i>&amp;<code>c</code><br/>x&nbsp;y </td><td><a href='u'>l<b>!</b></a></td></tr></table>";
    let md = html_table_to_gfm(html, TableStyle::Compact).unwrap();
    assert!(md.contains("*it*&`c`<br>x y"), "got: {md}");
    assert!(md.contains("[l!](u)"), "got: {md}");
    // Short rows are padded with empty cells.
    let md = html_table_to_gfm("<table><tr><td>a</td><td>b</td></tr><tr><td>1</td></tr></table>", TableStyle::Compact).unwrap();
    assert_eq!(md.lines().count(), 3);
    assert!(html_table_to_gfm("<table></table>", TableStyle::Pretty).is_none());
}

#[test]
fn html_cell_text_keeps_non_ascii_characters() {
    let md = html_table_to_gfm("<table><tr><td>é</td></tr></table>", TableStyle::Compact).unwrap();
    assert!(md.contains("| é |"), "got: {md}");
}

#[test]
fn gfm_paste_normalises_by_style() {
    let text = "| a | b |\n|---|---|\n| 1 | 2 |\n";
    let d = detect_table_paste(Some(text), None);
    let kept = paste_to_gfm(&d, TableStyle::PreserveOriginal).unwrap();
    assert_eq!(kept, "| a | b |\n|---|---|\n| 1 | 2 |\n");
    let compact = paste_to_gfm(&d, TableStyle::Compact).unwrap();
    assert!(compact.starts_with("| a | b |"), "got: {compact}");
    let pretty = paste_to_gfm(&d, TableStyle::Pretty).unwrap();
    assert_eq!(parse_tables(&pretty)[0].rows.len(), 1);
    assert!(paste_to_gfm(&TablePaste::NotTable, TableStyle::Pretty).is_none());
}

#[test]
fn tsv_and_csv_conversions_agree() {
    let tsv = detect_table_paste(Some("a\tb\n1\t2"), None);
    let csv = detect_table_paste(Some("a,b\n1,2"), None);
    assert_eq!(paste_to_gfm(&tsv, TableStyle::Compact), paste_to_gfm(&csv, TableStyle::Compact));
    assert_eq!(paste_to_gfm(&tsv, TableStyle::Pretty), paste_to_gfm(&csv, TableStyle::PreserveOriginal));
}

#[test]
fn html_cells_keep_their_characters() {
    assert_eq!(
        html_table_to_gfm("<table><tr><th>name</th></tr><tr><td><b>Alice</b></td></tr></table>", TableStyle::Pretty),
        Some("| name      |\n| --------- |\n| **Alice** |\n".to_string())
    );
    assert_eq!(
        html_table_to_gfm("<table><tr><td>\u{e9}</td></tr></table>", TableStyle::Pretty),
        Some("| \u{e9}   |\n| --- |\n".to_string())
    );
}
