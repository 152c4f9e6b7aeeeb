use rendermd_core::diff::{compute_changed_lines, line_diff_ops, tokenize_for_diff, LineOp};
use rendermd_core::images::{byte_to_utf16_offset, utf16_to_byte_offset};
use rendermd_core::preprocess::preprocess_mermaid_blocks;
use rendermd_core::render::html_escape;
use rendermd_core::tables::model::{Alignment, MarkdownTable};
use rendermd_core::tables::parse::parse_tables;
use rendermd_core::tables::serialize::to_gfm_preserve;

fn contents(t: &MarkdownTable) -> (Vec<String>, Vec<Vec<String>>) {
    (
        t.headers.iter().map(|c| c.content.clone()).collect(),
        t.rows.iter().map(|r| r.iter().map(|c| c.content.clone()).collect()).collect(),
    )
}

#[test]
fn edited_cell_reads_back_and_others_stay() {
    let mut buffer = String::from("| a | b |\n|---|---|\n| 1 | 2 |\n| 3 | 4 |\n");
    let mut t = parse_tables(&buffer).remove(0);
    let before = contents(&t);
    t.update_cell(1, 0, "three", &mut buffer).unwrap();
    assert_eq!(t.cell(1, 0).unwrap().content, "three");
    let after = contents(&t);
    assert_eq!(after.0, before.0);
    assert_eq!(after.1[0], before.1[0]);
    assert_eq!(after.1[1][1], before.1[1][1]);
    assert!(buffer.contains("three"));
}

#[test]
fn row_inserted_then_deleted_gives_cells_back() {
    let mut buffer = String::from("| a | b |\n|---|---|\n| 1 | 2 |\n| 3 | 4 |\n");
    let mut t = parse_tables(&buffer).remove(0);
    let before = contents(&t);
    t.insert_empty_row(1, &mut buffer).unwrap();
    assert_eq!(t.rows.len(), 3);
    t.delete_row(1, &mut buffer).unwrap();
    assert_eq!(contents(&t), before);
}

#[test]
fn column_inserted_then_deleted_gives_cells_back() {
    let mut buffer = String::from("| a | b |\n|---|---|\n| 1 | 2 |\n");
    let mut t = parse_tables(&buffer).remove(0);
    let before = contents(&t);
    t.insert_column(1, Alignment::Right, &mut buffer).unwrap();
    assert_eq!(t.alignments.len(), 3);
    t.delete_column(1, &mut buffer).unwrap();
    assert_eq!(contents(&t), before);
    assert_eq!(t.alignments.len(), 2);
}

#[test]
fn alignment_set_reads_back() {
    let mut buffer = String::from("| a | b |\n|---|---|\n| 1 | 2 |\n");
    let mut t = parse_tables(&buffer).remove(0);
    let before = contents(&t);
    t.set_column_alignment(1, Alignment::Center, &mut buffer).unwrap();
    assert_eq!(t.alignments[1], Alignment::Center);
    assert_eq!(contents(&t), before);
}

#[test]
fn escaped_html_is_inert() {
    let out = html_escape("<a href=\"x\" title='y'>&</a>");
    assert!(!out.contains('<') && !out.contains('>') && !out.contains('"') && !out.contains('\''));
}

#[test]
fn text_without_diagrams_comes_back() {
    let (out, had) = preprocess_mermaid_blocks("a\n```mermaid\nb");
    assert!(!had);
    assert_eq!(out, "a\n```mermaid\nb\n");
}

#[test]
fn diffs_keep_both_versions() {
    let toks = tokenize_for_diff("  tabs\tand, words ");
    assert_eq!(toks.concat(), "  tabs\tand, words ");
    let old: Vec<String> = ["a", "b", "c"].iter().map(|s| s.to_string()).collect();
    let new: Vec<String> = ["b", "x", "c", "a"].iter().map(|s| s.to_string()).collect();
    let ops = line_diff_ops(&old, &new);
    let new_side: Vec<&str> = ops
        .iter()
        .filter_map(|o| match o {
            LineOp::Equal(s) | LineOp::Add(s) => Some(s.as_str()),
            LineOp::Delete(_) => None,
        })
        .collect();
    let old_side: Vec<&str> = ops
        .iter()
        .filter_map(|o| match o {
            LineOp::Equal(s) | LineOp::Delete(s) => Some(s.as_str()),
            LineOp::Add(_) => None,
        })
        .collect();
    assert_eq!(new_side, vec!["b", "x", "c", "a"]);
    assert_eq!(old_side, vec!["a", "b", "c"]);
}

#[test]
fn changed_line_numbers_are_new_line_numbers() {
    let changed = compute_changed_lines("x\ny\n", "new\nx\nother\n");
    let mut v: Vec<usize> = changed.into_iter().collect();
    v.sort();
    assert_eq!(v, vec![1, 3]);
    assert!(compute_changed_lines("same\ntext", "same\ntext").is_empty());
}

#[test]
fn utf16_offsets_round_trip() {
    let s = "aé😀b";
    for b in [0usize, 1, 3, 7, 8] {
        let u = byte_to_utf16_offset(s, b);
        assert_eq!(utf16_to_byte_offset(s, u), b);
    }
}

#[test]
fn unedited_padded_tables_are_written_back_byte_for_byte() {
    for src in [
        "| a | b |\n|---|---|\n| 1 | 2 |\n",
        "|  name  | score |\n|:-------|------:|\n|  Alice |    42 |\n| Bob | 7 |\n",
    ] {
        let tables = parse_tables(src);
        assert_eq!(to_gfm_preserve(&tables[0], src), src);
    }
}

#[test]
fn empty_or_unpadded_cells_are_repadded() {
    let src = "|a|  |\n|---|---|\n|1|2|\n";
    let tables = parse_tables(src);
    assert_eq!(to_gfm_preserve(&tables[0], src), "| a |    |\n|---|---|\n| 1 | 2 |\n");
}

#[test]
fn cells_hold_their_raw_markdown_and_a_rewrite_escapes_it() {
    let src = "| name | note |\n|------|------|\n| Alice | foo \\| bar |\n";
    let tables = parse_tables(src);
    assert_eq!(tables[0].rows[0][1].content, "foo \\| bar");
    let out = to_gfm_preserve(&tables[0], src);
    assert!(out.contains("| foo \\\\\\| bar |"), "{out}");
}

#[test]
fn reformat_twice_changes_nothing() {
    let mut buffer = String::from("intro\n\n| name | note |\n|:--|--:|\n| Alice | 42 |\n| Bob |\n\nend\n");
    let mut t = parse_tables(&buffer).remove(0);
    t.reformat_pretty(&mut buffer).unwrap();
    let once = buffer.clone();
    let before = contents(&t);
    let d = t.reformat_pretty(&mut buffer).unwrap();
    assert_eq!(d.byte_delta, 0);
    assert_eq!(buffer, once);
    assert_eq!(contents(&t), before);
    let mut t2 = parse_tables(&buffer).remove(0);
    let d2 = t2.reformat_pretty(&mut buffer).unwrap();
    assert_eq!(d2.byte_delta, 0);
    assert_eq!(buffer, once);
}

#[test]
fn reformat_keeps_the_width_comment() {
    let mut buffer = String::from("<!-- rmd-cols: 100,200 -->\n| a | b |\n|---|---|\n| 1 | 2 |\n");
    let mut t = parse_tables(&buffer).remove(0);
    assert_eq!(t.column_widths, vec![Some(100), Some(200)]);
    t.reformat_pretty(&mut buffer).unwrap();
    assert!(buffer.starts_with("<!-- rmd-cols: 100,200 -->\n"));
    assert_eq!(t.column_widths, vec![Some(100), Some(200)]);
    assert_eq!(parse_tables(&buffer)[0].column_widths, vec![Some(100), Some(200)]);
}

#[test]
fn utf16_offsets_floor_to_character_starts() {
    let s = "a\u{1F44D}b";
    assert_eq!(utf16_to_byte_offset(s, 2), 1);
    assert_eq!(utf16_to_byte_offset(s, 3), 5);
    assert_eq!(utf16_to_byte_offset(s, 4), 6);
    assert_eq!(utf16_to_byte_offset(s, 99), s.len());
    for b in [0, 1, 5, 6] {
        assert_eq!(utf16_to_byte_offset(s, byte_to_utf16_offset(s, b)), b);
    }
}

#[test]
fn a_cell_edit_keeps_the_text_around_its_patch() {
    let before = "intro\n\n| a | b |\n|---|---|\n| 1 | 2 |\n\noutro\n";
    let mut buffer = before.to_string();
    let mut t = parse_tables(&buffer).remove(0);
    let d = t.update_cell(0, 1, "twenty", &mut buffer).unwrap();
    let (a, b) = (d.patched_range.start, d.patched_range.end);
    assert_eq!(&buffer[..a], &before[..a]);
    assert_eq!(&buffer[(b as isize + d.byte_delta) as usize..], &before[b..]);
    assert_eq!(buffer.len() as isize, before.len() as isize + d.byte_delta);
    assert_eq!(parse_tables(&buffer)[0].rows[0][1].content, "twenty");
}
