use std::collections::HashSet;

use rendermd_core::diff::{
    changed_blocks, inject_change_markers, prev_version, uri_component_encode, PendingChanges,
    PrevVersion, block_starts_with_fence, build_annotated_diff_md, build_annotated_word_diff_md,
    build_code_block_diff_html, compute_changed_lines, line_diff_ops, meets_modified_threshold,
    render_word_diff_html, split_top_level_blocks, token_overlap, tokenize_for_diff, LineOp,
};

fn strings(v: &[&str]) -> Vec<String> {
    v.iter().map(|s| s.to_string()).collect()
}

fn op_text(op: &LineOp) -> (char, &str) {
    match op {
        LineOp::Equal(s) => ('=', s.as_str()),
        LineOp::Delete(s) => ('-', s.as_str()),
        LineOp::Add(s) => ('+', s.as_str()),
    }
}

#[test]
fn changed_lines_flags_new_and_modified() {
    let changed = compute_changed_lines("a\nb\nc\n", "a\nB\nc\nd\n");
    assert!(changed.contains(&2), "modified line flagged");
    assert!(changed.contains(&4), "appended line flagged");
    assert!(!changed.contains(&1));
    assert!(!changed.contains(&3));
}

#[test]
fn changed_lines_empty_when_identical() {
    assert!(compute_changed_lines("a\nb\n", "a\nb\n").is_empty());
}

#[test]
fn blocks_split_on_blank_lines_but_not_in_fences() {
    let text = "para one\n\n```\ncode\n\nmore code\n```\n\npara two\n";
    let blocks = split_top_level_blocks(text);
    assert_eq!(blocks, vec![(1, 1), (3, 7), (9, 9)]);
}

#[test]
fn word_diff_html_marks_changed_token_only() {
    let out = render_word_diff_html("let x = 1;", "let x = 2;");
    assert!(out.contains(r#"<span class="rmd-diff-w-del">1</span>"#));
    assert!(out.contains(r#"<span class="rmd-diff-w-add">2</span>"#));
    assert!(out.contains("let"));
}

#[test]
fn annotated_diff_md_wraps_pure_add_delete() {
    let out = build_annotated_diff_md("gone\n", "here\n");
    assert!(out.contains("<del class=\"rmd-diff-w-del\">gone</del>"));
    assert!(out.contains("<ins class=\"rmd-diff-w-add\">here</ins>"));
}

#[test]
fn code_block_diff_wraps_in_pre_code() {
    let out = build_code_block_diff_html("```\na\n```", "```\nb\n```");
    assert!(out.starts_with("<pre><code>"));
    assert!(out.ends_with("</code></pre>"));
}

#[test]
fn changed_lines_duplicates_count_once_each() {
    let changed = compute_changed_lines("x\n", "x\nx\n");
    assert_eq!(changed.len(), 1);
    assert!(changed.contains(&2));
    assert!(compute_changed_lines("a\r\nb\r\n", "a\nb\n").is_empty());
}

#[test]
fn blocks_of_tilde_fence_and_trailing_block() {
    assert_eq!(split_top_level_blocks("~~~\nx\n\n~~~\ntail"), vec![(1, 5)]);
    assert_eq!(split_top_level_blocks(""), Vec::<(usize, usize)>::new());
    assert_eq!(split_top_level_blocks("\n\n"), Vec::<(usize, usize)>::new());
    assert_eq!(split_top_level_blocks("a\nb\n\n\nc"), vec![(1, 2), (5, 5)]);
}

#[test]
fn line_diff_greedy_matches() {
    let old = strings(&["a", "b", "c"]);
    let new = strings(&["a", "x", "c", "d"]);
    let ops = line_diff_ops(&old, &new);
    let got: Vec<(char, &str)> = ops.iter().map(op_text).collect();
    assert_eq!(got, vec![('=', "a"), ('+', "x"), ('-', "b"), ('=', "c"), ('+', "d")]);
    let ops = line_diff_ops(&strings(&["a", "b"]), &[]);
    let got: Vec<(char, &str)> = ops.iter().map(op_text).collect();
    assert_eq!(got, vec![('-', "a"), ('-', "b")]);
}

#[test]
fn tokens_rejoin_to_input() {
    let toks = tokenize_for_diff("let  x=é2;\tok");
    assert_eq!(toks, vec!["let", "  ", "x", "=", "é2", ";", "\t", "ok"]);
    assert_eq!(toks.concat(), "let  x=é2;\tok");
    assert!(tokenize_for_diff("").is_empty());
    assert_eq!(tokenize_for_diff("**"), vec!["*", "*"]);
}

#[test]
fn word_diff_md_puts_deletions_before_insertions() {
    assert_eq!(
        build_annotated_word_diff_md("the red cat", "the blue cat"),
        "the <del class=\"rmd-diff-w-del\">red</del><ins class=\"rmd-diff-w-add\">blue</ins> cat"
    );
    assert_eq!(build_annotated_word_diff_md("same", "same"), "same");
    assert_eq!(
        render_word_diff_html("a<b", "a<c"),
        "a&lt;<span class=\"rmd-diff-w-del\">b</span><span class=\"rmd-diff-w-add\">c</span>"
    );
}

#[test]
fn similarity_counts_shared_tokens() {
    assert_eq!(token_overlap("", ""), (0, 0));
    assert_eq!(token_overlap("aa bb", "aa bb"), (2, 2));
    assert_eq!(token_overlap("aa", "bb"), (0, 1));
    assert_eq!(token_overlap("a a b", "a c"), (1, 3));
    assert!(meets_modified_threshold("", ""));
    assert!(meets_modified_threshold("one two three", "one two four"));
    assert!(!meets_modified_threshold("gone", "here"));
    // 3 of 10 shared is exactly the threshold.
    assert!(meets_modified_threshold("a b c d e f g h i j", "a b c x y z u v w q"));
    assert!(!meets_modified_threshold("a b c d e f g h i j k", "a b c x y z u v w q r"));
}

#[test]
fn annotated_diff_md_keeps_equal_lines_and_word_diffs_similar_pairs() {
    assert_eq!(build_annotated_diff_md("a\nb\n", "a\nb\n"), "a\nb\n");
    assert_eq!(
        build_annotated_diff_md("keep\nthe red cat\n", "keep\nthe blue cat\n"),
        "keep\nthe <del class=\"rmd-diff-w-del\">red</del><ins class=\"rmd-diff-w-add\">blue</ins> cat\n"
    );
    assert_eq!(
        build_annotated_diff_md("x\ny\n", "z\n"),
        "<del class=\"rmd-diff-w-del\">x</del>\n<ins class=\"rmd-diff-w-add\">z</ins>\n<del class=\"rmd-diff-w-del\">y</del>\n"
    );
}

#[test]
fn code_block_diff_strips_fences_and_escapes() {
    assert_eq!(
        build_code_block_diff_html("```\na<b\n```", "```\na<b\n```"),
        "<pre><code>a&lt;b\n</code></pre>"
    );
    assert_eq!(
        build_code_block_diff_html("```rust\nlet x = 1;\n```", "```rust\nlet x = 2;\n```"),
        "<pre><code>let x = <span class=\"rmd-diff-w-del\">1</span><span class=\"rmd-diff-w-add\">2</span>;\n</code></pre>"
    );
}

#[test]
fn fence_detection_looks_at_first_line_only() {
    assert!(block_starts_with_fence("```\ncode\n```"));
    assert!(block_starts_with_fence("   ~~~rust\nx"));
    assert!(!block_starts_with_fence("text\n```"));
    assert!(!block_starts_with_fence(""));
}

#[test]
fn uri_component_encode_round_trips_like_decodeuricomponent() {
    let s = "a-z_0.9~ <p>&\"'#%/\u{e9}";
    let enc = uri_component_encode(s);
    assert_eq!(enc, "a-z_0.9~%20%3Cp%3E%26%22%27%23%25%2F%C3%A9");
}

fn pending(old: &str, lines: &[usize], ts: i64) -> PendingChanges {
    PendingChanges { changed_lines: lines.iter().copied().collect::<HashSet<usize>>(), old_text: old.to_string(), reload_ts: ts }
}

#[test]
fn change_markers_only_for_changed_blocks() {
    let old = "one\n\ntwo\n";
    let new = "one\n\nTWO\n";
    let changes = pending(old, &[3], 42);
    let blocks = changed_blocks(new, &changes);
    assert_eq!(blocks.len(), 1);
    assert_eq!((blocks[0].start, blocks[0].old_block.as_str(), blocks[0].new_block.as_str()), (3, "two", "TWO"));
    let out = inject_change_markers(new, &changes, &["<p>x y</p>".to_string()]);
    assert!(out.starts_with("one\n\n<div class=\"rmd-changed-marker\" data-prev-html=\"%3Cp%3Ex%20y%3C%2Fp%3E\" data-age-ts=\"42\"></div>\n\nTWO\n\n<script>"));
    assert!(out.contains("rmd-minimap"));
    // Nothing changed: the text comes back as it is.
    assert_eq!(inject_change_markers(new, &pending(old, &[], 1), &[]), new);
}

#[test]
fn prev_version_picks_code_or_markdown() {
    let changes = pending("```\na\n```\n\nold words here\n", &[1, 5], -3);
    let blocks = changed_blocks("```\nb\n```\n\nnew words here\n", &changes);
    assert_eq!(blocks.len(), 2);
    match prev_version(&blocks[0]) {
        PrevVersion::Html(h) => assert!(h.starts_with("<pre><code>")),
        PrevVersion::Markdown(_) => panic!("fenced block must be HTML"),
    }
    match prev_version(&blocks[1]) {
        PrevVersion::Markdown(m) => assert!(m.contains("<del class=\"rmd-diff-w-del\">old</del>")),
        PrevVersion::Html(_) => panic!("prose block must be markdown"),
    }
    let out = inject_change_markers("```\nb\n```\n\nnew words here\n", &changes, &[]);
    assert!(out.contains("data-prev-html=\"\" data-age-ts=\"-3\""));
}
