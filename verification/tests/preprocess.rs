use rendermd_core::preprocess::{
    alert_bodies, alert_variants, detect_alert_opener, preprocess_alerts,
    preprocess_mermaid_blocks, strip_blockquote_prefix,
};

/// Renders each alert body the way a plain CommonMark pass does and
/// splices the results back in.
fn alerts(text: &str) -> String {
    let options = comrak::Options::default();
    let rendered: Vec<String> = alert_bodies(text)
        .iter()
        .map(|b| comrak::markdown_to_html(b, &options))
        .collect();
    preprocess_alerts(text, &rendered)
}

#[test]
fn preprocess_no_fences() {
    let (out, had) = preprocess_mermaid_blocks("# hi\n\nplain text\n");
    assert!(!had);
    assert!(out.contains("# hi"));
    assert!(out.contains("plain text"));
    assert!(!out.contains("class=\"mermaid\""));
}

#[test]
fn preprocess_simple_block() {
    let input = "before\n\n```mermaid\nflowchart TD\n  A --> B\n```\n\nafter\n";
    let (out, had) = preprocess_mermaid_blocks(input);
    assert!(had);
    assert!(out.contains(r#"<pre class="mermaid">"#));
    assert!(out.contains("</pre>"));
    assert!(out.contains("flowchart TD"));
    assert!(out.contains("A --&gt; B"), "diagram body should be HTML-escaped");
    assert!(out.contains("before") && out.contains("after"));
}

#[test]
fn preprocess_blank_lines_inside() {
    let input = "```mermaid\nflowchart TD\n  A --> B\n\n  C --> D\n```\n";
    let (out, _) = preprocess_mermaid_blocks(input);
    let open = out.find(r#"<pre class="mermaid">"#).expect("opening tag present");
    let close = out.find("</pre>").expect("closing tag present");
    assert!(open < close);
    let body = &out[open..close];
    assert!(body.contains("A --&gt; B"));
    assert!(body.contains("C --&gt; D"));
}

#[test]
fn preprocess_unclosed_fence() {
    let input = "before\n\n```mermaid\nflowchart TD\n  A --> B\n";
    let (out, had) = preprocess_mermaid_blocks(input);
    assert!(!had, "unclosed fence shouldn't count as a mermaid block");
    assert!(out.contains("```mermaid"));
    assert!(out.contains("flowchart TD"));
    assert!(!out.contains(r#"<pre class="mermaid">"#));
}

#[test]
fn preprocess_indented_fence_current_behavior() {
    let input = "    ```mermaid\n    flowchart TD\n    ```\n";
    let (_, had) = preprocess_mermaid_blocks(input);
    assert!(had, "current implementation matches indented fences");
}

#[test]
fn preprocess_html_escapes_diagram() {
    let input = "```mermaid\nA[<b>x</b> & \"y\"]\n```\n";
    let (out, _) = preprocess_mermaid_blocks(input);
    assert!(out.contains("&lt;b&gt;"));
    assert!(out.contains("&amp;"));
    assert!(out.contains("&quot;"));
    assert!(!out.contains("<b>x</b>"));
}

#[test]
fn alert_note_emits_div() {
    let out = alerts("> [!NOTE]\n> Hello there.\n");
    assert!(out.contains(r#"<div class="alert alert-note">"#));
    assert!(out.contains("<span>Note</span>"));
    assert!(out.contains("Hello there."));
}

#[test]
fn alert_each_variant_recognized() {
    for (token, variant, label, _) in alert_variants() {
        let input = format!("> {}\n> body\n", token);
        let out = alerts(&input);
        assert!(out.contains(&format!(r#"alert-{}""#, variant)), "missing class for {}", token);
        assert!(out.contains(&format!("<span>{}</span>", label)), "missing label for {}", token);
    }
}

#[test]
fn alert_collects_multiline_body() {
    let input = "> [!WARNING]\n> first line\n> second line\n> third line\n";
    let out = alerts(input);
    let div_start = out.find("<div class=\"alert").unwrap();
    let line_end = out[div_start..].find('\n').map(|i| div_start + i).unwrap_or(out.len());
    let alert_line = &out[div_start..line_end];
    assert!(alert_line.contains("first line"));
    assert!(alert_line.contains("second line"));
    assert!(alert_line.contains("third line"));
    assert!(alert_line.ends_with("</div>"));
}

#[test]
fn alert_terminates_at_non_blockquote_line() {
    let input = "> [!NOTE]\n> inside\nafter\n";
    let out = alerts(input);
    let div_start = out.find("<div class=\"alert").unwrap();
    let line_end = out[div_start..].find('\n').map(|i| div_start + i).unwrap_or(out.len());
    let alert_line = &out[div_start..line_end];
    assert!(alert_line.contains("inside"));
    assert!(!alert_line.contains("after"));
    assert!(out[line_end..].contains("after"));
}

#[test]
fn alert_unknown_variant_passes_through_as_blockquote() {
    let input = "> [!FOOBAR]\n> body\n";
    let out = alerts(input);
    assert!(out.contains("[!FOOBAR]"));
    assert!(!out.contains("class=\"alert"));
}

#[test]
fn alert_case_sensitive_matches_github() {
    let out = alerts("> [!note]\n> body\n");
    assert!(!out.contains("class=\"alert"));
}

#[test]
fn alert_inline_emoji_in_body_renders() {
    let input = "> [!TIP]\n> Ship it 🚀\n";
    let out = alerts(input);
    assert!(out.contains("🚀"));
}

#[test]
fn alert_bodies_strip_markers_in_order() {
    let text = "> [!NOTE]\n> one\n>two\n\n> [!TIP]\n>  three\nplain\n";
    assert_eq!(alert_bodies(text), vec!["one\ntwo".to_string(), " three".to_string()]);
    assert!(alert_bodies("> [!NOTE]").iter().all(|b| b.is_empty()));
}

#[test]
fn alert_div_flattens_rendered_body() {
    let out = preprocess_alerts("x\n> [!NOTE]\n> a\ny\n", &["<p>a</p>\n<p>b</p>\n".to_string()]);
    assert!(out.starts_with("x\n\n<div class=\"alert alert-note\"><div class=\"alert-title\"><svg"));
    assert!(out.ends_with("<span>Note</span></div><p>a</p> <p>b</p> </div>\n\ny\n"));
    // Without a rendered body the alert still gets its frame.
    let bare = preprocess_alerts("> [!TIP]\n", &[]);
    assert!(bare.ends_with("<span>Tip</span></div></div>\n\n"));
}

#[test]
fn opener_and_prefix_helpers() {
    assert_eq!(detect_alert_opener("  >   [!CAUTION]  ").map(|v| v.1), Some("caution"));
    assert!(detect_alert_opener("[!NOTE]").is_none());
    assert!(detect_alert_opener("> [!NOTE] extra").is_none());
    assert_eq!(strip_blockquote_prefix("> hi"), "hi");
    assert_eq!(strip_blockquote_prefix(">  hi"), " hi");
    assert_eq!(strip_blockquote_prefix("   >x"), "x");
    assert_eq!(strip_blockquote_prefix("plain"), "plain");
}

#[test]
fn mermaid_block_exact_output() {
    let (out, had) = preprocess_mermaid_blocks("a\n ```mermaid \nx<y\n```\nb");
    assert!(had);
    assert_eq!(out, "a\n\n<pre class=\"mermaid\">\nx&lt;y\n</pre>\n\nb\n");
    let (out, had) = preprocess_mermaid_blocks("```mermaid\nq\n");
    assert!(!had);
    assert_eq!(out, "```mermaid\nq\n");
}
