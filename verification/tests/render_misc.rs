use rendermd_core::render::{fs_base_href, html_escape, page_html};
use rendermd_core::template::{mermaid_script_tag, MERMAID_ASSET_PATH};
use rendermd_core::version;

#[test]
fn html_escape_entities() {
    assert_eq!(html_escape("&"), "&amp;");
    assert_eq!(html_escape("<"), "&lt;");
    assert_eq!(html_escape(">"), "&gt;");
    assert_eq!(html_escape("\""), "&quot;");
    assert_eq!(html_escape("'"), "&#39;");
    assert_eq!(html_escape("a < b && c > d"), "a &lt; b &amp;&amp; c &gt; d");
}

#[test]
fn version_is_nonempty() {
    assert!(!version().is_empty());
}

#[test]
fn mermaid_script_tag_points_at_asset() {
    assert_eq!(mermaid_script_tag(), "<script src=\"/assets/mermaid.min.js\"></script>");
    assert!(mermaid_script_tag().contains(MERMAID_ASSET_PATH));
}

#[test]
fn html_escape_leaves_other_text() {
    assert_eq!(html_escape("héllo — ok"), "héllo — ok");
    assert_eq!(html_escape(""), "");
}

#[test]
fn fs_base_href_plain_unix_path() {
    assert_eq!(fs_base_href("/home/user/docs"), "/fs/home/user/docs/");
}

#[test]
fn fs_base_href_encodes_specials_but_not_slash() {
    let href = fs_base_href("/a b/c#d/e?f/100%/g`{}");
    assert_eq!(href, "/fs/a%20b/c%23d/e%3Ff/100%25/g%60%7B%7D/");
}

#[test]
fn fs_base_href_keeps_angle_quote_out() {
    let href = fs_base_href("/x<y>\"z");
    assert_eq!(href, "/fs/x%3Cy%3E%22z/");
}

#[test]
fn fs_base_href_percent_encodes_non_ascii() {
    let href = fs_base_href("/döcs");
    assert_eq!(href, "/fs/d%C3%B6cs/");
}

#[test]
fn fs_base_href_adds_leading_slash_and_encodes_controls() {
    assert_eq!(fs_base_href("C:/docs"), "/fs/C:/docs/");
    assert_eq!(fs_base_href("/t\tab"), "/fs/t%09ab/");
}

#[test]
fn page_fills_every_placeholder() {
    let html = page_html("<p>hi</p>", false, Some("/tmp/somewhere"), false, "a<b");
    assert!(html.contains("<title>a&lt;b</title>"));
    assert!(html.contains(r#"<base href="/fs/tmp/somewhere/">"#));
    assert!(html.contains("<body>\n<p>hi</p>\n"));
    assert!(!html.contains("{BODY}") && !html.contains("{TITLE}") && !html.contains("{MERMAID_SCRIPT}"));
    assert!(!html.contains(&mermaid_script_tag()));
    assert!(html.contains("--bg: #ffffff;"));
    let dark = page_html("x", true, None, true, "");
    assert!(dark.contains("<title>RenderMD</title>"));
    assert!(dark.contains(r#"<base href="">"#));
    assert!(dark.contains(&mermaid_script_tag()));
    assert!(dark.contains("theme: 'dark'"));
    assert!(dark.contains("--bg: #1e1e2e;"));
    let light = page_html("x", true, None, false, "t");
    assert!(light.contains("theme: 'default'"));
}
