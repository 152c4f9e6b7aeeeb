use rendermd_core::links::{
    fs_url_segment, fs_url_to_path, link_resolution, mime_for, preview_route, LinkResolution,
    PreviewRoute, PREVIEW_CSP,
};

#[test]
fn preview_file_urls() {
    assert_eq!(fs_url_to_path("preview://localhost/fs/home/u/a%20b.md?x=1").as_deref(), Some("/home/u/a b.md"));
    assert_eq!(fs_url_to_path("http://preview.localhost/fs/home/u/c.png#top").as_deref(), Some("/home/u/c.png"));
    assert_eq!(fs_url_to_path("preview://localhost/doc.html"), None);
    assert_eq!(fs_url_segment("preview://x/fs/a/fs/b").as_deref(), Some("a"));
    assert_eq!(fs_url_to_path("preview://x/fs/%E2%82%AC").as_deref(), Some("/€"));
}

#[test]
fn markdown_links_open_in_the_editor() {
    match link_resolution("/home/u/readme.MD") {
        LinkResolution::OpenMd { path } => assert_eq!(path, "/home/u/readme.MD"),
        _ => panic!("expected a markdown document"),
    }
    assert!(matches!(link_resolution("/home/u/notes.markdown"), LinkResolution::OpenMd { .. }));
    assert!(matches!(link_resolution("/home/u/img.png"), LinkResolution::OpenFile { .. }));
    assert!(matches!(link_resolution("/home/u/.md"), LinkResolution::OpenFile { .. }));
    assert!(matches!(link_resolution("/home/u.md/file"), LinkResolution::OpenFile { .. }));
}

#[test]
fn preview_routes() {
    assert!(matches!(preview_route("/doc.html"), PreviewRoute::Document));
    assert!(matches!(preview_route("/assets/mermaid.min.js"), PreviewRoute::MermaidBundle));
    match preview_route("/fs/x%20y") {
        PreviewRoute::LocalFile(rest) => assert_eq!(rest, "x%20y"),
        _ => panic!("expected a local file"),
    }
    assert!(matches!(preview_route("/other"), PreviewRoute::NotFound));
    assert!(PREVIEW_CSP.starts_with("default-src 'none'; script-src 'unsafe-inline' preview:"));
}

#[test]
fn content_types() {
    assert_eq!(mime_for("/a/b.PNG"), "image/png");
    assert_eq!(mime_for("/a/b.jpeg"), "image/jpeg");
    assert_eq!(mime_for("/a/b.htm"), "text/html; charset=utf-8");
    assert_eq!(mime_for("/a/notes.md"), "text/plain; charset=utf-8");
    assert_eq!(mime_for("/a/b.tar.gz"), "application/octet-stream");
    assert_eq!(mime_for("/a/Makefile"), "application/octet-stream");
    assert_eq!(mime_for("/a/style.css"), "text/css");
}
