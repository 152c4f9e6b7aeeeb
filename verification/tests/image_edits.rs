use rendermd_core::image_edits::{
    image_change_edit, image_move_edit, image_move_request, image_resize_request,
    pasted_image_markdown, pasted_image_names,
};
use rendermd_core::images::build_image_markup;

#[test]
fn resizing_rewrites_the_markup() {
    let text = "See ![a](x.png) here";
    let e = image_change_edit(text, "x.png", Some("200"), "a", false).unwrap();
    let markup = build_image_markup("x.png", Some("200"), "a");
    assert_eq!(e.text, format!("See {markup} here"));
    assert_eq!(e.changes.len(), 1);
    assert_eq!((e.changes[0].from, e.changes[0].to), (4, 15));
    assert_eq!(e.changes[0].insert, markup);
}

#[test]
fn removing_an_image() {
    let e = image_change_edit("é ![a](x.png)!", "x.png", None, "a", true).unwrap();
    assert_eq!(e.text, "é !");
    assert_eq!((e.changes[0].from, e.changes[0].to), (2, 13));
    assert_eq!(e.changes[0].insert, "");
    assert!(image_change_edit("no images", "x.png", None, "", true).is_none());
}

#[test]
fn changes_count_utf16_units() {
    let e = image_change_edit("😀![a](x.png)", "x.png", None, "b", false).unwrap();
    assert_eq!(e.text, "😀![b](x.png)");
    assert_eq!((e.changes[0].from, e.changes[0].to), (2, 13));
}

#[test]
fn moving_an_image_before_another() {
    let text = "![a](1.png)\n\n![b](2.png)";
    let e = image_move_edit(text, "2.png", "1.png").unwrap();
    assert_eq!(e.text, "![b](2.png)\n\n![a](1.png)\n\n");
    assert_eq!(e.changes.len(), 2);
    assert_eq!((e.changes[0].from, e.changes[0].to), (13, 24));
    assert_eq!(e.changes[0].insert, "");
    assert_eq!((e.changes[1].from, e.changes[1].to), (0, 0));
    assert_eq!(e.changes[1].insert, "![b](2.png)\n\n");
}

#[test]
fn moving_an_image_to_the_end() {
    let text = "![a](1.png) text";
    let e = image_move_edit(text, "1.png", "").unwrap();
    assert_eq!(e.text, " text\n\n![a](1.png)");
    assert_eq!((e.changes[0].from, e.changes[0].to), (0, 11));
    assert_eq!((e.changes[1].from, e.changes[1].to), (16, 16));
    assert_eq!(e.changes[1].insert, "\n\n![a](1.png)");
    let e = image_move_edit("a\n![x](1.png)", "1.png", "missing.png").unwrap();
    assert_eq!(e.text, "a\n\n![x](1.png)");
    assert!(image_move_edit("text", "1.png", "").is_none());
}

#[test]
fn image_requests() {
    let q = image_move_request("a.png\tb.png").unwrap();
    assert_eq!((q.src.as_str(), q.target.as_str()), ("a.png", "b.png"));
    let q = image_move_request("a.png").unwrap();
    assert_eq!(q.target, "");
    assert!(image_move_request("\tb.png").is_none());
    let q = image_resize_request("a.png\t 300 \tthe alt").unwrap();
    assert_eq!((q.src.as_str(), q.width.as_str(), q.alt.as_str()), ("a.png", "300", "the alt"));
    assert!(image_resize_request("a.png\t  \talt").is_none());
    assert!(image_resize_request("a.png").is_none());
}

#[test]
fn pasted_image_paths() {
    let (dir, file) = pasted_image_names("notes", "20240101-120000");
    assert_eq!(dir, "notes-assets");
    assert_eq!(file, "paste-20240101-120000.png");
    assert_eq!(pasted_image_markdown(&dir, &file), "![](notes-assets/paste-20240101-120000.png)");
    assert_eq!(pasted_image_markdown("my doc-assets", "p(1).png"), "![](my%20doc-assets/p%281%29.png)");
    assert_eq!(pasted_image_markdown("é", "a~b_c.png"), "![](%C3%A9/a~b_c.png)");
}

/// Apply changes whose positions all refer to the old text (UTF-16 code
/// units), as the editor does.
fn apply_changes(old: &str, changes: &[rendermd_core::image_edits::DocChange]) -> String {
    let units: Vec<u16> = old.encode_utf16().collect();
    let mut sorted: Vec<_> = changes.iter().collect();
    sorted.sort_by_key(|c| (c.from, c.to));
    let mut out: Vec<u16> = Vec::new();
    let mut pos = 0;
    for c in sorted {
        out.extend_from_slice(&units[pos..c.from]);
        out.extend(c.insert.encode_utf16());
        pos = c.to;
    }
    out.extend_from_slice(&units[pos..]);
    String::from_utf16(&out).unwrap()
}

#[test]
fn move_changes_reproduce_the_new_text() {
    for (text, src, target) in [
        ("![a](1.png)\n\n![b](2.png)", "2.png", "1.png"),
        ("intro 😀 ![a](1.png) mid\n![b](2.png) end", "1.png", "2.png"),
        ("x ![a](1.png)", "1.png", ""),
        ("![a](1.png)\n![b](2.png)\n![c](3.png)", "1.png", "3.png"),
    ] {
        let e = image_move_edit(text, src, target).unwrap();
        assert_eq!(apply_changes(text, &e.changes), e.text, "moving {src} before {target:?}");
    }
}

#[test]
fn change_edits_reproduce_the_new_text() {
    let text = "é ![a](x.png) and more";
    let e = image_change_edit(text, "x.png", Some("120"), "alt", false).unwrap();
    assert_eq!(apply_changes(text, &e.changes), e.text);
}
