use rendermd_core::emoji::{lookup_emoji, preprocess_emoji, replace_shortcodes_in_line};

#[test]
fn emoji_replaces_known_shortcode() {
    let out = replace_shortcodes_in_line("Ship it :rocket:!");
    assert_eq!(out, "Ship it 🚀!");
}

#[test]
fn emoji_passes_unknown_shortcode_through() {
    let out = replace_shortcodes_in_line("This :notarealemoji: stays");
    assert_eq!(out, "This :notarealemoji: stays");
}

#[test]
fn emoji_handles_multiple_per_line() {
    let out = replace_shortcodes_in_line(":rocket: and :tada: and :+1:");
    assert_eq!(out, "🚀 and 🎉 and 👍");
}

#[test]
fn emoji_handles_aliases() {
    assert_eq!(replace_shortcodes_in_line(":+1:"), "👍");
    assert_eq!(replace_shortcodes_in_line(":thumbsup:"), "👍");
}

#[test]
fn emoji_skipped_inside_fenced_block() {
    let input = "before :rocket:\n\n```\n:rocket: in code\n```\n\nafter :tada:\n";
    let out = preprocess_emoji(input);
    assert!(out.contains("before 🚀"));
    assert!(out.contains(":rocket: in code"), "fence content should be left alone");
    assert!(out.contains("after 🎉"));
}

#[test]
fn emoji_skipped_inside_mermaid_fence() {
    let input = "```mermaid\nflowchart TD\n  A[:rocket:] --> B\n```\n";
    let out = preprocess_emoji(input);
    assert!(out.contains(":rocket:"), "mermaid fence content should be untouched");
}

#[test]
fn emoji_lone_colons_pass_through() {
    let out = replace_shortcodes_in_line("ratio 4:3 and time 12:30:45");
    assert_eq!(out, "ratio 4:3 and time 12:30:45");
}

#[test]
fn emoji_lookup_table_entries() {
    assert_eq!(lookup_emoji("rocket"), Some("🚀"));
    assert_eq!(lookup_emoji("shit"), Some("💩"));
    assert_eq!(lookup_emoji("chocolate_bar"), Some("🍫"));
    assert_eq!(lookup_emoji("Rocket"), None);
    assert_eq!(lookup_emoji(""), None);
}

#[test]
fn emoji_preprocess_ends_every_line() {
    assert_eq!(preprocess_emoji("a :x:\nb"), "a ❌\nb\n");
    assert_eq!(preprocess_emoji(""), "");
}
