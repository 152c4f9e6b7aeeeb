use rendermd_core::history::{
    build_history_rail_html, format_commit_datetime, format_relative_time, history_rail_html_at,
    iso_to_unix_secs, parent_sha_from_output, parse_git_log, web_url_from_remote, Commit,
};

fn one_commit() -> Vec<Commit> {
    vec![Commit {
        sha: "abc123".into(),
        short_sha: "abc".into(),
        iso_date: "2026-06-27T23:49:12-06:00".into(),
        subject: "subject".into(),
        additions: 1,
        deletions: 2,
    }]
}

#[test]
fn iso_to_unix_secs_parses_git_ci_output() {
    assert_eq!(iso_to_unix_secs("1970-01-01T00:00:00+00:00"), 0);
    assert_eq!(iso_to_unix_secs("2026-06-27T23:49:12-06:00"), 1782625752);
    assert_eq!(iso_to_unix_secs("not a date"), 0);
}

#[test]
fn commit_datetime_compacts_to_minutes() {
    assert_eq!(format_commit_datetime("2026-06-27T23:49:12-06:00"), "2026-06-27 23:49");
    assert_eq!(format_commit_datetime("2026-06-27"), "2026-06-27");
}

#[test]
fn relative_time_buckets() {
    let now = 1_000_000_000i64;
    assert_eq!(format_relative_time(0, now), "");
    assert_eq!(format_relative_time(now - 30, now), "just now");
    assert_eq!(format_relative_time(now - 300, now), "5m ago");
    assert_eq!(format_relative_time(now - 3 * 3_600, now), "3h ago");
    assert_eq!(format_relative_time(now - 2 * 86_400, now), "2d ago");
    assert_eq!(format_relative_time(now - 4 * 604_800, now), "4w ago");
    assert_eq!(format_relative_time(now - 6 * 2_592_000, now), "6mo ago");
    assert_eq!(format_relative_time(now - 2 * 31_536_000, now), "2y ago");
}

#[test]
fn rail_html_uses_rmdpost_shim() {
    let commits = one_commit();
    let html = build_history_rail_html(&commits, None, true, false, None);
    assert!(html.contains(r#"window.__rmdPost("commitClick""#));
    assert!(html.contains(r#"window.__rmdPost("toggleHistoryCollapse""#));
    assert!(!html.contains("webkit.messageHandlers"));

    let hidden = build_history_rail_html(&commits, None, false, false, None);
    assert!(hidden.contains(r#"window.__rmdPost("toggleHistory""#));
    assert!(!hidden.contains("webkit.messageHandlers"));
}

#[test]
fn rail_html_empty_without_commits() {
    assert_eq!(build_history_rail_html(&[], None, true, false, None), "");
}

#[test]
fn rail_current_entry_first_and_active_on_working_copy() {
    let commits = one_commit();
    let html = build_history_rail_html(&commits, None, true, false, None);
    let current = html.find("__working__").expect("Current entry present");
    let commit = html.find("abc123").expect("commit present");
    assert!(current < commit, "Current entry must come first");
    assert!(html.contains("rmd-history-current rmd-history-active"));

    let viewing = build_history_rail_html(&commits, Some("abc123"), true, false, None);
    assert!(!viewing.contains("rmd-history-current rmd-history-active"));
}

#[test]
fn rail_commit_links_only_with_remote() {
    let commits = one_commit();
    let without = build_history_rail_html(&commits, None, true, false, None);
    assert!(!without.contains(r#"class="rmd-history-link""#));

    let with = build_history_rail_html(&commits, None, true, false, Some("https://github.com/u/repo"));
    assert!(with.contains(r#"data-url="https://github.com/u/repo/commit/abc123""#));
    assert!(with.contains(r#"window.__rmdPost("openExternal""#));
    assert!(!with.contains("commit/__working__"));
}

#[test]
fn rail_entry_labels_and_tooltip() {
    let commits = one_commit();
    let now = 1782625752 + 2 * 86_400;
    let html = history_rail_html_at(&commits, Some("abc123"), true, true, None, now);
    assert!(html.starts_with(r#"<div class="rmd-history-rail rmd-collapsed" role="navigation""#));
    assert!(html.contains(r#"title="Expand history labels""#));
    assert!(html.contains(r#"class="rmd-history-circle rmd-history-active" data-sha="abc123""#));
    assert!(html.contains("title=\"abc — 2026-06-27 23:49\n+1 −2\nsubject\""));
    assert!(html.contains(r#"<span class="rmd-history-when">2d ago</span>"#));
    assert!(html.contains(r#"<span class="rmd-history-add">+1</span><span class="rmd-history-del">−2</span>"#));
    // An unparsable date falls back to the compact date as the label.
    let mut odd = one_commit();
    odd[0].iso_date = "yesterday".into();
    let html = history_rail_html_at(&odd, None, true, false, None, now);
    assert!(html.contains(r#"<span class="rmd-history-when">yesterday</span>"#));
    assert!(html.contains(r#"title="Collapse to dots""#));
}

#[test]
fn rail_escapes_commit_text() {
    let mut cs = one_commit();
    cs[0].subject = "fix <b> & \"q\"".into();
    let html = history_rail_html_at(&cs, None, true, false, Some("https://h/x?a=1&b=2"), 0);
    assert!(html.contains("fix &lt;b&gt; &amp; &quot;q&quot;"));
    assert!(html.contains(r#"data-url="https://h/x?a=1&amp;b=2/commit/abc123""#));
}

#[test]
fn git_log_output_is_read_into_commits() {
    let out = "\u{1}aaaa111\taaaa\t2026-01-02T03:04:05+00:00\tfirst\tpart\n3\t1\tnotes.md\n-\t-\timg.png\n2\t5\tnotes.md\n\n\u{1}bbbb222\tbbbb\t2025-12-31T00:00:00+00:00\tsecond\n\u{1}broken header\n1\t1\tx\n";
    let cs = parse_git_log(out).expect("commits");
    assert_eq!(cs.len(), 2);
    assert_eq!(cs[0].sha, "aaaa111");
    assert_eq!(cs[0].short_sha, "aaaa");
    assert_eq!(cs[0].subject, "first\tpart");
    assert_eq!((cs[0].additions, cs[0].deletions), (5, 6));
    assert_eq!(cs[1].subject, "second");
    assert_eq!((cs[1].additions, cs[1].deletions), (1, 1));
    assert!(parse_git_log("").is_none());
    assert!(parse_git_log("3\t4\tfile\n").is_none());
}

#[test]
fn remote_urls_become_web_addresses() {
    assert_eq!(web_url_from_remote("https://github.com/u/repo.git\n").as_deref(), Some("https://github.com/u/repo"));
    assert_eq!(web_url_from_remote("http://host/x").as_deref(), Some("http://host/x"));
    assert_eq!(web_url_from_remote("git@github.com:u/repo.git").as_deref(), Some("https://github.com/u/repo"));
    assert_eq!(web_url_from_remote("ssh://git@host/o/r.git").as_deref(), Some("https://host/o/r"));
    assert_eq!(web_url_from_remote("ssh://host/o/r").as_deref(), Some("https://host/o/r"));
    assert_eq!(web_url_from_remote("/srv/git/repo.git"), None);
    assert_eq!(web_url_from_remote("git@nohost"), None);
}

#[test]
fn hidden_rail_is_one_fixed_hint() {
    let commits = one_commit();
    let a = build_history_rail_html(&commits, None, false, false, None);
    let b = build_history_rail_html(&commits, Some("abc"), false, true, Some("https://example.com/r"));
    assert_eq!(a, b);
    assert!(a.contains("rmd-history-hint"));
    assert!(a.contains(r#"window.__rmdPost("toggleHistory""#));
    assert!(!a.contains("rmd-history-rail"));
    assert!(!a.contains("webkit.messageHandlers"));
    for vis in [true, false] {
        assert_eq!(build_history_rail_html(&[], Some("x"), vis, true, Some("u")), "");
    }
}

#[test]
fn parent_sha_is_the_trimmed_output() {
    assert_eq!(parent_sha_from_output("  0123abcd\n"), Some("0123abcd".to_string()));
    assert_eq!(parent_sha_from_output("\n \t"), None);
    assert_eq!(parent_sha_from_output(""), None);
}
