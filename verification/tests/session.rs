use rendermd_core::history::Commit;
use rendermd_core::requests::{plan_sort, SortPlan, TableSortSnapshot};
use rendermd_core::tables::model::{clone_rows, sort_rows};
use rendermd_core::tables::parse::parse_tables;
use rendermd_core::session::{
    parse_mode, CommitClick, DocInfo, ExternalChange, HistorySnapshot, Mode, Session,
};
use rendermd_core::tables::model::SortDirection;

fn commit(sha: &str, short: &str, subject: &str) -> Commit {
    Commit {
        sha: sha.into(),
        short_sha: short.into(),
        iso_date: "2024-01-02T03:04:05+00:00".into(),
        subject: subject.into(),
        additions: 1,
        deletions: 0,
    }
}

#[test]
fn a_new_session_is_an_empty_document_in_the_editor() {
    let s = Session::new(true, false, true);
    assert!(s.path.is_none());
    assert_eq!(s.text, "");
    assert_eq!(s.mode, Mode::Edit);
    assert!(s.dark);
    assert!(!s.history_visible);
    assert!(s.history_collapsed);
    assert_eq!(s.preview_rev, 0);
}

#[test]
fn text_updates_mark_the_document_modified() {
    let mut s = Session::new(false, true, false);
    s.update_text(String::new());
    assert!(!s.is_modified);
    s.update_text("hello".into());
    assert!(s.is_modified);
    assert_eq!(s.text, "hello");
}

#[test]
fn modes_and_theme() {
    assert_eq!(parse_mode("edit"), Mode::Edit);
    assert_eq!(parse_mode("preview"), Mode::Preview);
    assert_eq!(parse_mode("EDIT"), Mode::Preview);
    let mut s = Session::new(false, true, false);
    s.set_mode("preview");
    assert_eq!(s.mode, Mode::Preview);
    assert!(s.set_dark(true));
    assert!(!s.set_dark(true));
    assert!(s.dark);
}

#[test]
fn loading_and_saving() {
    let mut s = Session::new(false, true, false);
    s.update_text("draft".into());
    s.load("/tmp/a.md".into(), "# A".into(), None);
    assert_eq!(s.path.as_deref(), Some("/tmp/a.md"));
    assert_eq!(s.text, "# A");
    assert!(!s.is_modified);
    assert_eq!(s.mode, Mode::Preview);
    s.update_text("# B".into());
    assert!(s.is_modified);
    s.saved("/tmp/b.md".into(), "# B".into());
    assert!(!s.is_modified);
    assert_eq!(s.path.as_deref(), Some("/tmp/b.md"));
    let info = DocInfo::from_state(&s, Some("just now".into()));
    assert_eq!(info.path.as_deref(), Some("/tmp/b.md"));
    assert_eq!(info.text, "# B");
    assert_eq!(info.mtime.as_deref(), Some("just now"));
    assert!(!info.dirty);
}

#[test]
fn external_changes() {
    let mut s = Session::new(false, true, false);
    assert_eq!(s.external_change(false), ExternalChange::Ignore);
    s.load("/tmp/a.md".into(), "a".into(), None);
    assert_eq!(s.external_change(true), ExternalChange::Ignore);
    assert_eq!(s.external_change(false), ExternalChange::Reload);
    s.set_mode("edit");
    s.update_text("b".into());
    assert_eq!(s.external_change(false), ExternalChange::AskToReload);
}

#[test]
fn reloading_keeps_change_bars() {
    let mut s = Session::new(false, true, false);
    s.load("/tmp/a.md".into(), "a\nb\nc\n".into(), None);
    s.reload("a\nB\nc\n".into(), 1234);
    assert_eq!(s.text, "a\nB\nc\n");
    let pc = s.pending_changes.as_ref().unwrap();
    assert!(pc.changed_lines.contains(&2));
    assert_eq!(pc.changed_lines.len(), 1);
    assert_eq!(pc.old_text, "a\nb\nc\n");
    assert_eq!(pc.reload_ts, 1234);
    assert!(s.take_pending_changes().is_some());
    assert!(s.pending_changes.is_none());
    s.reload("a\nB\nc\n".into(), 99);
    assert!(s.pending_changes.is_none());
}

#[test]
fn history_rail_clicks() {
    let mut s = Session::new(false, true, false);
    assert!(matches!(s.commit_click("  "), CommitClick::Ignore));
    assert!(matches!(s.commit_click("__working__"), CommitClick::Ignore));
    match s.commit_click(" abc123 ") {
        CommitClick::View(id) => assert_eq!(id, "abc123"),
        _ => panic!("expected a view"),
    }
    s.view_snapshot(HistorySnapshot {
        sha: "abc123".into(),
        text: "new\n".into(),
        parent_text: Some("old\n".into()),
        commit_unix_secs: 50,
    });
    assert!(matches!(s.commit_click("abc123"), CommitClick::ReturnToWorkingCopy));
    assert!(matches!(s.commit_click("__working__"), CommitClick::ReturnToWorkingCopy));
    assert!(matches!(s.commit_click("def"), CommitClick::View(_)));
    s.return_to_working_copy();
    assert!(s.viewing_snapshot.is_none());
}

#[test]
fn viewing_notices_and_times() {
    let mut s = Session::new(false, true, false);
    assert_eq!(s.viewing_message("0123456789abcdef"), "Viewing 0123456");
    assert_eq!(s.viewing_message("abc"), "Viewing abc");
    assert_eq!(s.commit_time("abc"), 0);
    s.load("/tmp/a.md".into(), "x".into(), Some(vec![commit("abc", "ab", "First")]));
    assert_eq!(s.viewing_message("abc"), "Viewing ab \u{2014} First");
    assert_eq!(s.commit_time("abc"), 1704164645);
}

#[test]
fn toggling_the_rail() {
    let mut s = Session::new(false, true, false);
    assert_eq!(s.toggle_history(), "This file isn't tracked in a git repo");
    assert!(!s.history_visible);
    s.load("/tmp/a.md".into(), "x".into(), Some(vec![]));
    assert_eq!(s.toggle_history(), "History rail shown");
    assert_eq!(s.toggle_history(), "History rail hidden");
    s.toggle_history_collapse();
    assert!(s.history_collapsed);
}

#[test]
fn a_viewed_commit_is_rendered_with_its_changes() {
    let mut s = Session::new(false, true, false);
    s.load("/tmp/a.md".into(), "working\n".into(), None);
    assert_eq!(s.preview_source(), "working\n");
    assert!(s.pending_changes.is_none());
    s.view_snapshot(HistorySnapshot {
        sha: "abc".into(),
        text: "one\ntwo\n".into(),
        parent_text: Some("one\n".into()),
        commit_unix_secs: 77,
    });
    assert_eq!(s.preview_source(), "one\ntwo\n");
    let pc = s.pending_changes.as_ref().unwrap();
    assert!(pc.changed_lines.contains(&2));
    assert_eq!(pc.reload_ts, 77);
    assert_eq!(pc.old_text, "one\n");
}

#[test]
fn finishing_a_preview() {
    let mut s = Session::new(false, true, false);
    s.finish_preview("<html><body>x</body></html>".into(), None, 0);
    assert_eq!(s.preview_html, "<html><body>x</body></html>");
    assert_eq!(s.preview_rev, 1);
    s.load("/tmp/a.md".into(), "x".into(), Some(vec![commit("abc", "ab", "First")]));
    s.finish_preview("<html><body>x</body></html>".into(), None, 1704164645);
    assert_eq!(s.preview_rev, 2);
    assert!(s.preview_html.starts_with("<html><body>x"));
    assert!(s.preview_html.ends_with("\n</body></html>"));
    assert!(s.preview_html.contains("abc"));
}

#[test]
fn sort_state_per_table() {
    let mut s = Session::new(false, true, false);
    assert_eq!(s.sort_indicator(3), None);
    s.sort_snapshots.insert(
        3,
        TableSortSnapshot { original_rows: vec![], col: 1, direction: SortDirection::Descending },
    );
    assert_eq!(s.sort_indicator(3), Some((1, SortDirection::Descending)));
    let rows = vec![vec![]];
    assert_eq!(s.sort_baseline(3, &rows).len(), 0);
    assert_eq!(s.sort_baseline(4, &rows).len(), 1);
    s.forget_sort(3);
    assert_eq!(s.sort_indicator(3), None);
    s.pending_focus_cell = Some((3, -1, 0));
    assert_eq!(s.take_focus_cell(), Some((3, -1, 0)));
    assert_eq!(s.take_focus_cell(), None);
}

#[test]
fn sorting_then_off_restores_the_original_rows() {
    let original = "| name | n |\n|------|---|\n| b | 2 |\n| c | 3 |\n| a | 1 |\n";
    let mut s = Session::new(false, true, false);
    s.load("/tmp/t.md".into(), original.into(), None);

    // Descending on column 0: the rows the sort starts from are kept.
    let mut tables = parse_tables(&s.text);
    let t = &mut tables[0];
    let id = t.id;
    assert_eq!(plan_sort(false, t.alignments.len(), 0, SortDirection::Descending), SortPlan::SortFromTable);
    let baseline = s.sort_baseline(id, &t.rows);
    let sorted = sort_rows(clone_rows(&baseline), 0, SortDirection::Descending, None);
    s.sort_snapshots.insert(
        id,
        TableSortSnapshot { original_rows: baseline, col: 0, direction: SortDirection::Descending },
    );
    let mut shadow = s.text.clone();
    t.replace_rows(sorted, &mut shadow).unwrap();
    s.update_text(shadow);
    assert!(s.text.find("| c").unwrap() < s.text.find("| a").unwrap());

    // Ascending starts from the kept order, not from the descending one.
    let mut tables = parse_tables(&s.text);
    let t = &mut tables[0];
    assert_eq!(t.id, id);
    assert_eq!(plan_sort(true, t.alignments.len(), 0, SortDirection::Ascending), SortPlan::SortFromSnapshot);
    assert_eq!(s.sort_baseline(id, &t.rows)[0][0].content, "b");

    // Off puts the kept rows back.
    assert_eq!(plan_sort(true, t.alignments.len(), 0, SortDirection::Unsorted), SortPlan::Restore);
    let snap = s.sort_snapshots.remove(&id).unwrap();
    let mut shadow = s.text.clone();
    t.replace_rows(snap.original_rows, &mut shadow).unwrap();
    let restored = parse_tables(&shadow);
    let firsts: Vec<&str> = restored[0].rows.iter().map(|r| r[0].content.as_str()).collect();
    assert_eq!(firsts, vec!["b", "c", "a"]);
    assert_eq!(shadow, "| name | n   |\n| ---- | --- |\n| b    | 2   |\n| c    | 3   |\n| a    | 1   |\n");
}

#[test]
fn apply_sort_round_trip_restores_rows_and_forgets_the_order() {
    let original = "| name | n |\n|------|---|\n| b | 2 |\n| c | 3 |\n| a | 1 |\n";
    let mut s = Session::new(false, true, false);
    s.load("/tmp/t.md".into(), original.into(), None);
    let t = parse_tables(&s.text).remove(0);
    let id = t.id;
    let firsts = |rows: &Vec<Vec<rendermd_core::tables::model::Cell>>| -> Vec<String> {
        rows.iter().map(|r| r[0].content.clone()).collect()
    };
    let sorted = s.apply_sort(id, clone_rows(&t.rows), 0, SortDirection::Ascending, None).unwrap();
    assert_eq!(firsts(&sorted), vec!["a", "b", "c"]);
    assert_eq!(s.sort_indicator(id), Some((0, SortDirection::Ascending)));
    // Descending starts from the kept order, not from the ascending rows.
    let desc = s.apply_sort(id, sorted, 0, SortDirection::Descending, None).unwrap();
    assert_eq!(firsts(&desc), vec!["c", "b", "a"]);
    let back = s.apply_sort(id, desc, 0, SortDirection::Unsorted, None).unwrap();
    assert_eq!(firsts(&back), vec!["b", "c", "a"]);
    assert_eq!(s.sort_indicator(id), None);
    assert!(s.sort_snapshots.is_empty());
    assert!(s.apply_sort(id, back, 0, SortDirection::Unsorted, None).is_none());
}
