//! The editor session: the open document and the state kept around it,
//! and what each request or event does to that state. The shell does the
//! outside work (rendering, git, the file system, the window, the clock)
//! and hands its results in.

use std::collections::HashMap;
use vstd::prelude::*;
use crate::diff::{changed_from, compute_changed_lines, PendingChanges};
use crate::history::{
    commits_view, history_rail_html_at, iso_to_unix_secs, rail_html, rfc3339_secs, Commit,
};
use crate::render::{before_body_close, insert_before_body_close};
use crate::tables::model::{clone_rows, rows_view, sort_rows, sorted_rows, Cell, SortDirection};
use crate::requests::TableSortSnapshot;
use crate::text::{
    blen, char_at_byte, char_index, chars_of, eq_str, is_boundary, lines, push_all, push_str,
    slice_vec, string_of, trim, trimmed,
};

verus! {

broadcast use vstd::std_specs::hash::group_hash_axioms;

/// Whether the window shows the rendered preview or the source editor.
#[derive(Clone, Copy, Debug, PartialEq, Eq, Structural)]
pub enum Mode {
    Preview,
    Edit,
}

/// The mode a request names: `edit` is the editor, anything else the
/// preview.
pub open spec fn mode_of(s: Seq<char>) -> Mode {
    if s == "edit"@ {
        Mode::Edit
    } else {
        Mode::Preview
    }
}

/// Read a mode request (see [`mode_of`]).
pub fn parse_mode(s: &str) -> (m: Mode)
    ensures
        m == mode_of(s@),
{
    let v = chars_of(s);
    if eq_str(v.as_slice(), "edit") {
        Mode::Edit
    } else {
        Mode::Preview
    }
}

/// A commit being looked at through the history rail: its text, its
/// parent's text when there is one, and its time.
pub struct HistorySnapshot {
    pub sha: String,
    pub text: String,
    pub parent_text: Option<String>,
    pub commit_unix_secs: i64,
}

/// The open document and the state around it.
pub struct Session {
    /// The document's path, `None` until it is saved.
    pub path: Option<String>,
    /// The text of record; the editor holds a copy of it.
    pub text: String,
    pub is_modified: bool,
    pub mode: Mode,
    /// The last rendered preview page.
    pub preview_html: String,
    /// Raised on every render, so the preview frame reloads.
    pub preview_rev: u64,
    pub dark: bool,
    /// Pre-sort row orders, by table id.
    pub sort_snapshots: HashMap<u64, TableSortSnapshot>,
    /// The cell to focus after the next render: table id, row, column.
    pub pending_focus_cell: Option<(u64, i32, usize)>,
    /// Change bars for the next render (used once).
    pub pending_changes: Option<PendingChanges>,
    /// The document's commits, `None` outside a git repository.
    pub history: Option<Vec<Commit>>,
    pub history_visible: bool,
    pub history_collapsed: bool,
    /// A past version shown instead of the text of record.
    pub viewing_snapshot: Option<HistorySnapshot>,
}

/// Everything but the document fields (path, text, modified flag, mode)
/// is the same in `a` and `b`.
pub open spec fn same_around_document(a: Session, b: Session) -> bool {
    &&& a.preview_html == b.preview_html
    &&& a.preview_rev == b.preview_rev
    &&& a.dark == b.dark
    &&& a.sort_snapshots@ == b.sort_snapshots@
    &&& a.pending_focus_cell == b.pending_focus_cell
    &&& a.pending_changes == b.pending_changes
    &&& a.history == b.history
    &&& a.history_visible == b.history_visible
    &&& a.history_collapsed == b.history_collapsed
    &&& a.viewing_snapshot == b.viewing_snapshot
}

/// The document fields are the same in `a` and `b`.
pub open spec fn same_document(a: Session, b: Session) -> bool {
    &&& a.path == b.path
    &&& a.text == b.text
    &&& a.is_modified == b.is_modified
    &&& a.mode == b.mode
}

/// Only the preview fields (the page, its revision, the pending change
/// bars) may differ between `a` and `b`.
pub open spec fn keeps_all_but_preview(a: Session, b: Session) -> bool {
    &&& same_document(a, b)
    &&& a.dark == b.dark
    &&& a.sort_snapshots@ == b.sort_snapshots@
    &&& a.pending_focus_cell == b.pending_focus_cell
    &&& a.history == b.history
    &&& a.history_visible == b.history_visible
    &&& a.history_collapsed == b.history_collapsed
    &&& a.viewing_snapshot == b.viewing_snapshot
}

impl Session {
    /// A session without a document: empty text in the editor, nothing
    /// kept, the history rail as the settings have it.
    pub fn new(dark: bool, history_visible: bool, history_collapsed: bool) -> (s: Session)
        ensures
            s.path is None,
            s.text@ == Seq::<char>::empty(),
            !s.is_modified,
            s.mode == Mode::Edit,
            s.preview_html@ == Seq::<char>::empty(),
            s.preview_rev == 0,
            s.dark == dark,
            s.sort_snapshots@ == Map::<u64, TableSortSnapshot>::empty(),
            s.pending_focus_cell is None,
            s.pending_changes is None,
            s.history is None,
            s.history_visible == history_visible,
            s.history_collapsed == history_collapsed,
            s.viewing_snapshot is None,
    {
        Session {
            path: None,
            text: String::new(),
            is_modified: false,
            mode: Mode::Edit,
            preview_html: String::new(),
            preview_rev: 0,
            dark,
            sort_snapshots: HashMap::new(),
            pending_focus_cell: None,
            pending_changes: None,
            history: None,
            history_visible,
            history_collapsed,
            viewing_snapshot: None,
        }
    }

    /// The editor's text arrived: it becomes the text of record, and the
    /// document counts as modified when it differs.
    pub fn update_text(&mut self, text: String)
        ensures
            final(self).text == text,
            final(self).is_modified == (old(self).is_modified || text@ != old(self).text@),
            final(self).path == old(self).path,
            final(self).mode == old(self).mode,
            same_around_document(*old(self), *final(self)),
    {
        let a = chars_of(self.text.as_str());
        let b = chars_of(text.as_str());
        let same = crate::text::chars_eq(a.as_slice(), b.as_slice());
        if !same {
            self.is_modified = true;
        }
        self.text = text;
    }

    /// Switch between preview and editor (see [`mode_of`]).
    pub fn set_mode(&mut self, mode: &str)
        ensures
            final(self).mode == mode_of(mode@),
            final(self).path == old(self).path,
            final(self).text == old(self).text,
            final(self).is_modified == old(self).is_modified,
            same_around_document(*old(self), *final(self)),
    {
        self.mode = parse_mode(mode);
    }

    /// Follow the system theme; whether it changed (the preview is then
    /// rendered again).
    pub fn set_dark(&mut self, dark: bool) -> (changed: bool)
        ensures
            changed == (old(self).dark != dark),
            final(self).dark == dark,
            same_document(*old(self), *final(self)),
            final(self).preview_html == old(self).preview_html,
            final(self).preview_rev == old(self).preview_rev,
            final(self).sort_snapshots@ == old(self).sort_snapshots@,
            final(self).pending_focus_cell == old(self).pending_focus_cell,
            final(self).pending_changes == old(self).pending_changes,
            final(self).history == old(self).history,
            final(self).history_visible == old(self).history_visible,
            final(self).history_collapsed == old(self).history_collapsed,
            final(self).viewing_snapshot == old(self).viewing_snapshot,
    {
        let changed = self.dark != dark;
        self.dark = dark;
        changed
    }

    /// A file was opened: its text and commits replace the document, it
    /// opens in the preview, and everything kept for the previous one
    /// (sort orders, change bars, a viewed commit) is dropped.
    pub fn load(&mut self, path: String, text: String, history: Option<Vec<Commit>>)
        ensures
            final(self).path == Some(path),
            final(self).text == text,
            !final(self).is_modified,
            final(self).mode == Mode::Preview,
            final(self).history == history,
            final(self).viewing_snapshot is None,
            final(self).pending_changes is None,
            final(self).sort_snapshots@ == Map::<u64, TableSortSnapshot>::empty(),
            final(self).preview_html == old(self).preview_html,
            final(self).preview_rev == old(self).preview_rev,
            final(self).dark == old(self).dark,
            final(self).pending_focus_cell == old(self).pending_focus_cell,
            final(self).history_visible == old(self).history_visible,
            final(self).history_collapsed == old(self).history_collapsed,
    {
        self.text = text;
        self.history = history;
        self.viewing_snapshot = None;
        self.pending_changes = None;
        self.sort_snapshots = HashMap::new();
        self.path = Some(path);
        self.is_modified = false;
        self.mode = Mode::Preview;
    }

    /// The text was written to `path`: it is the text of record and
    /// unmodified.
    pub fn saved(&mut self, path: String, text: String)
        ensures
            final(self).path == Some(path),
            final(self).text == text,
            !final(self).is_modified,
            final(self).mode == old(self).mode,
            same_around_document(*old(self), *final(self)),
    {
        self.path = Some(path);
        self.text = text;
        self.is_modified = false;
    }

    /// What a change of the file on disk does (`recent_self_write`: it
    /// came within the moments after this editor's own save).
    pub fn external_change(&self, recent_self_write: bool) -> (r: ExternalChange)
        ensures
            r == (if recent_self_write || self.path is None {
                ExternalChange::Ignore
            } else if self.mode == Mode::Edit && self.is_modified {
                ExternalChange::AskToReload
            } else {
                ExternalChange::Reload
            }),
    {
        if recent_self_write || self.path.is_none() {
            ExternalChange::Ignore
        } else if self.mode == Mode::Edit && self.is_modified {
            ExternalChange::AskToReload
        } else {
            ExternalChange::Reload
        }
    }

    /// The file was read again from disk: its text becomes the text of
    /// record, unmodified, and the lines that changed are kept for the
    /// change bars of the next render (stamped `reload_ts`), when any did.
    pub fn reload(&mut self, new_text: String, reload_ts: i64)
        ensures
            final(self).text == new_text,
            !final(self).is_modified,
            !changed_from(lines(old(self).text@), lines(new_text@), 0).is_empty() ==> (
            final(self).pending_changes matches Some(pc) && pc.changed_lines@ == changed_from(
                lines(old(self).text@),
                lines(new_text@),
                0,
            ) && pc.old_text@ == old(self).text@ && pc.reload_ts == reload_ts),
            changed_from(lines(old(self).text@), lines(new_text@), 0).is_empty() ==> final(self).pending_changes
                == old(self).pending_changes,
            final(self).path == old(self).path,
            final(self).mode == old(self).mode,
            final(self).preview_html == old(self).preview_html,
            final(self).preview_rev == old(self).preview_rev,
            final(self).dark == old(self).dark,
            final(self).sort_snapshots@ == old(self).sort_snapshots@,
            final(self).pending_focus_cell == old(self).pending_focus_cell,
            final(self).history == old(self).history,
            final(self).history_visible == old(self).history_visible,
            final(self).history_collapsed == old(self).history_collapsed,
            final(self).viewing_snapshot == old(self).viewing_snapshot,
    {
        let changed = compute_changed_lines(self.text.as_str(), new_text.as_str());
        if !changed.is_empty() {
            let old_text = string_of(chars_of(self.text.as_str()).as_slice());
            self.pending_changes = Some(PendingChanges { changed_lines: changed, old_text, reload_ts });
        }
        self.text = new_text;
        self.is_modified = false;
    }
}

/// What a change of the document's file on disk does.
#[derive(Clone, Copy, Debug, PartialEq, Eq, Structural)]
pub enum ExternalChange {
    /// Nothing: it is this editor's own save, or there is no file.
    Ignore,
    /// Unsaved edits are open in the editor: offer to reload.
    AskToReload,
    /// Read the file again (see [`Session::reload`]).
    Reload,
}

/// What a click on a history rail entry does.
pub enum CommitClick {
    /// Nothing (an empty id, or the working copy while it is shown).
    Ignore,
    /// Stop viewing a past version and show the working copy again.
    ReturnToWorkingCopy,
    /// Fetch and show the commit with this id.
    View(String),
}

/// The id of the commit being viewed, if any.
pub open spec fn viewing_sha(s: Session) -> Option<Seq<char>> {
    match s.viewing_snapshot {
        Some(v) => Some(v.sha@),
        None => None,
    }
}

/// The rail's "current" entry.
pub open spec fn working_entry() -> Seq<char> {
    "__working__"@
}

/// Index of the first commit whose id is `sha`.
pub open spec fn first_commit(cs: Seq<Commit>, sha: Seq<char>) -> Option<int>
    decreases cs.len(),
{
    if cs.len() == 0 {
        None
    } else {
        match first_commit(cs.drop_last(), sha) {
            Some(i) => Some(i),
            None => if cs.last().sha@ == sha {
                Some(cs.len() - 1)
            } else {
                None
            },
        }
    }
}

fn find_commit(cs: &[Commit], sha: &[char]) -> (r: Option<usize>)
    ensures
        match r {
            Some(i) => first_commit(cs@, sha@) == Some(i as int) && i < cs@.len(),
            None => first_commit(cs@, sha@) is None,
        },
{
    let mut i: usize = 0;
    while i < cs.len()
        invariant
            i <= cs@.len(),
            first_commit(cs@.take(i as int), sha@) is None,
        decreases cs@.len() - i,
    {
        let c = chars_of(cs[i].sha.as_str());
        assert(cs@.take(i + 1).drop_last() =~= cs@.take(i as int));
        if crate::text::chars_eq(c.as_slice(), sha) {
            proof {
                lemma_first_commit_prefix(cs@, sha@, i + 1);
            }
            return Some(i);
        }
        i = i + 1;
    }
    assert(cs@.take(cs@.len() as int) =~= cs@);
    None
}

proof fn lemma_first_commit_prefix(cs: Seq<Commit>, sha: Seq<char>, k: int)
    requires
        0 <= k <= cs.len(),
        first_commit(cs.take(k), sha) is Some,
    ensures
        first_commit(cs, sha) == first_commit(cs.take(k), sha),
    decreases cs.len() - k,
{
    if k < cs.len() {
        assert(cs.take(k + 1).drop_last() =~= cs.take(k));
        lemma_first_commit_prefix(cs, sha, k + 1);
    } else {
        assert(cs.take(k) =~= cs);
    }
}

impl Session {
    /// Decide what a click on the rail entry `sha` does: the "current"
    /// entry or the commit already shown go back to the working copy (the
    /// former only when a past version is shown), any other id is viewed.
    pub fn commit_click(&self, sha: &str) -> (r: CommitClick)
        ensures
            ({
                let t = trim(sha@);
                if t.len() == 0 {
                    r is Ignore
                } else if t == working_entry() {
                    if viewing_sha(*self) is Some {
                        r is ReturnToWorkingCopy
                    } else {
                        r is Ignore
                    }
                } else if viewing_sha(*self) == Some(t) {
                    r is ReturnToWorkingCopy
                } else {
                    r matches CommitClick::View(id) && id@ == t
                }
            }),
    {
        let v = chars_of(sha);
        let t = trimmed(v.as_slice());
        if t.len() == 0 {
            return CommitClick::Ignore;
        }
        if eq_str(t.as_slice(), "__working__") {
            return match &self.viewing_snapshot {
                Some(_) => CommitClick::ReturnToWorkingCopy,
                None => CommitClick::Ignore,
            };
        }
        match &self.viewing_snapshot {
            Some(snap) => {
                let cur = chars_of(snap.sha.as_str());
                if crate::text::chars_eq(cur.as_slice(), t.as_slice()) {
                    return CommitClick::ReturnToWorkingCopy;
                }
            },
            None => {},
        }
        CommitClick::View(string_of(t.as_slice()))
    }

    /// Back to the working copy: no past version, no change bars.
    pub fn return_to_working_copy(&mut self)
        ensures
            final(self).viewing_snapshot is None,
            final(self).pending_changes is None,
            same_document(*old(self), *final(self)),
            final(self).preview_html == old(self).preview_html,
            final(self).preview_rev == old(self).preview_rev,
            final(self).dark == old(self).dark,
            final(self).sort_snapshots@ == old(self).sort_snapshots@,
            final(self).pending_focus_cell == old(self).pending_focus_cell,
            final(self).history == old(self).history,
            final(self).history_visible == old(self).history_visible,
            final(self).history_collapsed == old(self).history_collapsed,
    {
        self.viewing_snapshot = None;
        self.pending_changes = None;
    }

    /// Show a fetched past version (its change bars are worked out on the
    /// next render).
    pub fn view_snapshot(&mut self, snapshot: HistorySnapshot)
        ensures
            final(self).viewing_snapshot == Some(snapshot),
            final(self).pending_changes is None,
            same_document(*old(self), *final(self)),
            final(self).preview_html == old(self).preview_html,
            final(self).preview_rev == old(self).preview_rev,
            final(self).dark == old(self).dark,
            final(self).sort_snapshots@ == old(self).sort_snapshots@,
            final(self).pending_focus_cell == old(self).pending_focus_cell,
            final(self).history == old(self).history,
            final(self).history_visible == old(self).history_visible,
            final(self).history_collapsed == old(self).history_collapsed,
    {
        self.pending_changes = None;
        self.viewing_snapshot = Some(snapshot);
    }

    /// The time of the commit with id `sha` (0 when it is not in the
    /// history or its date does not read).
    pub fn commit_time(&self, sha: &str) -> (t: i64)
        ensures
            t == match self.history {
                Some(cs) => match first_commit(cs@, sha@) {
                    Some(i) => match rfc3339_secs(cs@[i].iso_date@) {
                        Some(s) => s,
                        None => 0,
                    },
                    None => 0,
                },
                None => 0,
            },
    {
        match &self.history {
            Some(cs) => {
                let v = chars_of(sha);
                match find_commit(cs.as_slice(), v.as_slice()) {
                    Some(i) => iso_to_unix_secs(cs[i].iso_date.as_str()),
                    None => 0,
                }
            },
            None => 0,
        }
    }

    /// The notice when a commit is shown: "Viewing <short id> — <subject>"
    /// for a commit of the history, else "Viewing" and the id's first
    /// seven bytes.
    pub fn viewing_message(&self, sha: &str) -> (s: String)
        requires
            (match self.history {
                Some(cs) => first_commit(cs@, sha@) is None,
                None => true,
            }) ==> is_boundary(sha@, short_bytes(sha@)),
        ensures
            s@ == match self.history {
                Some(cs) => match first_commit(cs@, sha@) {
                    Some(i) => viewing_text(cs@[i].short_sha@, cs@[i].subject@),
                    None => "Viewing "@ + sha@.take(char_at_byte(sha@, short_bytes(sha@))),
                },
                None => "Viewing "@ + sha@.take(char_at_byte(sha@, short_bytes(sha@))),
            },
    {
        let v = chars_of(sha);
        match &self.history {
            Some(cs) => match find_commit(cs.as_slice(), v.as_slice()) {
                Some(i) => {
                    return viewing_commit_message(cs[i].short_sha.as_str(), cs[i].subject.as_str());
                },
                None => {},
            },
            None => {},
        }
        let mut out: Vec<char> = Vec::new();
        push_str(&mut out, "Viewing ");
        let n = match char_index(v.as_slice(), short_len(v.as_slice())) {
            Some(k) => k,
            None => 0,
        };
        let head = slice_vec(v.as_slice(), 0, n);
        push_all(&mut out, head.as_slice());
        assert(head@ =~= sha@.take(n as int));
        string_of(out.as_slice())
    }

    /// Show or hide the history rail; the notice to show.
    pub fn toggle_history(&mut self) -> (notice: String)
        ensures
            final(self).history_visible == !old(self).history_visible,
            notice@ == (if old(self).history is Some {
                if final(self).history_visible {
                    "History rail shown"@
                } else {
                    "History rail hidden"@
                }
            } else {
                "This file isn't tracked in a git repo"@
            }),
            same_document(*old(self), *final(self)),
            final(self).preview_html == old(self).preview_html,
            final(self).preview_rev == old(self).preview_rev,
            final(self).dark == old(self).dark,
            final(self).sort_snapshots@ == old(self).sort_snapshots@,
            final(self).pending_focus_cell == old(self).pending_focus_cell,
            final(self).pending_changes == old(self).pending_changes,
            final(self).history == old(self).history,
            final(self).history_collapsed == old(self).history_collapsed,
            final(self).viewing_snapshot == old(self).viewing_snapshot,
    {
        self.history_visible = !self.history_visible;
        if self.history.is_some() {
            if self.history_visible {
                String::from_str("History rail shown")
            } else {
                String::from_str("History rail hidden")
            }
        } else {
            String::from_str("This file isn't tracked in a git repo")
        }
    }

    /// Fold or unfold the history rail.
    pub fn toggle_history_collapse(&mut self)
        ensures
            final(self).history_collapsed == !old(self).history_collapsed,
            same_document(*old(self), *final(self)),
            final(self).preview_html == old(self).preview_html,
            final(self).preview_rev == old(self).preview_rev,
            final(self).dark == old(self).dark,
            final(self).sort_snapshots@ == old(self).sort_snapshots@,
            final(self).pending_focus_cell == old(self).pending_focus_cell,
            final(self).pending_changes == old(self).pending_changes,
            final(self).history == old(self).history,
            final(self).history_visible == old(self).history_visible,
            final(self).viewing_snapshot == old(self).viewing_snapshot,
    {
        self.history_collapsed = !self.history_collapsed;
    }
}

/// "Viewing <short id> — <subject>".
pub open spec fn viewing_text(short_sha: Seq<char>, subject: Seq<char>) -> Seq<char> {
    "Viewing "@ + short_sha + " \u{2014} "@ + subject
}

fn viewing_commit_message(short_sha: &str, subject: &str) -> (s: String)
    ensures
        s@ == viewing_text(short_sha@, subject@),
{
    let mut out: Vec<char> = Vec::new();
    push_str(&mut out, "Viewing ");
    push_str(&mut out, short_sha);
    push_str(&mut out, " \u{2014} ");
    push_str(&mut out, subject);
    string_of(out.as_slice())
}

/// The number of bytes of an id shown when it is not in the history: at
/// most seven.
pub open spec fn short_bytes(sha: Seq<char>) -> int {
    if blen(sha) < 7 {
        blen(sha) as int
    } else {
        7
    }
}

fn short_len(v: &[char]) -> (b: usize)
    ensures
        b == short_bytes(v@),
{
    match crate::text::blen_checked(v) {
        Some(n) => if n < 7 {
            n
        } else {
            7
        },
        None => 7,
    }
}

impl Session {
    /// The text to render: the viewed past version, else the text of
    /// record. While a past version with a parent is shown and no change
    /// bars are pending, its differences from the parent become the change
    /// bars (stamped with the commit's time), when there are any.
    pub fn preview_source(&mut self) -> (src: String)
        ensures
            keeps_all_but_preview(*old(self), *final(self)),
            match old(self).viewing_snapshot {
                Some(snap) => {
                    &&& src@ == snap.text@
                    &&& match (old(self).pending_changes, snap.parent_text) {
                        (None, Some(p)) => if changed_from(lines(p@), lines(snap.text@), 0).is_empty() {
                            final(self).pending_changes is None
                        } else {
                            final(self).pending_changes matches Some(pc) && pc.changed_lines@
                                == changed_from(lines(p@), lines(snap.text@), 0) && pc.old_text@ == p@
                                && pc.reload_ts == snap.commit_unix_secs
                        },
                        _ => final(self).pending_changes == old(self).pending_changes,
                    }
                },
                None => src@ == old(self).text@ && final(self).pending_changes
                    == old(self).pending_changes,
            },
            same_document(*old(self), *final(self)),
            final(self).preview_html == old(self).preview_html,
            final(self).preview_rev == old(self).preview_rev,
            final(self).dark == old(self).dark,
            final(self).sort_snapshots@ == old(self).sort_snapshots@,
            final(self).pending_focus_cell == old(self).pending_focus_cell,
            final(self).history == old(self).history,
            final(self).history_visible == old(self).history_visible,
            final(self).history_collapsed == old(self).history_collapsed,
            final(self).viewing_snapshot == old(self).viewing_snapshot,
    {
        match &self.viewing_snapshot {
            Some(snap) => {
                if self.pending_changes.is_none() {
                    match &snap.parent_text {
                        Some(parent) => {
                            let changed = compute_changed_lines(parent.as_str(), snap.text.as_str());
                            if !changed.is_empty() {
                                let old_text = string_of(chars_of(parent.as_str()).as_slice());
                                self.pending_changes = Some(
                                    PendingChanges {
                                        changed_lines: changed,
                                        old_text,
                                        reload_ts: snap.commit_unix_secs,
                                    },
                                );
                            }
                        },
                        None => {},
                    }
                }
                string_of(chars_of(snap.text.as_str()).as_slice())
            },
            None => string_of(chars_of(self.text.as_str()).as_slice()),
        }
    }

    /// Take the pending change bars (they are used by one render).
    pub fn take_pending_changes(&mut self) -> (r: Option<PendingChanges>)
        ensures
            keeps_all_but_preview(*old(self), *final(self)),
            r == old(self).pending_changes,
            final(self).pending_changes is None,
            same_document(*old(self), *final(self)),
            final(self).preview_html == old(self).preview_html,
            final(self).preview_rev == old(self).preview_rev,
            final(self).dark == old(self).dark,
            final(self).sort_snapshots@ == old(self).sort_snapshots@,
            final(self).pending_focus_cell == old(self).pending_focus_cell,
            final(self).history == old(self).history,
            final(self).history_visible == old(self).history_visible,
            final(self).history_collapsed == old(self).history_collapsed,
            final(self).viewing_snapshot == old(self).viewing_snapshot,
    {
        let mut r: Option<PendingChanges> = None;
        std::mem::swap(&mut r, &mut self.pending_changes);
        r
    }

    /// Install a rendered page: the history rail (when the document has
    /// history, drawn at time `now_secs` with links to `remote_url`) goes
    /// before `</body>` unless it is empty, and the revision goes up.
    pub fn finish_preview(&mut self, page: String, remote_url: Option<&str>, now_secs: i64)
        requires
            old(self).preview_rev < u64::MAX,
        ensures
            keeps_all_but_preview(*old(self), *final(self)),
            final(self).preview_rev == old(self).preview_rev + 1,
            final(self).preview_html@ == match old(self).history {
                Some(cs) => {
                    let rail = rail_html(
                        commits_view(cs@),
                        viewing_sha(*old(self)),
                        old(self).history_visible,
                        old(self).history_collapsed,
                        crate::history::opt_view(remote_url),
                        now_secs,
                    );
                    if rail.len() == 0 {
                        page@
                    } else {
                        before_body_close(page@, rail)
                    }
                },
                None => page@,
            },
            same_document(*old(self), *final(self)),
            final(self).dark == old(self).dark,
            final(self).sort_snapshots@ == old(self).sort_snapshots@,
            final(self).pending_focus_cell == old(self).pending_focus_cell,
            final(self).pending_changes == old(self).pending_changes,
            final(self).history == old(self).history,
            final(self).history_visible == old(self).history_visible,
            final(self).history_collapsed == old(self).history_collapsed,
            final(self).viewing_snapshot == old(self).viewing_snapshot,
    {
        let html = match &self.history {
            Some(cs) => {
                let viewing: Option<&str> = match &self.viewing_snapshot {
                    Some(snap) => Some(snap.sha.as_str()),
                    None => None,
                };
                let rail = history_rail_html_at(
                    cs.as_slice(),
                    viewing,
                    self.history_visible,
                    self.history_collapsed,
                    remote_url,
                    now_secs,
                );
                let rv = chars_of(rail.as_str());
                if rv.len() == 0 {
                    page
                } else {
                    insert_before_body_close(page.as_str(), rail.as_str())
                }
            },
            None => page,
        };
        self.preview_html = html;
        self.preview_rev = self.preview_rev + 1;
    }

    /// The sort control state to show on a table: the column and
    /// direction of its kept pre-sort order.
    pub fn sort_indicator(&self, table_id: u64) -> (r: Option<(usize, SortDirection)>)
        ensures
            r == (if self.sort_snapshots@.contains_key(table_id) {
                Some(
                    (
                        self.sort_snapshots@[table_id].col,
                        self.sort_snapshots@[table_id].direction,
                    ),
                )
            } else {
                None
            }),
    {
        match self.sort_snapshots.get(&table_id) {
            Some(snap) => Some((snap.col, snap.direction)),
            None => None,
        }
    }

    /// The rows a sort starts from: the table's kept pre-sort order when
    /// there is one (so that descending reverses the original order, ties
    /// kept stable), else its current rows.
    pub fn sort_baseline(&self, table_id: u64, rows: &Vec<Vec<Cell>>) -> (r: Vec<Vec<Cell>>)
        ensures
            rows_view(r@) == (if self.sort_snapshots@.contains_key(table_id) {
                rows_view(self.sort_snapshots@[table_id].original_rows@)
            } else {
                rows_view(rows@)
            }),
    {
        match self.sort_snapshots.get(&table_id) {
            Some(snap) => clone_rows(&snap.original_rows),
            None => clone_rows(rows),
        }
    }

    /// Drop a table's pre-sort order (after an edit that changes its cells
    /// or its rows and columns).
    pub fn forget_sort(&mut self, table_id: u64)
        ensures
            final(self).sort_snapshots@ == old(self).sort_snapshots@.remove(table_id),
            same_document(*old(self), *final(self)),
            final(self).preview_html == old(self).preview_html,
            final(self).preview_rev == old(self).preview_rev,
            final(self).dark == old(self).dark,
            final(self).pending_focus_cell == old(self).pending_focus_cell,
            final(self).pending_changes == old(self).pending_changes,
            final(self).history == old(self).history,
            final(self).history_visible == old(self).history_visible,
            final(self).history_collapsed == old(self).history_collapsed,
            final(self).viewing_snapshot == old(self).viewing_snapshot,
    {
        self.sort_snapshots.remove(&table_id);
    }

    /// Take the cell to focus after a render.
    pub fn take_focus_cell(&mut self) -> (r: Option<(u64, i32, usize)>)
        ensures
            r == old(self).pending_focus_cell,
            final(self).pending_focus_cell is None,
            same_document(*old(self), *final(self)),
            final(self).preview_html == old(self).preview_html,
            final(self).preview_rev == old(self).preview_rev,
            final(self).dark == old(self).dark,
            final(self).sort_snapshots@ == old(self).sort_snapshots@,
            final(self).pending_changes == old(self).pending_changes,
            final(self).history == old(self).history,
            final(self).history_visible == old(self).history_visible,
            final(self).history_collapsed == old(self).history_collapsed,
            final(self).viewing_snapshot == old(self).viewing_snapshot,
    {
        let r = self.pending_focus_cell;
        self.pending_focus_cell = None;
        r
    }
}

/// What the shell is told about the open document.
pub struct DocInfo {
    pub path: Option<String>,
    pub text: String,
    /// The file's modification time, as the shell formats it.
    pub mtime: Option<String>,
    pub mode: Mode,
    pub rev: u64,
    pub dirty: bool,
}

impl DocInfo {
    /// The document's description, with the file time the shell read.
    pub fn from_state(s: &Session, mtime: Option<String>) -> (d: DocInfo)
        ensures
            match (d.path, s.path) {
                (Some(a), Some(b)) => a@ == b@,
                (None, None) => true,
                _ => false,
            },
            d.text@ == s.text@,
            d.mtime == mtime,
            d.mode == s.mode,
            d.rev == s.preview_rev,
            d.dirty == s.is_modified,
    {
        let path = match &s.path {
            Some(p) => Some(string_of(chars_of(p.as_str()).as_slice())),
            None => None,
        };
        DocInfo {
            path,
            text: string_of(chars_of(s.text.as_str()).as_slice()),
            mtime,
            mode: s.mode,
            rev: s.preview_rev,
            dirty: s.is_modified,
        }
    }
}

/// The rows a sort of table `id` starts from: its kept pre-sort rows
/// when there are any, else `rows`.
pub open spec fn baseline_of(m: Map<u64, TableSortSnapshot>, id: u64, rows: Vec<Vec<Cell>>) -> Vec<Vec<Cell>> {
    if m.contains_key(id) {
        m[id].original_rows
    } else {
        rows
    }
}

/// What the tri-state sort control does to the kept pre-sort orders `m`
/// and what it returns. Off gives back the kept rows of table `id` and
/// forgets them (nothing when none are kept); a direction keeps the rows
/// the sort starts from (see [`baseline_of`]) with the column and
/// direction, and returns them sorted. Other tables are untouched.
pub open spec fn sort_applied(
    m: Map<u64, TableSortSnapshot>,
    id: u64,
    rows: Vec<Vec<Cell>>,
    col: usize,
    direction: SortDirection,
    ranks: Option<Seq<u64>>,
    m_out: Map<u64, TableSortSnapshot>,
    r: Option<Vec<Vec<Cell>>>,
) -> bool {
    if direction == SortDirection::Unsorted {
        if m.contains_key(id) {
            r == Some(m[id].original_rows) && m_out == m.remove(id)
        } else {
            r is None && m_out == m
        }
    } else {
        let base = baseline_of(m, id, rows);
        &&& m_out == m.insert(id, TableSortSnapshot { original_rows: base, col, direction })
        &&& r matches Some(out) && sorted_rows(
            rows_view(base@),
            col,
            ranks,
            direction == SortDirection::Descending,
            rows_view(out@),
        )
    }
}

impl Session {
    /// Apply a click on table `id`'s sort control (see [`sort_applied`]):
    /// `rows` are the table's current body rows and `ranks` the numeric
    /// ranks of the rows the sort starts from, when the column is numeric.
    pub fn apply_sort(
        &mut self,
        table_id: u64,
        rows: Vec<Vec<Cell>>,
        col: usize,
        direction: SortDirection,
        ranks: Option<Vec<u64>>,
    ) -> (r: Option<Vec<Vec<Cell>>>)
        requires
            direction != SortDirection::Unsorted ==> (ranks matches Some(k) ==> k@.len() == baseline_of(
                old(self).sort_snapshots@,
                table_id,
                rows,
            )@.len()),
        ensures
            sort_applied(
                old(self).sort_snapshots@,
                table_id,
                rows,
                col,
                direction,
                match ranks {
                    Some(k) => Some(k@),
                    None => None,
                },
                final(self).sort_snapshots@,
                r,
            ),
            same_document(*old(self), *final(self)),
            final(self).preview_html == old(self).preview_html,
            final(self).preview_rev == old(self).preview_rev,
            final(self).dark == old(self).dark,
            final(self).pending_focus_cell == old(self).pending_focus_cell,
            final(self).pending_changes == old(self).pending_changes,
            final(self).history == old(self).history,
            final(self).history_visible == old(self).history_visible,
            final(self).history_collapsed == old(self).history_collapsed,
            final(self).viewing_snapshot == old(self).viewing_snapshot,
    {
        let ghost m = old(self).sort_snapshots@;
        let kept = self.sort_snapshots.remove(&table_id);
        match direction {
            SortDirection::Unsorted => match kept {
                Some(snap) => Some(snap.original_rows),
                None => {
                    assert(self.sort_snapshots@ =~= m);
                    None
                },
            },
            _ => {
                let baseline = match kept {
                    Some(snap) => snap.original_rows,
                    None => rows,
                };
                assert(baseline == baseline_of(m, table_id, rows));
                let c = clone_rows(&baseline);
                assert(rows_view(c@).len() == c@.len() && rows_view(baseline@).len() == baseline@.len());
                let sorted = sort_rows(c, col, direction, ranks);
                let ghost snap = TableSortSnapshot { original_rows: baseline, col, direction };
                self.sort_snapshots.insert(
                    table_id,
                    TableSortSnapshot { original_rows: baseline, col, direction },
                );
                assert(self.sort_snapshots@ =~= m.insert(table_id, snap));
                Some(sorted)
            },
        }
    }
}

/// A render changes only the preview: taking the source, taking the
/// change bars and installing the page leave the document and every other
/// field as they were, raise the revision by one and leave no change bars
/// pending.
pub proof fn lemma_render_changes_only_preview(s0: Session, s1: Session, s2: Session, s3: Session)
    requires
        keeps_all_but_preview(s0, s1),
        s1.preview_rev == s0.preview_rev,
        keeps_all_but_preview(s1, s2),
        s2.pending_changes is None,
        s2.preview_rev == s1.preview_rev,
        keeps_all_but_preview(s2, s3),
        s3.pending_changes == s2.pending_changes,
        s3.preview_rev == s2.preview_rev + 1,
    ensures
        keeps_all_but_preview(s0, s3),
        s3.preview_rev == s0.preview_rev + 1,
        s3.pending_changes is None,
{
}

/// The sort control's round trip: sorting a table that has no kept order
/// and then turning sorting off gives back exactly the rows it had, and
/// the kept orders are as they were before.
pub proof fn lemma_sort_then_off_restores(
    m0: Map<u64, TableSortSnapshot>,
    id: u64,
    rows: Vec<Vec<Cell>>,
    col: usize,
    direction: SortDirection,
    ranks: Option<Seq<u64>>,
    m1: Map<u64, TableSortSnapshot>,
    sorted: Option<Vec<Vec<Cell>>>,
    rows2: Vec<Vec<Cell>>,
    col2: usize,
    ranks2: Option<Seq<u64>>,
    m2: Map<u64, TableSortSnapshot>,
    restored: Option<Vec<Vec<Cell>>>,
)
    requires
        !m0.contains_key(id),
        direction != SortDirection::Unsorted,
        sort_applied(m0, id, rows, col, direction, ranks, m1, sorted),
        sort_applied(m1, id, rows2, col2, SortDirection::Unsorted, ranks2, m2, restored),
    ensures
        restored == Some(rows),
        m2 == m0,
{
    assert(m1.contains_key(id));
    assert(m2 =~= m0);
}

} // verus!
