//! Git history of the open file: reading `git log` output into commits,
//! the labels of the commit-timeline rail, and the rail's HTML.

use vstd::prelude::*;
use crate::render::{html_escaped, push_html_escaped};
use crate::text::{
    blen, blen_checked, chars_eq, chars_of, dec, find_char, find_char_from, lemma_find_char,
    lines, lines_of, parse_u32, parse_u32_spec, push_all, push_dec, push_str, slice_vec,
    starts_with, string_of, trim, views,
};

verus! {

// ---------------------------------------------------------------------
// Commits
// ---------------------------------------------------------------------

/// One commit that touched the open file: full and short hash, strict
/// ISO commit date, subject, and the lines it added and deleted.
#[derive(Clone, Debug)]
pub struct Commit {
    pub sha: String,
    pub short_sha: String,
    pub iso_date: String,
    pub subject: String,
    pub additions: u32,
    pub deletions: u32,
}

/// The mathematical content of a [`Commit`].
pub struct CommitView {
    pub sha: Seq<char>,
    pub short_sha: Seq<char>,
    pub iso_date: Seq<char>,
    pub subject: Seq<char>,
    pub additions: u32,
    pub deletions: u32,
}

impl View for Commit {
    type V = CommitView;

    open spec fn view(&self) -> CommitView {
        CommitView {
            sha: self.sha@,
            short_sha: self.short_sha@,
            iso_date: self.iso_date@,
            subject: self.subject@,
            additions: self.additions,
            deletions: self.deletions,
        }
    }
}

pub open spec fn commits_view(cs: Seq<Commit>) -> Seq<CommitView> {
    cs.map_values(|c: Commit| c@)
}

// ---------------------------------------------------------------------
// Reading `git log --numstat` output
// ---------------------------------------------------------------------

/// The line that marks a commit header in the log format asked of git.
pub open spec fn header_mark() -> char {
    '\x01'
}

/// `h` split at its first three tabs (`splitn(4, '\t')`): hash, short
/// hash, date, and the subject, which may hold tabs of its own.
pub open spec fn header_fields(h: Seq<char>) -> Option<(Seq<char>, Seq<char>, Seq<char>, Seq<char>)> {
    let a = find_char(h, '\t') as int;
    let h1 = h.skip(a + 1);
    let b = find_char(h1, '\t') as int;
    let h2 = h1.skip(b + 1);
    let c = find_char(h2, '\t') as int;
    if a >= h.len() || b >= h1.len() || c >= h2.len() {
        None
    } else {
        Some((h.take(a), h1.take(b), h2.take(c), h2.skip(c + 1)))
    }
}

/// The first two tab-separated fields of a numstat row (`splitn(3,
/// '\t')`): added and deleted line counts, the second absent without a
/// tab.
pub open spec fn stat_fields(l: Seq<char>) -> (Seq<char>, Option<Seq<char>>) {
    let a = find_char(l, '\t') as int;
    if a >= l.len() {
        (l, None)
    } else {
        let rest = l.skip(a + 1);
        (l.take(a), Some(rest.take(find_char(rest, '\t') as int)))
    }
}

/// A count as `u32::from_str` reads it, 0 when it does not (binary files
/// report `-`).
pub open spec fn count_or_zero(s: Option<Seq<char>>) -> u32 {
    match s {
        Some(t) => match parse_u32_spec(t) {
            Some(n) => n,
            None => 0,
        },
        None => 0,
    }
}

pub open spec fn wrap_add(a: u32, b: u32) -> u32 {
    ((a + b) % 0x1_0000_0000) as u32
}

/// The commits after reading one more line of log output: a header line
/// opens a commit (a header with fewer than four fields is skipped), a
/// non-blank line adds its counts to the last commit (counts wrap around
/// as `u32` does).
pub open spec fn log_step(acc: Seq<CommitView>, line: Seq<char>) -> Seq<CommitView> {
    if line.len() > 0 && line[0] == header_mark() {
        match header_fields(line.drop_first()) {
            Some((sha, short_sha, iso_date, subject)) => acc.push(
                CommitView { sha, short_sha, iso_date, subject, additions: 0, deletions: 0 },
            ),
            None => acc,
        }
    } else if trim(line).len() > 0 && acc.len() > 0 {
        let (a, d) = stat_fields(line);
        let c = acc.last();
        acc.update(
            acc.len() - 1,
            CommitView {
                additions: wrap_add(c.additions, count_or_zero(Some(a))),
                deletions: wrap_add(c.deletions, count_or_zero(d)),
                ..c
            },
        )
    } else {
        acc
    }
}

/// The commits read from the lines `ls`, in order.
pub open spec fn log_commits(ls: Seq<Seq<char>>) -> Seq<CommitView>
    decreases ls.len(),
{
    if ls.len() == 0 {
        seq![]
    } else {
        log_step(log_commits(ls.drop_last()), ls.last())
    }
}

/// The commits of a `git log --numstat` output, `None` when there are
/// none.
pub open spec fn parsed_log(out: Seq<char>) -> Option<Seq<CommitView>> {
    let cs = log_commits(lines(out));
    if cs.len() == 0 {
        None
    } else {
        Some(cs)
    }
}

fn split_header(h: &[char]) -> (r: Option<(Vec<char>, Vec<char>, Vec<char>, Vec<char>)>)
    ensures
        match r {
            Some((a, b, c, d)) => header_fields(h@) == Some((a@, b@, c@, d@)),
            None => header_fields(h@) is None,
        },
{
    let n = h.len();
    let a = find_char_from(h, 0, '\t');
    assert(h@.skip(0) =~= h@);
    if a >= n {
        return None;
    }
    let b = find_char_from(h, a + 1, '\t');
    if b >= n {
        return None;
    }
    let c = find_char_from(h, b + 1, '\t');
    proof {
        let h1 = h@.skip(a + 1);
        let h2 = h1.skip(b - a);
        assert(h2 =~= h@.skip(b + 1));
    }
    if c >= n {
        return None;
    }
    proof {
        let h1 = h@.skip(a + 1);
        let h2 = h1.skip(b - a);
        assert(h1.take(b - a - 1) =~= h@.subrange(a + 1, b as int));
        assert(h2.take(c - b - 1) =~= h@.subrange(b + 1, c as int));
        assert(h2.skip(c - b) =~= h@.subrange(c + 1, n as int));
        assert(h@.take(a as int) =~= h@.subrange(0, a as int));
    }
    Some((slice_vec(h, 0, a), slice_vec(h, a + 1, b), slice_vec(h, b + 1, c), slice_vec(h, c + 1, n)))
}

fn count_field(s: &[char]) -> (n: u32)
    ensures
        n == count_or_zero(Some(s@)),
{
    match parse_u32(s) {
        Some(v) => v,
        None => 0,
    }
}

fn add_stats(c: &mut Commit, line: &[char])
    ensures
        final(c)@ == (CommitView {
            additions: wrap_add(old(c)@.additions, count_or_zero(Some(stat_fields(line@).0))),
            deletions: wrap_add(old(c)@.deletions, count_or_zero(stat_fields(line@).1)),
            ..old(c)@
        }),
{
    let n = line.len();
    let a = find_char_from(line, 0, '\t');
    assert(line@.skip(0) =~= line@);
    if a >= n {
        let add = count_field(line);
        c.additions = c.additions.wrapping_add(add);
        assert(line@.take(line@.len() as int) =~= line@);
    } else {
        let b = find_char_from(line, a + 1, '\t');
        let first = slice_vec(line, 0, a);
        let second = slice_vec(line, a + 1, b);
        proof {
            let rest = line@.skip(a + 1);
            assert(rest.take(b - a - 1) =~= second@);
        }
        let add = count_field(first.as_slice());
        let del = count_field(second.as_slice());
        c.additions = c.additions.wrapping_add(add);
        c.deletions = c.deletions.wrapping_add(del);
    }
}

/// Read the output of `git log --numstat` in the format this app asks
/// for (a `\x01` before each `hash\tshort\tdate\tsubject` header, then
/// `added\tdeleted\tpath` rows) into commits, newest first as git lists
/// them; `None` when there is no commit.
pub fn parse_git_log(out: &str) -> (r: Option<Vec<Commit>>)
    ensures
        match r {
            Some(cs) => parsed_log(out@) == Some(commits_view(cs@)),
            None => parsed_log(out@) is None,
        },
{
    let ls = lines_of(chars_of(out).as_slice());
    let ghost lv = views(ls@);
    let mut commits: Vec<Commit> = Vec::new();
    let mut i: usize = 0;
    assert(lv.take(0) =~= Seq::<Seq<char>>::empty());
    while i < ls.len()
        invariant
            lv == views(ls@),
            lv == lines(out@),
            i <= ls@.len(),
            commits_view(commits@) == log_commits(lv.take(i as int)),
        decreases ls@.len() - i,
    {
        let line = &ls[i];
        let ghost acc = commits_view(commits@);
        assert(lv.take(i + 1).drop_last() =~= lv.take(i as int));
        assert(lv.take(i + 1).last() == line@);
        if line.len() > 0 && line[0] == '\x01' {
            let h = slice_vec(line.as_slice(), 1, line.len());
            assert(h@ =~= line@.drop_first());
            match split_header(h.as_slice()) {
                Some((sha, short_sha, iso_date, subject)) => {
                    let c = Commit {
                        sha: string_of(sha.as_slice()),
                        short_sha: string_of(short_sha.as_slice()),
                        iso_date: string_of(iso_date.as_slice()),
                        subject: string_of(subject.as_slice()),
                        additions: 0,
                        deletions: 0,
                    };
                    commits.push(c);
                    assert(commits_view(commits@) =~= acc.push(c@));
                },
                None => {},
            }
        } else if !crate::text::is_blank(line.as_slice()) && commits.len() > 0 {
            let k = commits.len() - 1;
            let mut c = commits.remove(k);
            add_stats(&mut c, line.as_slice());
            commits.push(c);
            assert(commits_view(commits@) =~= acc.update(acc.len() - 1, c@));
        }
        i = i + 1;
    }
    assert(lv.take(i as int) =~= lv);
    if commits.len() == 0 {
        None
    } else {
        Some(commits)
    }
}

// ---------------------------------------------------------------------
// Dates and ages
// ---------------------------------------------------------------------

/// `YYYY-MM-DD HH:MM` from a strict ISO date such as
/// `2026-06-27T23:49:12-06:00`: the part before the first `T`, a space,
/// and the first five characters after it; just the date part when those
/// are not five bytes.
pub open spec fn commit_datetime(iso: Seq<char>) -> Seq<char> {
    let t = find_char(iso, 'T') as int;
    let date = iso.take(t);
    let time = if t < iso.len() {
        iso.skip(t + 1)
    } else {
        seq![]
    };
    let hm = if time.len() <= 5 {
        time
    } else {
        time.take(5)
    };
    if blen(hm) == 5 {
        date + seq![' '] + hm
    } else {
        date
    }
}

/// Compact date and time of a commit for the history rail.
pub fn format_commit_datetime(iso: &str) -> (r: String)
    ensures
        r@ == commit_datetime(iso@),
{
    let v = chars_of(iso);
    let n = v.len();
    let t = find_char_from(v.as_slice(), 0, 'T');
    assert(v@.skip(0) =~= v@);
    let date = slice_vec(v.as_slice(), 0, t);
    let start = if t < n { t + 1 } else { n };
    let end = if n - start <= 5 { n } else { start + 5 };
    let hm = slice_vec(v.as_slice(), start, end);
    proof {
        let time = if t < n { v@.skip(t + 1) } else { seq![] };
        if t < n {
            assert(time =~= v@.subrange(start as int, n as int));
        } else {
            assert(v@.subrange(start as int, n as int) =~= time);
        }
        if time.len() > 5 {
            assert(time.take(5) =~= hm@);
        } else {
            assert(time =~= hm@);
        }
        assert(v@.take(t as int) =~= date@);
    }
    let w = blen_checked(hm.as_slice());
    let mut out = date;
    if w == Some(5usize) {
        out.push(' ');
        push_all(&mut out, hm.as_slice());
    }
    string_of(out.as_slice())
}

/// A compact "time ago" label: "just now" under a minute, then whole
/// minutes, hours, days, weeks, 30-day months and 365-day years; empty
/// for a time of 0 or earlier (a date that did not parse).
pub open spec fn relative_time(then_secs: i64, now_secs: i64) -> Seq<char> {
    let d = now_secs - then_secs;
    if then_secs <= 0 {
        seq![]
    } else if d < 60 {
        "just now"@
    } else if d < 3_600 {
        dec((d / 60) as nat) + "m ago"@
    } else if d < 86_400 {
        dec((d / 3_600) as nat) + "h ago"@
    } else if d < 604_800 {
        dec((d / 86_400) as nat) + "d ago"@
    } else if d < 2_592_000 {
        dec((d / 604_800) as nat) + "w ago"@
    } else if d < 31_536_000 {
        dec((d / 2_592_000) as nat) + "mo ago"@
    } else {
        dec((d / 31_536_000) as nat) + "y ago"@
    }
}

/// How long ago `then_secs` was at `now_secs`, as a compact label.
pub fn format_relative_time(then_secs: i64, now_secs: i64) -> (r: String)
    ensures
        r@ == relative_time(then_secs, now_secs),
{
    if then_secs <= 0 {
        return String::new();
    }
    let d: i128 = now_secs as i128 - then_secs as i128;
    if d < 60 {
        return String::from_str("just now");
    }
    let mut out: Vec<char> = Vec::new();
    if d < 3_600 {
        push_dec(&mut out, (d / 60) as u64);
        push_str(&mut out, "m ago");
    } else if d < 86_400 {
        push_dec(&mut out, (d / 3_600) as u64);
        push_str(&mut out, "h ago");
    } else if d < 604_800 {
        push_dec(&mut out, (d / 86_400) as u64);
        push_str(&mut out, "d ago");
    } else if d < 2_592_000 {
        push_dec(&mut out, (d / 604_800) as u64);
        push_str(&mut out, "w ago");
    } else if d < 31_536_000 {
        push_dec(&mut out, (d / 2_592_000) as u64);
        push_str(&mut out, "mo ago");
    } else {
        push_dec(&mut out, (d / 31_536_000) as u64);
        push_str(&mut out, "y ago");
    }
    string_of(out.as_slice())
}

/// What `chrono::DateTime::parse_from_rfc3339` reads from `s`, as Unix
/// seconds, or `None` when `s` is not RFC 3339.
pub uninterp spec fn rfc3339_secs(s: Seq<char>) -> Option<i64>;

/// `chrono::DateTime::parse_from_rfc3339(s)` and the parsed instant's
/// `timestamp()`.
#[verifier::external_body]
fn parse_rfc3339(s: &str) -> (r: Option<i64>)
    ensures
        r == rfc3339_secs(s@),
{
    match chrono::DateTime::parse_from_rfc3339(s) {
        Ok(d) => Some(d.timestamp()),
        Err(_) => None,
    }
}

/// Unix seconds of git's `%cI` commit date, 0 when it does not parse.
pub fn iso_to_unix_secs(iso: &str) -> (r: i64)
    ensures
        r == match rfc3339_secs(iso@) {
            Some(t) => t,
            None => 0,
        },
{
    match parse_rfc3339(iso) {
        Some(t) => t,
        None => 0,
    }
}

// ---------------------------------------------------------------------
// Remote links
// ---------------------------------------------------------------------

pub open spec fn strip_prefix(s: Seq<char>, p: Seq<char>) -> Option<Seq<char>> {
    if starts_with(s, p) {
        Some(s.skip(p.len() as int))
    } else {
        None
    }
}

/// The browsable web address of a repository from the URL of its
/// `origin` remote (as `git remote get-url` prints it): an `http(s)://`
/// URL as it is, `git@host:owner/repo` and `ssh://[git@]host/owner/repo`
/// turned into `https://host/owner/repo`; a final `.git` dropped in each
/// case. Anything else has no web address.
pub open spec fn web_url(remote: Seq<char>) -> Option<Seq<char>> {
    let t = trim(remote);
    let raw = if crate::text::ends_with(t, ".git"@) {
        t.take(t.len() - 4)
    } else {
        t
    };
    if starts_with(raw, "http://"@) || starts_with(raw, "https://"@) {
        Some(raw)
    } else {
        match strip_prefix(raw, "git@"@) {
            Some(rest) => {
                let k = find_char(rest, ':') as int;
                if k < rest.len() {
                    Some("https://"@ + rest.take(k) + "/"@ + rest.skip(k + 1))
                } else {
                    match strip_prefix(raw, "ssh://"@) {
                        Some(r2) => Some(
                            "https://"@ + match strip_prefix(r2, "git@"@) {
                                Some(r3) => r3,
                                None => r2,
                            },
                        ),
                        None => None,
                    }
                }
            },
            None => match strip_prefix(raw, "ssh://"@) {
                Some(r2) => Some(
                    "https://"@ + match strip_prefix(r2, "git@"@) {
                        Some(r3) => r3,
                        None => r2,
                    },
                ),
                None => None,
            },
        }
    }
}

fn strip_prefix_exec(s: &[char], p: &str) -> (r: Option<Vec<char>>)
    ensures
        match r {
            Some(v) => strip_prefix(s@, p@) == Some(v@),
            None => strip_prefix(s@, p@) is None,
        },
{
    if crate::text::starts_with_str(s, p) {
        let pv = chars_of(p);
        Some(slice_vec(s, pv.len(), s.len()))
    } else {
        None
    }
}

fn https_of_ssh(r2: &[char]) -> (r: Vec<char>)
    ensures
        r@ == "https://"@ + match strip_prefix(r2@, "git@"@) {
            Some(r3) => r3,
            None => r2@,
        },
{
    let mut out: Vec<char> = Vec::new();
    push_str(&mut out, "https://");
    match strip_prefix_exec(r2, "git@") {
        Some(r3) => push_all(&mut out, r3.as_slice()),
        None => push_all(&mut out, r2),
    }
    out
}

/// The parent commit named by `git rev-parse` output: the output
/// trimmed, or none when nothing is left.
pub fn parent_sha_from_output(out: &str) -> (r: Option<String>)
    ensures
        match r {
            Some(s) => s@ == crate::text::trim(out@) && s@.len() > 0,
            None => crate::text::trim(out@).len() == 0,
        },
{
    let v = chars_of(out);
    let t = crate::text::trimmed(v.as_slice());
    if t.len() == 0 {
        None
    } else {
        Some(crate::text::string_of(t.as_slice()))
    }
}

/// The web address of a repository from its `origin` remote URL (see
/// [`web_url`]).
pub fn web_url_from_remote(remote: &str) -> (r: Option<String>)
    ensures
        match r {
            Some(s) => web_url(remote@) == Some(s@),
            None => web_url(remote@) is None,
        },
{
    proof {
        reveal_strlit(".git");
    }
    let v = chars_of(remote);
    let t = crate::text::trimmed(v.as_slice());
    let raw = if crate::text::ends_with_str(t.as_slice(), ".git") {
        slice_vec(t.as_slice(), 0, t.len() - 4)
    } else {
        t
    };
    if crate::text::starts_with_str(raw.as_slice(), "http://") || crate::text::starts_with_str(
        raw.as_slice(),
        "https://",
    ) {
        return Some(string_of(raw.as_slice()));
    }
    if let Some(rest) = strip_prefix_exec(raw.as_slice(), "git@") {
        let k = find_char_from(rest.as_slice(), 0, ':');
        assert(rest@.skip(0) =~= rest@);
        if k < rest.len() {
            let mut out: Vec<char> = Vec::new();
            push_str(&mut out, "https://");
            push_all(&mut out, slice_vec(rest.as_slice(), 0, k).as_slice());
            push_str(&mut out, "/");
            push_all(&mut out, slice_vec(rest.as_slice(), k + 1, rest.len()).as_slice());
            assert(rest@.subrange(0, k as int) =~= rest@.take(k as int));
            assert(rest@.subrange(k + 1, rest@.len() as int) =~= rest@.skip(k + 1));
            return Some(string_of(out.as_slice()));
        }
    }
    match strip_prefix_exec(raw.as_slice(), "ssh://") {
        Some(r2) => Some(string_of(https_of_ssh(r2.as_slice()).as_slice())),
        None => None,
    }
}

// ---------------------------------------------------------------------
// The history rail
// ---------------------------------------------------------------------

/// Shown instead of the rail while history is hidden: a dot that turns
/// it back on.
pub const HISTORY_HINT_HTML: &'static str = r##"<div class="rmd-history-hint" title="Git history available — click to show"></div>
<script>
(function() {
  if (!window.__rmdPost) return;
  var hint = document.querySelector(".rmd-history-hint");
  if (hint) hint.addEventListener("click", function() {
    window.__rmdPost("toggleHistory", "");
  });
})();
</script>"##;

/// The hint is the `rmd-history-hint` element and turns history back on
/// by posting `toggleHistory` through `window.__rmdPost`.
pub proof fn lemma_hint_parts()
    ensures
        HISTORY_HINT_HTML@.subrange(12, 28) == "rmd-history-hint"@,
        HISTORY_HINT_HTML@.subrange(257, 289) == "window.__rmdPost(\"toggleHistory\""@,
{
    reveal_strlit(r##"<div class="rmd-history-hint" title="Git history available — click to show"></div>
<script>
(function() {
  if (!window.__rmdPost) return;
  var hint = document.querySelector(".rmd-history-hint");
  if (hint) hint.addEventListener("click", function() {
    window.__rmdPost("toggleHistory", "");
  });
})();
</script>"##);
    assert(HISTORY_HINT_HTML@ == r##"<div class="rmd-history-hint" title="Git history available — click to show"></div>
<script>
(function() {
  if (!window.__rmdPost) return;
  var hint = document.querySelector(".rmd-history-hint");
  if (hint) hint.addEventListener("click", function() {
    window.__rmdPost("toggleHistory", "");
  });
})();
</script>"##@);
    reveal_strlit("rmd-history-hint");
    reveal_strlit("window.__rmdPost(\"toggleHistory\"");
    assert(HISTORY_HINT_HTML@.subrange(12, 28) =~= "rmd-history-hint"@);
    assert(HISTORY_HINT_HTML@.subrange(257, 289) =~= "window.__rmdPost(\"toggleHistory\""@);
}

/// Wires the rail's buttons to the host through `window.__rmdPost`.
pub const HISTORY_RAIL_SCRIPT: &'static str = r#"<script>
(function() {
  if (!window.__rmdPost) return;
  document.querySelectorAll(".rmd-history-circle").forEach(function(c) {
    c.addEventListener("click", function() {
      window.__rmdPost("commitClick", c.getAttribute("data-sha") || "");
    });
  });
  document.querySelectorAll(".rmd-history-link").forEach(function(l) {
    l.addEventListener("click", function(e) {
      e.stopPropagation();
      window.__rmdPost("openExternal", l.getAttribute("data-url") || "");
    });
  });
  var tog = document.querySelector(".rmd-history-collapse");
  if (tog) tog.addEventListener("click", function() {
    window.__rmdPost("toggleHistoryCollapse", "");
  });
})();
</script>"#;

/// The rail's opening tag, its collapse toggle and its track.
pub open spec fn rail_head(collapsed: bool) -> Seq<char> {
    let title = if collapsed {
        "Expand history labels"@
    } else {
        "Collapse to dots"@
    };
    "<div class=\""@ + (if collapsed {
        "rmd-history-rail rmd-collapsed"@
    } else {
        "rmd-history-rail"@
    }) + "\" role=\"navigation\" aria-label=\"Commit history\">"@
        + "<button type=\"button\" class=\"rmd-history-collapse\" title=\""@ + html_escaped(title)
        + "\" aria-label=\""@ + html_escaped(title) + "\">"@ + (if collapsed {
        "»"@
    } else {
        "«"@
    }) + "</button>"@ + "<div class=\"rmd-history-track\"></div>"@
}

/// The synthetic "Current" entry, active while no snapshot is viewed.
pub open spec fn current_entry(viewing: Option<Seq<char>>) -> Seq<char> {
    "<div class=\"rmd-history-item\"><button type=\"button\" class=\""@ + (if viewing is None {
        "rmd-history-circle rmd-history-current rmd-history-active"@
    } else {
        "rmd-history-circle rmd-history-current"@
    })
        + "\" data-sha=\"__working__\" title=\"Working copy — the latest saved version\"><span class=\"rmd-history-dot\"></span><span class=\"rmd-history-info\"><span class=\"rmd-history-when\">Current</span></span></button></div>"@
}

/// A commit's hover text: short hash, date, line counts and subject.
pub open spec fn commit_tooltip(c: CommitView) -> Seq<char> {
    c.short_sha + " — "@ + commit_datetime(c.iso_date) + "\n+"@ + dec(c.additions as nat) + " −"@
        + dec(c.deletions as nat) + "\n"@ + c.subject
}

/// A commit's visible label: how long ago it was, or its date when the
/// date does not parse.
pub open spec fn commit_when(c: CommitView, now: i64) -> Seq<char> {
    let then = match rfc3339_secs(c.iso_date) {
        Some(t) => t,
        None => 0,
    };
    let rel = relative_time(then, now);
    if rel.len() == 0 {
        commit_datetime(c.iso_date)
    } else {
        rel
    }
}

/// The button that opens a commit on the remote host, if there is one.
pub open spec fn commit_link(c: CommitView, remote: Option<Seq<char>>) -> Seq<char> {
    match remote {
        Some(url) => "<button type=\"button\" class=\"rmd-history-link\" data-url=\""@ + html_escaped(url)
            + "/commit/"@ + html_escaped(c.sha)
            + "\" title=\"Open commit on remote\" aria-label=\"Open commit on remote\">↗</button>"@,
        None => seq![],
    }
}

/// The start of a commit's entry: its button, hash and hover text.
pub open spec fn entry_head(c: CommitView, viewing: Option<Seq<char>>) -> Seq<char> {
    "<div class=\"rmd-history-item\"><button type=\"button\" class=\""@ + (if viewing == Some(c.sha) {
        "rmd-history-circle rmd-history-active"@
    } else {
        "rmd-history-circle"@
    }) + "\" data-sha=\""@ + html_escaped(c.sha) + "\" title=\""@ + html_escaped(commit_tooltip(c))
}

/// The visible part of a commit's entry: its age and line counts.
pub open spec fn entry_body(c: CommitView, now: i64) -> Seq<char> {
    "\"><span class=\"rmd-history-dot\"></span><span class=\"rmd-history-info\"><span class=\"rmd-history-when\">"@
        + html_escaped(commit_when(c, now))
        + "</span><span class=\"rmd-history-stat\"><span class=\"rmd-history-add\">+"@ + dec(
        c.additions as nat,
    ) + "</span><span class=\"rmd-history-del\">−"@ + dec(c.deletions as nat)
        + "</span></span></span></button>"@
}

/// One commit of the rail.
pub open spec fn commit_entry(c: CommitView, viewing: Option<Seq<char>>, remote: Option<Seq<char>>, now: i64) -> Seq<char> {
    entry_head(c, viewing) + entry_body(c, now) + commit_link(c, remote) + "</div>"@
}

pub open spec fn commit_entries(cs: Seq<CommitView>, viewing: Option<Seq<char>>, remote: Option<Seq<char>>, now: i64) -> Seq<char>
    decreases cs.len(),
{
    if cs.len() == 0 {
        seq![]
    } else {
        commit_entries(cs.drop_last(), viewing, remote, now) + commit_entry(cs.last(), viewing, remote, now)
    }
}

/// The commit-timeline rail at time `now`: nothing without commits, the
/// hint dot while hidden, else the rail with the "Current" entry first,
/// one entry per commit, and the script that reports clicks.
pub open spec fn rail_html(
    cs: Seq<CommitView>,
    viewing: Option<Seq<char>>,
    visible: bool,
    collapsed: bool,
    remote: Option<Seq<char>>,
    now: i64,
) -> Seq<char> {
    if cs.len() == 0 {
        seq![]
    } else if !visible {
        HISTORY_HINT_HTML@
    } else {
        rail_head(collapsed) + current_entry(viewing) + commit_entries(cs, viewing, remote, now) + "</div>"@
            + HISTORY_RAIL_SCRIPT@
    }
}

pub open spec fn opt_view(o: Option<&str>) -> Option<Seq<char>> {
    match o {
        Some(s) => Some(s@),
        None => None,
    }
}

fn push_escaped_str(out: &mut Vec<char>, s: &str)
    ensures
        final(out)@ == old(out)@ + html_escaped(s@),
{
    let v = chars_of(s);
    push_html_escaped(out, v.as_slice());
}

fn push_rail_head(out: &mut Vec<char>, collapsed: bool)
    ensures
        final(out)@ == old(out)@ + rail_head(collapsed),
{
    let ghost start = out@;
    push_str(out, "<div class=\"");
    push_str(out, if collapsed { "rmd-history-rail rmd-collapsed" } else { "rmd-history-rail" });
    push_str(out, "\" role=\"navigation\" aria-label=\"Commit history\">");
    push_str(out, "<button type=\"button\" class=\"rmd-history-collapse\" title=\"");
    let title = if collapsed { "Expand history labels" } else { "Collapse to dots" };
    push_escaped_str(out, title);
    push_str(out, "\" aria-label=\"");
    push_escaped_str(out, title);
    push_str(out, "\">");
    push_str(out, if collapsed { "»" } else { "«" });
    push_str(out, "</button>");
    push_str(out, "<div class=\"rmd-history-track\"></div>");
    assert(out@ =~= start + rail_head(collapsed));
}

fn push_current_entry(out: &mut Vec<char>, viewing: Option<&str>)
    ensures
        final(out)@ == old(out)@ + current_entry(opt_view(viewing)),
{
    let ghost start = out@;
    push_str(out, "<div class=\"rmd-history-item\"><button type=\"button\" class=\"");
    push_str(
        out,
        if viewing.is_none() {
            "rmd-history-circle rmd-history-current rmd-history-active"
        } else {
            "rmd-history-circle rmd-history-current"
        },
    );
    push_str(
        out,
        "\" data-sha=\"__working__\" title=\"Working copy — the latest saved version\"><span class=\"rmd-history-dot\"></span><span class=\"rmd-history-info\"><span class=\"rmd-history-when\">Current</span></span></button></div>",
    );
    assert(out@ =~= start + current_entry(opt_view(viewing)));
}

fn tooltip_of(c: &Commit) -> (r: Vec<char>)
    ensures
        r@ == commit_tooltip(c@),
{
    let mut out = chars_of(c.short_sha.as_str());
    push_str(&mut out, " — ");
    let when = format_commit_datetime(c.iso_date.as_str());
    push_str(&mut out, when.as_str());
    push_str(&mut out, "\n+");
    push_dec(&mut out, c.additions as u64);
    push_str(&mut out, " −");
    push_dec(&mut out, c.deletions as u64);
    push_str(&mut out, "\n");
    push_str(&mut out, c.subject.as_str());
    assert(out@ =~= commit_tooltip(c@));
    out
}

fn when_of(c: &Commit, now: i64) -> (r: String)
    ensures
        r@ == commit_when(c@, now),
{
    let then = iso_to_unix_secs(c.iso_date.as_str());
    let rel = format_relative_time(then, now);
    if rel.as_str().is_empty() {
        format_commit_datetime(c.iso_date.as_str())
    } else {
        rel
    }
}

fn push_entry_head(out: &mut Vec<char>, c: &Commit, viewing: Option<&str>)
    ensures
        final(out)@ == old(out)@ + entry_head(c@, opt_view(viewing)),
{
    let ghost start = out@;
    let active = match viewing {
        Some(v) => {
            let vv = chars_of(v);
            let sv = chars_of(c.sha.as_str());
            chars_eq(vv.as_slice(), sv.as_slice())
        },
        None => false,
    };
    push_str(out, "<div class=\"rmd-history-item\"><button type=\"button\" class=\"");
    push_str(out, if active { "rmd-history-circle rmd-history-active" } else { "rmd-history-circle" });
    push_str(out, "\" data-sha=\"");
    push_escaped_str(out, c.sha.as_str());
    push_str(out, "\" title=\"");
    let tip = tooltip_of(c);
    push_html_escaped(out, tip.as_slice());
    assert(out@ =~= start + entry_head(c@, opt_view(viewing)));
}

fn push_entry_body(out: &mut Vec<char>, c: &Commit, now: i64)
    ensures
        final(out)@ == old(out)@ + entry_body(c@, now),
{
    let ghost start = out@;
    push_str(
        out,
        "\"><span class=\"rmd-history-dot\"></span><span class=\"rmd-history-info\"><span class=\"rmd-history-when\">",
    );
    let when = when_of(c, now);
    push_escaped_str(out, when.as_str());
    push_str(out, "</span><span class=\"rmd-history-stat\"><span class=\"rmd-history-add\">+");
    push_dec(out, c.additions as u64);
    push_str(out, "</span><span class=\"rmd-history-del\">−");
    push_dec(out, c.deletions as u64);
    push_str(out, "</span></span></span></button>");
    assert(out@ =~= start + entry_body(c@, now));
}

fn push_commit_link(out: &mut Vec<char>, c: &Commit, remote: Option<&str>)
    ensures
        final(out)@ == old(out)@ + commit_link(c@, opt_view(remote)),
{
    let ghost start = out@;
    match remote {
        Some(url) => {
            push_str(out, "<button type=\"button\" class=\"rmd-history-link\" data-url=\"");
            push_escaped_str(out, url);
            push_str(out, "/commit/");
            push_escaped_str(out, c.sha.as_str());
            push_str(out, "\" title=\"Open commit on remote\" aria-label=\"Open commit on remote\">↗</button>");
            assert(out@ =~= start + commit_link(c@, opt_view(remote)));
        },
        None => {
            assert(out@ =~= start + commit_link(c@, opt_view(remote)));
        },
    }
}

fn push_commit_entry(out: &mut Vec<char>, c: &Commit, viewing: Option<&str>, remote: Option<&str>, now: i64)
    ensures
        final(out)@ == old(out)@ + commit_entry(c@, opt_view(viewing), opt_view(remote), now),
{
    let ghost start = out@;
    push_entry_head(out, c, viewing);
    push_entry_body(out, c, now);
    push_commit_link(out, c, remote);
    push_str(out, "</div>");
    assert(out@ =~= start + commit_entry(c@, opt_view(viewing), opt_view(remote), now));
}

/// The commit-timeline rail at the given time (see [`rail_html`]).
pub fn history_rail_html_at(
    commits: &[Commit],
    viewing_sha: Option<&str>,
    visible: bool,
    collapsed: bool,
    remote_url: Option<&str>,
    now_secs: i64,
) -> (r: String)
    ensures
        r@ == rail_html(
            commits_view(commits@),
            opt_view(viewing_sha),
            visible,
            collapsed,
            opt_view(remote_url),
            now_secs,
        ),
{
    if commits.len() == 0 {
        return String::new();
    }
    if !visible {
        return String::from_str(HISTORY_HINT_HTML);
    }
    let ghost cv = commits_view(commits@);
    let mut out: Vec<char> = Vec::new();
    push_rail_head(&mut out, collapsed);
    push_current_entry(&mut out, viewing_sha);
    let ghost head = out@;
    let mut i: usize = 0;
    assert(cv.take(0) =~= Seq::<CommitView>::empty());
    while i < commits.len()
        invariant
            cv == commits_view(commits@),
            i <= commits@.len(),
            out@ == head + commit_entries(cv.take(i as int), opt_view(viewing_sha), opt_view(remote_url), now_secs),
        decreases commits@.len() - i,
    {
        push_commit_entry(&mut out, &commits[i], viewing_sha, remote_url, now_secs);
        proof {
            assert(cv.take(i + 1).drop_last() =~= cv.take(i as int));
            assert(cv.take(i + 1).last() == commits@[i as int]@);
        }
        i = i + 1;
    }
    assert(cv.take(i as int) =~= cv);
    push_str(&mut out, "</div>");
    push_str(&mut out, HISTORY_RAIL_SCRIPT);
    string_of(out.as_slice())
}

/// The rail of a document without commits is empty, and a hidden rail is
/// the hint alone, whatever the commits, the viewed commit, the folding,
/// the remote and the time.
pub proof fn lemma_hidden_rail_is_the_hint(
    cs: Seq<CommitView>,
    viewing: Option<Seq<char>>,
    visible: bool,
    collapsed: bool,
    remote: Option<Seq<char>>,
    now: i64,
)
    ensures
        cs.len() == 0 ==> rail_html(cs, viewing, visible, collapsed, remote, now) == Seq::<char>::empty(),
        cs.len() > 0 && !visible ==> rail_html(cs, viewing, visible, collapsed, remote, now)
            == HISTORY_HINT_HTML@,
{
}

/// The current time in Unix seconds (`SystemTime::now` since the Unix
/// epoch; 0 before it).
#[verifier::external_body]
fn unix_now() -> (r: i64) {
    std::time::SystemTime::now().duration_since(std::time::UNIX_EPOCH).map(|d| d.as_secs() as i64).unwrap_or(0)
}

/// The commit-timeline rail as of now; the ages shown depend on the
/// clock, the rest is [`rail_html`] at whatever time it read.
pub fn build_history_rail_html(
    commits: &[Commit],
    viewing_sha: Option<&str>,
    visible: bool,
    collapsed: bool,
    remote_url: Option<&str>,
) -> (r: String)
    ensures
        exists|now: i64|
            r@ == rail_html(
                commits_view(commits@),
                opt_view(viewing_sha),
                visible,
                collapsed,
                opt_view(remote_url),
                now,
            ),
{
    let now = unix_now();
    history_rail_html_at(commits, viewing_sha, visible, collapsed, remote_url, now)
}

} // verus!
