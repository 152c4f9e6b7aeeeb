//! Markdown passes that run before rendering: GitHub-style alerts and
//! ```mermaid fences.
//!
//! An alert (`> [!NOTE]` and its `>` continuation lines) becomes one
//! line of raw HTML: a `<div>` is an HTML block that ends at the next
//! blank line, so the rendered body is kept on a single line. Alerts
//! are handled in two steps around the markdown renderer: their bodies
//! are collected, rendered by the caller, then put in place.

use vstd::prelude::*;
use crate::render::{html_escaped, push_html_escaped};
use crate::text::{
    chars_of, lines, lines_of, push_all, push_str, starts_with, string_of, trim, trim_bounds,
    trim_start, trimmed, views,
};

verus! {

// Octicons (MIT-licensed), close to the icons GitHub shows on alerts.
pub const ALERT_ICON_NOTE: &'static str = r##"<svg viewBox="0 0 16 16" width="16" height="16" fill="currentColor" aria-hidden="true"><path d="M0 8a8 8 0 1 1 16 0A8 8 0 0 1 0 8Zm8-6.5a6.5 6.5 0 1 0 0 13 6.5 6.5 0 0 0 0-13ZM6.5 7.75A.75.75 0 0 1 7.25 7h1a.75.75 0 0 1 .75.75v2.75h.25a.75.75 0 0 1 0 1.5h-2a.75.75 0 0 1 0-1.5h.25v-2h-.25a.75.75 0 0 1-.75-.75ZM8 6a1 1 0 1 1 0-2 1 1 0 0 1 0 2Z"/></svg>"##;

pub const ALERT_ICON_TIP: &'static str = r##"<svg viewBox="0 0 16 16" width="16" height="16" fill="currentColor" aria-hidden="true"><path d="M8 1.5c-2.363 0-4 1.69-4 3.75 0 .984.424 1.625.984 2.304l.214.253c.223.264.47.556.673.848.284.411.537.896.621 1.49a.75.75 0 0 1-1.484.211c-.04-.282-.163-.547-.37-.847a8.456 8.456 0 0 0-.542-.68c-.084-.1-.173-.205-.268-.32C3.201 7.75 2.5 6.766 2.5 5.25 2.5 2.31 4.863 0 8 0s5.5 2.31 5.5 5.25c0 1.516-.701 2.5-1.328 3.259-.095.115-.184.22-.268.319-.207.245-.383.453-.541.681-.208.3-.33.565-.37.847a.751.751 0 0 1-1.485-.212c.084-.593.337-1.078.621-1.489.203-.292.45-.584.673-.848.075-.088.147-.173.213-.253.561-.679.985-1.32.985-2.304 0-2.06-1.637-3.75-4-3.75ZM5.75 12h4.5a.75.75 0 0 1 0 1.5h-4.5a.75.75 0 0 1 0-1.5ZM6 15.25a.75.75 0 0 1 .75-.75h2.5a.75.75 0 0 1 0 1.5h-2.5a.75.75 0 0 1-.75-.75Z"/></svg>"##;

pub const ALERT_ICON_IMPORTANT: &'static str = r##"<svg viewBox="0 0 16 16" width="16" height="16" fill="currentColor" aria-hidden="true"><path d="M0 1.75C0 .784.784 0 1.75 0h12.5C15.216 0 16 .784 16 1.75v9.5A1.75 1.75 0 0 1 14.25 13H8.06l-2.573 2.573A1.458 1.458 0 0 1 3 14.543V13H1.75A1.75 1.75 0 0 1 0 11.25Zm1.75-.25a.25.25 0 0 0-.25.25v9.5c0 .138.112.25.25.25h2a.75.75 0 0 1 .75.75v2.19l2.72-2.72a.749.749 0 0 1 .53-.22h6.5a.25.25 0 0 0 .25-.25v-9.5a.25.25 0 0 0-.25-.25Zm7 2.25v2.5a.75.75 0 0 1-1.5 0v-2.5a.75.75 0 0 1 1.5 0ZM9 9a1 1 0 1 1-2 0 1 1 0 0 1 2 0Z"/></svg>"##;

pub const ALERT_ICON_WARNING: &'static str = r##"<svg viewBox="0 0 16 16" width="16" height="16" fill="currentColor" aria-hidden="true"><path d="M6.457 1.047c.659-1.234 2.427-1.234 3.086 0l6.082 11.378A1.75 1.75 0 0 1 14.082 15H1.918a1.75 1.75 0 0 1-1.543-2.575Zm1.763.707a.25.25 0 0 0-.44 0L1.698 13.132a.25.25 0 0 0 .22.368h12.164a.25.25 0 0 0 .22-.368Zm.53 3.996v2.5a.75.75 0 0 1-1.5 0v-2.5a.75.75 0 0 1 1.5 0ZM9 11a1 1 0 1 1-2 0 1 1 0 0 1 2 0Z"/></svg>"##;

pub const ALERT_ICON_CAUTION: &'static str = r##"<svg viewBox="0 0 16 16" width="16" height="16" fill="currentColor" aria-hidden="true"><path d="M4.47.22A.749.749 0 0 1 5 0h6c.199 0 .389.079.53.22l4.25 4.25c.141.14.22.331.22.53v6a.749.749 0 0 1-.22.53l-4.25 4.25A.749.749 0 0 1 11 16H5a.749.749 0 0 1-.53-.22L.22 11.53A.749.749 0 0 1 0 11V5c0-.199.079-.389.22-.53Zm.84 1.28L1.5 5.31v5.38l3.81 3.81h5.38l3.81-3.81V5.31L10.69 1.5ZM8 4a.75.75 0 0 1 .75.75v3.5a.75.75 0 0 1-1.5 0v-3.5A.75.75 0 0 1 8 4Zm0 8a1 1 0 1 1 0-2 1 1 0 0 1 0 2Z"/></svg>"##;

/// One alert kind: its token, CSS variant, label and icon.
pub type AlertVariant = (&'static str, &'static str, &'static str, &'static str);

/// The alert kind of a token, as character views.
pub open spec fn alert_of_token(tok: Seq<char>) -> Option<(Seq<char>, Seq<char>, Seq<char>, Seq<char>)> {
    if tok == "[!NOTE]"@ {
        Some(("[!NOTE]"@, "note"@, "Note"@, ALERT_ICON_NOTE@))
    } else if tok == "[!TIP]"@ {
        Some(("[!TIP]"@, "tip"@, "Tip"@, ALERT_ICON_TIP@))
    } else if tok == "[!IMPORTANT]"@ {
        Some(("[!IMPORTANT]"@, "important"@, "Important"@, ALERT_ICON_IMPORTANT@))
    } else if tok == "[!WARNING]"@ {
        Some(("[!WARNING]"@, "warning"@, "Warning"@, ALERT_ICON_WARNING@))
    } else if tok == "[!CAUTION]"@ {
        Some(("[!CAUTION]"@, "caution"@, "Caution"@, ALERT_ICON_CAUTION@))
    } else {
        None
    }
}

pub open spec fn variant_view(v: AlertVariant) -> (Seq<char>, Seq<char>, Seq<char>, Seq<char>) {
    (v.0@, v.1@, v.2@, v.3@)
}

/// The five alert kinds, in the order GitHub documents them.
#[verifier::rlimit(40)]
pub fn alert_variants() -> (r: Vec<AlertVariant>)
    ensures
        r@.len() == 5,
        r@[0].0@ == "[!NOTE]"@,
        r@[1].0@ == "[!TIP]"@,
        r@[2].0@ == "[!IMPORTANT]"@,
        r@[3].0@ == "[!WARNING]"@,
        r@[4].0@ == "[!CAUTION]"@,
        forall|i: int| 0 <= i < 5 ==> alert_of_token((#[trigger] r@[i]).0@) == Some(variant_view(r@[i])),
{
    proof {
        reveal_strlit("[!NOTE]");
        reveal_strlit("[!TIP]");
        reveal_strlit("[!IMPORTANT]");
        reveal_strlit("[!WARNING]");
        reveal_strlit("[!CAUTION]");
    }
    let r = vec![
        ("[!NOTE]", "note", "Note", ALERT_ICON_NOTE),
        ("[!TIP]", "tip", "Tip", ALERT_ICON_TIP),
        ("[!IMPORTANT]", "important", "Important", ALERT_ICON_IMPORTANT),
        ("[!WARNING]", "warning", "Warning", ALERT_ICON_WARNING),
        ("[!CAUTION]", "caution", "Caution", ALERT_ICON_CAUTION),
    ];
    assert(r@[0].0@ == "[!NOTE]"@);
    assert(r@[1].0@ == "[!TIP]"@);
    assert(r@[2].0@ == "[!IMPORTANT]"@);
    assert(r@[3].0@ == "[!WARNING]"@);
    assert(r@[4].0@ == "[!CAUTION]"@);
    assert("[!CAUTION]"@.len() == 10 && "[!NOTE]"@.len() == 7 && "[!TIP]"@.len() == 6);
    assert("[!IMPORTANT]"@.len() == 12 && "[!WARNING]"@.len() == 10);
    assert("[!CAUTION]"@[2] == 'C' && "[!WARNING]"@[2] == 'W');
    assert(alert_of_token(r@[0].0@) == Some(variant_view(r@[0])));
    assert(alert_of_token(r@[1].0@) == Some(variant_view(r@[1])));
    assert(alert_of_token(r@[2].0@) == Some(variant_view(r@[2])));
    assert(alert_of_token(r@[3].0@) == Some(variant_view(r@[3])));
    assert(alert_of_token(r@[4].0@) == Some(variant_view(r@[4])));
    r
}

/// The text after a line's `>` marker, trimmed, when the trimmed line
/// starts with `>`.
pub open spec fn after_marker(line: Seq<char>) -> Option<Seq<char>> {
    let t = trim(line);
    if t.len() > 0 && t[0] == '>' {
        Some(trim(t.drop_first()))
    } else {
        None
    }
}

/// The alert kind a line opens, if any (case-sensitive, as on GitHub).
pub open spec fn opener(line: Seq<char>) -> Option<(Seq<char>, Seq<char>, Seq<char>, Seq<char>)> {
    match after_marker(line) {
        Some(a) => alert_of_token(a),
        None => None,
    }
}

/// The alert kind a line like `> [!NOTE]` opens.
pub fn detect_alert_opener(line: &str) -> (r: Option<AlertVariant>)
    ensures
        match r {
            Some(v) => opener(line@) == Some(variant_view(v)),
            None => opener(line@) is None,
        },
{
    let v = chars_of(line);
    let t = trimmed(v.as_slice());
    if t.len() == 0 || t[0] != '>' {
        return None;
    }
    let rest = crate::text::slice_vec(t.as_slice(), 1, t.len());
    assert(rest@ =~= t@.drop_first());
    let after = trimmed(rest.as_slice());
    let vs = alert_variants();
    assert(after_marker(line@) == Some(after@));
    let mut i: usize = 0;
    while i < vs.len()
        invariant
            after_marker(line@) == Some(after@),
            vs@.len() == 5,
            forall|k: int| 0 <= k < 5 ==> alert_of_token((#[trigger] vs@[k]).0@) == Some(variant_view(vs@[k])),
            i <= 5,
            forall|k: int| 0 <= k < i ==> after@ != (#[trigger] vs@[k]).0@,
        decreases 5 - i,
    {
        if crate::text::eq_str(after.as_slice(), vs[i].0) {
            assert(alert_of_token(vs@[i as int].0@) == Some(variant_view(vs@[i as int])));
            return Some(vs[i]);
        }
        i = i + 1;
    }
    assert(after@ != vs@[0].0@ && after@ != vs@[1].0@ && after@ != vs@[2].0@ && after@ != vs@[3].0@ && after@ != vs@[4].0@);
    None
}

/// A blockquote line without its `>` marker and one following space;
/// other lines as they are.
pub open spec fn unquoted(line: Seq<char>) -> Seq<char> {
    let t = trim_start(line);
    if t.len() > 0 && t[0] == '>' {
        let rest = t.drop_first();
        if rest.len() > 0 && rest[0] == ' ' {
            rest.drop_first()
        } else {
            rest
        }
    } else {
        line
    }
}

/// Strip a blockquote marker (`>` and one optional space) from a line.
pub fn strip_blockquote_prefix(line: &str) -> (r: String)
    ensures
        r@ == unquoted(line@),
{
    let v = chars_of(line);
    let (lo, _hi) = trim_bounds(v.as_slice(), 0, v.len());
    assert(v@.subrange(0, v@.len() as int) =~= v@);
    if lo < v.len() && v[lo] == '>' {
        let mut from = lo + 1;
        if from < v.len() && v[from] == ' ' {
            from = from + 1;
        }
        let r = crate::text::slice_vec(v.as_slice(), from, v.len());
        assert(r@ =~= unquoted(line@));
        string_of(r.as_slice())
    } else {
        string_of(v.as_slice())
    }
}

/// A line that continues a blockquote.
pub open spec fn is_quoted(l: Seq<char>) -> bool {
    starts_with(trim_start(l), ">"@)
}

/// Number of blockquote lines at the start of `ls`.
pub open spec fn quote_run(ls: Seq<Seq<char>>) -> nat
    decreases ls.len(),
{
    if ls.len() > 0 && is_quoted(ls[0]) {
        1 + quote_run(ls.drop_first())
    } else {
        0
    }
}

/// The lines joined with line ends between them.
pub open spec fn join_lines(ss: Seq<Seq<char>>) -> Seq<char>
    decreases ss.len(),
{
    if ss.len() == 0 {
        seq![]
    } else if ss.len() == 1 {
        ss[0]
    } else {
        join_lines(ss.drop_last()) + seq!['\n'] + ss.last()
    }
}

/// `s` with every line end turned into a space.
pub open spec fn one_line(s: Seq<char>) -> Seq<char> {
    s.map_values(|c: char| if c == '\n' { ' ' } else { c })
}

/// The HTML of one alert, on a line of its own with a blank line after;
/// `html` is its rendered body.
pub open spec fn alert_div(v: (Seq<char>, Seq<char>, Seq<char>, Seq<char>), html: Seq<char>) -> Seq<char> {
    "\n<div class=\"alert alert-"@ + v.1 + "\"><div class=\"alert-title\">"@ + v.3 + " <span>"@ + v.2
        + "</span></div>"@ + one_line(html) + "</div>\n\n"@
}

/// The markdown body of an alert whose continuation lines start `ls`.
pub open spec fn alert_body(ls: Seq<Seq<char>>) -> Seq<char> {
    join_lines(ls.take(quote_run(ls) as int).map_values(|l: Seq<char>| unquoted(l)))
}

/// The bodies of the alerts from `ls` on, in order.
pub open spec fn bodies_from(ls: Seq<Seq<char>>) -> Seq<Seq<char>>
    decreases ls.len(),
{
    if ls.len() == 0 {
        seq![]
    } else {
        match opener(ls[0]) {
            Some(v) => {
                let rest = ls.drop_first();
                proof {
                    lemma_quote_run(rest);
                }
                seq![alert_body(rest)] + bodies_from(rest.skip(quote_run(rest) as int))
            },
            None => bodies_from(ls.drop_first()),
        }
    }
}

/// The lines from `ls` on with the alerts replaced, their rendered
/// bodies taken in order from `html` (an empty body once `html` runs
/// out), and every other line kept; each line ends with a line end.
pub open spec fn alerts_from(ls: Seq<Seq<char>>, html: Seq<Seq<char>>) -> Seq<char>
    decreases ls.len(),
{
    if ls.len() == 0 {
        seq![]
    } else {
        match opener(ls[0]) {
            Some(v) => {
                let rest = ls.drop_first();
                proof {
                    lemma_quote_run(rest);
                }
                let h = if html.len() > 0 {
                    html[0]
                } else {
                    seq![]
                };
                let later = if html.len() > 0 {
                    html.drop_first()
                } else {
                    html
                };
                alert_div(v, h) + alerts_from(rest.skip(quote_run(rest) as int), later)
            },
            None => ls[0] + seq!['\n'] + alerts_from(ls.drop_first(), html),
        }
    }
}

/// Alerts take the rendered bodies in order: an alert opener, its
/// quoted body lines and the rest of the document become the alert's
/// div around the first rendered body, followed by the rest with the
/// remaining bodies; and the markdown bodies handed out for rendering
/// start with that alert's body, followed by those of the rest.
pub proof fn lemma_alert_takes_next_body(
    l: Seq<char>,
    q: Seq<Seq<char>>,
    rest: Seq<Seq<char>>,
    h: Seq<char>,
    hs: Seq<Seq<char>>,
)
    requires
        opener(l) is Some,
        forall|j: int| 0 <= j < q.len() ==> is_quoted(#[trigger] q[j]),
        rest.len() > 0 ==> !is_quoted(rest[0]),
    ensures
        alerts_from(seq![l] + q + rest, seq![h] + hs) == alert_div(opener(l).unwrap(), h) + alerts_from(
            rest,
            hs,
        ),
        bodies_from(seq![l] + q + rest) == seq![alert_body(q + rest)] + bodies_from(rest),
        alert_body(q + rest) == alert_body(q),
{
    let ls = seq![l] + q + rest;
    let after = q + rest;
    assert(ls.drop_first() =~= after);
    assert forall|j: int| 0 <= j < q.len() implies is_quoted(#[trigger] after[j]) by {
        assert(after[j] == q[j]);
    }
    if q.len() < after.len() {
        assert(after[q.len() as int] == rest[0]);
    }
    lemma_quote_run_is(after, q.len() as int);
    assert(after.skip(q.len() as int) =~= rest);
    assert((seq![h] + hs)[0] == h);
    assert((seq![h] + hs).drop_first() =~= hs);
    lemma_quote_run_is(q, q.len() as int);
    assert(after.take(q.len() as int) =~= q);
    assert(q.take(q.len() as int) =~= q);
}

/// A line that opens no alert is kept as it is, with its line end, and
/// the bodies go on to the lines after it.
pub proof fn lemma_plain_line_kept(l: Seq<char>, rest: Seq<Seq<char>>, html: Seq<Seq<char>>)
    requires
        opener(l) is None,
    ensures
        alerts_from(seq![l] + rest, html) == l + seq!['\n'] + alerts_from(rest, html),
        bodies_from(seq![l] + rest) == bodies_from(rest),
{
    assert((seq![l] + rest).drop_first() =~= rest);
}

pub proof fn lemma_quote_run(ls: Seq<Seq<char>>)
    ensures
        quote_run(ls) <= ls.len(),
        forall|j: int| 0 <= j < quote_run(ls) ==> is_quoted(#[trigger] ls[j]),
        quote_run(ls) < ls.len() ==> !is_quoted(ls[quote_run(ls) as int]),
    decreases ls.len(),
{
    if ls.len() > 0 && is_quoted(ls[0]) {
        lemma_quote_run(ls.drop_first());
        assert forall|j: int| 0 <= j < quote_run(ls) implies is_quoted(#[trigger] ls[j]) by {
            if j > 0 {
                assert(ls[j] == ls.drop_first()[j - 1]);
            }
        }
        if quote_run(ls) < ls.len() {
            assert(ls[quote_run(ls) as int] == ls.drop_first()[quote_run(ls.drop_first()) as int]);
        }
    }
}

proof fn lemma_quote_run_is(ls: Seq<Seq<char>>, k: int)
    requires
        0 <= k <= ls.len(),
        forall|j: int| 0 <= j < k ==> is_quoted(#[trigger] ls[j]),
        k < ls.len() ==> !is_quoted(ls[k]),
    ensures
        quote_run(ls) == k,
    decreases ls.len(),
{
    if k > 0 {
        assert(is_quoted(ls[0]));
        assert forall|j: int| 0 <= j < k - 1 implies is_quoted(#[trigger] ls.drop_first()[j]) by {
            assert(ls.drop_first()[j] == ls[j + 1]);
        }
        if k - 1 < ls.len() - 1 {
            assert(ls.drop_first()[k - 1] == ls[k]);
        }
        lemma_quote_run_is(ls.drop_first(), k - 1);
    } else if ls.len() > 0 {
        assert(!is_quoted(ls[0]));
    }
}

fn is_quoted_exec(l: &[char]) -> (b: bool)
    ensures
        b == is_quoted(l@),
{
    let (lo, _hi) = trim_bounds(l, 0, l.len());
    assert(l@.subrange(0, l@.len() as int) =~= l@);
    let t = crate::text::slice_vec(l, lo, l.len());
    crate::text::starts_with_str(t.as_slice(), ">")
}

/// The body of the alert whose opener is line `i`: its `>` lines
/// without the marker, joined; and the index of the first line after.
fn collect_body(ls: &Vec<Vec<char>>, i: usize) -> (r: (Vec<char>, usize))
    requires
        i < ls@.len(),
    ensures
        ({
            let after = views(ls@).skip(i + 1);
            &&& r.0@ == alert_body(after)
            &&& r.1 == i + 1 + quote_run(after)
            &&& r.1 <= ls@.len()
        }),
{
    let ghost lv = views(ls@);
    let ghost after = lv.skip(i + 1);
    let n = ls.len();
    assert(i < n);
    let mut j = i + 1;
    let mut body: Vec<char> = Vec::new();
    let ghost mut pieces: Seq<Seq<char>> = seq![];
    while j < ls.len() && is_quoted_exec(ls[j].as_slice())
        invariant
            lv == views(ls@),
            i < j <= ls@.len(),
            after == lv.skip(i + 1),
            forall|k: int| 0 <= k < j - i - 1 ==> is_quoted(#[trigger] after[k]),
            pieces == after.take(j - i - 1).map_values(|l: Seq<char>| unquoted(l)),
            body@ == join_lines(pieces),
        decreases ls@.len() - j,
    {
        assert(after[j - i - 1] == ls@[j as int]@);
        let piece = strip_blockquote_prefix(string_of(ls[j].as_slice()).as_str());
        if j > i + 1 {
            body.push('\n');
        }
        push_all(&mut body, chars_of(piece.as_str()).as_slice());
        proof {
            let np = after.take(j - i).map_values(|l: Seq<char>| unquoted(l));
            assert(np =~= pieces.push(unquoted(after[j - i - 1])));
            if j == i + 1 {
                assert(pieces.len() == 0);
                assert(np.len() == 1);
            } else {
                assert(np.drop_last() =~= pieces);
            }
            pieces = np;
        }
        j = j + 1;
    }
    proof {
        if j < ls@.len() {
            assert(after[j - i - 1] == ls@[j as int]@);
        }
        lemma_quote_run_is(after, j - i - 1);
    }
    (body, j)
}

/// The markdown bodies of the GitHub alerts in `text` (`> [!NOTE]`,
/// `[!TIP]`, `[!IMPORTANT]`, `[!WARNING]`, `[!CAUTION]` and the `>`
/// lines after it), in document order, for the caller to render.
pub fn alert_bodies(text: &str) -> (r: Vec<String>)
    ensures
        r@.map_values(|b: String| b@) == bodies_from(lines(text@)),
{
    let v = chars_of(text);
    let ls = lines_of(v.as_slice());
    let ghost lv = views(ls@);
    let mut out: Vec<String> = Vec::new();
    let mut i: usize = 0;
    assert(lv.skip(0) =~= lv);
    while i < ls.len()
        invariant
            lv == views(ls@),
            lv == lines(text@),
            i <= ls@.len(),
            bodies_from(lv) == out@.map_values(|b: String| b@) + bodies_from(lv.skip(i as int)),
        decreases ls@.len() - i,
    {
        let ghost rest = lv.skip(i as int);
        assert(rest[0] == ls@[i as int]@);
        assert(rest.drop_first() =~= lv.skip(i + 1));
        let line = string_of(ls[i].as_slice());
        let ghost before = out@;
        match detect_alert_opener(line.as_str()) {
            Some(_) => {
                let (body, j) = collect_body(&ls, i);
                let b = string_of(body.as_slice());
                out.push(b);
                proof {
                    let after = lv.skip(i + 1);
                    lemma_quote_run(after);
                    assert(after.skip(quote_run(after) as int) =~= lv.skip(j as int));
                    assert(out@.map_values(|b: String| b@) =~= before.map_values(|b: String| b@).push(alert_body(after)));
                }
                i = j;
            },
            None => {
                i = i + 1;
            },
        }
    }
    assert(lv.skip(i as int) =~= Seq::<Seq<char>>::empty());
    assert(out@.map_values(|b: String| b@) + Seq::<Seq<char>>::empty() =~= out@.map_values(|b: String| b@));
    out
}

/// Replace the GitHub alerts of `text` by a single-line
/// `<div class="alert alert-..">` with title, icon and rendered body;
/// `rendered` holds the rendered bodies in the order of
/// [`alert_bodies`]. Other lines are kept.
pub fn preprocess_alerts(text: &str, rendered: &[String]) -> (r: String)
    ensures
        r@ == alerts_from(lines(text@), rendered@.map_values(|b: String| b@)),
{
    let v = chars_of(text);
    let ls = lines_of(v.as_slice());
    let ghost lv = views(ls@);
    let ghost hv_all = rendered@.map_values(|b: String| b@);
    let mut out: Vec<char> = Vec::new();
    let mut i: usize = 0;
    let mut a: usize = 0;
    assert(lv.skip(0) =~= lv);
    assert(hv_all.skip(0) =~= hv_all);
    while i < ls.len()
        invariant
            lv == views(ls@),
            lv == lines(text@),
            hv_all == rendered@.map_values(|b: String| b@),
            i <= ls@.len(),
            a <= rendered@.len(),
            alerts_from(lv, hv_all) == out@ + alerts_from(lv.skip(i as int), hv_all.skip(a as int)),
        decreases ls@.len() - i,
    {
        let ghost rest = lv.skip(i as int);
        let ghost hrest = hv_all.skip(a as int);
        assert(rest[0] == ls@[i as int]@);
        assert(rest.drop_first() =~= lv.skip(i + 1));
        let line = string_of(ls[i].as_slice());
        let ghost before = out@;
        match detect_alert_opener(line.as_str()) {
            Some(var) => {
                let (_body, j) = collect_body(&ls, i);
                push_str(&mut out, "\n<div class=\"alert alert-");
                push_str(&mut out, var.1);
                push_str(&mut out, "\"><div class=\"alert-title\">");
                push_str(&mut out, var.3);
                push_str(&mut out, " <span>");
                push_str(&mut out, var.2);
                push_str(&mut out, "</span></div>");
                let hv: Vec<char> = if a < rendered.len() {
                    assert(hrest[0] == rendered@[a as int]@);
                    chars_of(rendered[a].as_str())
                } else {
                    Vec::new()
                };
                let ghost mark = out@;
                let mut k: usize = 0;
                while k < hv.len()
                    invariant
                        k <= hv@.len(),
                        out@ == mark + one_line(hv@.take(k as int)),
                    decreases hv@.len() - k,
                {
                    let c = hv[k];
                    out.push(if c == '\n' { ' ' } else { c });
                    assert(one_line(hv@.take(k + 1)) =~= one_line(hv@.take(k as int)).push(if c == '\n' { ' ' } else { c }));
                    k = k + 1;
                }
                assert(hv@.take(k as int) =~= hv@);
                push_str(&mut out, "</div>\n\n");
                proof {
                    let after = lv.skip(i + 1);
                    lemma_quote_run(after);
                    assert(after.skip(quote_run(after) as int) =~= lv.skip(j as int));
                    let h = if hrest.len() > 0 { hrest[0] } else { seq![] };
                    assert(hv@ == h);
                    assert(out@ =~= before + alert_div(variant_view(var), h));
                    if a < rendered.len() {
                        assert(hrest.drop_first() =~= hv_all.skip(a + 1));
                    }
                }
                if a < rendered.len() {
                    a = a + 1;
                }
                i = j;
            },
            None => {
                push_all(&mut out, ls[i].as_slice());
                out.push('\n');
                i = i + 1;
            },
        }
    }
    assert(lv.skip(i as int) =~= Seq::<Seq<char>>::empty());
    assert(out@ + Seq::<char>::empty() =~= out@);
    string_of(out.as_slice())
}

// ---------------------------------------------------------------------
// Mermaid fences
// ---------------------------------------------------------------------

/// The lines from `ls` on with each closed ```mermaid fence replaced by
/// a `<pre class="mermaid">` block holding the escaped diagram, and
/// whether any fence was replaced. An unclosed fence is written back as
/// it was.
pub open spec fn mermaid_from(ls: Seq<Seq<char>>, in_block: bool, buf: Seq<char>, had: bool) -> (Seq<char>, bool)
    decreases ls.len(),
{
    if ls.len() == 0 {
        if in_block {
            ("```mermaid\n"@ + buf, had)
        } else {
            (seq![], had)
        }
    } else {
        let l = ls[0];
        let rest = ls.drop_first();
        if in_block {
            if trim(l) == "```"@ {
                let (o, h) = mermaid_from(rest, false, seq![], true);
                ("\n<pre class=\"mermaid\">\n"@ + html_escaped(buf) + "</pre>\n\n"@ + o, h)
            } else {
                mermaid_from(rest, true, buf + l + seq!['\n'], had)
            }
        } else if trim(l) == "```mermaid"@ {
            mermaid_from(rest, true, seq![], had)
        } else {
            let (o, h) = mermaid_from(rest, false, buf, had);
            (l + seq!['\n'] + o, h)
        }
    }
}


/// Each line followed by a line end.
pub open spec fn ended(ls: Seq<Seq<char>>) -> Seq<char>
    decreases ls.len(),
{
    if ls.len() == 0 {
        seq![]
    } else {
        ls[0] + seq!['\n'] + ended(ls.drop_first())
    }
}

proof fn lemma_mermaid_unclosed(ls: Seq<Seq<char>>, in_block: bool, buf: Seq<char>)
    requires
        !mermaid_from(ls, in_block, buf, false).1,
        forall|j: int| 0 <= j < ls.len() && trim(#[trigger] ls[j]) == "```mermaid"@ ==> ls[j] == "```mermaid"@,
    ensures
        mermaid_from(ls, in_block, buf, false).0 == (if in_block {
            "```mermaid\n"@ + buf
        } else {
            seq![]
        }) + ended(ls),
    decreases ls.len(),
{
    reveal_strlit("```mermaid\n");
    reveal_strlit("```mermaid");
    if ls.len() > 0 {
        let l = ls[0];
        let rest = ls.drop_first();
        assert forall|j: int| 0 <= j < rest.len() && trim(#[trigger] rest[j]) == "```mermaid"@ implies rest[j] == "```mermaid"@ by {
            assert(rest[j] == ls[j + 1]);
        }
        if in_block {
            if trim(l) == "```"@ {
                lemma_mermaid_closes(rest);
            } else {
                lemma_mermaid_unclosed(rest, true, buf + l + seq!['\n']);
                assert("```mermaid\n"@ + (buf + l + seq!['\n']) + ended(rest) =~= "```mermaid\n"@ + buf + ended(ls));
            }
        } else if trim(l) == "```mermaid"@ {
            lemma_mermaid_unclosed(rest, true, seq![]);
            assert(l == "```mermaid"@);
            assert("```mermaid\n"@ + Seq::<char>::empty() + ended(rest) =~= Seq::<char>::empty() + ended(ls));
        } else {
            lemma_mermaid_unclosed(rest, false, buf);
            assert(l + seq!['\n'] + (Seq::<char>::empty() + ended(rest)) =~= Seq::<char>::empty() + ended(ls));
        }
    } else {
        if in_block {
            assert("```mermaid\n"@ + buf =~= "```mermaid\n"@ + buf + ended(ls));
        }
    }
}

proof fn lemma_mermaid_closes(ls: Seq<Seq<char>>)
    ensures
        mermaid_from(ls, false, seq![], true).1,
    decreases ls.len(),
{
    lemma_mermaid_had_stays(ls, false, seq![]);
}

proof fn lemma_mermaid_had_stays(ls: Seq<Seq<char>>, in_block: bool, buf: Seq<char>)
    ensures
        mermaid_from(ls, in_block, buf, true).1,
    decreases ls.len(),
{
    if ls.len() > 0 {
        let l = ls[0];
        let rest = ls.drop_first();
        if in_block {
            if trim(l) == "```"@ {
                lemma_mermaid_had_stays(rest, false, seq![]);
            } else {
                lemma_mermaid_had_stays(rest, true, buf + l + seq!['\n']);
            }
        } else if trim(l) == "```mermaid"@ {
            lemma_mermaid_had_stays(rest, true, seq![]);
        } else {
            lemma_mermaid_had_stays(rest, false, buf);
        }
    }
}

/// Without a closed diagram nothing is lost: every line comes back, each
/// followed by a line end, an unclosed fence included (for fence lines
/// written exactly as three backticks and `mermaid`).
pub proof fn lemma_no_diagram_keeps_text(text: Seq<char>)
    requires
        !mermaid_from(lines(text), false, seq![], false).1,
        forall|j: int|
            0 <= j < lines(text).len() && trim(#[trigger] lines(text)[j]) == "```mermaid"@ ==> lines(text)[j]
                == "```mermaid"@,
    ensures
        mermaid_from(lines(text), false, seq![], false).0 == ended(lines(text)),
{
    lemma_mermaid_unclosed(lines(text), false, seq![]);
    assert(Seq::<char>::empty() + ended(lines(text)) =~= ended(lines(text)));
}

/// Turn each ```mermaid fence into `<pre class="mermaid">SOURCE</pre>`
/// (a `<pre>` block survives blank lines inside the diagram). Returns
/// the text and whether any fence was turned.
pub fn preprocess_mermaid_blocks(text: &str) -> (r: (String, bool))
    ensures
        (r.0@, r.1) == mermaid_from(lines(text@), false, seq![], false),
{
    let v = chars_of(text);
    let ls = lines_of(v.as_slice());
    let ghost lv = views(ls@);
    let ghost target = mermaid_from(lv, false, seq![], false);
    let mut out: Vec<char> = Vec::new();
    let mut had = false;
    let mut in_block = false;
    let mut buf: Vec<char> = Vec::new();
    let mut i: usize = 0;
    assert(lv.skip(0) =~= lv);
    while i < ls.len()
        invariant
            lv == views(ls@),
            lv == lines(text@),
            target == mermaid_from(lv, false, seq![], false),
            i <= ls@.len(),
            target.0 == out@ + mermaid_from(lv.skip(i as int), in_block, buf@, had).0,
            target.1 == mermaid_from(lv.skip(i as int), in_block, buf@, had).1,
        decreases ls@.len() - i,
    {
        let ghost rest = lv.skip(i as int);
        assert(rest[0] == ls@[i as int]@);
        assert(rest.drop_first() =~= lv.skip(i + 1));
        let line = &ls[i];
        let t = trimmed(line.as_slice());
        let ghost out0 = out@;
        let ghost buf0 = buf@;
        let ghost had0 = had;
        let ghost inb0 = in_block;
        if in_block {
            if crate::text::eq_str(t.as_slice(), "```") {
                push_str(&mut out, "\n<pre class=\"mermaid\">\n");
                push_html_escaped(&mut out, buf.as_slice());
                push_str(&mut out, "</pre>\n\n");
                in_block = false;
                had = true;
                buf = Vec::new();
                assert(buf@ =~= Seq::<char>::empty());
            } else {
                push_all(&mut buf, line.as_slice());
                buf.push('\n');
            }
        } else if crate::text::eq_str(t.as_slice(), "```mermaid") {
            in_block = true;
            buf = Vec::new();
            assert(buf@ =~= Seq::<char>::empty());
        } else {
            push_all(&mut out, line.as_slice());
            out.push('\n');
        }
        proof {
            let l = line@;
            let nxt = lv.skip(i + 1);
            if inb0 {
                if trim(l) == "```"@ {
                    let (o, h) = mermaid_from(nxt, false, seq![], true);
                    assert(mermaid_from(rest, inb0, buf0, had0) == ("\n<pre class=\"mermaid\">\n"@ + html_escaped(buf0) + "</pre>\n\n"@ + o, h));
                    assert(out@ =~= out0 + ("\n<pre class=\"mermaid\">\n"@ + html_escaped(buf0) + "</pre>\n\n"@));
                    assert(out0 + mermaid_from(rest, inb0, buf0, had0).0 =~= out@ + o);
                } else {
                    assert(buf@ =~= buf0 + l + seq!['\n']);
                }
            } else if trim(l) == "```mermaid"@ {
            } else {
                let (o, h) = mermaid_from(nxt, false, buf0, had0);
                assert(out0 + mermaid_from(rest, inb0, buf0, had0).0 =~= out@ + o);
            }
        }
        i = i + 1;
    }
    assert(lv.skip(i as int) =~= Seq::<Seq<char>>::empty());
    if in_block {
        push_str(&mut out, "```mermaid\n");
        push_all(&mut out, buf.as_slice());
    } else {
        assert(out@ + Seq::<char>::empty() =~= out@);
    }
    (string_of(out.as_slice()), had)
}

// ---------------------------------------------------------------------
// The whole pass before rendering
// ---------------------------------------------------------------------

/// The alert bodies of a document once its emoji are replaced: what the
/// renderer turns into HTML before [`prepare_source`].
pub fn source_alert_bodies(text: &str) -> (r: Vec<String>)
    ensures
        r@.map_values(|b: String| b@) == bodies_from(lines(crate::emoji::emoji_lines(lines(text@), false))),
{
    let e = crate::emoji::preprocess_emoji(text);
    alert_bodies(e.as_str())
}

/// The source the renderer reads, and whether it holds a diagram: emoji
/// replaced, alerts replaced by their rendered `<div>`s, Mermaid blocks
/// turned into diagram containers.
pub open spec fn prepared(text: Seq<char>, rendered: Seq<Seq<char>>) -> (Seq<char>, bool) {
    let e = crate::emoji::emoji_lines(lines(text), false);
    let a = alerts_from(lines(e), rendered);
    mermaid_from(lines(a), false, seq![], false)
}

/// Run the passes before rendering (see [`prepared`]); `rendered` holds
/// the HTML of the bodies [`source_alert_bodies`] lists.
pub fn prepare_source(text: &str, rendered: &[String]) -> (r: (String, bool))
    ensures
        (r.0@, r.1) == prepared(text@, rendered@.map_values(|b: String| b@)),
{
    let e = crate::emoji::preprocess_emoji(text);
    let a = preprocess_alerts(e.as_str(), rendered);
    preprocess_mermaid_blocks(a.as_str())
}

} // verus!
