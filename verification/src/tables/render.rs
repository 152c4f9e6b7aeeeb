//! Post-processing of rendered table HTML: every header and body cell of
//! a table that the parser recognised gets the `data-*` attributes the
//! editor's click-to-edit layer addresses it by. Everything else passes
//! through unchanged.

use vstd::prelude::*;
use vstd::string::StringSliceAdditionalSpecFns;
use crate::tables::model::{Alignment, MarkdownTable, SortDirection, TableView};
use crate::tables::parse::tables_view;
use crate::text::{chars_of, dec, find_char, find_char_from, lemma_find_char, push_all, push_dec, push_str, string_of};
use crate::render::{before_body_close, insert_before_body_close};

verus! {

// ---------------------------------------------------------------------
// Percent encoding
// ---------------------------------------------------------------------

/// An unreserved byte of RFC 3986: ASCII letters and digits, `-_.~`.
pub open spec fn unreserved(b: u8) -> bool {
    (0x30 <= b <= 0x39) || (0x41 <= b <= 0x5A) || (0x61 <= b <= 0x7A) || b == 0x2D || b == 0x5F || b == 0x2E
        || b == 0x7E
}

/// Upper-case hexadecimal digit of `d < 16`.
pub open spec fn hex_digit(d: u8) -> char {
    if d < 10 {
        (d + 48) as char
    } else {
        (d + 55) as char
    }
}

/// How one byte is written: itself when unreserved, else `%XX`.
pub open spec fn pct_byte(b: u8) -> Seq<char> {
    if unreserved(b) {
        seq![b as char]
    } else {
        seq!['%', hex_digit(b / 16), hex_digit(b % 16)]
    }
}

pub open spec fn pct_bytes(bs: Seq<u8>) -> Seq<char>
    decreases bs.len(),
{
    if bs.len() == 0 {
        seq![]
    } else {
        pct_bytes(bs.drop_last()) + pct_byte(bs.last())
    }
}

/// The percent encoding of `s`'s UTF-8 bytes.
pub open spec fn pct(s: Seq<char>) -> Seq<char> {
    pct_bytes(vstd::utf8::encode_utf8(s))
}

fn hex_char(d: u8) -> (c: char)
    requires
        d < 16,
    ensures
        c == hex_digit(d),
{
    if d < 10 {
        (d + 48) as char
    } else {
        (d + 55) as char
    }
}

fn push_pct(out: &mut Vec<char>, s: &str)
    ensures
        final(out)@ == old(out)@ + pct(s@),
{
    let bytes = s.as_bytes();
    let ghost start = out@;
    let mut i: usize = 0;
    assert(bytes@.take(0) =~= Seq::<u8>::empty());
    while i < bytes.len()
        invariant
            i <= bytes@.len(),
            bytes@ == s.spec_bytes(),
            out@ == start + pct_bytes(bytes@.take(i as int)),
        decreases bytes@.len() - i,
    {
        let b = bytes[i];
        let is_unres = (b >= 0x30 && b <= 0x39) || (b >= 0x41 && b <= 0x5A) || (b >= 0x61 && b <= 0x7A) || b
            == 0x2D || b == 0x5F || b == 0x2E || b == 0x7E;
        if is_unres {
            out.push(b as char);
        } else {
            out.push('%');
            out.push(hex_char(b / 16));
            out.push(hex_char(b % 16));
        }
        proof {
            assert(bytes@.take(i + 1).drop_last() =~= bytes@.take(i as int));
            assert(bytes@.take(i + 1).last() == b);
            assert(out@ =~= start + pct_bytes(bytes@.take(i + 1)));
        }
        i = i + 1;
    }
    assert(bytes@.take(i as int) =~= bytes@);
}

/// Percent-encode `s` for `decodeURIComponent`: RFC 3986 unreserved
/// bytes stay, every other UTF-8 byte becomes `%XX` (upper-case hex).
pub fn percent_encode(s: &str) -> (r: String)
    ensures
        r@ == pct(s@),
{
    let mut out: Vec<char> = Vec::new();
    push_pct(&mut out, s);
    assert(out@ =~= pct(s@));
    string_of(out.as_slice())
}

// ---------------------------------------------------------------------
// Tag names
// ---------------------------------------------------------------------

pub open spec fn is_ascii_alpha(c: char) -> bool {
    ('a' <= c <= 'z') || ('A' <= c <= 'Z')
}

pub open spec fn is_ascii_alnum(c: char) -> bool {
    is_ascii_alpha(c) || ('0' <= c <= '9')
}

pub open spec fn ascii_lower(c: char) -> char {
    if 'A' <= c <= 'Z' {
        ((c as u32) + 32) as char
    } else {
        c
    }
}

/// The leading ASCII letters and digits of `s`, lower-cased.
pub open spec fn alnum_prefix(s: Seq<char>) -> Seq<char>
    decreases s.len(),
{
    if s.len() == 0 || !is_ascii_alnum(s[0]) {
        seq![]
    } else {
        seq![ascii_lower(s[0])] + alnum_prefix(s.drop_first())
    }
}

/// Drop every leading `c`.
pub open spec fn drop_leading(s: Seq<char>, c: char) -> Seq<char>
    decreases s.len(),
{
    if s.len() > 0 && s[0] == c {
        drop_leading(s.drop_first(), c)
    } else {
        s
    }
}

/// Drop every trailing `c`.
pub open spec fn drop_trailing(s: Seq<char>, c: char) -> Seq<char>
    decreases s.len(),
{
    if s.len() > 0 && s.last() == c {
        drop_trailing(s.drop_last(), c)
    } else {
        s
    }
}

/// The name of a tag `<...>`, lower-cased, with a `/` in front for an
/// end tag; empty when the tag starts with something else.
pub open spec fn tag_name(tag: Seq<char>) -> Seq<char> {
    let inner = crate::text::trim(drop_trailing(drop_leading(tag, '<'), '>'));
    if inner.len() == 0 {
        seq![]
    } else if inner[0] == '/' {
        seq!['/'] + alnum_prefix(inner.drop_first())
    } else if is_ascii_alpha(inner[0]) {
        alnum_prefix(inner)
    } else {
        seq![]
    }
}

fn ascii_lower_exec(c: char) -> (r: char)
    ensures
        r == ascii_lower(c),
{
    if c >= 'A' && c <= 'Z' {
        ((c as u8) + 32) as char
    } else {
        c
    }
}

fn alnum_prefix_exec(s: &[char], from: usize) -> (r: Vec<char>)
    requires
        from <= s@.len(),
    ensures
        r@ == alnum_prefix(s@.skip(from as int)),
{
    let mut out: Vec<char> = Vec::new();
    let mut i = from;
    assert(s@.skip(from as int) =~= s@.skip(from as int));
    while i < s.len() && ((s[i] >= 'a' && s[i] <= 'z') || (s[i] >= 'A' && s[i] <= 'Z') || (s[i] >= '0' && s[i] <= '9'))
        invariant
            from <= i <= s@.len(),
            alnum_prefix(s@.skip(from as int)) == out@ + alnum_prefix(s@.skip(i as int)),
        decreases s@.len() - i,
    {
        assert(s@.skip(i as int)[0] == s@[i as int]);
        assert(s@.skip(i as int).drop_first() =~= s@.skip(i + 1));
        out.push(ascii_lower_exec(s[i]));
        proof {
            assert(out@ + alnum_prefix(s@.skip(i + 1)) =~= out@.drop_last() + (seq![ascii_lower(s@[i as int])]
                + alnum_prefix(s@.skip(i + 1))));
        }
        i = i + 1;
    }
    if i < s.len() {
        assert(s@.skip(i as int)[0] == s@[i as int]);
    }
    assert(alnum_prefix(s@.skip(i as int)) == Seq::<char>::empty());
    assert(out@ + Seq::<char>::empty() =~= out@);
    out
}

fn drop_leading_exec(s: &[char], c: char) -> (r: usize)
    ensures
        r <= s@.len(),
        s@.skip(r as int) == drop_leading(s@, c),
{
    let mut i: usize = 0;
    assert(s@.skip(0) =~= s@);
    while i < s.len() && s[i] == c
        invariant
            i <= s@.len(),
            drop_leading(s@, c) == drop_leading(s@.skip(i as int), c),
        decreases s@.len() - i,
    {
        assert(s@.skip(i as int).drop_first() =~= s@.skip(i + 1));
        i = i + 1;
    }
    i
}

fn drop_trailing_exec(s: &[char], lo: usize, c: char) -> (r: usize)
    requires
        lo <= s@.len(),
    ensures
        lo <= r <= s@.len(),
        s@.subrange(lo as int, r as int) == drop_trailing(s@.skip(lo as int), c),
{
    let mut j = s.len();
    assert(s@.subrange(lo as int, j as int) =~= s@.skip(lo as int));
    while j > lo && s[j - 1] == c
        invariant
            lo <= j <= s@.len(),
            drop_trailing(s@.skip(lo as int), c) == drop_trailing(s@.subrange(lo as int, j as int), c),
        decreases j,
    {
        assert(s@.subrange(lo as int, j as int).drop_last() =~= s@.subrange(lo as int, j - 1));
        j = j - 1;
    }
    j
}

/// The tag's name (see [`tag_name`]).
fn peek_tag_name(tag: &[char]) -> (r: Vec<char>)
    ensures
        r@ == tag_name(tag@),
{
    let lo = drop_leading_exec(tag, '<');
    let hi = drop_trailing_exec(tag, lo, '>');
    let inner = crate::text::trimmed(crate::text::slice_vec(tag, lo, hi).as_slice());
    assert(tag@.subrange(lo as int, hi as int) == drop_trailing(drop_leading(tag@, '<'), '>'));
    if inner.len() == 0 {
        return Vec::new();
    }
    let c = inner[0];
    if c == '/' {
        let mut out: Vec<char> = Vec::new();
        out.push('/');
        let rest = alnum_prefix_exec(inner.as_slice(), 1);
        push_all(&mut out, rest.as_slice());
        assert(inner@.skip(1) =~= inner@.drop_first());
        out
    } else if (c >= 'a' && c <= 'z') || (c >= 'A' && c <= 'Z') {
        assert(inner@.skip(0) =~= inner@);
        alnum_prefix_exec(inner.as_slice(), 0)
    } else {
        Vec::new()
    }
}

// ---------------------------------------------------------------------
// Injecting cell attributes
// ---------------------------------------------------------------------

/// Where the scan stands: which parsed table the next `<table>` is,
/// whether it is inside a table, its head and a row, and the current
/// row and column.
pub struct InjState {
    pub table_idx: nat,
    pub in_table: bool,
    pub in_head: bool,
    pub in_row: bool,
    pub row_idx: int,
    pub col_idx: nat,
}

pub open spec fn inj_init() -> InjState {
    InjState { table_idx: 0, in_table: false, in_head: false, in_row: false, row_idx: -1, col_idx: 0 }
}

/// The state after a tag named `name`.
pub open spec fn structural(st: InjState, name: Seq<char>) -> InjState {
    if name == "table"@ {
        InjState { in_table: true, ..st }
    } else if name == "/table"@ {
        InjState { in_table: false, in_head: false, in_row: false, table_idx: st.table_idx + 1, row_idx: -1, col_idx: 0 }
    } else if name == "thead"@ {
        InjState { in_head: true, row_idx: -1, ..st }
    } else if name == "/thead"@ {
        InjState { in_head: false, ..st }
    } else if name == "tbody"@ {
        InjState { row_idx: -1, ..st }
    } else if name == "tr"@ {
        InjState { in_row: true, col_idx: 0, row_idx: if st.in_head { st.row_idx } else { st.row_idx + 1 }, ..st }
    } else if name == "/tr"@ {
        InjState { in_row: false, ..st }
    } else {
        st
    }
}

/// `tag` (ending in `>`) with `attrs` inserted before its `>` (or before
/// `/>`).
pub open spec fn with_attrs(tag: Seq<char>, attrs: Seq<char>) -> Seq<char> {
    let close = tag.len() - 1;
    let pre = if close > 0 && tag[close - 1] == '/' {
        close - 1
    } else {
        close
    };
    tag.take(pre) + attrs + tag.skip(pre)
}

pub open spec fn any_width(ws: Seq<Option<u32>>) -> bool {
    exists|i: int| 0 <= i < ws.len() && ws[i] is Some
}

/// The raw markdown of the cell the scan is at (its content), if the
/// table has it.
pub open spec fn raw_at(t: TableView, st: InjState) -> Option<Seq<char>> {
    if st.in_head {
        if st.col_idx < t.headers.len() {
            Some(t.headers[st.col_idx as int].content)
        } else {
            None
        }
    } else if 0 <= st.row_idx < t.rows.len() && st.col_idx < t.rows[st.row_idx].len() {
        Some(t.rows[st.row_idx][st.col_idx as int].content)
    } else {
        None
    }
}

/// Decimal text of an integer, with a minus sign when negative.
pub open spec fn idec(v: int) -> Seq<char> {
    if v < 0 {
        seq!['-'] + dec((-v) as nat)
    } else {
        dec(v as nat)
    }
}

pub open spec fn align_name(a: Option<Alignment>) -> Seq<char> {
    match a {
        Some(Alignment::Left) => "left"@,
        Some(Alignment::Center) => "center"@,
        Some(Alignment::Right) => "right"@,
        _ => "none"@,
    }
}

pub open spec fn sort_attr(t: TableView, st: InjState) -> Seq<char> {
    if st.in_head {
        match t.sort_indicator {
            Some((sc, SortDirection::Ascending)) => if sc == st.col_idx {
                " data-sort-dir=\"asc\""@
            } else {
                seq![]
            },
            Some((sc, SortDirection::Descending)) => if sc == st.col_idx {
                " data-sort-dir=\"desc\""@
            } else {
                seq![]
            },
            _ => seq![],
        }
    } else {
        seq![]
    }
}

pub open spec fn width_attr(t: TableView, st: InjState) -> Seq<char> {
    if st.in_head && st.col_idx < t.column_widths.len() {
        match t.column_widths[st.col_idx as int] {
            Some(w) => " style=\"width: "@ + dec(w as nat) + "px\""@,
            None => seq![],
        }
    } else {
        seq![]
    }
}

/// The attributes of a cell: class, table id, row (`-1` in the head),
/// column, alignment, sort direction and width (head only), and the
/// percent-encoded raw markdown.
pub open spec fn cell_attrs(t: TableView, st: InjState, raw: Seq<char>) -> Seq<char> {
    " class=\"rmd-cell\" data-table-id=\""@ + dec(t.id as nat) + "\" data-row=\""@ + idec(
        if st.in_head { -1 } else { st.row_idx },
    ) + "\" data-col=\""@ + dec(st.col_idx) + "\" data-align=\""@ + align_name(
        if st.col_idx < t.alignments.len() { Some(t.alignments[st.col_idx as int]) } else { None },
    ) + "\""@ + sort_attr(t, st) + width_attr(t, st) + " data-raw=\""@ + pct(raw) + "\""@
}

pub open spec fn is_cell_tag(name: Seq<char>) -> bool {
    name == "th"@ || name == "td"@
}

/// The text written for a tag and the state after it.
pub open spec fn tag_out(ts: Seq<TableView>, st: InjState, tag: Seq<char>) -> (Seq<char>, InjState) {
    let name = tag_name(tag);
    let st1 = structural(st, name);
    if name == "table"@ && st1.table_idx < ts.len() && any_width(ts[st1.table_idx as int].column_widths) {
        (with_attrs(tag, " class=\"rmd-table-fixed\""@), st1)
    } else if is_cell_tag(name) && st1.in_table && st1.in_row {
        let next = InjState { col_idx: st1.col_idx + 1, ..st1 };
        if st1.table_idx < ts.len() {
            match raw_at(ts[st1.table_idx as int], st1) {
                Some(raw) => (with_attrs(tag, cell_attrs(ts[st1.table_idx as int], st1, raw)), next),
                None => (tag, next),
            }
        } else {
            (tag, next)
        }
    } else {
        (tag, st1)
    }
}

/// The output for `h[i..]` in scan state `st`: text between tags is
/// copied, each tag is written by [`tag_out`], and an unterminated tag
/// ends the output with the rest copied.
pub open spec fn inject_from(h: Seq<char>, ts: Seq<TableView>, i: int, st: InjState) -> Seq<char>
    decreases h.len() - i,
{
    if i < 0 || i >= h.len() {
        seq![]
    } else if h[i] == '<' {
        let e = find_char(h.skip(i), '>');
        if i + e >= h.len() {
            h.skip(i)
        } else {
            let tag = h.subrange(i, i + e + 1);
            let (piece, st2) = tag_out(ts, st, tag);
            proof {
                lemma_find_char(h.skip(i), '>');
            }
            piece + inject_from(h, ts, i + e + 1, st2)
        }
    } else {
        let k = find_char(h.skip(i), '<');
        proof {
            lemma_find_char(h.skip(i), '<');
        }
        h.subrange(i, i + k) + inject_from(h, ts, i + k, st)
    }
}

pub open spec fn contains_seq(s: Seq<char>, p: Seq<char>) -> bool {
    exists|i: int| 0 <= i && i + p.len() <= s.len() && #[trigger] s.subrange(i, i + p.len()) == p
}

/// The HTML with cell attributes injected (see [`inject_from`]); the
/// HTML itself when there are no tables or no `<table`.
pub open spec fn injected(h: Seq<char>, ts: Seq<TableView>) -> Seq<char> {
    if ts.len() == 0 || !contains_seq(h, "<table"@) {
        h
    } else {
        inject_from(h, ts, 0, inj_init())
    }
}

fn contains_chars(s: &[char], p: &str) -> (b: bool)
    ensures
        b == contains_seq(s@, p@),
{
    let pv = chars_of(p);
    if pv.len() > s.len() {
        return false;
    }
    let mut i: usize = 0;
    let last = s.len() - pv.len();
    loop
        invariant
            pv@ == p@,
            pv@.len() <= s@.len(),
            last == s@.len() - pv@.len(),
            i <= last,
            forall|j: int| 0 <= j < i ==> #[trigger] s@.subrange(j, j + pv@.len()) != pv@,
        decreases last - i,
    {
        assert(s@.skip(i as int).take(pv@.len() as int) =~= s@.subrange(i as int, i + pv@.len()));
        if crate::text::starts_with_at(s, i, pv.as_slice()) {
            return true;
        }
        if i == last {
            return false;
        }
        i = i + 1;
    }
}

fn push_idec(out: &mut Vec<char>, v: i32)
    ensures
        final(out)@ == old(out)@ + idec(v as int),
{
    if v < 0 {
        out.push('-');
        let m: u64 = (-(v as i64)) as u64;
        push_dec(out, m);
    } else {
        push_dec(out, v as u64);
    }
}

/// Runtime form of the scan state.
struct Scan {
    table_idx: usize,
    in_table: bool,
    in_head: bool,
    in_row: bool,
    row_idx: i32,
    col_idx: usize,
}

spec fn scan_view(s: Scan) -> InjState {
    InjState {
        table_idx: s.table_idx as nat,
        in_table: s.in_table,
        in_head: s.in_head,
        in_row: s.in_row,
        row_idx: s.row_idx as int,
        col_idx: s.col_idx as nat,
    }
}

fn name_is(name: &Vec<char>, lit: &str) -> (b: bool)
    ensures
        b == (name@ == lit@),
{
    crate::text::eq_str(name.as_slice(), lit)
}

fn structural_exec(st: &mut Scan, name: &Vec<char>)
    requires
        old(st).table_idx < usize::MAX,
        old(st).row_idx < i32::MAX,
    ensures
        scan_view(*final(st)) == structural(scan_view(*old(st)), name@),
{
    if name_is(name, "table") {
        st.in_table = true;
    } else if name_is(name, "/table") {
        st.in_table = false;
        st.in_head = false;
        st.in_row = false;
        st.table_idx = st.table_idx + 1;
        st.row_idx = -1;
        st.col_idx = 0;
    } else if name_is(name, "thead") {
        st.in_head = true;
        st.row_idx = -1;
    } else if name_is(name, "/thead") {
        st.in_head = false;
    } else if name_is(name, "tbody") {
        st.row_idx = -1;
    } else if name_is(name, "tr") {
        st.in_row = true;
        st.col_idx = 0;
        if !st.in_head {
            st.row_idx = st.row_idx + 1;
        }
    } else if name_is(name, "/tr") {
        st.in_row = false;
    }
}

fn push_with_attrs(out: &mut Vec<char>, tag: &[char], attrs: &[char])
    requires
        tag@.len() >= 1,
    ensures
        final(out)@ == old(out)@ + with_attrs(tag@, attrs@),
{
    let close = tag.len() - 1;
    let pre = if close > 0 && tag[close - 1] == '/' { close - 1 } else { close };
    let a = crate::text::slice_vec(tag, 0, pre);
    let b = crate::text::slice_vec(tag, pre, tag.len());
    push_all(out, a.as_slice());
    push_all(out, attrs);
    push_all(out, b.as_slice());
    proof {
        assert(a@ =~= tag@.take(pre as int));
        assert(b@ =~= tag@.skip(pre as int));
        let o = old(out)@;
        assert(final(out)@ =~= o + with_attrs(tag@, attrs@));
    }
}

fn has_width(ws: &Vec<Option<u32>>) -> (b: bool)
    ensures
        b == any_width(ws@),
{
    let mut i: usize = 0;
    while i < ws.len()
        invariant
            i <= ws@.len(),
            forall|j: int| 0 <= j < i ==> !(#[trigger] ws@[j] is Some),
        decreases ws@.len() - i,
    {
        if ws[i].is_some() {
            return true;
        }
        i = i + 1;
    }
    false
}

fn cell_attrs_exec(t: &MarkdownTable, st: &Scan, raw: &str) -> (r: Vec<char>)
    ensures
        r@ == cell_attrs(t@, scan_view(*st), raw@),
{
    let mut out: Vec<char> = Vec::new();
    push_str(&mut out, " class=\"rmd-cell\" data-table-id=\"");
    push_dec(&mut out, t.id);
    push_str(&mut out, "\" data-row=\"");
    push_idec(&mut out, if st.in_head { -1 } else { st.row_idx });
    push_str(&mut out, "\" data-col=\"");
    push_dec(&mut out, st.col_idx as u64);
    push_str(&mut out, "\" data-align=\"");
    let a = if st.col_idx < t.alignments.len() { Some(t.alignments[st.col_idx]) } else { None };
    match a {
        Some(Alignment::Left) => push_str(&mut out, "left"),
        Some(Alignment::Center) => push_str(&mut out, "center"),
        Some(Alignment::Right) => push_str(&mut out, "right"),
        _ => push_str(&mut out, "none"),
    }
    push_str(&mut out, "\"");
    if st.in_head {
        match t.sort_indicator {
            Some((sc, SortDirection::Ascending)) => {
                if sc == st.col_idx {
                    push_str(&mut out, " data-sort-dir=\"asc\"");
                }
            },
            Some((sc, SortDirection::Descending)) => {
                if sc == st.col_idx {
                    push_str(&mut out, " data-sort-dir=\"desc\"");
                }
            },
            _ => {},
        }
    }
    if st.in_head && st.col_idx < t.column_widths.len() {
        match t.column_widths[st.col_idx] {
            Some(w) => {
                push_str(&mut out, " style=\"width: ");
                push_dec(&mut out, w as u64);
                push_str(&mut out, "px\"");
            },
            None => {},
        }
    }
    push_str(&mut out, " data-raw=\"");
    push_pct(&mut out, raw);
    push_str(&mut out, "\"");
    proof {
        assert(out@ =~= cell_attrs(t@, scan_view(*st), raw@));
    }
    out
}

/// Write one tag as [`tag_out`] does and advance the scan state.
fn emit_tag(out: &mut Vec<char>, tables: &[MarkdownTable], st: &mut Scan, tag: &[char])
    requires
        tag@.len() >= 1,
        old(st).table_idx < usize::MAX,
        old(st).row_idx < i32::MAX,
        old(st).row_idx >= -1,
        old(st).col_idx < usize::MAX,
    ensures
        ({
            let (piece, st2) = tag_out(tables_view(tables@), scan_view(*old(st)), tag@);
            &&& final(out)@ == old(out)@ + piece
            &&& scan_view(*final(st)) == st2
            &&& final(st).table_idx <= old(st).table_idx + 1
            &&& final(st).col_idx <= old(st).col_idx + 1
            &&& -1 <= final(st).row_idx <= old(st).row_idx + 1
        }),
{
    let ghost ts = tables_view(tables@);
    let name = peek_tag_name(tag);
    structural_exec(st, &name);
    let is_table = name_is(&name, "table");
    let is_cell = name_is(&name, "th") || name_is(&name, "td");
    if is_table && st.table_idx < tables.len() && has_width(&tables[st.table_idx].column_widths) {
        assert(ts[st.table_idx as int] == tables@[st.table_idx as int]@);
        let attrs = chars_of(" class=\"rmd-table-fixed\"");
        push_with_attrs(out, tag, attrs.as_slice());
    } else if is_cell && st.in_table && st.in_row {
        let mut done = false;
        if st.table_idx < tables.len() {
            let t = &tables[st.table_idx];
            assert(ts[st.table_idx as int] == t@);
            let raw: Option<&String> = if st.in_head {
                if st.col_idx < t.headers.len() {
                    assert(crate::tables::model::cells_view(t.headers@)[st.col_idx as int] == t.headers@[st.col_idx as int]@);
                    Some(&t.headers[st.col_idx].content)
                } else {
                    None
                }
            } else if st.row_idx >= 0 && (st.row_idx as usize) < t.rows.len() && st.col_idx < t.rows[st.row_idx as usize].len() {
                let ri = st.row_idx as usize;
                assert(crate::tables::model::rows_view(t.rows@)[ri as int] == crate::tables::model::cells_view(t.rows@[ri as int]@));
                assert(crate::tables::model::cells_view(t.rows@[ri as int]@)[st.col_idx as int] == t.rows@[ri as int]@[st.col_idx as int]@);
                Some(&t.rows[ri][st.col_idx].content)
            } else {
                None
            };
            match raw {
                Some(rm) => {
                    let attrs = cell_attrs_exec(t, st, rm.as_str());
                    push_with_attrs(out, tag, attrs.as_slice());
                    done = true;
                },
                None => {},
            }
        }
        if !done {
            push_all(out, tag);
        }
        st.col_idx = st.col_idx + 1;
    } else {
        push_all(out, tag);
    }
}

/// Inject `data-*` attributes into every `<th>`/`<td>` of a table the
/// parser recognised, matching tables in document order: table id, row
/// (`-1` for the header), column, alignment, sort direction and width on
/// header cells, and the percent-encoded raw markdown. A parsed table
/// with column widths gets `class="rmd-table-fixed"`. Cells of tables
/// the parser did not see, and all other HTML, pass through unchanged.
pub fn inject_table_attrs(html: &str, tables: &[MarkdownTable]) -> (r: String)
    requires
        html@.len() < i32::MAX,
    ensures
        r@ == injected(html@, tables_view(tables@)),
{
    let h = chars_of(html);
    let ghost ts = tables_view(tables@);
    if tables.len() == 0 || !contains_chars(h.as_slice(), "<table") {
        return string_of(h.as_slice());
    }
    let mut out: Vec<char> = Vec::new();
    let mut st = Scan { table_idx: 0, in_table: false, in_head: false, in_row: false, row_idx: -1, col_idx: 0 };
    let mut i: usize = 0;
    let ghost goal = inject_from(h@, ts, 0, inj_init());
    while i < h.len()
        invariant
            h@ == html@,
            h@.len() < i32::MAX,
            ts == tables_view(tables@),
            i <= h@.len(),
            st.table_idx <= i,
            st.col_idx <= i,
            -1 <= st.row_idx <= i,
            goal == out@ + inject_from(h@, ts, i as int, scan_view(st)),
            goal == injected(html@, ts),
        decreases h@.len() - i,
    {
        let ghost rest = h@.skip(i as int);
        let ghost before = out@;
        if h[i] == '<' {
            let e = find_char_from(h.as_slice(), i, '>');
            proof {
                lemma_find_char(rest, '>');
            }
            if e == h.len() {
                let tail = crate::text::slice_vec(h.as_slice(), i, h.len());
                push_all(&mut out, tail.as_slice());
                assert(tail@ =~= rest);
                assert(inject_from(h@, ts, i as int, scan_view(st)) == rest);
                assert(goal == out@);
                assert(out@ =~= out@ + inject_from(h@, ts, h@.len() as int, scan_view(st)));
                return string_of(out.as_slice());
            }
            let tag = crate::text::slice_vec(h.as_slice(), i, e + 1);
            assert(tag@ =~= h@.subrange(i as int, e + 1));
            emit_tag(&mut out, tables, &mut st, tag.as_slice());
            i = e + 1;
        } else {
            let k = find_char_from(h.as_slice(), i, '<');
            proof {
                lemma_find_char(rest, '<');
            }
            let chunk = crate::text::slice_vec(h.as_slice(), i, k);
            push_all(&mut out, chunk.as_slice());
            i = k;
        }
    }
    assert(goal == out@ + Seq::<char>::empty());
    assert(out@ + Seq::<char>::empty() =~= out@);
    string_of(out.as_slice())
}

/// CSS and JS shipped with every preview page that has a table: click a
/// cell to edit it, commit with blur, Enter or Tab, cancel with Esc; each
/// edit goes to the shell as a tab-delimited message on `__rmdPost`. It
/// does nothing on pages without the shim (exported HTML), and exposes
/// `window.rmdFocusCell(tableId, row, col)` so the shell can keep editing
/// continuous across re-renders.
pub const TABLE_EDIT_JS: &'static str = r#"
<script>
(function() {
  if (!window.__rmdPost) return;

  var active = null;
  var originalRaw = "";
  // Direction (next | prev | up | down) to navigate to after the
  // current edit commits. Set by Tab / Shift+Tab / Enter / Shift+Enter
  // and consumed by commitEdit, which fires the tableNavigate message.
  var pendingNavigation = null;

  document.addEventListener("click", function(e) {
    if (!e.target.closest) return;
    // Clicks on the resize handle are part of the drag flow — they
    // must not begin a cell edit, even though the handle lives
    // inside the header cell.
    if (e.target.closest && e.target.closest(".rmd-th-resize-handle")) return;
    var cell = e.target.closest(".rmd-cell");
    if (!cell) return;
    if (active === cell) return;
    if (active) commitEdit(active);
    beginEdit(cell);
  });

  function beginEdit(td) {
    var raw = td.getAttribute("data-raw") || "";
    try { raw = decodeURIComponent(raw); } catch (e) {}
    active = td;
    originalRaw = raw;
    td.dataset.renderedHtml = td.innerHTML;
    td.textContent = raw;
    td.contentEditable = "true";
    td.classList.add("rmd-cell-editing");
    td.focus();
    selectAllInside(td);
  }

  function selectAllInside(el) {
    var range = document.createRange();
    range.selectNodeContents(el);
    var sel = window.getSelection();
    sel.removeAllRanges();
    sel.addRange(range);
  }

  function commitEdit(td) {
    if (!td || td !== active) return;
    var newContent = (td.textContent || "").replace(/ /g, " ");
    var navDirection = pendingNavigation;
    pendingNavigation = null;
    td.contentEditable = "false";
    td.classList.remove("rmd-cell-editing");

    var tableId = td.getAttribute("data-table-id");
    var rowAttr = td.getAttribute("data-row");
    var colAttr = td.getAttribute("data-col");

    if (newContent !== originalRaw) {
      // Content changed → send tableEdit. Rust applies + refreshes.
      window.__rmdPost("tableEdit",
        tableId + "\t" + rowAttr + "\t" + colAttr + "\t" + newContent
      );
    } else {
      // No change — restore rendered HTML without a round trip.
      td.innerHTML = td.dataset.renderedHtml || td.innerHTML;
      delete td.dataset.renderedHtml;
    }
    active = null;

    if (navDirection && window.__rmdPost) {
      // Sequential message — Rust processes after tableEdit (if any)
      // since both run on the main thread in order.
      window.__rmdPost("tableNavigate",
        tableId + "\t" + rowAttr + "\t" + colAttr + "\t" + navDirection
      );
    }
  }

  function cancelEdit(td) {
    if (!td || td !== active) return;
    pendingNavigation = null;
    td.contentEditable = "false";
    td.classList.remove("rmd-cell-editing");
    td.innerHTML = td.dataset.renderedHtml || td.textContent;
    delete td.dataset.renderedHtml;
    active = null;
  }

  document.addEventListener("keydown", function(e) {
    if (!active) return;
    if (e.key === "Escape") {
      e.preventDefault();
      cancelEdit(active);
    } else if (e.key === "Enter" && (e.ctrlKey || e.metaKey)) {
      // Ctrl/Cmd+Enter → soft break (becomes <br> at commit time).
      document.execCommand("insertText", false, "\n");
      e.preventDefault();
    } else if (e.key === "Enter") {
      e.preventDefault();
      pendingNavigation = e.shiftKey ? "up" : "down";
      commitEdit(active);
    } else if (e.key === "Tab") {
      e.preventDefault();
      pendingNavigation = e.shiftKey ? "prev" : "next";
      commitEdit(active);
    }
  });

  document.addEventListener("focusout", function() {
    if (!active) return;
    var stale = active;
    // Defer so that clicking another cell can hand off cleanly.
    setTimeout(function() {
      if (active === stale && document.activeElement !== stale) {
        commitEdit(stale);
      }
    }, 0);
  });

  // -- Floating toolbar for structural ops -----------------------
  // Shown only while a cell is being edited. Mousedown is suppressed
  // on the buttons so clicking one doesn't blur the cell first (which
  // would commit + hide the toolbar before our handler runs).
  var toolbar = null;
  function buildToolbar() {
    if (toolbar) return toolbar;
    toolbar = document.createElement("div");
    toolbar.className = "rmd-table-toolbar";
    toolbar.style.display = "none";
    var structural = [
      ["row-above", "↱ Row", "Insert row above (Ctrl+Shift+↑)"],
      ["row-below", "↵ Row", "Insert row below (Ctrl+Shift+↓)"],
      ["col-left", "↰ Col", "Insert column left (Ctrl+Shift+←)"],
      ["col-right", "↳ Col", "Insert column right (Ctrl+Shift+→)"],
      ["row-delete", "− Row", "Delete row (Ctrl+Shift+-)"],
      ["col-delete", "− Col", "Delete column (Ctrl+Alt+-)"],
    ];
    structural.forEach(function(s) {
      addToolbarButton(s[0], s[1], s[2], false);
    });
    // Separator between structural and alignment clusters; only
    // visible when the alignment buttons are shown (header cell).
    var sep = document.createElement("div");
    sep.className = "rmd-table-toolbar-sep";
    toolbar.appendChild(sep);
    var align = [
      ["align-left", "L", "Left-align column"],
      ["align-center", "C", "Center-align column"],
      ["align-right", "R", "Right-align column"],
    ];
    align.forEach(function(s) {
      addToolbarButton(s[0], s[1], s[2], true);
    });
    // Sort button — also header-only. Tri-state cycle: off → asc →
    // desc → off. Label/active state is refreshed on every
    // showToolbarForCell based on the active cell's data-sort-dir.
    addToolbarButton(
      "sort",
      "↕ Sort",
      "Sort by this column (cycles asc / desc / off)",
      true,
      "sort"
    );
    // Reformat is always visible (independent of header/body), so
    // give it its own thin divider so it doesn't crowd the L/C/R
    // cluster when those are hidden for body cells.
    var sep2 = document.createElement("div");
    sep2.className = "rmd-table-toolbar-sep rmd-table-toolbar-sep-reformat";
    toolbar.appendChild(sep2);
    addToolbarButton(
      "reformat",
      "↔ Format",
      "Reformat table to pretty alignment (Ctrl+Shift+Alt+T)",
      false
    );
    document.body.appendChild(toolbar);
    return toolbar;
  }
  function addToolbarButton(action, label, title, isHeaderOnly, kind) {
    var btn = document.createElement("button");
    btn.type = "button";
    var classes = ["rmd-table-toolbar-btn"];
    if (isHeaderOnly) classes.push("rmd-table-toolbar-align");
    if (kind === "sort") classes.push("rmd-table-toolbar-sort");
    btn.className = classes.join(" ");
    btn.setAttribute("data-action", action);
    btn.textContent = label;
    btn.title = title;
    // Stop mousedown from stealing focus from the editable cell —
    // otherwise the cell blurs (and commits) before our click runs.
    btn.addEventListener("mousedown", function(e) { e.preventDefault(); });
    btn.addEventListener("click", function(e) {
      e.preventDefault();
      e.stopPropagation();
      if (!active) return;
      if (kind === "sort") {
        // Tri-state cycle: read the cell's current state and pick
        // the next one. Sort flows through its own message handler
        // (`tableSort`) — the structural-op channel doesn't know
        // about "sort-*" verbs.
        var current = active.getAttribute("data-sort-dir") || "off";
        var next = current === "off" ? "asc"
                 : current === "asc" ? "desc"
                 : "off";
        dispatchSort(next);
        return;
      }
      var resolvedOp = action;
      if (action.indexOf("align-") === 0
          && btn.classList.contains("rmd-table-toolbar-active")) {
        // Clicking the already-active alignment reverts to none.
        resolvedOp = "align-none";
      }
      dispatchStructureOp(resolvedOp);
    });
    toolbar.appendChild(btn);
  }
  function showToolbarForCell(cell) {
    var tb = buildToolbar();
    tb.style.display = "flex";

    // Alignment buttons + separator only show when a HEADER cell is
    // active. The model's alignment lives per-column; we wouldn't
    // know which column to retarget if a body cell were the source.
    var isHeader = cell.getAttribute("data-row") === "-1";
    tb.querySelectorAll(".rmd-table-toolbar-align, .rmd-table-toolbar-sep")
      .forEach(function(el) {
        el.style.display = isHeader ? "" : "none";
      });

    // Highlight the alignment button matching the column's current
    // setting (or none, if the column has no explicit alignment).
    if (isHeader) {
      var currentAlign = cell.getAttribute("data-align") || "none";
      tb.querySelectorAll(".rmd-table-toolbar-align").forEach(function(b) {
        var action = b.getAttribute("data-action") || "";
        if (action.indexOf("align-") !== 0) return; // skip sort
        var op = action.slice("align-".length);
        b.classList.toggle("rmd-table-toolbar-active", op === currentAlign);
      });
      // Tri-state sort indicator: label + active class follow the
      // active cell's data-sort-dir, which the post-processor sets
      // only on the currently-sorted header column.
      var sortBtn = tb.querySelector(".rmd-table-toolbar-sort");
      if (sortBtn) {
        var dir = cell.getAttribute("data-sort-dir") || "off";
        sortBtn.textContent =
          dir === "asc" ? "↑ Sort"
            : dir === "desc" ? "↓ Sort"
            : "↕ Sort";
        sortBtn.classList.toggle("rmd-table-toolbar-active", dir !== "off");
      }
    }

    // Measure after the show/hide so the rect is final.
    var cellRect = cell.getBoundingClientRect();
    var tbRect = tb.getBoundingClientRect();
    var top = Math.max(8, cellRect.top - tbRect.height - 6);
    var left = Math.min(
      Math.max(8, cellRect.right - tbRect.width),
      window.innerWidth - tbRect.width - 8
    );
    tb.style.top = top + "px";
    tb.style.left = left + "px";
  }
  function hideToolbar() {
    if (toolbar) toolbar.style.display = "none";
  }
  function dispatchStructureOp(op) {
    if (!active || !window.__rmdPost) return;
    var tableId = active.getAttribute("data-table-id");
    var rowAttr = active.getAttribute("data-row");
    var colAttr = active.getAttribute("data-col");
    // If there's a pending edit, commit it first so the structural op
    // runs on the latest content. The __rmdPost bridge preserves
    // order across these two messages.
    var newContent = (active.textContent || "").replace(/ /g, " ");
    if (newContent !== originalRaw) {
      window.__rmdPost("tableEdit",
        tableId + "\t" + rowAttr + "\t" + colAttr + "\t" + newContent
      );
    }
    window.__rmdPost("tableStructure",
      tableId + "\t" + rowAttr + "\t" + colAttr + "\t" + op
    );
    active.contentEditable = "false";
    active.classList.remove("rmd-cell-editing");
    active = null;
    pendingNavigation = null;
    hideToolbar();
  }
  // Sort lives on its own handler — payload is
  // `table_id\tcol\tdirection` and `direction` is "asc"|"desc"|"off"
  // (matches handle_table_sort's parser). Any pending header-cell
  // edit is committed first so the sort runs against the latest
  // content.
  function dispatchSort(direction) {
    if (!active || !window.__rmdPost) return;
    var tableId = active.getAttribute("data-table-id");
    var rowAttr = active.getAttribute("data-row");
    var colAttr = active.getAttribute("data-col");
    var newContent = (active.textContent || "").replace(/ /g, " ");
    if (newContent !== originalRaw) {
      window.__rmdPost("tableEdit",
        tableId + "\t" + rowAttr + "\t" + colAttr + "\t" + newContent
      );
    }
    window.__rmdPost("tableSort", tableId + "\t" + colAttr + "\t" + direction);
    active.contentEditable = "false";
    active.classList.remove("rmd-cell-editing");
    active = null;
    pendingNavigation = null;
    hideToolbar();
  }

  // Show the toolbar on every beginEdit; hide on commit/cancel.
  var _origBeginEdit = beginEdit;
  beginEdit = function(td) {
    _origBeginEdit(td);
    showToolbarForCell(td);
  };
  var _origCommitEdit = commitEdit;
  commitEdit = function(td) {
    _origCommitEdit(td);
    hideToolbar();
  };
  var _origCancelEdit = cancelEdit;
  cancelEdit = function(td) {
    _origCancelEdit(td);
    hideToolbar();
  };

  // Keyboard shortcuts (active while a cell is being edited).
  document.addEventListener("keydown", function(e) {
    if (!active) return;
    if (!(e.ctrlKey || e.metaKey)) return;
    if (e.shiftKey && e.key === "ArrowDown") {
      e.preventDefault();
      dispatchStructureOp("row-below");
    } else if (e.shiftKey && e.key === "ArrowUp") {
      e.preventDefault();
      dispatchStructureOp("row-above");
    } else if (e.shiftKey && e.key === "ArrowRight") {
      e.preventDefault();
      dispatchStructureOp("col-right");
    } else if (e.shiftKey && e.key === "ArrowLeft") {
      e.preventDefault();
      dispatchStructureOp("col-left");
    } else if (e.shiftKey && (e.key === "-" || e.key === "_")) {
      e.preventDefault();
      dispatchStructureOp("row-delete");
    } else if (e.altKey && (e.key === "-" || e.key === "_")) {
      e.preventDefault();
      dispatchStructureOp("col-delete");
    } else if (e.shiftKey && e.altKey && (e.key === "t" || e.key === "T")) {
      e.preventDefault();
      dispatchStructureOp("reformat");
    }
  });

  // Programmatic focus for one-shot scripts injected by Rust after
  // a Tab/Enter-driven navigation or a structural op. Re-uses the
  // click → beginEdit path so we don't duplicate setup logic.
  window.rmdFocusCell = function(tableId, row, col) {
    var sel = '.rmd-cell[data-table-id="' + tableId + '"]'
            + '[data-row="' + row + '"][data-col="' + col + '"]';
    var cell = document.querySelector(sel);
    if (!cell) return;
    cell.click();
  };

  // -- Column resize handles -------------------------------------
  // Inject a thin draggable handle on the right edge of every
  // header cell. mousedown → mousemove updates the live inline
  // width (forcing table-layout: fixed during the drag so the
  // visual matches what we'll persist); mouseup posts the full
  // per-table widths vector back to Rust as one tableResizeColumns
  // message — applied as a single undo step.
  function attachResizeHandles() {
    document.querySelectorAll('th.rmd-cell').forEach(function(th) {
      if (th.querySelector('.rmd-th-resize-handle')) return;
      var handle = document.createElement('div');
      handle.className = 'rmd-th-resize-handle';
      handle.addEventListener('mousedown', function(ev) {
        ev.preventDefault();
        ev.stopPropagation();
        startResize(th, handle, ev);
      });
      // Belt-and-braces: stop click on the handle from bubbling to
      // the cell's click → beginEdit listener.
      handle.addEventListener('click', function(ev) { ev.stopPropagation(); });
      th.appendChild(handle);
    });
  }

  function startResize(th, handle, downEvent) {
    if (!window.__rmdPost) return;
    var startX = downEvent.clientX;
    var startWidth = th.getBoundingClientRect().width;
    var tableId = th.getAttribute('data-table-id');
    var tableEl = th.closest('table');
    if (!tableEl) return;
    var totalMovement = 0;
    handle.classList.add('rmd-resizing');
    document.body.classList.add('rmd-resizing-table');
    // Force fixed layout during drag so width changes are visible
    // immediately, regardless of the table's current rendering mode.
    var prevLayout = tableEl.style.tableLayout;
    tableEl.style.tableLayout = 'fixed';

    function onMove(ev) {
      var dx = ev.clientX - startX;
      totalMovement = Math.max(totalMovement, Math.abs(dx));
      var newWidth = Math.max(40, Math.round(startWidth + dx));
      th.style.width = newWidth + 'px';
    }
    function onUp() {
      document.removeEventListener('mousemove', onMove);
      document.removeEventListener('mouseup', onUp);
      handle.classList.remove('rmd-resizing');
      document.body.classList.remove('rmd-resizing-table');
      // Sub-3px movement is treated as an accidental click on the
      // handle, not a deliberate resize — leave the table alone.
      if (totalMovement < 3) {
        tableEl.style.tableLayout = prevLayout;
        th.style.width = '';
        return;
      }
      // Collect all column widths for this table; empty string for
      // columns the user hasn't sized explicitly.
      var ths = tableEl.querySelectorAll(
        'th.rmd-cell[data-table-id="' + tableId + '"]'
      );
      var widths = [];
      ths.forEach(function(h) {
        var w = h.style.width || '';
        if (!w) { widths.push(''); return; }
        var n = parseFloat(w);
        widths.push(isNaN(n) ? '' : Math.round(n).toString());
      });
      window.__rmdPost('tableResizeColumns', tableId + '\t' + widths.join(','));
    }
    document.addEventListener('mousemove', onMove);
    document.addEventListener('mouseup', onUp);
  }

  // Initial attachment + after every preview refresh (re-running
  // the IIFE is idempotent thanks to the `querySelector` guard).
  attachResizeHandles();
})();
</script>
"#;

/// The page with its tables made editable: cell attributes added (see
/// [`inject_table_attrs`]) and [`TABLE_EDIT_JS`] placed before
/// `</body>`. A page without parsed tables stays as it is.
pub fn decorate_tables(html: &str, tables: &[MarkdownTable]) -> (r: String)
    requires
        html@.len() < i32::MAX,
    ensures
        r@ == (if tables@.len() == 0 {
            html@
        } else {
            before_body_close(injected(html@, tables_view(tables@)), TABLE_EDIT_JS@)
        }),
{
    if tables.len() == 0 {
        let v = chars_of(html);
        return string_of(v.as_slice());
    }
    let injected_html = inject_table_attrs(html, tables);
    insert_before_body_close(injected_html.as_str(), TABLE_EDIT_JS)
}

} // verus!
