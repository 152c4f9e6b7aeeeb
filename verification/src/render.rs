//! HTML helpers of the rendering pipeline.

use vstd::prelude::*;
use crate::text::{
    chars_of, find_from, find_seq_from, push_all, push_str, replace_all, replace_all_chars,
    slice_vec, starts_with, string_of,
};
use crate::tables::render::hex_digit;
use crate::template::{
    HTML_TEMPLATE, IMAGE_CLICK_JS, MERMAID_ASSET_PATH, MERMAID_INIT_JS, PREVIEW_BRIDGE_JS, PREVIEW_CSS_BASE,
    PREVIEW_CSS_DARK, PREVIEW_CSS_LIGHT,
};

verus! {

/// How one character is written into HTML text or an attribute value.
pub open spec fn html_char(c: char) -> Seq<char> {
    if c == '&' {
        "&amp;"@
    } else if c == '<' {
        "&lt;"@
    } else if c == '>' {
        "&gt;"@
    } else if c == '"' {
        "&quot;"@
    } else if c == '\'' {
        "&#39;"@
    } else {
        seq![c]
    }
}

/// `s` with `& < > " '` replaced by their entities.
pub open spec fn html_escaped(s: Seq<char>) -> Seq<char>
    decreases s.len(),
{
    if s.len() == 0 {
        seq![]
    } else {
        html_escaped(s.drop_last()) + html_char(s.last())
    }
}

/// Escaped text holds no `<`, `>`, `"` or `'`: it cannot open a tag or
/// close an attribute value.
pub proof fn lemma_html_escaped_is_inert(s: Seq<char>)
    ensures
        forall|i: int|
            0 <= i < html_escaped(s).len() ==> {
                let c = #[trigger] html_escaped(s)[i];
                c != '<' && c != '>' && c != '"' && c != '\''
            },
    decreases s.len(),
{
    if s.len() > 0 {
        lemma_html_escaped_is_inert(s.drop_last());
        let a = html_escaped(s.drop_last());
        let b = html_char(s.last());
        reveal_strlit("&amp;");
        reveal_strlit("&lt;");
        reveal_strlit("&gt;");
        reveal_strlit("&quot;");
        reveal_strlit("&#39;");
        assert forall|i: int| 0 <= i < html_escaped(s).len() implies {
            let c = #[trigger] html_escaped(s)[i];
            c != '<' && c != '>' && c != '"' && c != '\''
        } by {
            if i < a.len() {
                assert(html_escaped(s)[i] == a[i]);
            } else {
                assert(html_escaped(s)[i] == b[i - a.len()]);
            }
        }
    }
}

/// Appends `s` escaped for HTML.
pub fn push_html_escaped(out: &mut Vec<char>, s: &[char])
    ensures
        final(out)@ == old(out)@ + html_escaped(s@),
{
    let ghost start = out@;
    let mut i: usize = 0;
    assert(s@.take(0) =~= Seq::<char>::empty());
    while i < s.len()
        invariant
            i <= s@.len(),
            out@ == start + html_escaped(s@.take(i as int)),
        decreases s@.len() - i,
    {
        let c = s[i];
        if c == '&' {
            crate::text::push_str(out, "&amp;");
        } else if c == '<' {
            crate::text::push_str(out, "&lt;");
        } else if c == '>' {
            crate::text::push_str(out, "&gt;");
        } else if c == '"' {
            crate::text::push_str(out, "&quot;");
        } else if c == '\'' {
            crate::text::push_str(out, "&#39;");
        } else {
            out.push(c);
        }
        proof {
            assert(s@.take(i + 1).drop_last() =~= s@.take(i as int));
            assert(s@.take(i + 1).last() == c);
            assert(out@ =~= start + html_escaped(s@.take(i + 1)));
        }
        i = i + 1;
    }
    assert(s@.take(i as int) =~= s@);
}

/// Escape `& < > " '` for HTML text and attribute values.
pub fn html_escape(input: &str) -> (r: String)
    ensures
        r@ == html_escaped(input@),
{
    let v = chars_of(input);
    let mut out: Vec<char> = Vec::new();
    push_html_escaped(&mut out, v.as_slice());
    assert(out@ =~= html_escaped(input@));
    string_of(out.as_slice())
}

/// `percent_encoding::percent_encode_byte`: `%` and the byte's two
/// upper-case hexadecimal digits.
#[verifier::external_body]
pub(crate) fn encode_byte(b: u8) -> (r: &'static str)
    ensures
        r@ == seq!['%', hex_digit(b / 16), hex_digit(b % 16)],
{
    percent_encoding::percent_encode_byte(b)
}

// ---------------------------------------------------------------------
// Base href
// ---------------------------------------------------------------------

/// A byte that stays as it is in a URL path: printable ASCII other than
/// space, `"`, `#`, `%`, `<`, `>`, `?`, `` ` ``, `{` and `}`. In
/// particular `/` stays, so relative links resolve in URL space as they
/// do on disk; bytes of non-ASCII characters are always encoded.
pub open spec fn path_byte_kept(b: u8) -> bool {
    0x21 <= b <= 0x7E && b != 0x22 && b != 0x23 && b != 0x25 && b != 0x3C && b != 0x3E && b != 0x3F && b
        != 0x60 && b != 0x7B && b != 0x7D
}

pub open spec fn path_pct_bytes(bs: Seq<u8>) -> Seq<char>
    decreases bs.len(),
{
    if bs.len() == 0 {
        seq![]
    } else {
        path_pct_bytes(bs.drop_last()) + if path_byte_kept(bs.last()) {
            seq![bs.last() as char]
        } else {
            seq!['%', hex_digit(bs.last() / 16), hex_digit(bs.last() % 16)]
        }
    }
}

/// The root-relative base href of a document directory:
/// `/fs/<percent-encoded absolute directory>/`.
pub open spec fn base_href(dir: Seq<char>) -> Seq<char> {
    let path = if starts_with(dir, "/"@) {
        dir
    } else {
        "/"@ + dir
    };
    "/fs"@ + path_pct_bytes(vstd::utf8::encode_utf8(path)) + "/"@
}

/// The base href for a document directory (given as the path's text):
/// root-relative so the same page works under any preview origin.
pub fn fs_base_href(dir: &str) -> (r: String)
    ensures
        r@ == base_href(dir@),
{
    proof {
        reveal_strlit("/");
    }
    let v = chars_of(dir);
    let mut path: Vec<char> = Vec::new();
    if !(v.len() > 0 && v[0] == '/') {
        path.push('/');
    }
    crate::text::push_all(&mut path, v.as_slice());
    proof {
        if starts_with(dir@, "/"@) {
            assert(dir@.take(1)[0] == dir@[0]);
            assert(path@ =~= dir@);
        } else {
            if v@.len() > 0 && v@[0] == '/' {
                assert(dir@.take(1) =~= "/"@);
            }
            assert(path@ =~= "/"@ + dir@);
        }
    }
    let ps = string_of(path.as_slice());
    let bytes = ps.as_str().as_bytes();
    let mut out: Vec<char> = Vec::new();
    push_str(&mut out, "/fs");
    let ghost start = out@;
    let mut i: usize = 0;
    assert(bytes@.take(0) =~= Seq::<u8>::empty());
    while i < bytes.len()
        invariant
            i <= bytes@.len(),
            bytes@ == vstd::utf8::encode_utf8(ps@),
            out@ == start + path_pct_bytes(bytes@.take(i as int)),
        decreases bytes@.len() - i,
    {
        let b = bytes[i];
        let kept = b >= 0x21 && b <= 0x7E && b != 0x22 && b != 0x23 && b != 0x25 && b != 0x3C && b != 0x3E && b
            != 0x3F && b != 0x60 && b != 0x7B && b != 0x7D;
        if kept {
            out.push(b as char);
        } else {
            push_str(&mut out, encode_byte(b));
        }
        proof {
            assert(bytes@.take(i + 1).drop_last() =~= bytes@.take(i as int));
            assert(bytes@.take(i + 1).last() == b);
            assert(out@ =~= start + path_pct_bytes(bytes@.take(i + 1)));
        }
        i = i + 1;
    }
    assert(bytes@.take(i as int) =~= bytes@);
    push_str(&mut out, "/");
    string_of(out.as_slice())
}

// ---------------------------------------------------------------------
// The page
// ---------------------------------------------------------------------

/// The Mermaid loader and start-up script, for a page with diagrams.
pub open spec fn mermaid_block(had_mermaid: bool, dark: bool) -> Seq<char> {
    if had_mermaid {
        "<script src=\""@ + MERMAID_ASSET_PATH@ + "\"></script>"@ + "\n<script>"@ + replace_all(
            MERMAID_INIT_JS@,
            "{THEME}"@,
            if dark {
                "dark"@
            } else {
                "default"@
            },
        ) + "</script>"@
    } else {
        seq![]
    }
}

/// The preview page around a rendered body: the template with, in this
/// order, the title (escaped, or the app's name when empty), the theme's
/// CSS, the base CSS, the base href (empty without a directory), the
/// body, the Mermaid scripts (only when the body has diagrams), and the
/// image and bridge scripts filled in.
pub open spec fn page(body: Seq<char>, had_mermaid: bool, dir: Option<Seq<char>>, dark: bool, title: Seq<char>) -> Seq<char> {
    let t1 = replace_all(
        HTML_TEMPLATE@,
        "{TITLE}"@,
        if title.len() == 0 {
            "RenderMD"@
        } else {
            html_escaped(title)
        },
    );
    let t2 = replace_all(
        t1,
        "{THEME_CSS}"@,
        if dark {
            PREVIEW_CSS_DARK@
        } else {
            PREVIEW_CSS_LIGHT@
        },
    );
    let t3 = replace_all(t2, "{BASE_CSS}"@, PREVIEW_CSS_BASE@);
    let t4 = replace_all(
        t3,
        "{BASE_HREF}"@,
        match dir {
            Some(d) => base_href(d),
            None => seq![],
        },
    );
    let t5 = replace_all(t4, "{BODY}"@, body);
    let t6 = replace_all(t5, "{MERMAID_SCRIPT}"@, mermaid_block(had_mermaid, dark));
    let t7 = replace_all(t6, "{IMAGE_CLICK_JS}"@, IMAGE_CLICK_JS@);
    replace_all(t7, "{PREVIEW_BRIDGE_JS}"@, PREVIEW_BRIDGE_JS@)
}

fn mermaid_scripts(had_mermaid: bool, dark: bool) -> (r: String)
    ensures
        r@ == mermaid_block(had_mermaid, dark),
{
    if !had_mermaid {
        return String::new();
    }
    proof {
        reveal_strlit("{THEME}");
    }
    let init = replace_all_chars(chars_of(MERMAID_INIT_JS).as_slice(), "{THEME}", if dark { "dark" } else { "default" });
    let tag = crate::template::mermaid_script_tag();
    let mut out = chars_of(tag.as_str());
    push_str(&mut out, "\n<script>");
    crate::text::push_all(&mut out, init.as_slice());
    push_str(&mut out, "</script>");
    string_of(out.as_slice())
}

/// The preview page for a rendered body (see [`page`]); `base_dir` is
/// the document's directory, `had_mermaid` whether the source had
/// diagrams.
pub fn page_html(body: &str, had_mermaid: bool, base_dir: Option<&str>, dark: bool, title: &str) -> (r: String)
    ensures
        r@ == page(
            body@,
            had_mermaid,
            match base_dir {
                Some(d) => Some(d@),
                None => None,
            },
            dark,
            title@,
        ),
{
    proof {
        reveal_strlit("{TITLE}");
        reveal_strlit("{THEME_CSS}");
        reveal_strlit("{BASE_CSS}");
        reveal_strlit("{BASE_HREF}");
        reveal_strlit("{BODY}");
        reveal_strlit("{MERMAID_SCRIPT}");
        reveal_strlit("{IMAGE_CLICK_JS}");
        reveal_strlit("{PREVIEW_BRIDGE_JS}");
    }
    let title_safe = if title.is_empty() { String::from_str("RenderMD") } else { html_escape(title) };
    let href = match base_dir {
        Some(d) => fs_base_href(d),
        None => String::new(),
    };
    let scripts = mermaid_scripts(had_mermaid, dark);
    let t1 = replace_all_chars(chars_of(HTML_TEMPLATE).as_slice(), "{TITLE}", title_safe.as_str());
    let t2 = replace_all_chars(t1.as_slice(), "{THEME_CSS}", if dark { PREVIEW_CSS_DARK } else { PREVIEW_CSS_LIGHT });
    let t3 = replace_all_chars(t2.as_slice(), "{BASE_CSS}", PREVIEW_CSS_BASE);
    let t4 = replace_all_chars(t3.as_slice(), "{BASE_HREF}", href.as_str());
    let t5 = replace_all_chars(t4.as_slice(), "{BODY}", body);
    let t6 = replace_all_chars(t5.as_slice(), "{MERMAID_SCRIPT}", scripts.as_str());
    let t7 = replace_all_chars(t6.as_slice(), "{IMAGE_CLICK_JS}", IMAGE_CLICK_JS);
    let t8 = replace_all_chars(t7.as_slice(), "{PREVIEW_BRIDGE_JS}", PREVIEW_BRIDGE_JS);
    string_of(t8.as_slice())
}

/// `html` with `insert` and a newline placed before its first `</body>`,
/// as `replacen("</body>", insert + "\n</body>", 1)` gives it; unchanged
/// when there is no `</body>`.
pub open spec fn before_body_close(html: Seq<char>, insert: Seq<char>) -> Seq<char> {
    let k = find_from(html, "</body>"@, 0);
    if k < 0 {
        html
    } else {
        html.take(k) + insert + "\n"@ + html.skip(k)
    }
}

/// Place `insert` on a line of its own just before the page's first
/// `</body>` (see [`before_body_close`]).
pub fn insert_before_body_close(html: &str, insert: &str) -> (r: String)
    ensures
        r@ == before_body_close(html@, insert@),
{
    let h = chars_of(html);
    let pat = chars_of("</body>");
    match find_seq_from(h.as_slice(), pat.as_slice(), 0) {
        Some(k) => {
            let mut out = slice_vec(h.as_slice(), 0, k);
            push_str(&mut out, insert);
            push_str(&mut out, "\n");
            let tail = slice_vec(h.as_slice(), k, h.len());
            push_all(&mut out, tail.as_slice());
            assert(h@.subrange(0, k as int) =~= h@.take(k as int));
            assert(h@.subrange(k as int, h@.len() as int) =~= h@.skip(k as int));
            string_of(out.as_slice())
        },
        None => string_of(h.as_slice()),
    }
}

} // verus!
