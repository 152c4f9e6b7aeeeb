//! The preview's requests for files and the links clicked in it. The
//! preview runs the document's own HTML, so a request or a click can name
//! any path: the file it stands for is read back from the `/fs/` URL
//! here and confined to the allowed root by the shell; only then is a
//! clicked file classified as a markdown document to open in the editor
//! or another file that needs the user's confirmation, and a served file
//! given its content type.

use vstd::prelude::*;
use crate::text::{
    chars_of, eq_str, find_char, find_char_from, find_from, find_seq_from, push_str, rfind_char,
    rfind_char_before, slice_vec, string_of,
};

verus! {

/// What to do with a link to a local file.
pub enum LinkResolution {
    /// A markdown file inside the allowed root: open it in the editor.
    OpenMd { path: String },
    /// Another file inside the allowed root: hand it to the system only
    /// after the user confirms.
    OpenFile { path: String },
    /// Outside the allowed root, missing, or not a file URL.
    Denied,
}

/// The characters `percent_encoding` decodes a string to (each `%`
/// followed by two hexadecimal digits becomes that byte; the bytes are
/// then read as UTF-8, invalid sequences replaced).
pub uninterp spec fn percent_decoded(s: Seq<char>) -> Seq<char>;

/// `percent_encoding::percent_decode_str(s).decode_utf8_lossy()`. The
/// result is the name above applied to `s`; text without `%` comes back
/// as it is.
#[verifier::external_body]
fn percent_decode_lossy(s: &str) -> (r: String)
    ensures
        r@ == percent_decoded(s@),
        !s@.contains('%') ==> r@ == s@,
{
    percent_encoding::percent_decode_str(s).decode_utf8_lossy().into_owned()
}

/// Where the query or fragment of `s` starts: its first `?` or `#`.
pub open spec fn query_start(s: Seq<char>) -> nat {
    let q = find_char(s, '?');
    let h = find_char(s, '#');
    if q <= h {
        q
    } else {
        h
    }
}

/// The encoded path of a preview file URL (`preview://…/fs/<path>` or
/// `http://preview.localhost/fs/<path>`): the text after the first `/fs/`
/// up to the next one, without its query or fragment; `None` without a
/// `/fs/`.
pub open spec fn fs_segment(url: Seq<char>) -> Option<Seq<char>> {
    let k = find_from(url, "/fs/"@, 0);
    if k < 0 {
        None
    } else {
        let rest = url.skip(k + 4);
        let j = find_from(rest, "/fs/"@, 0);
        let piece = if j < 0 {
            rest
        } else {
            rest.take(j)
        };
        Some(piece.take(query_start(piece) as int))
    }
}

/// The encoded path of a preview file URL (see [`fs_segment`]).
pub fn fs_url_segment(url: &str) -> (r: Option<String>)
    ensures
        match r {
            Some(s) => fs_segment(url@) == Some(s@),
            None => fs_segment(url@) is None,
        },
{
    proof {
        reveal_strlit("/fs/");
    }
    let u = chars_of(url);
    let pat = chars_of("/fs/");
    assert(pat@.len() == 4);
    let n = u.len();
    let k = match find_seq_from(u.as_slice(), pat.as_slice(), 0) {
        Some(k) => {
            assert(k + 4 <= n);
            k
        },
        None => {
            return None;
        },
    };
    let rest = slice_vec(u.as_slice(), k + 4, u.len());
    assert(rest@ =~= u@.skip(k + 4));
    let piece = match find_seq_from(rest.as_slice(), pat.as_slice(), 0) {
        Some(j) => {
            let p = slice_vec(rest.as_slice(), 0, j);
            assert(p@ =~= rest@.take(j as int));
            p
        },
        None => rest,
    };
    let q = find_char_from(piece.as_slice(), 0, '?');
    let h = find_char_from(piece.as_slice(), 0, '#');
    assert(piece@.skip(0) =~= piece@);
    let e = if q <= h {
        q
    } else {
        h
    };
    let seg = slice_vec(piece.as_slice(), 0, e);
    assert(seg@ =~= piece@.take(e as int));
    Some(string_of(seg.as_slice()))
}

/// The file an encoded `/fs/` path stands for: `/` and the decoded path.
pub fn local_file_path(encoded: &str) -> (r: String)
    ensures
        r@ == "/"@ + percent_decoded(encoded@),
{
    let decoded = percent_decode_lossy(encoded);
    let mut out: Vec<char> = Vec::new();
    push_str(&mut out, "/");
    push_str(&mut out, decoded.as_str());
    string_of(out.as_slice())
}

/// The file a preview file URL stands for (see [`local_file_path`]);
/// `None` when the URL has no `/fs/`.
pub fn fs_url_to_path(url: &str) -> (r: Option<String>)
    ensures
        match fs_segment(url@) {
            Some(seg) => r matches Some(p) && p@ == "/"@ + percent_decoded(seg),
            None => r is None,
        },
{
    match fs_url_segment(url) {
        Some(seg) => Some(local_file_path(seg.as_str())),
        None => None,
    }
}

/// The last component of a path written with `/` separators.
pub open spec fn file_name_of(p: Seq<char>) -> Seq<char> {
    p.skip(rfind_char(p, '/') + 1)
}

/// A file name's extension as `Path::extension` reads it: after the last
/// `.`, none when the name has no `.` but a leading one, or is `..`.
pub open spec fn extension_of(name: Seq<char>) -> Option<Seq<char>> {
    let k = rfind_char(name, '.');
    if name == ".."@ || k <= 0 {
        None
    } else {
        Some(name.skip(k + 1))
    }
}

/// The code of `c` with ASCII capitals made small.
pub open spec fn lower_code(c: char) -> u32 {
    if 'A' <= c <= 'Z' {
        (c as u32 + 32) as u32
    } else {
        c as u32
    }
}

/// `e` equals the lower-case ASCII word `w` ignoring ASCII case.
pub open spec fn eq_lower(e: Seq<char>, w: Seq<char>) -> bool {
    e.len() == w.len() && forall|i: int| 0 <= i < e.len() ==> lower_code(#[trigger] e[i]) == w[i] as u32
}

/// Whether a path names a markdown document: its extension is `md` or
/// `markdown`, in any ASCII case.
pub open spec fn is_markdown_path(p: Seq<char>) -> bool {
    match extension_of(file_name_of(p)) {
        Some(e) => eq_lower(e, "md"@) || eq_lower(e, "markdown"@),
        None => false,
    }
}

fn eq_lower_exec(e: &[char], w: &str) -> (b: bool)
    requires
        forall|i: int| 0 <= i < w@.len() ==> 'a' <= #[trigger] w@[i] <= 'z',
    ensures
        b == eq_lower(e@, w@),
{
    let wv = chars_of(w);
    if e.len() != wv.len() {
        return false;
    }
    let mut i: usize = 0;
    while i < e.len()
        invariant
            i <= e@.len(),
            e@.len() == wv@.len(),
            wv@ == w@,
            forall|j: int| 0 <= j < w@.len() ==> 'a' <= #[trigger] w@[j] <= 'z',
            forall|j: int| 0 <= j < i ==> lower_code(#[trigger] e@[j]) == wv@[j] as u32,
        decreases e@.len() - i,
    {
        let c = e[i];
        let code: u32 = if c >= 'A' && c <= 'Z' {
            c as u32 + 32
        } else {
            c as u32
        };
        if code != wv[i] as u32 {
            assert(lower_code(e@[i as int]) != w@[i as int] as u32);
            return false;
        }
        i = i + 1;
    }
    true
}

/// What to do with a path inside the allowed root (the shell confines
/// it first): markdown documents open in the editor, other files need
/// confirmation.
pub fn link_resolution(confined: &str) -> (r: LinkResolution)
    ensures
        match r {
            LinkResolution::OpenMd { path } => is_markdown_path(confined@) && path@ == confined@,
            LinkResolution::OpenFile { path } => !is_markdown_path(confined@) && path@
                == confined@,
            LinkResolution::Denied => false,
        },
{
    proof {
        reveal_strlit("md");
        reveal_strlit("markdown");
    }
    let p = chars_of(confined);
    let path = string_of(p.as_slice());
    let md = match extension_chars(p.as_slice()) {
        Some(ext) => eq_lower_exec(ext.as_slice(), "md") || eq_lower_exec(ext.as_slice(), "markdown"),
        None => false,
    };
    if md {
        LinkResolution::OpenMd { path }
    } else {
        LinkResolution::OpenFile { path }
    }
}

// ---------------------------------------------------------------------
// The preview protocol
// ---------------------------------------------------------------------

/// The content security policy of the preview page: inline scripts and
/// styles are the renderer's own; anything fetched comes from the preview
/// scheme.
pub const PREVIEW_CSP: &'static str = "default-src 'none'; script-src 'unsafe-inline' preview: http://preview.localhost; style-src 'unsafe-inline'; img-src preview: http://preview.localhost data:; font-src preview: http://preview.localhost data:; media-src preview: http://preview.localhost";

/// What a request to the preview scheme asks for.
pub enum PreviewRoute {
    /// `/doc.html`: the rendered page.
    Document,
    /// `/assets/mermaid.min.js`: the diagram renderer.
    MermaidBundle,
    /// `/fs/<encoded path>`: a file of the document's tree.
    LocalFile(String),
    /// Anything else.
    NotFound,
}

/// Route a request path of the preview scheme.
pub fn preview_route(path: &str) -> (r: PreviewRoute)
    ensures
        match r {
            PreviewRoute::Document => path@ == "/doc.html"@,
            PreviewRoute::MermaidBundle => path@ == "/assets/mermaid.min.js"@,
            PreviewRoute::LocalFile(rest) => path@ != "/doc.html"@ && path@
                != "/assets/mermaid.min.js"@ && crate::text::starts_with(path@, "/fs/"@) && rest@
                == path@.skip(4),
            PreviewRoute::NotFound => path@ != "/doc.html"@ && path@ != "/assets/mermaid.min.js"@
                && !crate::text::starts_with(path@, "/fs/"@),
        },
{
    proof {
        reveal_strlit("/fs/");
    }
    let p = chars_of(path);
    if eq_str(p.as_slice(), "/doc.html") {
        return PreviewRoute::Document;
    }
    if eq_str(p.as_slice(), "/assets/mermaid.min.js") {
        return PreviewRoute::MermaidBundle;
    }
    if crate::text::starts_with_str(p.as_slice(), "/fs/") {
        let rest = slice_vec(p.as_slice(), 4, p.len());
        assert(rest@ =~= path@.skip(4));
        return PreviewRoute::LocalFile(string_of(rest.as_slice()));
    }
    PreviewRoute::NotFound
}

/// The content type of a served file, by its extension in any ASCII
/// case; `application/octet-stream` for anything not listed.
pub open spec fn mime_of(p: Seq<char>) -> Seq<char> {
    match extension_of(file_name_of(p)) {
        Some(e) => if eq_lower(e, "png"@) {
            "image/png"@
        } else if eq_lower(e, "jpg"@) || eq_lower(e, "jpeg"@) {
            "image/jpeg"@
        } else if eq_lower(e, "gif"@) {
            "image/gif"@
        } else if eq_lower(e, "webp"@) {
            "image/webp"@
        } else if eq_lower(e, "svg"@) {
            "image/svg+xml"@
        } else if eq_lower(e, "bmp"@) {
            "image/bmp"@
        } else if eq_lower(e, "ico"@) {
            "image/x-icon"@
        } else if eq_lower(e, "avif"@) {
            "image/avif"@
        } else if eq_lower(e, "css"@) {
            "text/css"@
        } else if eq_lower(e, "js"@) {
            "application/javascript"@
        } else if eq_lower(e, "html"@) || eq_lower(e, "htm"@) {
            "text/html; charset=utf-8"@
        } else if eq_lower(e, "md"@) || eq_lower(e, "txt"@) {
            "text/plain; charset=utf-8"@
        } else {
            "application/octet-stream"@
        },
        None => "application/octet-stream"@,
    }
}

/// A text equals at most one lower-case word ignoring ASCII case: two
/// words it equals have the same character codes.
proof fn lemma_eq_lower_same(e: Seq<char>, w1: Seq<char>, w2: Seq<char>)
    requires
        eq_lower(e, w1),
        eq_lower(e, w2),
    ensures
        w1.len() == w2.len(),
        forall|i: int| 0 <= i < w1.len() ==> #[trigger] (w1[i] as u32) == w2[i] as u32,
{
    assert forall|i: int| 0 <= i < w1.len() implies #[trigger] (w1[i] as u32) == w2[i] as u32 by {
        assert(lower_code(e[i]) == w1[i] as u32);
        assert(lower_code(e[i]) == w2[i] as u32);
    }
}

/// Text equal to one word ignoring ASCII case is not equal to a word of
/// another length, or with another character at `i`.
proof fn lemma_not_both(e: Seq<char>, w1: Seq<char>, w2: Seq<char>, i: int)
    requires
        eq_lower(e, w1),
        w1.len() != w2.len() || (0 <= i < w1.len() && w1[i] as u32 != w2[i] as u32),
    ensures
        !eq_lower(e, w2),
{
    if eq_lower(e, w2) {
        lemma_eq_lower_same(e, w1, w2);
        if w1.len() == w2.len() {
            assert(w1[i] as u32 == w2[i] as u32);
        }
    }
}

/// The content type follows the file's extension, in any ASCII case:
/// `png`, `jpg`/`jpeg`, `gif`, `webp`, `svg`, `bmp`, `ico` and `avif`
/// are served as those images, `css` as a stylesheet, `js` as a
/// script, `html`/`htm` as HTML and `md`/`txt` as plain text, each in
/// UTF-8 where text; any other extension, and a file without one, as
/// `application/octet-stream`.
pub proof fn lemma_mime_by_extension(p: Seq<char>)
    ensures
        ({
            let t = mime_of(p);
            match extension_of(file_name_of(p)) {
                Some(e) => {
                    &&& eq_lower(e, "png"@) ==> t == "image/png"@
                    &&& eq_lower(e, "jpg"@) || eq_lower(e, "jpeg"@) ==> t == "image/jpeg"@
                    &&& eq_lower(e, "gif"@) ==> t == "image/gif"@
                    &&& eq_lower(e, "webp"@) ==> t == "image/webp"@
                    &&& eq_lower(e, "svg"@) ==> t == "image/svg+xml"@
                    &&& eq_lower(e, "bmp"@) ==> t == "image/bmp"@
                    &&& eq_lower(e, "ico"@) ==> t == "image/x-icon"@
                    &&& eq_lower(e, "avif"@) ==> t == "image/avif"@
                    &&& eq_lower(e, "css"@) ==> t == "text/css"@
                    &&& eq_lower(e, "js"@) ==> t == "application/javascript"@
                    &&& eq_lower(e, "html"@) || eq_lower(e, "htm"@) ==> t == "text/html; charset=utf-8"@
                    &&& eq_lower(e, "md"@) || eq_lower(e, "txt"@) ==> t == "text/plain; charset=utf-8"@
                },
                None => t == "application/octet-stream"@,
            }
        }),
{
    reveal_strlit("png");
    reveal_strlit("jpg");
    reveal_strlit("jpeg");
    reveal_strlit("gif");
    reveal_strlit("webp");
    reveal_strlit("svg");
    reveal_strlit("bmp");
    reveal_strlit("ico");
    reveal_strlit("avif");
    reveal_strlit("css");
    reveal_strlit("js");
    reveal_strlit("html");
    reveal_strlit("htm");
    reveal_strlit("md");
    reveal_strlit("txt");
    match extension_of(file_name_of(p)) {
        Some(e) => {
            if eq_lower(e, "jpg"@) {
                lemma_not_both(e, "jpg"@, "png"@, 0);
            }
            if eq_lower(e, "jpeg"@) {
                lemma_not_both(e, "jpeg"@, "png"@, 0);
            }
            if eq_lower(e, "jpeg"@) {
                lemma_not_both(e, "jpeg"@, "jpg"@, 0);
            }
            if eq_lower(e, "gif"@) {
                lemma_not_both(e, "gif"@, "png"@, 0);
            }
            if eq_lower(e, "gif"@) {
                lemma_not_both(e, "gif"@, "jpg"@, 0);
            }
            if eq_lower(e, "gif"@) {
                lemma_not_both(e, "gif"@, "jpeg"@, 0);
            }
            if eq_lower(e, "webp"@) {
                lemma_not_both(e, "webp"@, "png"@, 0);
            }
            if eq_lower(e, "webp"@) {
                lemma_not_both(e, "webp"@, "jpg"@, 0);
            }
            if eq_lower(e, "webp"@) {
                lemma_not_both(e, "webp"@, "jpeg"@, 0);
            }
            if eq_lower(e, "webp"@) {
                lemma_not_both(e, "webp"@, "gif"@, 0);
            }
            if eq_lower(e, "svg"@) {
                lemma_not_both(e, "svg"@, "png"@, 0);
            }
            if eq_lower(e, "svg"@) {
                lemma_not_both(e, "svg"@, "jpg"@, 0);
            }
            if eq_lower(e, "svg"@) {
                lemma_not_both(e, "svg"@, "jpeg"@, 0);
            }
            if eq_lower(e, "svg"@) {
                lemma_not_both(e, "svg"@, "gif"@, 0);
            }
            if eq_lower(e, "svg"@) {
                lemma_not_both(e, "svg"@, "webp"@, 0);
            }
            if eq_lower(e, "bmp"@) {
                lemma_not_both(e, "bmp"@, "png"@, 0);
            }
            if eq_lower(e, "bmp"@) {
                lemma_not_both(e, "bmp"@, "jpg"@, 0);
            }
            if eq_lower(e, "bmp"@) {
                lemma_not_both(e, "bmp"@, "jpeg"@, 0);
            }
            if eq_lower(e, "bmp"@) {
                lemma_not_both(e, "bmp"@, "gif"@, 0);
            }
            if eq_lower(e, "bmp"@) {
                lemma_not_both(e, "bmp"@, "webp"@, 0);
            }
            if eq_lower(e, "bmp"@) {
                lemma_not_both(e, "bmp"@, "svg"@, 0);
            }
            if eq_lower(e, "ico"@) {
                lemma_not_both(e, "ico"@, "png"@, 0);
            }
            if eq_lower(e, "ico"@) {
                lemma_not_both(e, "ico"@, "jpg"@, 0);
            }
            if eq_lower(e, "ico"@) {
                lemma_not_both(e, "ico"@, "jpeg"@, 0);
            }
            if eq_lower(e, "ico"@) {
                lemma_not_both(e, "ico"@, "gif"@, 0);
            }
            if eq_lower(e, "ico"@) {
                lemma_not_both(e, "ico"@, "webp"@, 0);
            }
            if eq_lower(e, "ico"@) {
                lemma_not_both(e, "ico"@, "svg"@, 0);
            }
            if eq_lower(e, "ico"@) {
                lemma_not_both(e, "ico"@, "bmp"@, 0);
            }
            if eq_lower(e, "avif"@) {
                lemma_not_both(e, "avif"@, "png"@, 0);
            }
            if eq_lower(e, "avif"@) {
                lemma_not_both(e, "avif"@, "jpg"@, 0);
            }
            if eq_lower(e, "avif"@) {
                lemma_not_both(e, "avif"@, "jpeg"@, 0);
            }
            if eq_lower(e, "avif"@) {
                lemma_not_both(e, "avif"@, "gif"@, 0);
            }
            if eq_lower(e, "avif"@) {
                lemma_not_both(e, "avif"@, "webp"@, 0);
            }
            if eq_lower(e, "avif"@) {
                lemma_not_both(e, "avif"@, "svg"@, 0);
            }
            if eq_lower(e, "avif"@) {
                lemma_not_both(e, "avif"@, "bmp"@, 0);
            }
            if eq_lower(e, "avif"@) {
                lemma_not_both(e, "avif"@, "ico"@, 0);
            }
            if eq_lower(e, "css"@) {
                lemma_not_both(e, "css"@, "png"@, 0);
            }
            if eq_lower(e, "css"@) {
                lemma_not_both(e, "css"@, "jpg"@, 0);
            }
            if eq_lower(e, "css"@) {
                lemma_not_both(e, "css"@, "jpeg"@, 0);
            }
            if eq_lower(e, "css"@) {
                lemma_not_both(e, "css"@, "gif"@, 0);
            }
            if eq_lower(e, "css"@) {
                lemma_not_both(e, "css"@, "webp"@, 0);
            }
            if eq_lower(e, "css"@) {
                lemma_not_both(e, "css"@, "svg"@, 0);
            }
            if eq_lower(e, "css"@) {
                lemma_not_both(e, "css"@, "bmp"@, 0);
            }
            if eq_lower(e, "css"@) {
                lemma_not_both(e, "css"@, "ico"@, 0);
            }
            if eq_lower(e, "css"@) {
                lemma_not_both(e, "css"@, "avif"@, 0);
            }
            if eq_lower(e, "js"@) {
                lemma_not_both(e, "js"@, "png"@, 0);
            }
            if eq_lower(e, "js"@) {
                lemma_not_both(e, "js"@, "jpg"@, 0);
            }
            if eq_lower(e, "js"@) {
                lemma_not_both(e, "js"@, "jpeg"@, 0);
            }
            if eq_lower(e, "js"@) {
                lemma_not_both(e, "js"@, "gif"@, 0);
            }
            if eq_lower(e, "js"@) {
                lemma_not_both(e, "js"@, "webp"@, 0);
            }
            if eq_lower(e, "js"@) {
                lemma_not_both(e, "js"@, "svg"@, 0);
            }
            if eq_lower(e, "js"@) {
                lemma_not_both(e, "js"@, "bmp"@, 0);
            }
            if eq_lower(e, "js"@) {
                lemma_not_both(e, "js"@, "ico"@, 0);
            }
            if eq_lower(e, "js"@) {
                lemma_not_both(e, "js"@, "avif"@, 0);
            }
            if eq_lower(e, "js"@) {
                lemma_not_both(e, "js"@, "css"@, 0);
            }
            if eq_lower(e, "html"@) {
                lemma_not_both(e, "html"@, "png"@, 0);
            }
            if eq_lower(e, "html"@) {
                lemma_not_both(e, "html"@, "jpg"@, 0);
            }
            if eq_lower(e, "html"@) {
                lemma_not_both(e, "html"@, "jpeg"@, 0);
            }
            if eq_lower(e, "html"@) {
                lemma_not_both(e, "html"@, "gif"@, 0);
            }
            if eq_lower(e, "html"@) {
                lemma_not_both(e, "html"@, "webp"@, 0);
            }
            if eq_lower(e, "html"@) {
                lemma_not_both(e, "html"@, "svg"@, 0);
            }
            if eq_lower(e, "html"@) {
                lemma_not_both(e, "html"@, "bmp"@, 0);
            }
            if eq_lower(e, "html"@) {
                lemma_not_both(e, "html"@, "ico"@, 0);
            }
            if eq_lower(e, "html"@) {
                lemma_not_both(e, "html"@, "avif"@, 0);
            }
            if eq_lower(e, "html"@) {
                lemma_not_both(e, "html"@, "css"@, 0);
            }
            if eq_lower(e, "html"@) {
                lemma_not_both(e, "html"@, "js"@, 0);
            }
            if eq_lower(e, "htm"@) {
                lemma_not_both(e, "htm"@, "png"@, 0);
            }
            if eq_lower(e, "htm"@) {
                lemma_not_both(e, "htm"@, "jpg"@, 0);
            }
            if eq_lower(e, "htm"@) {
                lemma_not_both(e, "htm"@, "jpeg"@, 0);
            }
            if eq_lower(e, "htm"@) {
                lemma_not_both(e, "htm"@, "gif"@, 0);
            }
            if eq_lower(e, "htm"@) {
                lemma_not_both(e, "htm"@, "webp"@, 0);
            }
            if eq_lower(e, "htm"@) {
                lemma_not_both(e, "htm"@, "svg"@, 0);
            }
            if eq_lower(e, "htm"@) {
                lemma_not_both(e, "htm"@, "bmp"@, 0);
            }
            if eq_lower(e, "htm"@) {
                lemma_not_both(e, "htm"@, "ico"@, 0);
            }
            if eq_lower(e, "htm"@) {
                lemma_not_both(e, "htm"@, "avif"@, 0);
            }
            if eq_lower(e, "htm"@) {
                lemma_not_both(e, "htm"@, "css"@, 0);
            }
            if eq_lower(e, "htm"@) {
                lemma_not_both(e, "htm"@, "js"@, 0);
            }
            if eq_lower(e, "htm"@) {
                lemma_not_both(e, "htm"@, "html"@, 0);
            }
            if eq_lower(e, "md"@) {
                lemma_not_both(e, "md"@, "png"@, 0);
            }
            if eq_lower(e, "md"@) {
                lemma_not_both(e, "md"@, "jpg"@, 0);
            }
            if eq_lower(e, "md"@) {
                lemma_not_both(e, "md"@, "jpeg"@, 0);
            }
            if eq_lower(e, "md"@) {
                lemma_not_both(e, "md"@, "gif"@, 0);
            }
            if eq_lower(e, "md"@) {
                lemma_not_both(e, "md"@, "webp"@, 0);
            }
            if eq_lower(e, "md"@) {
                lemma_not_both(e, "md"@, "svg"@, 0);
            }
            if eq_lower(e, "md"@) {
                lemma_not_both(e, "md"@, "bmp"@, 0);
            }
            if eq_lower(e, "md"@) {
                lemma_not_both(e, "md"@, "ico"@, 0);
            }
            if eq_lower(e, "md"@) {
                lemma_not_both(e, "md"@, "avif"@, 0);
            }
            if eq_lower(e, "md"@) {
                lemma_not_both(e, "md"@, "css"@, 0);
            }
            if eq_lower(e, "md"@) {
                lemma_not_both(e, "md"@, "js"@, 0);
            }
            if eq_lower(e, "md"@) {
                lemma_not_both(e, "md"@, "html"@, 0);
            }
            if eq_lower(e, "md"@) {
                lemma_not_both(e, "md"@, "htm"@, 0);
            }
            if eq_lower(e, "txt"@) {
                lemma_not_both(e, "txt"@, "png"@, 0);
            }
            if eq_lower(e, "txt"@) {
                lemma_not_both(e, "txt"@, "jpg"@, 0);
            }
            if eq_lower(e, "txt"@) {
                lemma_not_both(e, "txt"@, "jpeg"@, 0);
            }
            if eq_lower(e, "txt"@) {
                lemma_not_both(e, "txt"@, "gif"@, 0);
            }
            if eq_lower(e, "txt"@) {
                lemma_not_both(e, "txt"@, "webp"@, 0);
            }
            if eq_lower(e, "txt"@) {
                lemma_not_both(e, "txt"@, "svg"@, 0);
            }
            if eq_lower(e, "txt"@) {
                lemma_not_both(e, "txt"@, "bmp"@, 0);
            }
            if eq_lower(e, "txt"@) {
                lemma_not_both(e, "txt"@, "ico"@, 0);
            }
            if eq_lower(e, "txt"@) {
                lemma_not_both(e, "txt"@, "avif"@, 0);
            }
            if eq_lower(e, "txt"@) {
                lemma_not_both(e, "txt"@, "css"@, 0);
            }
            if eq_lower(e, "txt"@) {
                lemma_not_both(e, "txt"@, "js"@, 0);
            }
            if eq_lower(e, "txt"@) {
                lemma_not_both(e, "txt"@, "html"@, 0);
            }
            if eq_lower(e, "txt"@) {
                lemma_not_both(e, "txt"@, "htm"@, 0);
            }
            if eq_lower(e, "txt"@) {
                lemma_not_both(e, "txt"@, "md"@, 0);
            }
        },
        None => {},
    }
}

/// The extension of the path's file name, when it has one (see
/// [`extension_of`]).
fn extension_chars(p: &[char]) -> (r: Option<Vec<char>>)
    ensures
        match r {
            Some(e) => extension_of(file_name_of(p@)) == Some(e@),
            None => extension_of(file_name_of(p@)) is None,
        },
{
    proof {
        reveal_strlit("..");
    }
    let slash: usize = match rfind_char_before(p, p.len(), '/') {
        Some(k) => k + 1,
        None => 0,
    };
    assert(p@.take(p@.len() as int) =~= p@);
    let name = slice_vec(p, slash, p.len());
    assert(name@ =~= file_name_of(p@));
    let dotdot = eq_str(name.as_slice(), "..");
    let dot = rfind_char_before(name.as_slice(), name.len(), '.');
    assert(name@.take(name@.len() as int) =~= name@);
    match dot {
        Some(k) => {
            if dotdot || k == 0 {
                None
            } else {
                let ext = slice_vec(name.as_slice(), k + 1, name.len());
                assert(ext@ =~= name@.skip(k + 1));
                Some(ext)
            }
        },
        None => None,
    }
}

/// The content type to serve a file with (see [`mime_of`]).
pub fn mime_for(path: &str) -> (r: &'static str)
    ensures
        r@ == mime_of(path@),
{
    proof {
        reveal_strlit("png");
        reveal_strlit("jpg");
        reveal_strlit("jpeg");
        reveal_strlit("gif");
        reveal_strlit("webp");
        reveal_strlit("svg");
        reveal_strlit("bmp");
        reveal_strlit("ico");
        reveal_strlit("avif");
        reveal_strlit("css");
        reveal_strlit("js");
        reveal_strlit("html");
        reveal_strlit("htm");
        reveal_strlit("md");
        reveal_strlit("txt");
    }
    let p = chars_of(path);
    let e = match extension_chars(p.as_slice()) {
        Some(e) => e,
        None => {
            return "application/octet-stream";
        },
    };
    let e = e.as_slice();
    if eq_lower_exec(e, "png") {
        "image/png"
    } else if eq_lower_exec(e, "jpg") || eq_lower_exec(e, "jpeg") {
        "image/jpeg"
    } else if eq_lower_exec(e, "gif") {
        "image/gif"
    } else if eq_lower_exec(e, "webp") {
        "image/webp"
    } else if eq_lower_exec(e, "svg") {
        "image/svg+xml"
    } else if eq_lower_exec(e, "bmp") {
        "image/bmp"
    } else if eq_lower_exec(e, "ico") {
        "image/x-icon"
    } else if eq_lower_exec(e, "avif") {
        "image/avif"
    } else if eq_lower_exec(e, "css") {
        "text/css"
    } else if eq_lower_exec(e, "js") {
        "application/javascript"
    } else if eq_lower_exec(e, "html") || eq_lower_exec(e, "htm") {
        "text/html; charset=utf-8"
    } else if eq_lower_exec(e, "md") || eq_lower_exec(e, "txt") {
        "text/plain; charset=utf-8"
    } else {
        "application/octet-stream"
    }
}

} // verus!
