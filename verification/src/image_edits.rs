//! The document edits behind the preview's image gestures: rewriting or
//! removing an image's markup (resize handle, options dialog), moving an
//! image before another one as a paragraph of its own, and the markdown
//! reference of a pasted image. Each edit comes with the changes that
//! take the editor's copy of the text to the new text, in UTF-16 offsets
//! of the text before the edit.

use vstd::prelude::*;
use crate::images::{build_image_markup, find_image_ref, image_markup, image_ref, uoff, utf16_offset_of};
use crate::render::encode_byte;
use crate::requests::{piece, piece_at};
use crate::text::{
    blen, chars_of, ends_with, ends_with_str, push_all, push_str, slice_vec, splitn,
    splitn_chars, starts_with, starts_with_str, string_of, trim, trimmed,
};
use crate::tables::render::hex_digit;

verus! {

/// One change to the editor's document: the UTF-16 range `from..to` of
/// the text before the edit is replaced by `insert`.
pub struct DocChange {
    pub from: usize,
    pub to: usize,
    pub insert: String,
}

/// A text edit: the new text, and the changes that turn the editor's
/// copy of the old text into it (all positions in the old text).
pub struct TextEdit {
    pub text: String,
    pub changes: Vec<DocChange>,
}

/// The characters of an optional string slice.
pub open spec fn opt_chars(o: Option<&str>) -> Option<Seq<char>> {
    match o {
        Some(s) => Some(s@),
        None => None,
    }
}

/// What an image's markup becomes: nothing when it is removed, else the
/// markup for its new width and alt text.
pub open spec fn image_replacement(src: Seq<char>, width: Option<Seq<char>>, alt: Seq<char>, remove: bool) -> Seq<char> {
    if remove {
        seq![]
    } else {
        image_markup(src, width, alt)
    }
}

/// Rewrite (or remove) the image with this `src`: `None` when the text
/// has no such image.
pub fn image_change_edit(text: &str, src: &str, width: Option<&str>, alt: &str, remove: bool) -> (r:
    Option<TextEdit>)
    requires
        blen(text@) <= usize::MAX,
    ensures
        match image_ref(text@, src@) {
            None => r is None,
            Some((a, n)) => r matches Some(e) && ({
                let rep = image_replacement(src@, opt_chars(width), alt@, remove);
                &&& e.text@ == text@.take(a as int) + rep + text@.skip((a + n) as int)
                &&& e.changes@.len() == 1
                &&& e.changes@[0].from == uoff(text@, a as int)
                &&& e.changes@[0].to == uoff(text@, (a + n) as int)
                &&& e.changes@[0].insert@ == rep
            }),
        },
{
    let (a, n) = match find_image_ref(text, src) {
        Some(r) => r,
        None => {
            return None;
        },
    };
    let t = chars_of(text);
    let rep = if remove {
        String::new()
    } else {
        build_image_markup(src, width, alt)
    };
    let mut out = slice_vec(t.as_slice(), 0, a);
    push_str(&mut out, rep.as_str());
    let tail = slice_vec(t.as_slice(), a + n, t.len());
    push_all(&mut out, tail.as_slice());
    assert(t@.subrange(0, a as int) =~= t@.take(a as int));
    assert(t@.subrange((a + n) as int, t@.len() as int) =~= t@.skip(a + n));
    let from = utf16_offset_of(t.as_slice(), a);
    let to = utf16_offset_of(t.as_slice(), a + n);
    let change = DocChange { from, to, insert: rep };
    let mut changes: Vec<DocChange> = Vec::new();
    changes.push(change);
    Some(TextEdit { text: string_of(out.as_slice()), changes })
}

/// The line breaks put before a moved image so that it starts a
/// paragraph, given the text before it.
pub open spec fn pad_before(b: Seq<char>) -> Seq<char> {
    if b.len() == 0 || ends_with(b, "\n\n"@) {
        seq![]
    } else if ends_with(b, "\n"@) {
        "\n"@
    } else {
        "\n\n"@
    }
}

/// The line breaks put after a moved image so that it ends a paragraph,
/// given the text after it.
pub open spec fn pad_after(a: Seq<char>) -> Seq<char> {
    if a.len() == 0 || starts_with(a, "\n\n"@) {
        seq![]
    } else if starts_with(a, "\n"@) {
        "\n"@
    } else {
        "\n\n"@
    }
}

/// Where a moved image goes in the text without it: at the image with
/// this `target` source, at the end when the target is empty or not
/// found.
pub open spec fn insert_point(m: Seq<char>, target: Seq<char>) -> nat {
    if target.len() == 0 {
        m.len()
    } else {
        match image_ref(m, target) {
            Some((c, _)) => c,
            None => m.len(),
        }
    }
}

fn pad_before_of(b: &[char]) -> (r: &'static str)
    ensures
        r@ == pad_before(b@),
{
    proof {
        reveal_strlit("");
        reveal_strlit("\n");
        reveal_strlit("\n\n");
    }
    if b.len() == 0 || ends_with_str(b, "\n\n") {
        ""
    } else if ends_with_str(b, "\n") {
        "\n"
    } else {
        "\n\n"
    }
}

fn pad_after_of(a: &[char]) -> (r: &'static str)
    ensures
        r@ == pad_after(a@),
{
    proof {
        reveal_strlit("");
        reveal_strlit("\n");
        reveal_strlit("\n\n");
    }
    if a.len() == 0 || starts_with_str(a, "\n\n") {
        ""
    } else if starts_with_str(a, "\n") {
        "\n"
    } else {
        "\n\n"
    }
}

/// The text without the characters `a..a + n`.
pub open spec fn without(text: Seq<char>, a: int, n: int) -> Seq<char> {
    text.take(a) + text.skip(a + n)
}

/// Where the moved image goes in the text without it.
pub open spec fn moved_point(text: Seq<char>, a: int, n: int, target: Seq<char>) -> int {
    insert_point(without(text, a, n), target) as int
}

/// What is inserted: the image's markup `text[a..a + n]`, with the line
/// breaks that make it a paragraph of its own.
pub open spec fn moved_insertion(text: Seq<char>, a: int, n: int, target: Seq<char>) -> Seq<char> {
    let m = without(text, a, n);
    let k = moved_point(text, a, n, target);
    pad_before(m.take(k)) + text.subrange(a, a + n) + pad_after(m.skip(k))
}

/// The text after the move.
pub open spec fn moved_text(text: Seq<char>, a: int, n: int, target: Seq<char>) -> Seq<char> {
    let m = without(text, a, n);
    let k = moved_point(text, a, n, target);
    m.take(k) + moved_insertion(text, a, n, target) + m.skip(k)
}

/// Where the insertion is in the text before the move.
pub open spec fn moved_at(text: Seq<char>, a: int, n: int, target: Seq<char>) -> int {
    let k = moved_point(text, a, n, target);
    if k >= a {
        k + n
    } else {
        k
    }
}

/// The two changes of a move describe it on the old text: the insertion
/// point lies outside the deleted image, and deleting the image and
/// inserting the paragraph there, both in the old text, gives the text
/// after the move.
pub proof fn lemma_move_changes_apply(text: Seq<char>, src: Seq<char>, target: Seq<char>)
    requires
        image_ref(text, src) is Some,
    ensures
        ({
            let a = image_ref(text, src).unwrap().0 as int;
            let n = image_ref(text, src).unwrap().1 as int;
            let at = moved_at(text, a, n, target);
            let ins = moved_insertion(text, a, n, target);
            &&& at <= a || at >= a + n
            &&& 0 <= at <= text.len()
            &&& moved_text(text, a, n, target) == if at <= a {
                text.take(at) + ins + text.subrange(at, a) + text.skip(a + n)
            } else {
                text.take(a) + text.subrange(a + n, at) + ins + text.skip(at)
            }
        }),
{
    let a = image_ref(text, src).unwrap().0 as int;
    let n = image_ref(text, src).unwrap().1 as int;
    crate::images::lemma_image_ref_inside(text, src);
    let m = without(text, a, n);
    let k = moved_point(text, a, n, target);
    if target.len() > 0 {
        crate::images::lemma_image_ref_inside(m, target);
    }
    assert(0 <= k <= m.len());
    let ins = moved_insertion(text, a, n, target);
    if k >= a {
        assert(m.take(k) =~= text.take(a) + text.subrange(a + n, k + n));
        assert(m.skip(k) =~= text.skip(k + n));
        assert(m.take(k) + ins + m.skip(k) =~= text.take(a) + text.subrange(a + n, k + n) + ins
            + text.skip(k + n));
    } else {
        assert(m.take(k) =~= text.take(k));
        assert(m.skip(k) =~= text.subrange(k, a) + text.skip(a + n));
        assert(m.take(k) + ins + m.skip(k) =~= text.take(k) + ins + text.subrange(k, a)
            + text.skip(a + n));
    }
}

/// Move the image with source `src` to just before the image with source
/// `target` (to the end when `target` is empty or not found), as a
/// paragraph of its own. Two changes: the deletion, and the insertion
/// mapped back to a position of the old text. `None` when the text has no
/// image with source `src`.
pub fn image_move_edit(text: &str, src: &str, target: &str) -> (r: Option<TextEdit>)
    requires
        blen(text@) <= usize::MAX,
    ensures
        match image_ref(text@, src@) {
            None => r is None,
            Some((a, n)) => r matches Some(e) && ({
                let at = moved_at(text@, a as int, n as int, target@);
                &&& e.text@ == moved_text(text@, a as int, n as int, target@)
                &&& e.changes@.len() == 2
                &&& e.changes@[0].from == uoff(text@, a as int)
                &&& e.changes@[0].to == uoff(text@, (a + n) as int)
                &&& e.changes@[0].insert@ == Seq::<char>::empty()
                &&& e.changes@[1].from == uoff(text@, at)
                &&& e.changes@[1].to == uoff(text@, at)
                &&& e.changes@[1].insert@ == moved_insertion(text@, a as int, n as int, target@)
            }),
        },
{
    let (a, n) = match find_image_ref(text, src) {
        Some(r) => r,
        None => {
            return None;
        },
    };
    let t = chars_of(text);
    let expr = slice_vec(t.as_slice(), a, a + n);
    let mut m = slice_vec(t.as_slice(), 0, a);
    let tail = slice_vec(t.as_slice(), a + n, t.len());
    push_all(&mut m, tail.as_slice());
    assert(t@.subrange(0, a as int) =~= t@.take(a as int));
    assert(t@.subrange((a + n) as int, t@.len() as int) =~= t@.skip(a + n));
    let ms = string_of(m.as_slice());
    let tv = chars_of(target);
    let k: usize = if tv.len() == 0 {
        m.len()
    } else {
        match find_image_ref(ms.as_str(), target) {
            Some((c, _)) => c,
            None => m.len(),
        }
    };
    let before = slice_vec(m.as_slice(), 0, k);
    let after = slice_vec(m.as_slice(), k, m.len());
    assert(m@.subrange(0, k as int) =~= m@.take(k as int));
    assert(m@.subrange(k as int, m@.len() as int) =~= m@.skip(k as int));
    let mut ins: Vec<char> = Vec::new();
    push_str(&mut ins, pad_before_of(before.as_slice()));
    push_all(&mut ins, expr.as_slice());
    push_str(&mut ins, pad_after_of(after.as_slice()));
    let mut out = before;
    push_all(&mut out, ins.as_slice());
    push_all(&mut out, after.as_slice());
    let orig: usize = if k >= a {
        k + n
    } else {
        k
    };
    let del_from = utf16_offset_of(t.as_slice(), a);
    let del_to = utf16_offset_of(t.as_slice(), a + n);
    let at = utf16_offset_of(t.as_slice(), orig);
    let mut changes: Vec<DocChange> = Vec::new();
    changes.push(DocChange { from: del_from, to: del_to, insert: String::new() });
    changes.push(DocChange { from: at, to: at, insert: string_of(ins.as_slice()) });
    Some(TextEdit { text: string_of(out.as_slice()), changes })
}

// ---------------------------------------------------------------------
// Requests
// ---------------------------------------------------------------------

/// A drag of one image onto another (`src\ttarget_src`).
pub struct ImageMoveRequest {
    pub src: String,
    pub target: String,
}

/// Read an image move: `None` when the source is empty.
pub fn image_move_request(message: &str) -> (r: Option<ImageMoveRequest>)
    ensures
        ({
            let ps = splitn(message@, 2, '\t');
            match r {
                Some(q) => q.src@ == piece(ps, 0) && q.target@ == piece(ps, 1) && piece(ps, 0).len()
                    > 0,
                None => piece(ps, 0).len() == 0,
            }
        }),
{
    let m = chars_of(message);
    let ps = splitn_chars(m.as_slice(), 2, '\t');
    let p0 = piece_at(&ps, 0);
    let p1 = piece_at(&ps, 1);
    if p0.len() == 0 {
        return None;
    }
    Some(ImageMoveRequest { src: string_of(p0.as_slice()), target: string_of(p1.as_slice()) })
}

/// A resize-handle commit (`src\twidth\talt`), the width trimmed.
pub struct ImageResizeRequest {
    pub src: String,
    pub width: String,
    pub alt: String,
}

/// Read an image resize: `None` when the source or the trimmed width is
/// empty.
pub fn image_resize_request(message: &str) -> (r: Option<ImageResizeRequest>)
    ensures
        ({
            let ps = splitn(message@, 3, '\t');
            match r {
                Some(q) => q.src@ == piece(ps, 0) && q.width@ == trim(piece(ps, 1)) && q.alt@ == piece(
                    ps,
                    2,
                ) && piece(ps, 0).len() > 0 && trim(piece(ps, 1)).len() > 0,
                None => piece(ps, 0).len() == 0 || trim(piece(ps, 1)).len() == 0,
            }
        }),
{
    let m = chars_of(message);
    let ps = splitn_chars(m.as_slice(), 3, '\t');
    let p0 = piece_at(&ps, 0);
    let p1 = piece_at(&ps, 1);
    let p2 = piece_at(&ps, 2);
    let w = trimmed(p1.as_slice());
    if p0.len() == 0 || w.len() == 0 {
        return None;
    }
    Some(
        ImageResizeRequest {
            src: string_of(p0.as_slice()),
            width: string_of(w.as_slice()),
            alt: string_of(p2.as_slice()),
        },
    )
}

// ---------------------------------------------------------------------
// Pasted images
// ---------------------------------------------------------------------

/// A byte that stays as it is in a pasted image's path: ASCII letters and
/// digits, `/`, `-`, `.`, `_` and `~` (RFC 3986 unreserved, and `/`).
pub open spec fn image_path_kept(b: u8) -> bool {
    ||| (0x30 <= b <= 0x39)
    ||| (0x41 <= b <= 0x5A)
    ||| (0x61 <= b <= 0x7A)
    ||| b == 0x2F
    ||| b == 0x2D
    ||| b == 0x2E
    ||| b == 0x5F
    ||| b == 0x7E
}

/// The bytes of a path with every byte that does not stay written `%XX`.
pub open spec fn image_path_encoded(bs: Seq<u8>) -> Seq<char>
    decreases bs.len(),
{
    if bs.len() == 0 {
        seq![]
    } else {
        image_path_encoded(bs.drop_last()) + if image_path_kept(bs.last()) {
            seq![bs.last() as char]
        } else {
            seq!['%', hex_digit(bs.last() / 16), hex_digit(bs.last() % 16)]
        }
    }
}

/// The markdown that shows a pasted image saved as `dir/file` beside the
/// document.
pub open spec fn pasted_image_ref(dir: Seq<char>, file: Seq<char>) -> Seq<char> {
    "![]("@ + image_path_encoded(vstd::utf8::encode_utf8(dir + "/"@ + file)) + ")"@
}

/// `![](<dir>/<file>)` with the path percent-encoded so that it is safe
/// inside markdown's parentheses.
pub fn pasted_image_markdown(dir: &str, file: &str) -> (r: String)
    ensures
        r@ == pasted_image_ref(dir@, file@),
{
    let mut rel: Vec<char> = chars_of(dir);
    push_str(&mut rel, "/");
    push_str(&mut rel, file);
    let rs = string_of(rel.as_slice());
    let bytes = rs.as_str().as_bytes();
    let mut out: Vec<char> = Vec::new();
    push_str(&mut out, "![](");
    let ghost start = out@;
    let mut i: usize = 0;
    assert(bytes@.take(0) =~= Seq::<u8>::empty());
    while i < bytes.len()
        invariant
            i <= bytes@.len(),
            bytes@ == vstd::utf8::encode_utf8(rs@),
            out@ == start + image_path_encoded(bytes@.take(i as int)),
        decreases bytes@.len() - i,
    {
        let b = bytes[i];
        let kept = (b >= 0x30 && b <= 0x39) || (b >= 0x41 && b <= 0x5A) || (b >= 0x61 && b <= 0x7A)
            || b == 0x2F || b == 0x2D || b == 0x2E || b == 0x5F || b == 0x7E;
        if kept {
            out.push(b as char);
        } else {
            push_str(&mut out, encode_byte(b));
        }
        proof {
            assert(bytes@.take(i + 1).drop_last() =~= bytes@.take(i as int));
            assert(bytes@.take(i + 1).last() == b);
            assert(out@ =~= start + image_path_encoded(bytes@.take(i + 1)));
        }
        i = i + 1;
    }
    assert(bytes@.take(i as int) =~= bytes@);
    push_str(&mut out, ")");
    string_of(out.as_slice())
}

/// The directory and file a pasted image is saved as, beside a document
/// whose file stem is `stem`, at time `stamp`: `<stem>-assets` and
/// `paste-<stamp>.png`.
pub fn pasted_image_names(stem: &str, stamp: &str) -> (r: (String, String))
    ensures
        r.0@ == stem@ + "-assets"@,
        r.1@ == "paste-"@ + stamp@ + ".png"@,
{
    let mut dir: Vec<char> = chars_of(stem);
    push_str(&mut dir, "-assets");
    let mut file: Vec<char> = Vec::new();
    push_str(&mut file, "paste-");
    push_str(&mut file, stamp);
    push_str(&mut file, ".png");
    (string_of(dir.as_slice()), string_of(file.as_slice()))
}

} // verus!
