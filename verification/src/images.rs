//! Image references: finding an image's markdown or HTML form in the
//! document, rebuilding its markup after a resize or alt edit, and the
//! conversions between byte, character and UTF-16 offsets (the editor
//! counts positions in UTF-16 code units).

use vstd::prelude::*;
use crate::render::{html_escaped, push_html_escaped};
use crate::text::{
    blen, boff, byte_offset, char_width, chars_of, find_char, find_char_from, find_from,
    find_seq_from, lemma_boff_mono, lemma_boff_step, lemma_find_char, occurs_at, push_all,
    push_str, rfind_seq_upto, rfind_upto, string_of,
};

verus! {

// ---------------------------------------------------------------------
// Offsets
// ---------------------------------------------------------------------

/// Number of UTF-16 code units of `c`: two above the basic plane.
pub open spec fn cu(c: char) -> nat {
    if (c as u32) >= 0x10000 {
        2
    } else {
        1
    }
}

/// UTF-16 length of `s`.
pub open spec fn u16len(s: Seq<char>) -> nat
    decreases s.len(),
{
    if s.len() == 0 {
        0
    } else {
        u16len(s.drop_last()) + cu(s.last())
    }
}

/// UTF-16 offset of character index `k`.
pub open spec fn uoff(s: Seq<char>, k: int) -> nat {
    u16len(s.take(k))
}

proof fn lemma_uoff_step(s: Seq<char>, k: int)
    requires
        0 <= k < s.len(),
    ensures
        uoff(s, k + 1) == uoff(s, k) + cu(s[k]),
{
    assert(s.take(k + 1).drop_last() =~= s.take(k));
}

/// UTF-16 offsets grow strictly and stay within the byte offsets.
proof fn lemma_uoff_mono(s: Seq<char>, j: int, k: int)
    requires
        0 <= j <= k <= s.len(),
    ensures
        uoff(s, j) <= uoff(s, k),
        j < k ==> uoff(s, j) < uoff(s, k),
        uoff(s, k) <= boff(s, k),
    decreases k - j,
{
    if j < k {
        lemma_uoff_step(s, k - 1);
        lemma_boff_step(s, k - 1);
        lemma_uoff_mono(s, j, k - 1);
    } else {
        lemma_uoff_le_boff(s, k);
    }
}

proof fn lemma_uoff_le_boff(s: Seq<char>, k: int)
    requires
        0 <= k <= s.len(),
    ensures
        uoff(s, k) <= boff(s, k),
    decreases k,
{
    if k > 0 {
        lemma_uoff_step(s, k - 1);
        lemma_boff_step(s, k - 1);
        lemma_uoff_le_boff(s, k - 1);
    } else {
        assert(s.take(0) =~= Seq::<char>::empty());
    }
}

/// `k` is the last character start at or before byte `b`.
pub open spec fn is_byte_floor(s: Seq<char>, b: int, k: int) -> bool {
    0 <= k <= s.len() && boff(s, k) <= b && (k == s.len() || b < boff(s, k + 1))
}

/// `k` is the last character start at or before UTF-16 offset `u`.
pub open spec fn is_unit_floor(s: Seq<char>, u: int, k: int) -> bool {
    0 <= k <= s.len() && uoff(s, k) <= u && (k == s.len() || u < uoff(s, k + 1))
}

/// The UTF-16 offset of byte `b`, floored to a character start and
/// clamped to the end.
pub open spec fn utf16_of_byte(s: Seq<char>, b: int) -> nat {
    uoff(s, choose|k: int| is_byte_floor(s, b, k))
}

/// The byte offset of UTF-16 offset `u`, floored to a character start
/// and clamped to the end.
pub open spec fn byte_of_utf16(s: Seq<char>, u: int) -> nat {
    boff(s, choose|k: int| is_unit_floor(s, u, k))
}

proof fn lemma_byte_floor_unique(s: Seq<char>, b: int, k: int)
    requires
        is_byte_floor(s, b, k),
    ensures
        utf16_of_byte(s, b) == uoff(s, k),
        (choose|j: int| is_byte_floor(s, b, j)) == k,
{
    let j = choose|j: int| is_byte_floor(s, b, j);
    assert(is_byte_floor(s, b, j));
    if j < k {
        lemma_boff_mono(s, j + 1, k);
    } else if j > k {
        lemma_boff_mono(s, k + 1, j);
    }
}

proof fn lemma_unit_floor_unique(s: Seq<char>, u: int, k: int)
    requires
        is_unit_floor(s, u, k),
    ensures
        byte_of_utf16(s, u) == boff(s, k),
        (choose|j: int| is_unit_floor(s, u, j)) == k,
{
    let j = choose|j: int| is_unit_floor(s, u, j);
    assert(is_unit_floor(s, u, j));
    if j < k {
        lemma_uoff_mono(s, j + 1, k);
    } else if j > k {
        lemma_uoff_mono(s, k + 1, j);
    }
}

proof fn lemma_unit_floor_exists(s: Seq<char>, u: int, k: int) -> (j: int)
    requires
        0 <= k <= s.len(),
        uoff(s, k) <= u,
    ensures
        is_unit_floor(s, u, j),
        k <= j,
    decreases s.len() - k,
{
    if k == s.len() || u < uoff(s, k + 1) {
        k
    } else {
        lemma_unit_floor_exists(s, u, k + 1)
    }
}

/// A UTF-16 offset maps to the start of the character it falls in: the
/// result is a character boundary, an offset inside a surrogate pair
/// gives the start of that character, and an offset at or past the end
/// gives the text's length.
pub proof fn lemma_utf16_floor(s: Seq<char>, u: int)
    requires
        u >= 0,
    ensures
        crate::text::is_boundary(s, byte_of_utf16(s, u) as int),
        exists|k: int| 0 <= k <= s.len() && uoff(s, k) <= u && (k == s.len() || u < uoff(s, k + 1))
            && byte_of_utf16(s, u) == boff(s, k),
        u >= u16len(s) ==> byte_of_utf16(s, u) == blen(s),
{
    assert(s.take(0) =~= Seq::<char>::empty());
    let k = lemma_unit_floor_exists(s, u, 0);
    lemma_unit_floor_unique(s, u, k);
    crate::text::lemma_char_at_byte(s, k);
    assert(s.take(s.len() as int) =~= s);
    if u >= u16len(s) && k < s.len() {
        lemma_uoff_mono(s, k + 1, s.len() as int);
    }
}

/// Converting a character boundary's byte offset to UTF-16 and back
/// gives the same byte offset.
pub proof fn lemma_utf16_round_trip(s: Seq<char>, k: int)
    requires
        0 <= k <= s.len(),
    ensures
        byte_of_utf16(s, utf16_of_byte(s, boff(s, k) as int) as int) == boff(s, k),
{
    if k < s.len() {
        lemma_boff_mono(s, k, k + 1);
        lemma_uoff_mono(s, k, k + 1);
    }
    assert(is_byte_floor(s, boff(s, k) as int, k));
    lemma_byte_floor_unique(s, boff(s, k) as int, k);
    assert(is_unit_floor(s, uoff(s, k) as int, k));
    lemma_unit_floor_unique(s, uoff(s, k) as int, k);
}

/// Byte offset of the `char_offset`-th character, or the text's length
/// when there are fewer characters.
pub fn char_to_byte_offset(text: &str, char_offset: usize) -> (r: usize)
    requires
        blen(text@) <= usize::MAX,
    ensures
        r == if char_offset < text@.len() {
            boff(text@, char_offset as int)
        } else {
            blen(text@)
        },
{
    let s = chars_of(text);
    if char_offset < s.len() {
        byte_offset(s.as_slice(), char_offset)
    } else {
        assert(s@.take(s@.len() as int) =~= s@);
        byte_offset(s.as_slice(), s.len())
    }
}

fn unit_width(c: char) -> (w: usize)
    ensures
        w == cu(c),
{
    if (c as u32) >= 0x10000 {
        2
    } else {
        1
    }
}

/// Convert a byte offset to a UTF-16 code-unit offset. A byte inside a
/// multi-byte character floors to that character's start; offsets at or
/// past the end give the UTF-16 length of the text.
pub fn byte_to_utf16_offset(text: &str, byte: usize) -> (r: usize)
    requires
        blen(text@) <= usize::MAX,
    ensures
        r == utf16_of_byte(text@, byte as int),
{
    let s = chars_of(text);
    let ghost sv = s@;
    let mut start: usize = 0;
    let mut u: usize = 0;
    let mut i: usize = 0;
    assert(sv.take(0) =~= Seq::<char>::empty());
    while i < s.len()
        invariant
            sv == s@,
            sv == text@,
            blen(sv) <= usize::MAX,
            i <= sv.len(),
            start == boff(sv, i as int),
            u == uoff(sv, i as int),
            start <= byte,
        decreases sv.len() - i,
    {
        proof {
            lemma_boff_step(sv, i as int);
            lemma_uoff_step(sv, i as int);
            lemma_boff_mono(sv, i + 1, sv.len() as int);
            lemma_uoff_mono(sv, i + 1, i + 1);
        }
        let w = char_width(s[i]);
        if byte < start + w {
            proof {
                assert(is_byte_floor(sv, byte as int, i as int));
                lemma_byte_floor_unique(sv, byte as int, i as int);
            }
            return u;
        }
        start = start + w;
        u = u + unit_width(s[i]);
        i = i + 1;
    }
    proof {
        assert(is_byte_floor(sv, byte as int, i as int));
        lemma_byte_floor_unique(sv, byte as int, i as int);
    }
    u
}

/// The UTF-16 offset of character index `k` of `s`.
pub fn utf16_offset_of(s: &[char], k: usize) -> (r: usize)
    requires
        k <= s@.len(),
        blen(s@) <= usize::MAX,
    ensures
        r == uoff(s@, k as int),
{
    let mut u: usize = 0;
    let mut i: usize = 0;
    assert(s@.take(0) =~= Seq::<char>::empty());
    while i < k
        invariant
            i <= k <= s@.len(),
            u == uoff(s@, i as int),
            blen(s@) <= usize::MAX,
        decreases k - i,
    {
        proof {
            lemma_uoff_step(s@, i as int);
            lemma_uoff_mono(s@, i + 1, i + 1);
            lemma_boff_mono(s@, i + 1, s@.len() as int);
            assert(s@.take(s@.len() as int) =~= s@);
        }
        u = u + unit_width(s[i]);
        i = i + 1;
    }
    u
}

/// Convert a UTF-16 code-unit offset to a byte offset (the inverse of
/// [`byte_to_utf16_offset`] at character boundaries). An offset between
/// the two units of a surrogate pair floors to the character's start;
/// offsets at or past the end give the text's length.
pub fn utf16_to_byte_offset(text: &str, utf16: usize) -> (r: usize)
    requires
        blen(text@) <= usize::MAX,
    ensures
        r == byte_of_utf16(text@, utf16 as int),
{
    let s = chars_of(text);
    let ghost sv = s@;
    let mut start: usize = 0;
    let mut u: usize = 0;
    let mut i: usize = 0;
    assert(sv.take(0) =~= Seq::<char>::empty());
    while i < s.len()
        invariant
            sv == s@,
            sv == text@,
            blen(sv) <= usize::MAX,
            i <= sv.len(),
            start == boff(sv, i as int),
            u == uoff(sv, i as int),
            u <= utf16,
        decreases sv.len() - i,
    {
        proof {
            lemma_boff_step(sv, i as int);
            lemma_uoff_step(sv, i as int);
            lemma_boff_mono(sv, i + 1, sv.len() as int);
            lemma_uoff_mono(sv, i + 1, i + 1);
        }
        let w = unit_width(s[i]);
        if utf16 < u + w {
            proof {
                assert(is_unit_floor(sv, utf16 as int, i as int));
                lemma_unit_floor_unique(sv, utf16 as int, i as int);
            }
            return start;
        }
        start = start + char_width(s[i]);
        u = u + w;
        i = i + 1;
    }
    proof {
        assert(is_unit_floor(sv, utf16 as int, i as int));
        lemma_unit_floor_unique(sv, utf16 as int, i as int);
    }
    start
}

// ---------------------------------------------------------------------
// Finding and writing image markup
// ---------------------------------------------------------------------

/// The markdown form `![alt](src...)` whose `(src` is the first one in
/// `s`: its start and length in characters.
pub open spec fn markdown_ref(s: Seq<char>, src: Seq<char>) -> Option<(nat, nat)> {
    let i = find_from(s, seq!['('] + src, 0);
    if i > 0 && s[i - 1] == ']' {
        let b = rfind_upto(s, "!["@, i - 2);
        let f = find_char(s.skip(i + 1), ')');
        if b >= 0 && i + 1 + f < s.len() {
            Some((b as nat, (i + 1 + f + 1 - b) as nat))
        } else {
            None
        }
    } else {
        None
    }
}

/// The HTML form `<img ... src=QsrcQ ...>` for the quote `q`, the first
/// `src=QsrcQ` in `s`: start and length in characters.
pub open spec fn html_ref(s: Seq<char>, src: Seq<char>, q: char) -> Option<(nat, nat)> {
    let j = find_from(s, "src="@ + seq![q] + src + seq![q], 0);
    if j >= 0 {
        let g = rfind_upto(s, "<img"@, j - 4);
        if g >= 0 {
            let f = find_char(s.skip(g), '>');
            if g + f < s.len() {
                Some((g as nat, (f + 1) as nat))
            } else {
                None
            }
        } else {
            None
        }
    } else {
        None
    }
}

/// Where the image with this `src` is: the markdown form, else the HTML
/// form with double quotes, else with single quotes.
pub open spec fn image_ref(s: Seq<char>, src: Seq<char>) -> Option<(nat, nat)> {
    match markdown_ref(s, src) {
        Some(r) => Some(r),
        None => match html_ref(s, src, '"') {
            Some(r) => Some(r),
            None => html_ref(s, src, '\''),
        },
    }
}

proof fn lemma_rfind_upto_le(s: Seq<char>, p: Seq<char>, i: int)
    ensures
        rfind_upto(s, p, i) == -1 || rfind_upto(s, p, i) <= i,
    decreases i + 1,
{
    if i >= 0 && !occurs_at(s, p, i) {
        lemma_rfind_upto_le(s, p, i - 1);
    }
}

/// A found image lies inside the text.
pub proof fn lemma_image_ref_inside(s: Seq<char>, src: Seq<char>)
    ensures
        image_ref(s, src) matches Some((c, n)) ==> c + n <= s.len(),
{
    let i = find_from(s, seq!['('] + src, 0);
    lemma_rfind_upto_le(s, "!["@, i - 2);
}

fn html_ref_exec(s: &[char], src: &[char], q: char) -> (r: Option<(usize, usize)>)
    ensures
        match r {
            Some((a, b)) => html_ref(s@, src@, q) == Some((a as nat, b as nat)) && a + b <= s@.len(),
            None => html_ref(s@, src@, q) is None,
        },
{
    let mut needle: Vec<char> = Vec::new();
    push_str(&mut needle, "src=");
    needle.push(q);
    push_all(&mut needle, src);
    needle.push(q);
    proof {
        reveal_strlit("src=");
    }
    assert(needle@ =~= "src="@ + seq![q] + src@ + seq![q]);
    assert(s@.skip(0) =~= s@);
    let j = match find_seq_from(s, needle.as_slice(), 0) {
        Some(j) => j,
        None => {
            return None;
        },
    };
    if j < 4 {
        assert(rfind_upto(s@, "<img"@, j - 4) == -1);
        return None;
    }
    let img = chars_of("<img");
    let g = match rfind_seq_upto(s, img.as_slice(), j - 4) {
        Some(g) => g,
        None => {
            return None;
        },
    };
    let e = find_char_from(s, g, '>');
    proof {
        lemma_find_char(s@.skip(g as int), '>');
    }
    if e < s.len() {
        Some((g, e + 1 - g))
    } else {
        None
    }
}

/// Locate the first image with this `src`, in markdown form
/// (`![alt](src)` or `![alt](src "title")`) or else HTML form
/// (`<img ... src="src" ...>` or with single quotes). Returns the
/// character offset and character length of the whole expression.
pub fn find_image_ref(text: &str, src: &str) -> (r: Option<(usize, usize)>)
    ensures
        match r {
            Some((a, b)) => image_ref(text@, src@) == Some((a as nat, b as nat)) && a + b <= text@.len(),
            None => image_ref(text@, src@) is None,
        },
{
    let s = chars_of(text);
    let n = s.len();
    let sv = chars_of(src);
    let mut needle: Vec<char> = Vec::new();
    needle.push('(');
    push_all(&mut needle, sv.as_slice());
    assert(needle@ =~= seq!['('] + src@);
    let md = match find_seq_from(s.as_slice(), needle.as_slice(), 0) {
        Some(i) => {
            assert(i + needle@.len() <= s@.len() && needle@.len() >= 1);
            if i > 0 && s[i - 1] == ']' {
                let bang = chars_of("![");
                proof {
                    reveal_strlit("![");
                }
                let b = if i >= 2 {
                    rfind_seq_upto(s.as_slice(), bang.as_slice(), i - 2)
                } else {
                    assert(rfind_upto(s@, "!["@, i - 2) == -1);
                    None
                };
                assert(i + 1 <= n);
                let f = find_char_from(s.as_slice(), i + 1, ')');
                proof {
                    lemma_find_char(s@.skip(i + 1), ')');
                }
                match b {
                    Some(b) => {
                        if f < s.len() {
                            Some((b, f + 1 - b))
                        } else {
                            None
                        }
                    },
                    None => None,
                }
            } else {
                None
            }
        },
        None => None,
    };
    match md {
        Some(r) => Some(r),
        None => match html_ref_exec(s.as_slice(), sv.as_slice(), '"') {
            Some(r) => Some(r),
            None => html_ref_exec(s.as_slice(), sv.as_slice(), '\''),
        },
    }
}

/// The markup for an image: markdown `![alt](src)` without a width,
/// `<img src=.. alt=.. width=..>` (escaped, `alt` left out when empty)
/// with one.
pub open spec fn image_markup(src: Seq<char>, width: Option<Seq<char>>, alt: Seq<char>) -> Seq<char> {
    match width {
        None => "!["@ + alt + "]("@ + src + ")"@,
        Some(w) => "<img src=\""@ + html_escaped(src) + "\""@ + (if alt.len() == 0 {
            seq![]
        } else {
            " alt=\""@ + html_escaped(alt) + "\""@
        }) + " width=\""@ + html_escaped(w) + "\">"@,
    }
}

/// Build an image's markup: markdown when no width is set, HTML when
/// one is (CommonMark has no width syntax).
pub fn build_image_markup(src: &str, width: Option<&str>, alt: &str) -> (r: String)
    ensures
        r@ == image_markup(
            src@,
            match width {
                Some(w) => Some(w@),
                None => None,
            },
            alt@,
        ),
{
    let mut out: Vec<char> = Vec::new();
    match width {
        None => {
            push_str(&mut out, "![");
            push_str(&mut out, alt);
            push_str(&mut out, "](");
            push_str(&mut out, src);
            push_str(&mut out, ")");
        },
        Some(w) => {
            push_str(&mut out, "<img src=\"");
            push_html_escaped(&mut out, chars_of(src).as_slice());
            push_str(&mut out, "\"");
            if !alt.is_empty() {
                push_str(&mut out, " alt=\"");
                push_html_escaped(&mut out, chars_of(alt).as_slice());
                push_str(&mut out, "\"");
            }
            push_str(&mut out, " width=\"");
            push_html_escaped(&mut out, chars_of(w).as_slice());
            push_str(&mut out, "\">");
        },
    }
    proof {
        let wv = match width {
            Some(w) => Some(w@),
            None => None,
        };
        assert(out@ =~= image_markup(src@, wv, alt@));
    }
    string_of(out.as_slice())
}

} // verus!
