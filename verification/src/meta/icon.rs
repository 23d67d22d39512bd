//! A page's icon as text: one to four graphemes drawn as a glyph or a grid,
//! longer text as its first two graphemes.

use vstd::prelude::*;

use crate::html::{escape_html, escaped};
use crate::paths::{extension, extension_spec, file_name, file_name_spec};
use crate::text::{ascii_lower_seq, char_ascii_lower, chars_of, find_char, find_from, lemma_find_from_bounds, string_from_range};

verus! {

/// The extended grapheme clusters of `s`, as `unicode-segmentation` splits it.
pub uninterp spec fn extended_graphemes(s: Seq<char>) -> Seq<Seq<char>>;

/// The pieces joined back together.
pub open spec fn concat(parts: Seq<Seq<char>>) -> Seq<char>
    decreases parts.len(),
{
    if parts.len() == 0 {
        Seq::empty()
    } else {
        concat(parts.drop_last()) + parts.last()
    }
}

/// `UnicodeSegmentation::graphemes(s, true)`, each cluster copied out. The
/// clusters are consecutive pieces of `s`: joined, they give `s` back.
#[verifier::external_body]
fn graphemes(s: &str) -> (r: Vec<String>)
    ensures
        r@.map_values(|g: String| g@) == extended_graphemes(s@),
        concat(r@.map_values(|g: String| g@)) == s@,
{
    unicode_segmentation::UnicodeSegmentation::graphemes(s, true).map(|g| g.to_string()).collect()
}

pub open spec fn cell(g: Seq<char>) -> Seq<char> {
    "<span class=\"avatar-cell\">"@ + escaped(g) + "</span>"@
}

pub open spec fn cells(gs: Seq<Seq<char>>) -> Seq<char>
    decreases gs.len(),
{
    if gs.len() == 0 {
        Seq::empty()
    } else {
        cells(gs.drop_last()) + cell(gs.last())
    }
}

/// How a plain-text icon is drawn, by how many graphemes it has: one large
/// glyph; a grid of two, three or four; or the first two as initials.
pub open spec fn text_icon_spec(s: Seq<char>) -> Seq<char> {
    icon_from_clusters(extended_graphemes(s), s)
}

/// The avatar text icon of `s`, drawn from its grapheme clusters `gs`.
pub open spec fn icon_from_clusters(gs: Seq<Seq<char>>, s: Seq<char>) -> Seq<char> {
    if gs.len() == 0 {
        Seq::empty()
    } else if gs.len() == 1 {
        "<span class=\"avatar-text avatar-text-1\">"@ + escaped(gs[0]) + "</span>"@
    } else if gs.len() == 2 {
        "<span class=\"avatar-text avatar-grid avatar-grid-2\">"@ + cells(gs) + "</span>"@
    } else if gs.len() == 3 {
        "<span class=\"avatar-text avatar-grid avatar-grid-3\">"@ + cells(gs) + "</span>"@
    } else if gs.len() == 4 {
        "<span class=\"avatar-text avatar-grid avatar-grid-4\">"@ + cells(gs) + "</span>"@
    } else {
        "<span class=\"avatar-text avatar-text-2 avatar-initials\" title=\""@ + escaped(s) + "\">"@ + escaped(
            gs[0] + gs[1],
        ) + "</span>"@
    }
}

fn cells_of(gs: &Vec<String>) -> (r: String)
    ensures
        r@ == cells(gs@.map_values(|g: String| g@)),
{
    let ghost v = gs@.map_values(|g: String| g@);
    let mut out = String::new();
    let mut i: usize = 0;
    while i < gs.len()
        invariant
            i <= gs@.len(),
            v == gs@.map_values(|g: String| g@),
            out@ == cells(v.take(i as int)),
        decreases gs@.len() - i,
    {
        assert(v.take(i + 1).drop_last() =~= v.take(i as int));
        out.push_str("<span class=\"avatar-cell\">");
        out.push_str(escape_html(gs[i].as_str()).as_str());
        out.push_str("</span>");
        i = i + 1;
    }
    assert(v.take(v.len() as int) =~= v);
    out
}

/// Formats a plain text or emoji icon string according to avatar display rules:
/// - 1 grapheme: single large glyph (`avatar-text-1`)
/// - 2, 3 or 4 graphemes: a grid of cells (`avatar-grid-2` .. `avatar-grid-4`)
/// - 5+ graphemes: initials (first 2 graphemes rendered with `avatar-text-2 avatar-initials`)
pub fn format_text_icon(s: &str) -> (r: String)
    ensures
        r@ == text_icon_spec(s@),
{
    text_icon_from_clusters(&graphemes(s), s)
}

/// The avatar text icon of `s`, given its grapheme clusters `gs`.
pub fn text_icon_from_clusters(gs: &Vec<String>, s: &str) -> (r: String)
    ensures
        r@ == icon_from_clusters(gs@.map_values(|g: String| g@), s@),
{
    let ghost v = gs@.map_values(|g: String| g@);
    let n = gs.len();
    let mut out = String::new();
    if n == 0 {
        return out;
    }
    if n == 1 {
        out.push_str("<span class=\"avatar-text avatar-text-1\">");
        out.push_str(escape_html(gs[0].as_str()).as_str());
        out.push_str("</span>");
        return out;
    }
    if n <= 4 {
        if n == 2 {
            out.push_str("<span class=\"avatar-text avatar-grid avatar-grid-2\">");
        } else if n == 3 {
            out.push_str("<span class=\"avatar-text avatar-grid avatar-grid-3\">");
        } else {
            out.push_str("<span class=\"avatar-text avatar-grid avatar-grid-4\">");
        }
        out.push_str(cells_of(gs).as_str());
        out.push_str("</span>");
        return out;
    }
    let mut initials = gs[0].clone();
    initials.push_str(gs[1].as_str());
    assert(initials@ == v[0] + v[1]);
    out.push_str("<span class=\"avatar-text avatar-text-2 avatar-initials\" title=\"");
    out.push_str(escape_html(s).as_str());
    out.push_str("\">");
    out.push_str(escape_html(initials.as_str()).as_str());
    out.push_str("</span>");
    out
}

pub open spec fn all_ascii(s: Seq<char>) -> bool {
    forall|i: int| 0 <= i < s.len() ==> (#[trigger] s[i] as u32) < 0x80
}

/// How a plain-text icon is drawn in front of links to its page: one
/// grapheme as text (or emoji), longer text as its first two graphemes.
pub open spec fn text_icon_link_spec(s: Seq<char>) -> Seq<char> {
    link_icon_from_clusters(extended_graphemes(s))
}

/// The link icon drawn from a text's grapheme clusters `gs`.
pub open spec fn link_icon_from_clusters(gs: Seq<Seq<char>>) -> Seq<char> {
    if gs.len() == 0 {
        Seq::empty()
    } else if gs.len() == 1 {
        let cls = if all_ascii(gs[0]) {
            "tm-link-icon tm-link-icon-text"@
        } else {
            "tm-link-icon tm-link-icon-emoji"@
        };
        "<span class=\""@ + cls + "\" aria-hidden=\"true\">"@ + escaped(gs[0]) + "</span>"@
    } else {
        "<span class=\"tm-link-icon tm-link-icon-text\" aria-hidden=\"true\">"@ + escaped(gs[0] + gs[1]) + "</span>"@
    }
}

fn is_ascii_str(s: &str) -> (r: bool)
    ensures
        r == all_ascii(s@),
{
    let cs = chars_of(s);
    let mut i: usize = 0;
    while i < cs.len()
        invariant
            i <= cs@.len(),
            cs@ == s@,
            forall|k: int| 0 <= k < i ==> (#[trigger] cs@[k] as u32) < 0x80,
        decreases cs@.len() - i,
    {
        if (cs[i] as u32) >= 0x80 {
            return false;
        }
        i = i + 1;
    }
    true
}

/// The icon a page shows in front of links to it, from its text icon.
pub fn format_text_icon_link(s: &str) -> (r: String)
    ensures
        r@ == text_icon_link_spec(s@),
{
    text_icon_link_from_clusters(&graphemes(s))
}

/// The link icon drawn from a text's grapheme clusters `gs`.
pub fn text_icon_link_from_clusters(gs: &Vec<String>) -> (r: String)
    ensures
        r@ == link_icon_from_clusters(gs@.map_values(|g: String| g@)),
{
    let ghost v = gs@.map_values(|g: String| g@);
    let n = gs.len();
    let mut out = String::new();
    if n == 0 {
        return out;
    }
    if n == 1 {
        let cls = if is_ascii_str(gs[0].as_str()) {
            "tm-link-icon tm-link-icon-text"
        } else {
            "tm-link-icon tm-link-icon-emoji"
        };
        out.push_str("<span class=\"");
        out.push_str(cls);
        out.push_str("\" aria-hidden=\"true\">");
        out.push_str(escape_html(gs[0].as_str()).as_str());
        out.push_str("</span>");
        return out;
    }
    let mut initials = gs[0].clone();
    initials.push_str(gs[1].as_str());
    assert(initials@ == v[0] + v[1]);
    out.push_str("<span class=\"tm-link-icon tm-link-icon-text\" aria-hidden=\"true\">");
    out.push_str(escape_html(initials.as_str()).as_str());
    out.push_str("</span>");
    out
}

/// What comes before the first `c`, or all of `s`.
pub open spec fn before_first(s: Seq<char>, c: char) -> Seq<char> {
    match find_from(s, c, 0) {
        Some(k) => s.take(k),
        None => s,
    }
}

/// Whether a reference names an image file, by its extension (query and
/// fragment set aside).
pub open spec fn is_image_target_spec(s: Seq<char>) -> bool {
    let clean = before_first(before_first(s, '?'), '#');
    match file_name_spec(clean) {
        Some(name) => match extension_spec(name) {
            Some(ext) => {
                let e = ascii_lower_seq(ext);
                e == "png"@ || e == "jpg"@ || e == "jpeg"@ || e == "gif"@ || e == "webp"@ || e == "svg"@
                    || e == "avif"@ || e == "ico"@
            },
            None => false,
        },
        None => false,
    }
}

fn before_first_of(s: &str, c: char) -> (r: String)
    ensures
        r@ == before_first(s@, c),
{
    let cs = chars_of(s);
    assert(cs@.subrange(0, cs@.len() as int) =~= cs@);
    match find_char(&cs, 0, cs.len(), c) {
        Some(k) => {
            assert(cs@.subrange(0, k as int) =~= s@.take(k as int));
            string_from_range(&cs, 0, k)
        },
        None => string_from_range(&cs, 0, cs.len()),
    }
}

/// Helper to test if a string represents an image target (by file extension).
pub fn is_image_target(s: &str) -> (r: bool)
    ensures
        r == is_image_target_spec(s@),
{
    let a = before_first_of(s, '?');
    let clean = before_first_of(a.as_str(), '#');
    match file_name(clean.as_str()) {
        Some(name) => match extension(name.as_str()) {
            Some(ext) => {
                let ec = chars_of(ext.as_str());
                let mut lower: Vec<char> = Vec::new();
                let mut i: usize = 0;
                while i < ec.len()
                    invariant
                        i <= ec@.len(),
                        ec@ == ext@,
                        lower@ == ascii_lower_seq(ec@.take(i as int)),
                    decreases ec@.len() - i,
                {
                    lower.push(char_ascii_lower(ec[i]));
                    assert(ascii_lower_seq(ec@.take(i + 1)) =~= ascii_lower_seq(ec@.take(i as int)).push(
                        crate::text::ascii_lower(ec@[i as int]),
                    ));
                    i = i + 1;
                }
                assert(ec@.take(ec@.len() as int) =~= ec@);
                let l = &lower;
                crate::text::is_lit(l, "png") || crate::text::is_lit(l, "jpg") || crate::text::is_lit(l, "jpeg")
                    || crate::text::is_lit(l, "gif") || crate::text::is_lit(l, "webp") || crate::text::is_lit(l, "svg")
                    || crate::text::is_lit(l, "avif") || crate::text::is_lit(l, "ico")
            },
            None => false,
        },
        None => false,
    }
}

} // verus!
