//! Internal links: the target note's own icon (its `@meta.icon`) in front of
//! each link to a published page.

use vstd::prelude::*;
use vstd::utf8::{decode_utf8, encode_utf8, valid_utf8};

use crate::pattern::{
    captures_view, group, group_text, group_views, interleave, match_pieces, regex_captures, regex_split, splice,
    string_seqs,
};
use crate::table::StringTable;
use crate::text::{
    chars_of, contains_char, contains_sub, contains_sub_spec, find_char, find_from, has_prefix, has_suffix,
    is_char_pred, lemma_find_from_bounds, string_from_range, trim_end_char, trim_end_spec, trim_start_char,
    trim_start_spec, trim_ws, trim_ws_range,
};

verus! {

/// `String::from_utf8`: the text the bytes spell, when they are valid UTF-8.
#[verifier::external_body]
pub(crate) fn string_from_utf8(bytes: Vec<u8>) -> (r: Option<String>)
    ensures
        r is Some <==> valid_utf8(bytes@),
        r matches Some(s) ==> s@ == decode_utf8(bytes@),
{
    String::from_utf8(bytes).ok()
}

/// An `<a>` with an `href`: its attributes, the `href`, and its content.
pub const INTERNAL_LINK_PATTERN: &'static str = "(?s)<a\\b([^>]*\\bhref=\"([^\"]+)\"[^>]*)>(.*?)</a>";

pub open spec fn is_hex_byte(b: u8) -> bool {
    (0x30 <= b <= 0x39) || (0x41 <= b <= 0x46) || (0x61 <= b <= 0x66)
}

pub open spec fn hex_value(b: u8) -> int {
    if 0x30 <= b <= 0x39 {
        b - 0x30
    } else if 0x41 <= b <= 0x46 {
        b - 0x41 + 10
    } else {
        b - 0x61 + 10
    }
}

/// The byte two characters after a `%` stand for: two hex digits, or a `+`
/// sign and one, as `u8::from_str_radix` reads them.
pub open spec fn escaped_byte(h1: u8, h2: u8) -> Option<u8> {
    if is_hex_byte(h1) && is_hex_byte(h2) {
        Some((hex_value(h1) * 16 + hex_value(h2)) as u8)
    } else if h1 == 0x2b && is_hex_byte(h2) {
        Some(hex_value(h2) as u8)
    } else {
        None
    }
}

/// The bytes a percent-encoded byte string stands for: `%XX` as one byte,
/// `+` as a space; `None` when a `%` is not followed by two digits.
pub open spec fn percent_bytes(b: Seq<u8>) -> Option<Seq<u8>>
    decreases b.len(),
{
    if b.len() == 0 {
        Some(Seq::empty())
    } else if b[0] == 0x25 {
        if b.len() < 3 {
            None
        } else {
            match escaped_byte(b[1], b[2]) {
                Some(v) => match percent_bytes(b.skip(3)) {
                    Some(rest) => Some(seq![v] + rest),
                    None => None,
                },
                None => None,
            }
        }
    } else {
        let v: u8 = if b[0] == 0x2b { 0x20 } else { b[0] };
        match percent_bytes(b.skip(1)) {
            Some(rest) => Some(seq![v] + rest),
            None => None,
        }
    }
}

/// The text a percent-encoded URL path stands for, when it decodes to UTF-8.
pub open spec fn percent_decode_spec(s: Seq<char>) -> Option<Seq<char>> {
    match percent_bytes(encode_utf8(s)) {
        Some(bs) => if valid_utf8(bs) {
            Some(decode_utf8(bs))
        } else {
            None
        },
        None => None,
    }
}

fn hex_value_of(b: u8) -> (r: u8)
    requires
        is_hex_byte(b),
    ensures
        r == hex_value(b),
{
    if b >= 0x30 && b <= 0x39 {
        b - 0x30
    } else if b >= 0x41 && b <= 0x46 {
        b - 0x41 + 10
    } else {
        b - 0x61 + 10
    }
}

fn is_hex(b: u8) -> (r: bool)
    ensures
        r == is_hex_byte(b),
{
    (b >= 0x30 && b <= 0x39) || (b >= 0x41 && b <= 0x46) || (b >= 0x61 && b <= 0x66)
}

/// Basic percent-decoding for URLs (e.g. `%20` -> ` `, Japanese UTF-8 bytes).
pub fn percent_decode(s: &str) -> (r: Option<String>)
    ensures
        r is Some <==> percent_decode_spec(s@) is Some,
        r matches Some(d) ==> percent_decode_spec(s@) == Some(d@),
{
    let bytes = s.as_bytes();
    let ghost b = bytes@;
    let n = bytes.len();
    let mut out: Vec<u8> = Vec::new();
    let mut i: usize = 0;
    assert(b.skip(0) =~= b);
    while i < n
        invariant
            i <= n,
            n == b.len(),
            b == bytes@,
            b == encode_utf8(s@),
            percent_bytes(b) == match percent_bytes(b.skip(i as int)) {
                Some(rest) => Some(out@ + rest),
                None => None::<Seq<u8>>,
            },
        decreases n - i,
    {
        let c = bytes[i];
        let ghost rest = b.skip(i as int);
        if c == 0x25 {
            if n - i < 3 {
                assert(percent_bytes(rest) is None);
                return None;
            }
            let h1 = bytes[i + 1];
            let h2 = bytes[i + 2];
            assert(rest[1] == h1 && rest[2] == h2);
            assert(rest.skip(3) =~= b.skip(i + 3));
            let v: u8;
            if is_hex(h1) && is_hex(h2) {
                let hi = hex_value_of(h1);
                let lo = hex_value_of(h2);
                v = hi * 16 + lo;
            } else if h1 == 0x2b && is_hex(h2) {
                v = hex_value_of(h2);
            } else {
                assert(percent_bytes(rest) is None);
                return None;
            }
            assert(escaped_byte(h1, h2) == Some(v));
            let ghost before = out@;
            out.push(v);
            assert(percent_bytes(b) == match percent_bytes(b.skip(i + 3)) {
                Some(r2) => Some(out@ + r2),
                None => None::<Seq<u8>>,
            }) by {
                match percent_bytes(b.skip(i + 3)) {
                    Some(r2) => {
                        assert(before + (seq![v] + r2) =~= out@ + r2);
                    },
                    None => {},
                }
            }
            i = i + 3;
        } else {
            let v: u8 = if c == 0x2b { 0x20 } else { c };
            assert(rest.skip(1) =~= b.skip(i + 1));
            let ghost before = out@;
            out.push(v);
            assert(percent_bytes(b) == match percent_bytes(b.skip(i + 1)) {
                Some(r2) => Some(out@ + r2),
                None => None::<Seq<u8>>,
            }) by {
                match percent_bytes(b.skip(i + 1)) {
                    Some(r2) => {
                        assert(before + (seq![v] + r2) =~= out@ + r2);
                    },
                    None => {},
                }
            }
            i = i + 1;
        }
    }
    assert(b.skip(n as int) =~= Seq::<u8>::empty());
    assert(out@ + Seq::<u8>::empty() =~= out@);
    string_from_utf8(out)
}

/// The path part of an `href`: what comes before any `#` or `?`.
pub open spec fn path_part(href: Seq<char>) -> Seq<char> {
    match first_of_two(href, '#', '?', 0) {
        Some(k) => href.take(k),
        None => href,
    }
}

/// The first index at or after `i` holding `a` or `b`.
pub open spec fn first_of_two(s: Seq<char>, a: char, b: char, i: int) -> Option<int>
    decreases s.len() - i,
{
    if i < 0 || i >= s.len() {
        None
    } else if s[i] == a || s[i] == b {
        Some(i)
    } else {
        first_of_two(s, a, b, i + 1)
    }
}

/// The page slug an internal `href` points at: no query or fragment, no URL
/// prefix, no `.html`, no leading or trailing slashes.
pub open spec fn slug_of_href(href: Seq<char>, url_prefix: Seq<char>) -> Seq<char> {
    let p = trim_start_spec(path_part(href), is_char_pred('/'));
    let clean = crate::config::without_slashes(url_prefix);
    let w = if clean.len() > 0 && clean.is_prefix_of(p) {
        trim_start_spec(p.skip(clean.len() as int), is_char_pred('/'))
    } else {
        p
    };
    let x = if ".html"@.is_suffix_of(w) {
        w.take(w.len() - 5)
    } else {
        w
    };
    trim_end_spec(x, is_char_pred('/'))
}

/// Normalizes and extracts the document slug from an internal href.
///
/// Strips query params, `#fragment`, clean_url_prefix, and leading/trailing slashes.
pub fn extract_slug_from_href(href: &str, clean_url_prefix: &str) -> (r: String)
    ensures
        r@ == slug_of_href(href@, clean_url_prefix@),
{
    let cs = chars_of(href);
    let n = cs.len();
    let mut e: usize = 0;
    while e < n && cs[e] != '#' && cs[e] != '?'
        invariant
            e <= n,
            n == cs@.len(),
            cs@ == href@,
            first_of_two(href@, '#', '?', 0) == first_of_two(href@, '#', '?', e as int),
        decreases n - e,
    {
        e = e + 1;
    }
    assert(cs@.subrange(0, e as int) == path_part(href@)) by {
        if e == n {
            assert(first_of_two(href@, '#', '?', e as int) is None);
            assert(cs@.subrange(0, e as int) =~= href@);
        } else {
            assert(cs@.subrange(0, e as int) =~= href@.take(e as int));
        }
    }
    let a = trim_start_char(&cs, 0, e, '/');
    let pc = chars_of(clean_url_prefix);
    let pa = trim_start_char(&pc, 0, pc.len(), '/');
    let pb = trim_end_char(&pc, pa, pc.len(), '/');
    assert(pc@.subrange(0, pc@.len() as int) =~= clean_url_prefix@);
    let ghost clean = pc@.subrange(pa as int, pb as int);
    let ghost p = cs@.subrange(a as int, e as int);
    assert(clean == crate::config::without_slashes(clean_url_prefix@));
    assert(p == trim_start_spec(path_part(href@), is_char_pred('/')));
    let plen = pb - pa;
    let mut start = a;
    if plen > 0 && plen <= e - a {
        let mut k: usize = 0;
        let mut same = true;
        while k < plen
            invariant
                k <= plen,
                plen == clean.len(),
                plen <= e - a,
                a <= e <= n,
                n == cs@.len(),
                pa + plen <= pc@.len(),
                clean == pc@.subrange(pa as int, pb as int),
                pb == pa + plen,
                p == cs@.subrange(a as int, e as int),
                same == (forall|x: int| 0 <= x < k ==> #[trigger] p[x] == clean[x]),
            decreases plen - k,
        {
            assert(p[k as int] == cs@[a + k] && clean[k as int] == pc@[pa + k]);
            if cs[a + k] != pc[pa + k] {
                same = false;
            }
            k = k + 1;
        }
        if same {
            assert(clean =~= p.take(plen as int));
            start = trim_start_char(&cs, a + plen, e, '/');
            assert(cs@.subrange((a + plen) as int, e as int) =~= p.skip(plen as int));
        } else {
            assert(!clean.is_prefix_of(p));
        }
    }
    let ghost w = cs@.subrange(start as int, e as int);
    assert(w == (if clean.len() > 0 && clean.is_prefix_of(p) {
        trim_start_spec(p.skip(clean.len() as int), is_char_pred('/'))
    } else {
        p
    }));
    proof {
        reveal_strlit(".html");
    }
    let mut end = e;
    if e - start >= 5 && cs[e - 5] == '.' && cs[e - 4] == 'h' && cs[e - 3] == 't' && cs[e - 2] == 'm'
        && cs[e - 1] == 'l' {
        assert(w.subrange(w.len() - 5, w.len() as int) =~= ".html"@);
        end = e - 5;
        assert(cs@.subrange(start as int, end as int) =~= w.take(w.len() - 5));
    } else {
        assert(!".html"@.is_suffix_of(w)) by {
            if ".html"@.is_suffix_of(w) {
                let sfx = w.subrange(w.len() - 5, w.len() as int);
                assert(sfx == ".html"@);
                assert(sfx[0] == w[w.len() - 5]);
                assert(sfx[4] == w[w.len() - 1]);
                assert(sfx[1] == w[w.len() - 4]);
                assert(sfx[2] == w[w.len() - 3]);
                assert(sfx[3] == w[w.len() - 2]);
            }
        }
        assert(cs@.subrange(start as int, end as int) =~= w);
    }
    let f = trim_end_char(&cs, start, end, '/');
    string_from_range(&cs, start, f)
}

/// The icon a published note shows in front of links to it.
pub open spec fn icon_for_slug(icons: Map<Seq<char>, Seq<char>>, slug: Seq<char>) -> Option<Seq<char>> {
    if icons.contains_key(slug) {
        Some(icons[slug])
    } else if slug.contains('%') {
        match percent_decode_spec(slug) {
            Some(d) => if icons.contains_key(d) {
                Some(icons[d])
            } else {
                None
            },
            None => None,
        }
    } else {
        None
    }
}

/// An `href` that leaves the book: another site, an anchor, a mailto and the like.
pub open spec fn leaves_book(href: Seq<char>) -> bool {
    "http://"@.is_prefix_of(href) || "https://"@.is_prefix_of(href) || "//"@.is_prefix_of(href) || "#"@.is_prefix_of(href)
        || href.contains(':')
}

/// A link that cannot or need not take an icon.
pub open spec fn skips_icon(attrs: Seq<char>, inner: Seq<char>) -> bool {
    contains_sub_spec(attrs, "tm-ref-unresolved"@) || trim_ws(inner).len() == 0 || contains_sub_spec(inner, "<img"@)
        || contains_sub_spec(inner, "<svg"@) || contains_sub_spec(inner, "<tmt-icon"@) || contains_sub_spec(
        inner,
        "tm-link-icon"@,
    )
}

/// One internal link, from the groups of its match.
pub open spec fn internal_link_rep(m: Seq<Option<Seq<char>>>, icons: Map<Seq<char>, Seq<char>>, prefix: Seq<char>) -> Seq<char> {
    let attrs = group(m, 1);
    let href = group(m, 2);
    let inner = group(m, 3);
    if leaves_book(href) || skips_icon(attrs, inner) {
        group(m, 0)
    } else {
        let slug = slug_of_href(href, prefix);
        if slug.len() == 0 {
            group(m, 0)
        } else {
            match icon_for_slug(icons, slug) {
                Some(icon) => "<a"@ + attrs + ">"@ + icon + inner + "</a>"@,
                None => group(m, 0),
            }
        }
    }
}

/// The body with the target note's icon in front of every internal link to
/// a note that has one.
pub open spec fn enhance_internal_spec(body: Seq<char>, icons: Map<Seq<char>, Seq<char>>, prefix: Seq<char>) -> Seq<char> {
    if icons.dom().len() == 0 {
        body
    } else {
        match (regex_split(INTERNAL_LINK_PATTERN@, body), regex_captures(INTERNAL_LINK_PATTERN@, body)) {
            (Some(gaps), Some(ms)) => interleave(
                gaps,
                ms.map_values(|m: Seq<Option<Seq<char>>>| internal_link_rep(m, icons, prefix)),
            ),
            _ => body,
        }
    }
}

fn leaves_book_exec(href: &str) -> (r: bool)
    ensures
        r == leaves_book(href@),
{
    let cs = chars_of(href);
    assert(cs@.subrange(0, cs@.len() as int) =~= cs@);
    has_prefix(&cs, "http://") || has_prefix(&cs, "https://") || has_prefix(&cs, "//") || has_prefix(&cs, "#")
        || contains_char(&cs, 0, cs.len(), ':')
}

fn skips_icon_exec(attrs: &str, inner: &str) -> (r: bool)
    ensures
        r == skips_icon(attrs@, inner@),
{
    let ic = chars_of(inner);
    let (a, b) = trim_ws_range(&ic, 0, ic.len());
    assert(ic@.subrange(0, ic@.len() as int) =~= inner@);
    contains_sub(attrs, "tm-ref-unresolved") || a == b || contains_sub(inner, "<img") || contains_sub(inner, "<svg")
        || contains_sub(inner, "<tmt-icon") || contains_sub(inner, "tm-link-icon")
}

fn lookup_icon(icons: &StringTable, slug: &str) -> (r: Option<String>)
    ensures
        r is Some <==> icon_for_slug(icons@, slug@) is Some,
        r matches Some(i) ==> icon_for_slug(icons@, slug@) == Some(i@),
{
    match icons.value_of(slug) {
        Some(i) => Some(i),
        None => {
            let cs = chars_of(slug);
            assert(cs@.subrange(0, cs@.len() as int) =~= cs@);
            if contains_char(&cs, 0, cs.len(), '%') {
                match percent_decode(slug) {
                    Some(d) => icons.value_of(d.as_str()),
                    None => None,
                }
            } else {
                None
            }
        },
    }
}

/// What one `<a href>` match becomes, from its capture groups (group 0 the
/// whole match, 1 the attributes, 2 the `href`, 3 the content): the link
/// with its target page's icon in front, or the match as it was.
pub fn internal_link(m: &Vec<Option<String>>, icons: &StringTable, prefix: &str) -> (r: String)
    ensures
        r@ == internal_link_rep(group_views(m@), icons@, prefix@),
{
    let attrs = group_text(m, 1);
    let href = group_text(m, 2);
    let inner = group_text(m, 3);
    if leaves_book_exec(href.as_str()) || skips_icon_exec(attrs.as_str(), inner.as_str()) {
        return group_text(m, 0);
    }
    let slug = extract_slug_from_href(href.as_str(), prefix);
    if chars_of(slug.as_str()).len() == 0 {
        return group_text(m, 0);
    }
    match lookup_icon(icons, slug.as_str()) {
        Some(icon) => {
            let mut out = String::new();
            out.push_str("<a");
            out.push_str(attrs.as_str());
            out.push_str(">");
            out.push_str(icon.as_str());
            out.push_str(inner.as_str());
            out.push_str("</a>");
            out
        },
        None => group_text(m, 0),
    }
}

/// Enhances internal links in rendered HTML by inserting the target note's icon prefix.
pub fn enhance_internal_links(body_html: &str, slug_to_icon: &StringTable, clean_url_prefix: &str) -> (r: String)
    ensures
        r@ == enhance_internal_spec(body_html@, slug_to_icon@, clean_url_prefix@),
{
    if slug_to_icon.len() == 0 {
        return body_html.to_owned();
    }
    match match_pieces(INTERNAL_LINK_PATTERN, body_html) {
        Some((gaps, ms)) => {
            let ghost cv = captures_view(ms@);
            let ghost f = |m: Seq<Option<Seq<char>>>| internal_link_rep(m, slug_to_icon@, clean_url_prefix@);
            let mut reps: Vec<String> = Vec::new();
            let mut k: usize = 0;
            while k < ms.len()
                invariant
                    k <= ms@.len(),
                    cv == captures_view(ms@),
                    f == (|m: Seq<Option<Seq<char>>>| internal_link_rep(m, slug_to_icon@, clean_url_prefix@)),
                    string_seqs(reps@) == cv.take(k as int).map_values(f),
                decreases ms@.len() - k,
            {
                let rep = internal_link(&ms[k], slug_to_icon, clean_url_prefix);
                let ghost before = reps@;
                reps.push(rep);
                assert(string_seqs(reps@) =~= cv.take(k + 1).map_values(f)) by {
                    assert(string_seqs(reps@) =~= string_seqs(before).push(rep@));
                    assert(cv[k as int] == group_views(ms@[k as int]@));
                }
                k = k + 1;
            }
            assert(cv.take(ms@.len() as int) =~= cv);
            splice(&gaps, &reps)
        },
        None => body_html.to_owned(),
    }
}

} // verus!
