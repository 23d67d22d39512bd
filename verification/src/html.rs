//! Building blocks for the HTML this crate assembles by hand.
//!
//! Infobox values reach the template unescaped, so anything produced here has
//! to be safe to drop straight into the page.

use vstd::prelude::*;

use crate::text::{
    ascii_lower, ascii_lower_seq, char_ascii_lower, chars_of, has_prefix, is_ascii_digit, is_char_pred,
    is_hex_digit, trim_end_ws, trim_start_char, trim_start_spec, trim_start_ws, trim_ws,
};

verus! {

/// What one character becomes inside HTML text or a double-quoted attribute.
pub open spec fn escape_char(c: char) -> Seq<char> {
    if c == '&' {
        "&amp;"@
    } else if c == '<' {
        "&lt;"@
    } else if c == '>' {
        "&gt;"@
    } else if c == '"' {
        "&quot;"@
    } else if c == '\'' {
        "&#39;"@
    } else {
        seq![c]
    }
}

/// `s` with every markup-significant character replaced by its entity.
pub open spec fn escaped(s: Seq<char>) -> Seq<char>
    decreases s.len(),
{
    if s.len() == 0 {
        Seq::empty()
    } else {
        escaped(s.drop_last()) + escape_char(s.last())
    }
}

/// Escape text for interpolation into HTML text nodes and double-quoted attributes.
pub fn escape_html(raw: &str) -> (out: String)
    ensures
        out@ == escaped(raw@),
{
    let cs = chars_of(raw);
    let mut out = String::new();
    let mut i: usize = 0;
    while i < cs.len()
        invariant
            i <= cs@.len(),
            cs@ == raw@,
            out@ == escaped(cs@.take(i as int)),
        decreases cs@.len() - i,
    {
        let c = cs[i];
        assert(cs@.take(i + 1).drop_last() =~= cs@.take(i as int));
        if c == '&' {
            out.push_str("&amp;");
        } else if c == '<' {
            out.push_str("&lt;");
        } else if c == '>' {
            out.push_str("&gt;");
        } else if c == '"' {
            out.push_str("&quot;");
        } else if c == '\'' {
            out.push_str("&#39;");
        } else {
            out.push(c);
        }
        i = i + 1;
    }
    assert(cs@.take(cs@.len() as int) =~= cs@);
    out
}

/// HTML text with its five entities (`&amp;`, `&lt;`, `&gt;`, `&quot;`,
/// `&#39;`) read back into characters, left to right.
pub open spec fn unescaped(s: Seq<char>) -> Seq<char>
    decreases s.len(),
{
    if s.len() == 0 {
        Seq::empty()
    } else if "&amp;"@.is_prefix_of(s) {
        proof {
            reveal_strlit("&amp;");
        }
        seq!['&'] + unescaped(s.skip(5))
    } else if "&lt;"@.is_prefix_of(s) {
        proof {
            reveal_strlit("&lt;");
        }
        seq!['<'] + unescaped(s.skip(4))
    } else if "&gt;"@.is_prefix_of(s) {
        proof {
            reveal_strlit("&gt;");
        }
        seq!['>'] + unescaped(s.skip(4))
    } else if "&quot;"@.is_prefix_of(s) {
        proof {
            reveal_strlit("&quot;");
        }
        seq!['"'] + unescaped(s.skip(6))
    } else if "&#39;"@.is_prefix_of(s) {
        proof {
            reveal_strlit("&#39;");
        }
        seq!['\''] + unescaped(s.skip(5))
    } else {
        seq![s[0]] + unescaped(s.skip(1))
    }
}

proof fn lemma_escaped_concat(a: Seq<char>, b: Seq<char>)
    ensures
        escaped(a + b) == escaped(a) + escaped(b),
    decreases b.len(),
{
    if b.len() == 0 {
        assert(a + b =~= a);
        assert(escaped(a) + escaped(b) =~= escaped(a));
    } else {
        assert((a + b).drop_last() =~= a + b.drop_last());
        assert((a + b).last() == b.last());
        lemma_escaped_concat(a, b.drop_last());
        assert(escaped(a) + escaped(b.drop_last()) + escape_char(b.last()) =~= escaped(a) + escaped(b));
    }
}

proof fn lemma_prefix_head(p: Seq<char>, s: Seq<char>)
    requires
        p.is_prefix_of(s),
        p.len() > 1,
    ensures
        s[0] == p[0],
        s[1] == p[1],
{
    assert(s.subrange(0, p.len() as int)[0] == p[0]);
    assert(s.subrange(0, p.len() as int)[1] == p[1]);
}

/// Reading the entities back gives the text that was escaped.
pub proof fn lemma_unescape_escaped(raw: Seq<char>)
    ensures
        unescaped(escaped(raw)) == raw,
    decreases raw.len(),
{
    reveal_strlit("&amp;");
    reveal_strlit("&lt;");
    reveal_strlit("&gt;");
    reveal_strlit("&quot;");
    reveal_strlit("&#39;");
    if raw.len() > 0 {
        let c = raw[0];
        let rest = raw.skip(1);
        assert(raw =~= seq![c] + rest);
        lemma_escaped_concat(seq![c], rest);
        assert(seq![c].drop_last() =~= Seq::<char>::empty());
        assert(seq![c].last() == c);
        assert(escaped(Seq::<char>::empty()) =~= Seq::<char>::empty());
        assert(escaped(seq![c]) == escaped(Seq::<char>::empty()) + escape_char(c));
        assert(escaped(seq![c]) =~= escape_char(c));
        let t = escaped(rest);
        let s = escape_char(c) + t;
        assert(escaped(raw) == s);
        lemma_unescape_escaped(rest);
        let e = escape_char(c);
        assert(s.subrange(0, e.len() as int) =~= e);
        assert(s.skip(e.len() as int) =~= t);
        if e.len() > 1 {
            assert(e.is_prefix_of(s));
        }
        if "&amp;"@.is_prefix_of(s) {
            lemma_prefix_head("&amp;"@, s);
        }
        if "&lt;"@.is_prefix_of(s) {
            lemma_prefix_head("&lt;"@, s);
        }
        if "&gt;"@.is_prefix_of(s) {
            lemma_prefix_head("&gt;"@, s);
        }
        if "&quot;"@.is_prefix_of(s) {
            lemma_prefix_head("&quot;"@, s);
        }
        if "&#39;"@.is_prefix_of(s) {
            lemma_prefix_head("&#39;"@, s);
        }
        assert(unescaped(s) =~= seq![c] + rest);
    }
}

/// Nothing in an escaped string can open or close a tag or an attribute value.
pub proof fn lemma_escaped_is_inert(s: Seq<char>)
    ensures
        forall|i: int|
            0 <= i < escaped(s).len() ==> {
                let c = #[trigger] escaped(s)[i];
                c != '<' && c != '>' && c != '"' && c != '\''
            },
    decreases s.len(),
{
    reveal_strlit("&amp;");
    reveal_strlit("&lt;");
    reveal_strlit("&gt;");
    reveal_strlit("&quot;");
    reveal_strlit("&#39;");
    if s.len() > 0 {
        lemma_escaped_is_inert(s.drop_last());
        let a = escaped(s.drop_last());
        let b = escape_char(s.last());
        assert forall|i: int| 0 <= i < escaped(s).len() implies {
            let c = #[trigger] escaped(s)[i];
            c != '<' && c != '>' && c != '"' && c != '\''
        } by {
            if i < a.len() {
                assert(escaped(s)[i] == a[i]);
            } else {
                assert(escaped(s)[i] == b[i - a.len()]);
            }
        }
    }
}

/// The bare hex body of a `@meta.colors` entry: surrounding whitespace and
/// leading `#`s removed.
pub open spec fn color_hex_body(raw: Seq<char>) -> Seq<char> {
    trim_start_spec(trim_ws(raw), is_char_pred('#'))
}

pub open spec fn is_hex_color_body(h: Seq<char>) -> bool {
    (h.len() == 3 || h.len() == 4 || h.len() == 6 || h.len() == 8)
        && forall|i: int| 0 <= i < h.len() ==> is_hex_digit(#[trigger] h[i])
}

/// The lowercase hex body of a colour, or `None` when it is not a 3/4/6/8-digit hex colour.
pub open spec fn sanitized_color(raw: Seq<char>) -> Option<Seq<char>> {
    let h = color_hex_body(raw);
    if is_hex_color_body(h) {
        Some(ascii_lower_seq(h))
    } else {
        None
    }
}

/// Normalize a `@meta.colors` entry to a bare hex body (`#AABBCC` -> `aabbcc`).
///
/// Returns `None` for anything that is not a 3/4/6/8-digit hex color, which keeps
/// unvetted text out of the inline `style` attributes that consume it.
pub fn sanitize_color_hex(raw: &str) -> (r: Option<String>)
    ensures
        r is Some <==> sanitized_color(raw@) is Some,
        r matches Some(h) ==> sanitized_color(raw@) == Some(h@),
{
    let cs = chars_of(raw);
    let n = cs.len();
    let a = trim_start_ws(&cs, 0, n);
    let b = trim_end_ws(&cs, a, n);
    assert(cs@.subrange(0, n as int) =~= raw@);
    let c = trim_start_char(&cs, a, b, '#');
    let ghost h = cs@.subrange(c as int, b as int);
    assert(h == color_hex_body(raw@));
    let len = b - c;
    assert(h.len() == len);
    if !(len == 3 || len == 4 || len == 6 || len == 8) {
        assert(!is_hex_color_body(h));
        return None;
    }
    let mut out = String::new();
    let mut i = c;
    while i < b
        invariant
            c <= i <= b <= cs@.len(),
            h == cs@.subrange(c as int, b as int),
            h == color_hex_body(raw@),
            forall|k: int| 0 <= k < i - c ==> is_hex_digit(#[trigger] h[k]),
            out@ == ascii_lower_seq(h.take(i - c)),
        decreases b - i,
    {
        let ch = cs[i];
        if !((ch >= '0' && ch <= '9') || (ch >= 'a' && ch <= 'f') || (ch >= 'A' && ch <= 'F')) {
            assert(h[i - c] == ch);
            assert(!is_hex_digit(h[i - c]));
            assert(!is_hex_color_body(h));
            return None;
        }
        out.push(char_ascii_lower(ch));
        assert(h.take(i + 1 - c) =~= h.take(i - c).push(h[i - c]));
        assert(ascii_lower_seq(h.take(i + 1 - c)) =~= ascii_lower_seq(h.take(i - c)).push(ascii_lower(ch)));
        i = i + 1;
    }
    assert(h.take(b - c) =~= h);
    Some(out)
}

/// A sanitized colour holds nothing but lowercase hex digits.
pub proof fn lemma_sanitized_color_is_lowercase_hex(raw: Seq<char>)
    ensures
        sanitized_color(raw) matches Some(h) ==> forall|i: int|
            0 <= i < h.len() ==> is_ascii_digit(#[trigger] h[i]) || ('a' <= h[i] && h[i] <= 'f'),
{
}

/// Sanitizing a sanitized colour gives it back: it is a fixed point.
pub proof fn lemma_sanitized_color_is_stable(raw: Seq<char>)
    ensures
        sanitized_color(raw) matches Some(h) ==> sanitized_color(h) == Some(h),
{
    if let Some(h) = sanitized_color(raw) {
        lemma_sanitized_color_is_lowercase_hex(raw);
        reveal(crate::text::unicode_whitespace);
        let p = crate::text::ws_pred();
        assert(h.len() > 0);
        assert(!p(h[0]));
        assert(crate::text::trim_start_spec(h, p) == h);
        assert(!p(h.last()));
        assert(crate::text::trim_end_spec(h, p) == h);
        assert(trim_ws(h) == h);
        assert(trim_start_spec(h, is_char_pred('#')) == h);
        assert(color_hex_body(h) == h);
        assert(ascii_lower_seq(h) =~= h);
    }
}

pub open spec fn color_chip_spec(raw: Seq<char>) -> Seq<char> {
    match sanitized_color(raw) {
        Some(hex) => "<span class=\"color-chip-wrapper\" title=\"#"@ + hex
            + "\"><span class=\"color-chip\" style=\"background-color: #"@ + hex
            + ";\"></span><span class=\"color-hex\">#"@ + hex + "</span></span>"@,
        None => "<span class=\"color-hex\">"@ + escaped(raw) + "</span>"@,
    }
}

/// A colour swatch, or plain escaped text when the value is not a hex colour.
pub fn color_chip_html(raw: &str) -> (out: String)
    ensures
        out@ == color_chip_spec(raw@),
{
    match sanitize_color_hex(raw) {
        Some(hex) => {
            let mut out = String::new();
            out.push_str("<span class=\"color-chip-wrapper\" title=\"#");
            out.push_str(hex.as_str());
            out.push_str("\"><span class=\"color-chip\" style=\"background-color: #");
            out.push_str(hex.as_str());
            out.push_str(";\"></span><span class=\"color-hex\">#");
            out.push_str(hex.as_str());
            out.push_str("</span></span>");
            out
        },
        None => {
            let mut out = String::new();
            out.push_str("<span class=\"color-hex\">");
            let e = escape_html(raw);
            out.push_str(e.as_str());
            out.push_str("</span>");
            out
        },
    }
}

pub open spec fn external_link_spec(url: Seq<char>) -> Seq<char> {
    "<a href=\""@ + escaped(url) + "\" target=\"_blank\" rel=\"noopener noreferrer\">"@ + escaped(url)
        + "</a>"@
}

/// A link that opens an external URL in a new tab, the URL escaped in both slots.
pub fn external_link_html(url: &str) -> (out: String)
    ensures
        out@ == external_link_spec(url@),
{
    let safe = escape_html(url);
    let mut out = String::new();
    out.push_str("<a href=\"");
    out.push_str(safe.as_str());
    out.push_str("\" target=\"_blank\" rel=\"noopener noreferrer\">");
    out.push_str(safe.as_str());
    out.push_str("</a>");
    out
}

pub open spec fn is_external_url_spec(s: Seq<char>) -> bool {
    "http://"@.is_prefix_of(s) || "https://"@.is_prefix_of(s)
}

/// Whether `s` is an absolute `http://` or `https://` URL.
pub fn is_external_url(s: &str) -> (r: bool)
    ensures
        r == is_external_url_spec(s@),
{
    let cs = chars_of(s);
    has_prefix(&cs, "http://") || has_prefix(&cs, "https://")
}

} // verus!
