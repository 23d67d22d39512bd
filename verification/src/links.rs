//! Resolving the link references that appear inside `@meta` values.
//!
//! The body's links are resolved by the document pipeline; these are the ones
//! that only exist as metadata strings -- `parent: "[[unit]]"` and friends.

use vstd::prelude::*;

use crate::text::{
    chars_of, find_char, find_from, has_suffix, is_char_pred, lemma_find_from_bounds,
    range_has_prefix, range_has_suffix, split_once_spec, string_from_range, trim_end_char,
    trim_end_spec, trim_start_char, trim_start_spec, trim_ws, trim_ws_range,
};

verus! {

/// A path with a single Tomet document extension (`.tmt`, then `.tm`) removed.
pub open spec fn strip_doc_extension_spec(p: Seq<char>) -> Seq<char> {
    if ".tmt"@.is_suffix_of(p) {
        p.take(p.len() - ".tmt"@.len())
    } else if ".tm"@.is_suffix_of(p) {
        p.take(p.len() - ".tm"@.len())
    } else {
        p
    }
}

/// Strip a single Tomet document extension: `foo/bar.tmt` -> `foo/bar`.
///
/// Only one suffix goes: `notes.tmt.tmt` becomes `notes.tmt`, not `notes`.
pub fn strip_doc_extension(path: &str) -> (r: String)
    ensures
        r@ == strip_doc_extension_spec(path@),
{
    let cs = chars_of(path);
    proof {
        reveal_strlit(".tmt");
        reveal_strlit(".tm");
    }
    if has_suffix(&cs, ".tmt") {
        string_from_range(&cs, 0, cs.len() - 4)
    } else if has_suffix(&cs, ".tm") {
        string_from_range(&cs, 0, cs.len() - 3)
    } else {
        string_from_range(&cs, 0, cs.len())
    }
}

/// Whether a metadata value is written as a link reference rather than plain text.
pub open spec fn is_link_ref_spec(raw: Seq<char>) -> bool {
    let s = trim_ws(raw);
    ||| "@link("@.is_prefix_of(s) && ")"@.is_suffix_of(s)
    ||| "link("@.is_prefix_of(s) && ")"@.is_suffix_of(s)
    ||| "[["@.is_prefix_of(s) && "]]"@.is_suffix_of(s)
    ||| "ref:"@.is_prefix_of(s)
    ||| s.len() > 1 && s[0] == '@' && !s.contains(' ') && !s.skip(1).contains('@')
}

/// Whether `raw` is a link reference: `@link(...)`, `link(...)`, `[[...]]`,
/// `ref:...`, or a bare `@name`.
pub fn is_link_ref(raw: &str) -> (r: bool)
    ensures
        r == is_link_ref_spec(raw@),
{
    let cs = chars_of(raw);
    let (a, b) = trim_ws_range(&cs, 0, cs.len());
    assert(cs@.subrange(0, cs@.len() as int) =~= raw@);
    let ghost s = cs@.subrange(a as int, b as int);
    if range_has_prefix(&cs, a, b, "@link(") && range_has_suffix(&cs, a, b, ")") {
        return true;
    }
    if range_has_prefix(&cs, a, b, "link(") && range_has_suffix(&cs, a, b, ")") {
        return true;
    }
    if range_has_prefix(&cs, a, b, "[[") && range_has_suffix(&cs, a, b, "]]") {
        return true;
    }
    if range_has_prefix(&cs, a, b, "ref:") {
        return true;
    }
    if b - a > 1 && cs[a] == '@' {
        let has_space = crate::text::contains_char(&cs, a, b, ' ');
        let has_at = crate::text::contains_char(&cs, a + 1, b, '@');
        assert(s.skip(1) =~= cs@.subrange(a + 1, b as int));
        return !has_space && !has_at;
    }
    false
}

/// A link reference with its `@link(...)`, `link(...)` or `[[...]]` wrapper
/// removed, and the alias of a `[[target|alias]]`.
pub open spec fn link_unwrapped(s: Seq<char>) -> (Seq<char>, Option<Seq<char>>) {
    if "@link("@.is_prefix_of(s) && ")"@.is_suffix_of(s) {
        (trim_ws(s.subrange("@link("@.len() as int, s.len() - ")"@.len())), None)
    } else if "link("@.is_prefix_of(s) && ")"@.is_suffix_of(s) {
        (trim_ws(s.subrange("link("@.len() as int, s.len() - ")"@.len())), None)
    } else if "[["@.is_prefix_of(s) && "]]"@.is_suffix_of(s) {
        let inner = trim_ws(s.subrange("[["@.len() as int, s.len() - "]]"@.len()));
        match split_once_spec(inner, '|') {
            Some((t, a)) => (trim_ws(t), Some(trim_ws(a))),
            None => (inner, None),
        }
    } else {
        (s, None)
    }
}

/// `ref:` and the whitespace after it removed.
pub open spec fn strip_ref_prefix(s: Seq<char>) -> Seq<char> {
    if "ref:"@.is_prefix_of(s) {
        trim_ws(s.skip("ref:"@.len() as int))
    } else {
        s
    }
}

/// The stage of link parsing before surrounding quotes are removed: the
/// reference text with its wrapper and any `ref:` gone, and its alias.
pub open spec fn link_body(raw: Seq<char>) -> (Seq<char>, Option<Seq<char>>) {
    let (s1, alias) = link_unwrapped(trim_ws(raw));
    (strip_ref_prefix(s1), alias)
}

/// Whether `s` both starts and ends with the same quote character.
pub open spec fn is_quoted(s: Seq<char>) -> bool {
    s.len() > 0 && ((s[0] == '"' && s.last() == '"') || (s[0] == '\'' && s.last() == '\''))
}

/// The references link parsing can take apart. A lone quote character is the
/// one shape it cannot: the quotes to strip would overlap.
pub open spec fn link_ref_parses(raw: Seq<char>) -> bool {
    let s2 = link_body(raw).0;
    !(is_quoted(s2) && s2.len() < 2)
}

/// Surrounding matching quotes removed (with the whitespace inside them).
pub open spec fn unquote(s: Seq<char>) -> Seq<char> {
    if is_quoted(s) {
        trim_ws(s.subrange(1, s.len() - 1))
    } else {
        s
    }
}

/// The target (quotes and `ref:` removed) and optional alias of a link reference.
pub open spec fn parse_link_ref_spec(raw: Seq<char>) -> (Seq<char>, Option<Seq<char>>) {
    let (s2, alias) = link_body(raw);
    (trim_ws(unquote(s2)), alias)
}

pub open spec fn opt_view(o: Option<String>) -> Option<Seq<char>> {
    match o {
        Some(s) => Some(s@),
        None => None,
    }
}

/// A parsed link reference.
#[derive(Debug, PartialEq, Eq)]
pub struct ParsedLinkRef {
    /// The target name or path (without quotes, `ref:`, or outer markup).
    pub target: String,
    /// The optional explicit alias (from `[[target|alias]]`).
    pub alias: Option<String>,
}

/// `cs[a..b]` with `pl` characters dropped from the front and `sl` from the back, then trimmed.
fn inner_range(cs: &[char], a: usize, b: usize, pl: usize, sl: usize) -> (r: (usize, usize))
    requires
        a <= b <= cs@.len(),
        pl + sl <= b - a,
    ensures
        a <= r.0 <= r.1 <= b,
        cs@.subrange(r.0 as int, r.1 as int) == trim_ws(
            cs@.subrange(a as int, b as int).subrange(pl as int, (b - a) - sl),
        ),
{
    assert(cs@.subrange(a + pl, b - sl) =~= cs@.subrange(a as int, b as int).subrange(pl as int, (b - a) - sl));
    trim_ws_range(cs, a + pl, b - sl)
}

/// The `[[target|alias]]` case of unwrapping: target range and alias.
fn unwrap_wiki_link(cs: &[char], ia: usize, ib: usize) -> (r: (usize, usize, Option<String>))
    requires
        ia <= ib <= cs@.len(),
    ensures
        ia <= r.0 <= r.1 <= ib,
        ({
            let inner = cs@.subrange(ia as int, ib as int);
            match split_once_spec(inner, '|') {
                Some((t, a)) => cs@.subrange(r.0 as int, r.1 as int) == trim_ws(t) && opt_view(r.2) == Some(trim_ws(a)),
                None => cs@.subrange(r.0 as int, r.1 as int) == inner && r.2 is None,
            }
        }),
{
    let ghost inner = cs@.subrange(ia as int, ib as int);
    match find_char(cs, ia, ib, '|') {
        Some(k) => {
            proof {
                lemma_find_from_bounds(inner, '|', 0);
            }
            let (ta, tb) = trim_ws_range(cs, ia, k);
            let (aa, ab) = trim_ws_range(cs, k + 1, ib);
            assert(cs@.subrange(ia as int, k as int) =~= inner.take(k - ia));
            assert(cs@.subrange(k + 1, ib as int) =~= inner.skip(k - ia + 1));
            (ta, tb, Some(string_from_range(cs, aa, ab)))
        },
        None => (ia, ib, None),
    }
}

/// Unwrap `cs[a..b]` as `link_unwrapped` does.
fn unwrap_link(cs: &[char], a: usize, b: usize) -> (r: (usize, usize, Option<String>))
    requires
        a <= b <= cs@.len(),
    ensures
        a <= r.0 <= r.1 <= b,
        cs@.subrange(r.0 as int, r.1 as int) == link_unwrapped(cs@.subrange(a as int, b as int)).0,
        opt_view(r.2) == link_unwrapped(cs@.subrange(a as int, b as int)).1,
{
    proof {
        reveal_strlit("@link(");
        reveal_strlit("link(");
        reveal_strlit("[[");
        reveal_strlit("]]");
        reveal_strlit(")");
    }
    let ghost s = cs@.subrange(a as int, b as int);
    if range_has_prefix(cs, a, b, "@link(") && range_has_suffix(cs, a, b, ")") {
        assert("@link("@[5] == '(' && ")"@[0] == ')');
        assert(s[5] == s.subrange(0, 6)[5]);
        assert(s.last() == s.subrange(s.len() - 1, s.len() as int)[0]);
        let (x, y) = inner_range(cs, a, b, 6, 1);
        (x, y, None)
    } else if range_has_prefix(cs, a, b, "link(") && range_has_suffix(cs, a, b, ")") {
        assert("link("@[4] == '(' && ")"@[0] == ')');
        assert(s[4] == s.subrange(0, 5)[4]);
        assert(s.last() == s.subrange(s.len() - 1, s.len() as int)[0]);
        let (x, y) = inner_range(cs, a, b, 5, 1);
        (x, y, None)
    } else if range_has_prefix(cs, a, b, "[[") && range_has_suffix(cs, a, b, "]]") {
        assert("[["@[0] == '[' && "[["@[1] == '[' && "]]"@[0] == ']' && "]]"@[1] == ']');
        assert(s[0] == s.subrange(0, 2)[0] && s[1] == s.subrange(0, 2)[1]);
        assert(s[s.len() - 1] == s.subrange(s.len() - 2, s.len() as int)[1]);
        assert(s[s.len() - 2] == s.subrange(s.len() - 2, s.len() as int)[0]);
        let (ia, ib) = inner_range(cs, a, b, 2, 2);
        unwrap_wiki_link(cs, ia, ib)
    } else {
        (a, b, None)
    }
}

/// Strip `ref:` from `cs[a..b]` as `strip_ref_prefix` does.
fn strip_ref_range(cs: &[char], a: usize, b: usize) -> (r: (usize, usize))
    requires
        a <= b <= cs@.len(),
    ensures
        a <= r.0 <= r.1 <= b,
        cs@.subrange(r.0 as int, r.1 as int) == strip_ref_prefix(cs@.subrange(a as int, b as int)),
{
    proof {
        reveal_strlit("ref:");
    }
    if range_has_prefix(cs, a, b, "ref:") {
        inner_range(cs, a, b, 4, 0)
    } else {
        (a, b)
    }
}

/// Whether link parsing can take `raw` apart (it is not a lone quote mark
/// once its wrapper and `ref:` are removed).
pub fn link_ref_ok(raw: &str) -> (r: bool)
    ensures
        r == link_ref_parses(raw@),
{
    let cs = chars_of(raw);
    let n = cs.len();
    assert(cs@.subrange(0, n as int) =~= raw@);
    let (a, b) = trim_ws_range(&cs, 0, n);
    let (lo, hi, _alias) = unwrap_link(&cs, a, b);
    let (lo, hi) = strip_ref_range(&cs, lo, hi);
    let ghost s2 = cs@.subrange(lo as int, hi as int);
    assert(s2 == link_body(raw@).0);
    let quoted = hi > lo && ((cs[lo] == '"' && cs[hi - 1] == '"') || (cs[lo] == '\'' && cs[hi - 1] == '\''));
    assert(quoted == is_quoted(s2));
    !(quoted && hi - lo < 2)
}

/// Extract the core target and optional alias from link reference syntax.
pub fn parse_link_ref(raw: &str) -> (r: ParsedLinkRef)
    requires
        link_ref_parses(raw@),
    ensures
        r.target@ == parse_link_ref_spec(raw@).0,
        opt_view(r.alias) == parse_link_ref_spec(raw@).1,
{
    let cs = chars_of(raw);
    let n = cs.len();
    assert(cs@.subrange(0, n as int) =~= raw@);
    let (a, b) = trim_ws_range(&cs, 0, n);
    let (lo, hi, alias) = unwrap_link(&cs, a, b);
    let (lo, hi) = strip_ref_range(&cs, lo, hi);
    let ghost s2 = cs@.subrange(lo as int, hi as int);
    assert(s2 == link_body(raw@).0);
    let mut lo = lo;
    let mut hi = hi;
    if hi > lo && ((cs[lo] == '"' && cs[hi - 1] == '"') || (cs[lo] == '\'' && cs[hi - 1] == '\'')) {
        assert(is_quoted(s2));
        let (x, y) = inner_range(&cs, lo, hi, 1, 1);
        lo = x;
        hi = y;
    }
    assert(cs@.subrange(lo as int, hi as int) == unquote(s2));
    let (x, y) = trim_ws_range(&cs, lo, hi);
    ParsedLinkRef { target: string_from_range(&cs, x, y), alias }
}

/// The plain label a link reference reads as: its alias when it has one,
/// else its target with any leading `@`s removed.
pub open spec fn clean_ref_target_spec(raw: Seq<char>) -> Seq<char> {
    match parse_link_ref_spec(raw).1 {
        Some(a) => a,
        None => trim_ws(trim_start_spec(parse_link_ref_spec(raw).0, is_char_pred('@'))),
    }
}

/// `parse_link_ref` for any text: `None` for a reference link parsing cannot
/// take apart (a lone quote mark once the wrapper and `ref:` are removed).
pub fn parse_link_ref_checked(raw: &str) -> (r: Option<ParsedLinkRef>)
    ensures
        match r {
            Some(p) => link_ref_parses(raw@) && p.target@ == parse_link_ref_spec(raw@).0 && opt_view(p.alias)
                == parse_link_ref_spec(raw@).1,
            None => !link_ref_parses(raw@),
        },
{
    if link_ref_ok(raw) {
        Some(parse_link_ref(raw))
    } else {
        None
    }
}

/// `clean_ref_target` for any text: `None` where link parsing cannot take it apart.
pub fn clean_ref_target_checked(raw: &str) -> (r: Option<String>)
    ensures
        match r {
            Some(s) => link_ref_parses(raw@) && s@ == clean_ref_target_spec(raw@),
            None => !link_ref_parses(raw@),
        },
{
    if link_ref_ok(raw) {
        Some(clean_ref_target(raw))
    } else {
        None
    }
}

/// Clean link references like `@link(ref:"@foo")` or `ref:bar` into plain labels.
pub fn clean_ref_target(raw: &str) -> (r: String)
    requires
        link_ref_parses(raw@),
    ensures
        r@ == clean_ref_target_spec(raw@),
{
    let parsed = parse_link_ref(raw);
    match parsed.alias {
        Some(a) => a,
        None => {
            let cs = chars_of(parsed.target.as_str());
            let n = cs.len();
            let s = trim_start_char(&cs, 0, n, '@');
            let (x, y) = trim_ws_range(&cs, s, n);
            assert(cs@.subrange(0, n as int) =~= cs@);
            string_from_range(&cs, x, y)
        },
    }
}

/// The page slug an href under the book's URL prefix points at.
pub open spec fn slug_from_href_spec(href: Seq<char>, url_prefix: Seq<char>) -> Option<Seq<char>> {
    let clean = trim_end_spec(url_prefix, is_char_pred('/'));
    if clean.is_prefix_of(href) {
        let rest = trim_start_spec(href.skip(clean.len() as int), is_char_pred('/'));
        if rest.len() > 0 {
            Some(rest)
        } else {
            None
        }
    } else {
        None
    }
}

/// The slug a resolved `@meta` href points at, if it points at a page at all.
pub fn slug_from_href(href: &str, url_prefix: &str) -> (r: Option<String>)
    ensures
        opt_view(r) == slug_from_href_spec(href@, url_prefix@),
{
    let pc = chars_of(url_prefix);
    let pn = pc.len();
    let pe = trim_end_char(&pc, 0, pn, '/');
    assert(pc@.subrange(0, pn as int) =~= url_prefix@);
    let ghost clean = pc@.subrange(0, pe as int);
    let hc = chars_of(href);
    let hn = hc.len();
    if pe > hn {
        return None;
    }
    let pcl = string_from_range(&pc, 0, pe);
    let pcl_chars = chars_of(pcl.as_str());
    if !crate::text::starts_with_at(&hc, 0, &pcl_chars) {
        assert(!clean.is_prefix_of(href@)) by {
            if clean.is_prefix_of(href@) {
                assert(hc@.subrange(0, 0 + pcl_chars@.len() as int) =~= clean);
            }
        }
        return None;
    }
    assert(clean.is_prefix_of(href@)) by {
        assert(hc@.subrange(0, 0 + pcl_chars@.len() as int) =~= hc@.subrange(0, clean.len() as int));
    }
    let st = trim_start_char(&hc, pe, hn, '/');
    assert(hc@.subrange(pe as int, hn as int) =~= href@.skip(clean.len() as int));
    if st < hn {
        Some(string_from_range(&hc, st, hn))
    } else {
        None
    }
}

} // verus!
