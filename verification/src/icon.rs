//! Icons drawn from the vendored sprite sheets, and `@doc.icon(...)`.
//!
//! A sprite sheet is one `<symbol id="name">` per icon; the set of names it
//! defines decides whether a name can be drawn or needs a visible
//! placeholder, so a typo shows up in the page instead of vanishing.

use vstd::prelude::*;

use crate::html::{escape_html, escaped};
use crate::kinds::{lemma_occ_from, occ_from};
use crate::text::{chars_of, find_char, find_from, lemma_find_from_bounds, starts_with_at, str_eq, string_from_range};

verus! {

/// What opens each symbol in a sprite sheet.
pub open spec fn symbol_marker() -> Seq<char> {
    "<symbol id=\""@
}

/// The symbol names a sprite defines from position `i` on: after each
/// `<symbol id="`, the text up to the next `"`.
pub open spec fn symbol_ids_from(s: Seq<char>, i: int) -> Seq<Seq<char>>
    decreases s.len() + 1 - i,
{
    if i < 0 || i > s.len() {
        Seq::empty()
    } else {
        match occ_from(s, symbol_marker(), i) {
            Some(k) => {
                let start = k + symbol_marker().len();
                let head = match find_from(s, '"', start) {
                    Some(e) => seq![s.subrange(start, e)],
                    None => Seq::empty(),
                };
                proof {
                    lemma_occ_from(s, symbol_marker(), i);
                    reveal_strlit("<symbol id=\"");
                }
                head + symbol_ids_from(s, start)
            },
            None => Seq::empty(),
        }
    }
}

/// The names of the icons a sprite sheet defines.
#[derive(Debug, Clone)]
pub struct IconSet {
    pub names: Vec<String>,
}

pub open spec fn names_of(set: IconSet) -> Seq<Seq<char>> {
    set.names@.map_values(|n: String| n@)
}

fn find_marker(cs: &[char], from: usize, marker: &[char]) -> (r: Option<usize>)
    requires
        from <= cs@.len(),
        marker@ == symbol_marker(),
    ensures
        match r {
            Some(k) => occ_from(cs@, marker@, from as int) == Some(k as int),
            None => occ_from(cs@, marker@, from as int) is None,
        },
{
    proof {
        reveal_strlit("<symbol id=\"");
    }
    let m = marker.len();
    if m > cs.len() {
        return None;
    }
    let last = cs.len() - m;
    let mut k = from;
    while k <= last
        invariant
            from <= k,
            last == cs@.len() - m,
            m == marker@.len(),
            m <= cs@.len(),
            cs@.len() == cs.len(),
            occ_from(cs@, marker@, from as int) == occ_from(cs@, marker@, k as int),
        decreases cs@.len() + 1 - k,
    {
        if starts_with_at(cs, k, marker) {
            return Some(k);
        }
        assert(occ_from(cs@, marker@, k as int) == occ_from(cs@, marker@, k + 1));
        if k == last {
            assert(occ_from(cs@, marker@, k + 1) is None);
            return None;
        }
        k = k + 1;
    }
    assert(occ_from(cs@, marker@, k as int) is None);
    None
}

/// Read the symbol names out of a sprite sheet.
pub fn sprite_icon_set(sprite: &str) -> (r: IconSet)
    ensures
        names_of(r) == symbol_ids_from(sprite@, 0),
{
    let cs = chars_of(sprite);
    let marker = chars_of("<symbol id=\"");
    let n = cs.len();
    let mut names: Vec<String> = Vec::new();
    let mut i: usize = 0;
    let ghost s = sprite@;
    proof {
        reveal_strlit("<symbol id=\"");
    }
    loop
        invariant_except_break
            marker@.len() > 0,
            i <= n,
            n == s.len(),
            cs@ == s,
            marker@ == symbol_marker(),
            names@.map_values(|x: String| x@) + symbol_ids_from(s, i as int) == symbol_ids_from(s, 0),
        ensures
            names@.map_values(|x: String| x@) == symbol_ids_from(s, 0),
        decreases n + 1 - i,
    {
        match find_marker(&cs, i, &marker) {
            Some(k) => {
                proof {
                    lemma_occ_from(s, symbol_marker(), i as int);
                }
                let start = k + marker.len();
                let ghost before = names@;
                match find_char(&cs, start, n, '"') {
                    Some(e) => {
                        proof {
                            lemma_find_from_suffix(s, start as int, 0);
                        }
                        let name = string_from_range(&cs, start, e);
                        names.push(name);
                        assert(names@.map_values(|x: String| x@) =~= before.map_values(|x: String| x@) + seq![name@]);
                    },
                    None => {
                        proof {
                            lemma_find_from_suffix(s, start as int, 0);
                        }
                    },
                }
                i = start;
            },
            None => {
                assert(names@.map_values(|x: String| x@) + Seq::<Seq<char>>::empty() =~= names@.map_values(|x: String| x@));
                break;
            },
        }
    }
    IconSet { names }
}

/// Searching a suffix of `s` is searching `s` from where the suffix starts.
proof fn lemma_find_from_suffix(s: Seq<char>, a: int, j: int)
    requires
        0 <= a <= s.len(),
        0 <= j,
    ensures
        match find_from(s.subrange(a, s.len() as int), '"', j) {
            Some(x) => find_from(s, '"', a + j) == Some(x + a),
            None => find_from(s, '"', a + j) is None,
        },
    decreases s.len() - a - j,
{
    let t = s.subrange(a, s.len() as int);
    if j < t.len() {
        assert(t[j] == s[a + j]);
        if t[j] != '"' {
            lemma_find_from_suffix(s, a, j + 1);
        }
    }
}

/// Whether the sprite defines an icon called `name`.
pub fn has_icon(icons: &IconSet, name: &str) -> (r: bool)
    ensures
        r == names_of(*icons).contains(name@),
{
    let ghost ns = names_of(*icons);
    let mut i: usize = 0;
    while i < icons.names.len()
        invariant
            i <= icons.names@.len(),
            ns == names_of(*icons),
            forall|k: int| 0 <= k < i ==> ns[k] != name@,
        decreases icons.names@.len() - i,
    {
        if str_eq(icons.names[i].as_str(), name) {
            assert(ns[i as int] == name@);
            return true;
        }
        i = i + 1;
    }
    false
}

/// Whether the Lucide sprite draws `name`.
pub fn is_lucide_icon(lucide: &IconSet, name: &str) -> (r: bool)
    ensures
        r == names_of(*lucide).contains(name@),
{
    has_icon(lucide, name)
}

/// Whether the Simple Icons sprite draws `name`.
pub fn is_simple_icon(simple: &IconSet, name: &str) -> (r: bool)
    ensures
        r == names_of(*simple).contains(name@),
{
    has_icon(simple, name)
}

pub open spec fn placeholder_spec(name: Seq<char>, pkg: Seq<char>, inline: bool) -> Seq<char> {
    let tag = if inline { "span"@ } else { "div"@ };
    "<"@ + tag + " class=\"tm-doc-icon tm-doc-icon-missing\" title=\"unknown icon: "@ + pkg + "/"@ + name
        + "\">?</"@ + tag + ">"@
}

/// A visible stand-in for an icon this crate cannot draw -- an unvendored
/// name, or a `pkg` other than `lucide`. Never blank: a document author
/// should see a typo, not lose the icon silently.
pub fn placeholder(name: &str, pkg: &str, inline: bool) -> (r: String)
    ensures
        r@ == placeholder_spec(name@, pkg@, inline),
{
    let tag = if inline { "span" } else { "div" };
    let mut out = String::new();
    out.push_str("<");
    out.push_str(tag);
    out.push_str(" class=\"tm-doc-icon tm-doc-icon-missing\" title=\"unknown icon: ");
    out.push_str(pkg);
    out.push_str("/");
    out.push_str(name);
    out.push_str("\">?</");
    out.push_str(tag);
    out.push_str(">");
    out
}

/// What `@doc.icon(name, pkg:..)` renders as: the sprite's symbol when
/// Lucide draws it, a visible placeholder otherwise. Other kinds are not
/// this hook's business.
pub open spec fn doc_icon_spec(
    kind: Seq<char>,
    name: Option<Seq<char>>,
    pkg: Option<Seq<char>>,
    inline: bool,
    lucide: Seq<Seq<char>>,
) -> Option<Seq<char>> {
    if kind != "doc.icon"@ {
        None
    } else {
        let n = match name {
            Some(x) => x,
            None => Seq::empty(),
        };
        let p = match pkg {
            Some(x) => x,
            None => "lucide"@,
        };
        if p != "lucide"@ || !lucide.contains(n) {
            Some(placeholder_spec(escaped(n), escaped(p), inline))
        } else {
            let svg = "<svg class=\"tm-doc-icon\" data-icon=\""@ + escaped(n)
                + "\" aria-hidden=\"true\"><use href=\"/icons/lucide.svg#"@ + n + "\"></use></svg>"@;
            Some(if inline { svg } else { "<div class=\"tm-doc-icon-block\">"@ + svg + "</div>"@ })
        }
    }
}

pub open spec fn opt_str(o: Option<&str>) -> Option<Seq<char>> {
    match o {
        Some(s) => Some(s@),
        None => None,
    }
}

/// Render `@doc.icon("name", pkg:"lucide")`; `None` for any other element kind.
pub fn render_doc_icon(kind: &str, name: Option<&str>, pkg: Option<&str>, inline: bool, lucide: &IconSet) -> (r: Option<String>)
    ensures
        r is Some <==> doc_icon_spec(kind@, opt_str(name), opt_str(pkg), inline, names_of(*lucide)) is Some,
        r matches Some(h) ==> doc_icon_spec(kind@, opt_str(name), opt_str(pkg), inline, names_of(*lucide)) == Some(h@),
{
    if !str_eq(kind, "doc.icon") {
        return None;
    }
    let n: &str = match name {
        Some(x) => x,
        None => "",
    };
    let p: &str = match pkg {
        Some(x) => x,
        None => "lucide",
    };
    proof {
        reveal_strlit("");
    }
    let name_attr = escape_html(n);
    let pkg_attr = escape_html(p);
    let ghost nn = match opt_str(name) {
        Some(x) => x,
        None => Seq::empty(),
    };
    let ghost pp = match opt_str(pkg) {
        Some(x) => x,
        None => "lucide"@,
    };
    assert(n@ == nn);
    assert(p@ == pp);
    if !str_eq(p, "lucide") || !is_lucide_icon(lucide, n) {
        return Some(placeholder(name_attr.as_str(), pkg_attr.as_str(), inline));
    }
    let mut svg = String::new();
    svg.push_str("<svg class=\"tm-doc-icon\" data-icon=\"");
    svg.push_str(name_attr.as_str());
    svg.push_str("\" aria-hidden=\"true\"><use href=\"/icons/lucide.svg#");
    svg.push_str(n);
    svg.push_str("\"></use></svg>");
    if inline {
        Some(svg)
    } else {
        let mut out = String::new();
        out.push_str("<div class=\"tm-doc-icon-block\">");
        out.push_str(svg.as_str());
        out.push_str("</div>");
        Some(out)
    }
}


/// The small icon shown beside links to a page: the sprite's symbol, when
/// the sprite of `pkg` draws `name`.
pub open spec fn link_icon_spec(name: Seq<char>, pkg: Seq<char>, icons: Seq<Seq<char>>) -> Option<Seq<char>> {
    if icons.contains(name) {
        Some(
            "<svg class=\"tm-link-icon tm-link-icon-"@ + escaped(pkg) + "\" aria-hidden=\"true\"><use href=\"/icons/"@
                + escaped(pkg) + ".svg#"@ + escaped(name) + "\"></use></svg>"@,
        )
    } else {
        None
    }
}

/// Render the link-side icon for `name` from the `pkg` sprite `icons`.
pub fn render_link_icon(name: &str, pkg: &str, icons: &IconSet) -> (r: Option<String>)
    ensures
        crate::links::opt_view(r) == link_icon_spec(name@, pkg@, names_of(*icons)),
{
    if !has_icon(icons, name) {
        return None;
    }
    let p = escape_html(pkg);
    let mut out = String::new();
    out.push_str("<svg class=\"tm-link-icon tm-link-icon-");
    out.push_str(p.as_str());
    out.push_str("\" aria-hidden=\"true\"><use href=\"/icons/");
    out.push_str(p.as_str());
    out.push_str(".svg#");
    out.push_str(escape_html(name).as_str());
    out.push_str("\"></use></svg>");
    Some(out)
}

} // verus!
