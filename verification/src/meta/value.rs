//! A `@meta` block's data, and the link and media references in it.
//!
//! Link targets are resolved against the vault by the link index, outside
//! this crate; what each target resolved to is handed in as a table.

use vstd::prelude::*;

use crate::html::{escape_html, escaped};
use crate::links::{
    clean_ref_target, clean_ref_target_spec, is_link_ref, is_link_ref_spec, link_ref_parses, parse_link_ref,
    parse_link_ref_spec, strip_doc_extension, strip_doc_extension_spec,
};
use crate::paths::{file_stem, file_stem_spec};
use crate::slug::{clean_doc_slug, clean_doc_slug_spec, normalize_path_str, normalize_separators};
use crate::text::{
    chars_of, has_prefix, is_char_pred, lemma_trim_ws_idempotent, str_eq, string_from_range, trim_end_spec,
    trim_start_char, trim_start_spec, trim_ws, trim_ws_range,
};

verus! {

/// A value of the `@meta` data, as JSON shapes it.
#[derive(Debug)]
pub enum MetaValue {
    Null,
    Bool(bool),
    /// A number, written the way JSON writes it.
    Number(String),
    Text(String),
    Array(Vec<MetaValue>),
    Object(Vec<(String, MetaValue)>),
}

/// The value under `key`, the first one listed when several share it.
pub open spec fn obj_get(entries: Seq<(String, MetaValue)>, key: Seq<char>) -> Option<MetaValue>
    decreases entries.len(),
{
    if entries.len() == 0 {
        None
    } else if entries[0].0@ == key {
        Some(entries[0].1)
    } else {
        obj_get(entries.drop_first(), key)
    }
}

/// The text of a string value.
pub open spec fn str_of(v: MetaValue) -> Option<Seq<char>> {
    match v {
        MetaValue::Text(s) => Some(s@),
        _ => None,
    }
}

/// Look up `key` among an object's entries.
pub fn get<'a>(entries: &'a Vec<(String, MetaValue)>, key: &str) -> (r: Option<&'a MetaValue>)
    ensures
        match r {
            Some(v) => obj_get(entries@, key@) == Some(*v),
            None => obj_get(entries@, key@) is None,
        },
{
    let mut i: usize = 0;
    assert(entries@.skip(0) =~= entries@);
    while i < entries.len()
        invariant
            i <= entries@.len(),
            obj_get(entries@, key@) == obj_get(entries@.skip(i as int), key@),
        decreases entries@.len() - i,
    {
        assert(entries@.skip(i as int)[0] == entries@[i as int]);
        assert(entries@.skip(i as int).drop_first() =~= entries@.skip(i + 1));
        if str_eq(entries[i].0.as_str(), key) {
            return Some(&entries[i].1);
        }
        i = i + 1;
    }
    None
}

/// Whether the entries hold `key`.
pub fn has_key(entries: &Vec<(String, MetaValue)>, key: &str) -> (r: bool)
    ensures
        r == (obj_get(entries@, key@) is Some),
{
    get(entries, key).is_some()
}

/// The text of a string value.
pub fn as_str(v: &MetaValue) -> (r: Option<&str>)
    ensures
        match r {
            Some(s) => str_of(*v) == Some(s@),
            None => str_of(*v) is None,
        },
{
    match v {
        MetaValue::Text(s) => Some(s.as_str()),
        _ => None,
    }
}

/// What each link target resolved to in the vault (a vault-relative path),
/// or nothing; targets missing from the table resolve to nothing.
pub open spec fn resolved_path(table: Seq<(String, Option<String>)>, target: Seq<char>) -> Option<Seq<char>>
    decreases table.len(),
{
    if table.len() == 0 {
        None
    } else if table[0].0@ == target {
        match table[0].1 {
            Some(p) => Some(p@),
            None => None,
        }
    } else {
        resolved_path(table.drop_first(), target)
    }
}

/// Look up what `target` resolved to.
pub fn resolve_ref(table: &Vec<(String, Option<String>)>, target: &str) -> (r: Option<String>)
    ensures
        match r {
            Some(p) => resolved_path(table@, target@) == Some(p@),
            None => resolved_path(table@, target@) is None,
        },
{
    let mut i: usize = 0;
    assert(table@.skip(0) =~= table@);
    while i < table.len()
        invariant
            i <= table@.len(),
            resolved_path(table@, target@) == resolved_path(table@.skip(i as int), target@),
        decreases table@.len() - i,
    {
        assert(table@.skip(i as int)[0] == table@[i as int]);
        assert(table@.skip(i as int).drop_first() =~= table@.skip(i + 1));
        if str_eq(table[i].0.as_str(), target) {
            return match &table[i].1 {
                Some(p) => Some(p.clone()),
                None => None,
            };
        }
        i = i + 1;
    }
    None
}

/// Everything link and media resolution needs: the vault's answers for the
/// targets, and the book's URL prefixes.
pub struct LinkCtx {
    pub resolved: Vec<(String, Option<String>)>,
    /// The page URL prefix, without a trailing slash.
    pub url_prefix: String,
    /// The media URL prefix, without a trailing slash.
    pub asset_prefix: String,
    /// The tooltip of a link to a page nobody has written yet.
    pub unresolved_title: String,
}

/// `t` with its leading `@`s removed.
pub open spec fn strip_at(t: Seq<char>) -> Seq<char> {
    trim_start_spec(t, is_char_pred('@'))
}

/// The slug of the page at `path`: as the book routes pages, with each
/// segment cleaned for a URL, or, for a plain link, the path without its
/// document extension.
pub open spec fn page_slug_of(path: Seq<char>, routed: bool) -> Seq<char> {
    if routed {
        clean_doc_slug_spec(path)
    } else {
        strip_doc_extension_spec(normalize_separators(path))
    }
}

fn page_slug_exec(path: &str, routed: bool) -> (r: String)
    ensures
        r@ == page_slug_of(path@, routed),
{
    if routed {
        clean_doc_slug(path)
    } else {
        strip_doc_extension(normalize_path_str(path).as_str())
    }
}

/// A `@meta` value that is a link reference, as `(href, label)`: the page
/// URL (empty for a page not written yet) and the text to show.
pub open spec fn meta_link_spec(raw: Seq<char>, cx: LinkCtx) -> Option<(Seq<char>, Seq<char>)> {
    meta_link_in(raw, cx, false)
}

/// A link reference as `(href, label)`, its page slug plain or routed.
pub open spec fn meta_link_in(raw: Seq<char>, cx: LinkCtx, routed: bool) -> Option<(Seq<char>, Seq<char>)> {
    let s = trim_ws(raw);
    if !is_link_ref_spec(s) {
        None
    } else {
        let (t, alias) = parse_link_ref_spec(s);
        let label = match alias {
            Some(a) => a,
            None => trim_ws(strip_at(t)),
        };
        let resolved = match resolved_path(cx.resolved@, t) {
            Some(p) => Some(p),
            None => if strip_at(t) != t {
                resolved_path(cx.resolved@, strip_at(t))
            } else {
                None
            },
        };
        match resolved {
            Some(p) => Some((cx.url_prefix@ + "/"@ + page_slug_of(p, routed), label)),
            None => Some((Seq::empty(), label)),
        }
    }
}

pub(crate) fn trimmed(s: &str) -> (r: String)
    ensures
        r@ == trim_ws(s@),
{
    let cs = chars_of(s);
    let (a, b) = trim_ws_range(&cs, 0, cs.len());
    assert(cs@.subrange(0, cs@.len() as int) =~= s@);
    string_from_range(&cs, a, b)
}

fn strip_at_exec(t: &str) -> (r: String)
    ensures
        r@ == strip_at(t@),
{
    let cs = chars_of(t);
    let a = trim_start_char(&cs, 0, cs.len(), '@');
    assert(cs@.subrange(0, cs@.len() as int) =~= t@);
    string_from_range(&cs, a, cs.len())
}

/// Resolve a `@meta` value that looks like a link into `(href, label)`.
///
/// Returns `None` when the value is not a link reference at all. An empty
/// href means the reference is a link to a page that does not exist yet.
pub fn resolve_meta_link(raw: &str, cx: &LinkCtx) -> (r: Option<(String, String)>)
    requires
        link_ref_parses(raw@),
    ensures
        match r {
            Some((h, l)) => meta_link_spec(raw@, *cx) == Some((h@, l@)),
            None => meta_link_spec(raw@, *cx) is None,
        },
{
    resolve_link_in(raw, cx, false)
}

fn resolve_link_in(raw: &str, cx: &LinkCtx, routed: bool) -> (r: Option<(String, String)>)
    requires
        link_ref_parses(raw@),
    ensures
        match r {
            Some((h, l)) => meta_link_in(raw@, *cx, routed) == Some((h@, l@)),
            None => meta_link_in(raw@, *cx, routed) is None,
        },
{
    let s = trimmed(raw);
    if !is_link_ref(s.as_str()) {
        return None;
    }
    proof {
        lemma_trim_ws_idempotent(raw@);
    }
    let parsed = parse_link_ref(s.as_str());
    let t = parsed.target;
    let label = match parsed.alias {
        Some(a) => a,
        None => trimmed(strip_at_exec(t.as_str()).as_str()),
    };
    let resolved = match resolve_ref(&cx.resolved, t.as_str()) {
        Some(p) => Some(p),
        None => {
            let stripped = strip_at_exec(t.as_str());
            if !str_eq(stripped.as_str(), t.as_str()) {
                resolve_ref(&cx.resolved, stripped.as_str())
            } else {
                None
            }
        },
    };
    match resolved {
        Some(p) => {
            let mut href = cx.url_prefix.clone();
            href.push_str("/");
            href.push_str(page_slug_exec(p.as_str(), routed).as_str());
            Some((href, label))
        },
        None => Some((String::new(), label)),
    }
}

/// A `@meta` value as infobox HTML: a link when it is one, escaped text otherwise.
pub open spec fn meta_value_html_spec(raw: Seq<char>, cx: LinkCtx) -> Seq<char> {
    value_html_in(raw, cx, false)
}

/// A value as infobox HTML, its page slugs plain or routed.
pub open spec fn value_html_in(raw: Seq<char>, cx: LinkCtx, routed: bool) -> Seq<char> {
    match meta_link_in(raw, cx, routed) {
        Some((href, label)) => if href.len() == 0 {
            "<span class=\"tm-link tm-unresolved\" title=\""@ + escaped(cx.unresolved_title@) + "\">"@ + escaped(label)
                + "</span>"@
        } else {
            "<a href=\""@ + escaped(href) + "\" class=\"tm-link tm-file\">"@ + escaped(label) + "</a>"@
        },
        None => escaped(clean_ref_target_spec(raw)),
    }
}

/// Render a `@meta` value as infobox HTML: a link when it is one, escaped text otherwise.
pub fn format_meta_value_to_html(raw: &str, cx: &LinkCtx) -> (r: String)
    requires
        link_ref_parses(raw@),
    ensures
        r@ == meta_value_html_spec(raw@, *cx),
{
    value_html_exec(raw, cx, false)
}

/// A value as infobox HTML, with links to pages at the slugs the book routes them to.
pub(crate) fn value_html_exec(raw: &str, cx: &LinkCtx, routed: bool) -> (r: String)
    requires
        link_ref_parses(raw@),
    ensures
        r@ == value_html_in(raw@, *cx, routed),
{
    match resolve_link_in(raw, cx, routed) {
        Some((href, label)) => {
            let mut out = String::new();
            if chars_of(href.as_str()).len() == 0 {
                out.push_str("<span class=\"tm-link tm-unresolved\" title=\"");
                out.push_str(escape_html(cx.unresolved_title.as_str()).as_str());
                out.push_str("\">");
                out.push_str(escape_html(label.as_str()).as_str());
                out.push_str("</span>");
            } else {
                out.push_str("<a href=\"");
                out.push_str(escape_html(href.as_str()).as_str());
                out.push_str("\" class=\"tm-link tm-file\">");
                out.push_str(escape_html(label.as_str()).as_str());
                out.push_str("</a>");
            }
            out
        },
        None => escape_html(clean_ref_target(raw).as_str()),
    }
}

/// An absolute path or a web URL, used as it is.
pub open spec fn is_absolute_ref(s: Seq<char>) -> bool {
    "/"@.is_prefix_of(s) || "http://"@.is_prefix_of(s) || "https://"@.is_prefix_of(s)
}

fn is_absolute_ref_exec(s: &str) -> (r: bool)
    ensures
        r == is_absolute_ref(s@),
{
    let cs = chars_of(s);
    has_prefix(&cs, "/") || has_prefix(&cs, "http://") || has_prefix(&cs, "https://")
}

/// The URL a media reference in `@meta` stands for: absolute paths and URLs
/// as they are, anything else under the media prefix, resolved through the
/// vault when the vault knows it.
pub open spec fn media_path_spec(raw: Seq<char>, cx: LinkCtx) -> Seq<char> {
    let s = trim_ws(raw);
    if is_absolute_ref(s) {
        s
    } else {
        let target = clean_ref_target_spec(s);
        match resolved_path(cx.resolved@, target) {
            Some(p) => cx.asset_prefix@ + "/"@ + normalize_separators(p),
            None => cx.asset_prefix@ + "/"@ + normalize_separators(target),
        }
    }
}

/// Resolve a media reference in `@meta` (e.g. `@link(ref:+hash.png)`) to a URL.
pub fn resolve_meta_media_path(raw: &str, cx: &LinkCtx) -> (r: String)
    requires
        link_ref_parses(raw@),
    ensures
        r@ == media_path_spec(raw@, *cx),
{
    let s = trimmed(raw);
    if is_absolute_ref_exec(s.as_str()) {
        return s;
    }
    proof {
        lemma_trim_ws_idempotent(raw@);
    }
    let target = clean_ref_target(s.as_str());
    let mut out = cx.asset_prefix.clone();
    out.push_str("/");
    match resolve_ref(&cx.resolved, target.as_str()) {
        Some(p) => out.push_str(normalize_path_str(p.as_str()).as_str()),
        None => out.push_str(normalize_path_str(target.as_str()).as_str()),
    }
    out
}

/// The value of the first of `keys` the entries hold, whatever its shape.
pub open spec fn first_present(entries: Seq<(String, MetaValue)>, keys: Seq<Seq<char>>) -> Option<MetaValue>
    decreases keys.len(),
{
    if keys.len() == 0 {
        None
    } else {
        match obj_get(entries, keys[0]) {
            Some(v) => Some(v),
            None => first_present(entries, keys.drop_first()),
        }
    }
}

pub open spec fn target_keys() -> Seq<Seq<char>> {
    seq!["target"@, "ref"@, "path"@, "src"@, "url"@, "href"@]
}

pub open spec fn alias_keys() -> Seq<Seq<char>> {
    seq!["alias"@, "text"@, "label"@]
}

pub open spec fn opt_text(v: Option<MetaValue>) -> Option<Seq<char>> {
    match v {
        Some(x) => str_of(x),
        None => None,
    }
}

/// Whether an object is a `link`, `embed` or `ref` element.
pub open spec fn is_link_element(entries: Seq<(String, MetaValue)>) -> bool {
    match opt_text(obj_get(entries, "element"@)) {
        Some(e) => e == "link"@ || e == "embed"@ || e == "ref"@,
        None => false,
    }
}

/// The target and alias of a `link`, `embed` or `ref` element: its `args`
/// as a string, or the first of `target`, `ref`, `path`, `src`, `url`,
/// `href` (and of `alias`, `text`, `label`) among them.
pub open spec fn element_parts(entries: Seq<(String, MetaValue)>) -> Option<(Option<Seq<char>>, Option<Seq<char>>)> {
    if !is_link_element(entries) {
        None
    } else {
        match obj_get(entries, "args"@) {
            Some(args) => Some(
                match args {
                    MetaValue::Text(s) => (Some(s@), None),
                    MetaValue::Object(am) => (
                        opt_text(first_present(am@, target_keys())),
                        opt_text(first_present(am@, alias_keys())),
                    ),
                    _ => (None, None),
                },
            ),
            None => None,
        }
    }
}

/// The file name or path a media reference in `@meta` names.
pub open spec fn media_target_spec(v: MetaValue) -> Option<Seq<char>> {
    match v {
        MetaValue::Text(s) => Some(s@),
        MetaValue::Object(m) => match element_parts(m@) {
            Some((t, _)) => t,
            None => None,
        },
        _ => None,
    }
}

fn first_present_exec<'a>(entries: &'a Vec<(String, MetaValue)>, keys: &Vec<&str>) -> (r: Option<&'a MetaValue>)
    ensures
        match r {
            Some(v) => first_present(entries@, keys@.map_values(|k: &str| k@)) == Some(*v),
            None => first_present(entries@, keys@.map_values(|k: &str| k@)) is None,
        },
{
    let ghost ks = keys@.map_values(|k: &str| k@);
    let mut i: usize = 0;
    assert(ks.skip(0) =~= ks);
    while i < keys.len()
        invariant
            i <= keys@.len(),
            ks == keys@.map_values(|k: &str| k@),
            first_present(entries@, ks) == first_present(entries@, ks.skip(i as int)),
        decreases keys@.len() - i,
    {
        assert(ks.skip(i as int)[0] == keys@[i as int]@);
        assert(ks.skip(i as int).drop_first() =~= ks.skip(i + 1));
        match get(entries, keys[i]) {
            Some(v) => return Some(v),
            None => {},
        }
        i = i + 1;
    }
    None
}

fn text_of(v: Option<&MetaValue>) -> (r: Option<String>)
    ensures
        match r {
            Some(s) => match v {
                Some(x) => str_of(*x) == Some(s@),
                None => false,
            },
            None => match v {
                Some(x) => str_of(*x) is None,
                None => true,
            },
        },
{
    match v {
        Some(MetaValue::Text(s)) => Some(s.clone()),
        _ => None,
    }
}

fn is_link_element_exec(entries: &Vec<(String, MetaValue)>) -> (r: bool)
    ensures
        r == is_link_element(entries@),
{
    match text_of(get(entries, "element")) {
        Some(e) => str_eq(e.as_str(), "link") || str_eq(e.as_str(), "embed") || str_eq(e.as_str(), "ref"),
        None => false,
    }
}

pub(crate) fn element_parts_exec(entries: &Vec<(String, MetaValue)>) -> (r: Option<(Option<String>, Option<String>)>)
    ensures
        match r {
            Some((t, a)) => element_parts(entries@) == Some((crate::links::opt_view(t), crate::links::opt_view(a))),
            None => element_parts(entries@) is None,
        },
{
    if !is_link_element_exec(entries) {
        return None;
    }
    match get(entries, "args") {
        Some(args) => match args {
            MetaValue::Text(s) => Some((Some(s.clone()), None)),
            MetaValue::Object(am) => {
                let tk = vec!["target", "ref", "path", "src", "url", "href"];
                let ak = vec!["alias", "text", "label"];
                assert(tk@.map_values(|k: &str| k@) =~= target_keys());
                assert(ak@.map_values(|k: &str| k@) =~= alias_keys());
                let t = text_of(first_present_exec(am, &tk));
                let a = text_of(first_present_exec(am, &ak));
                Some((t, a))
            },
            _ => Some((None, None)),
        },
        None => None,
    }
}

/// Extract media reference target string (file name or path) from a metadata value.
pub fn extract_media_target(val: &MetaValue) -> (r: Option<String>)
    ensures
        crate::links::opt_view(r) == media_target_spec(*val),
{
    match val {
        MetaValue::Text(s) => Some(s.clone()),
        MetaValue::Object(m) => match element_parts_exec(m) {
            Some((t, _)) => t,
            None => None,
        },
        _ => None,
    }
}

/// A metadata value read as a link: where it points (if anywhere), what to
/// show, and the reference it was read from.
#[derive(Debug)]
pub struct MetaLinkInfo {
    pub href: Option<String>,
    pub label: String,
    pub raw: String,
}

pub struct LinkInfoView {
    pub href: Option<Seq<char>>,
    pub label: Seq<char>,
    pub raw: Seq<char>,
}

pub open spec fn info_view(i: MetaLinkInfo) -> LinkInfoView {
    LinkInfoView { href: crate::links::opt_view(i.href), label: i.label@, raw: i.raw@ }
}

/// A value as `(href, label)`, with no href for anything unlinkable.
pub open spec fn link_pair(raw: Seq<char>, cx: LinkCtx) -> (Option<Seq<char>>, Seq<char>) {
    match meta_link_in(raw, cx, true) {
        Some((h, l)) => (if h.len() == 0 { None } else { Some(h) }, l),
        None => (None, clean_ref_target_spec(raw)),
    }
}

/// The reference an element without an absolute or unresolved target stands for.
pub open spec fn element_raw(t: Seq<char>, alias: Option<Seq<char>>) -> Seq<char> {
    match alias {
        Some(a) => "[["@ + t + "|"@ + a + "]]"@,
        None => "@link(ref:"@ + t + ")"@,
    }
}

/// How one metadata value reads as a link.
pub open spec fn link_info_spec(v: MetaValue, cx: LinkCtx) -> Option<LinkInfoView> {
    match v {
        MetaValue::Text(s) => {
            let (href, label) = link_pair(s@, cx);
            Some(LinkInfoView { href, label, raw: s@ })
        },
        MetaValue::Number(n) => Some(LinkInfoView { href: None, label: n@, raw: n@ }),
        MetaValue::Object(m) => match element_parts(m@) {
            Some((Some(t), alias)) => if is_absolute_ref(t) {
                let label = match alias {
                    Some(a) => a,
                    None => match file_stem_spec(t) {
                        Some(st) => st,
                        None => t,
                    },
                };
                Some(LinkInfoView { href: Some(t), label, raw: t })
            } else if "unresolved:"@.is_prefix_of(t) {
                let label = match alias {
                    Some(a) => a,
                    None => t.skip(11),
                };
                Some(LinkInfoView { href: None, label, raw: t })
            } else {
                let raw = element_raw(t, alias);
                let (href, label) = link_pair(raw, cx);
                Some(LinkInfoView { href, label, raw })
            },
            _ => None,
        },
        _ => None,
    }
}

/// The values link parsing can read: it cannot take apart a reference that
/// is a lone quote mark, in a value or in what an element stands for.
pub open spec fn item_parses(v: MetaValue) -> bool {
    match v {
        MetaValue::Text(s) => link_ref_parses(s@),
        MetaValue::Number(n) => link_ref_parses(n@),
        MetaValue::Object(m) => match element_parts(m@) {
            Some((Some(t), alias)) => link_ref_parses(t) && (is_absolute_ref(t) || "unresolved:"@.is_prefix_of(t)
                || link_ref_parses(element_raw(t, alias))),
            _ => true,
        },
        _ => true,
    }
}

/// A value, or each item of an array value, that link parsing can read.
pub open spec fn value_parses(v: MetaValue) -> bool {
    match v {
        MetaValue::Array(items) => forall|i: int| 0 <= i < items@.len() ==> #[trigger] item_parses(items@[i]),
        _ => item_parses(v),
    }
}

fn link_pair_exec(raw: &str, cx: &LinkCtx) -> (r: (Option<String>, String))
    requires
        link_ref_parses(raw@),
    ensures
        (crate::links::opt_view(r.0), r.1@) == link_pair(raw@, *cx),
{
    match resolve_link_in(raw, cx, true) {
        Some((h, l)) => (if chars_of(h.as_str()).len() == 0 {
            None
        } else {
            Some(h)
        }, l),
        None => (None, clean_ref_target(raw)),
    }
}

/// Read one metadata value as a link.
pub fn resolve_link_val(val: &MetaValue, cx: &LinkCtx) -> (r: Option<MetaLinkInfo>)
    requires
        item_parses(*val),
    ensures
        match r {
            Some(i) => link_info_spec(*val, *cx) == Some(info_view(i)),
            None => link_info_spec(*val, *cx) is None,
        },
{
    match val {
        MetaValue::Text(s) => {
            let (href, label) = link_pair_exec(s.as_str(), cx);
            Some(MetaLinkInfo { href, label, raw: s.clone() })
        },
        MetaValue::Number(n) => Some(MetaLinkInfo { href: None, label: n.clone(), raw: n.clone() }),
        MetaValue::Object(m) => match element_parts_exec(m) {
            Some((Some(t), alias)) => {
                if is_absolute_ref_exec(t.as_str()) {
                    let label = match alias {
                        Some(a) => a,
                        None => match file_stem(t.as_str()) {
                            Some(st) => st,
                            None => t.clone(),
                        },
                    };
                    Some(MetaLinkInfo { href: Some(t.clone()), label, raw: t })
                } else if has_prefix(&chars_of(t.as_str()), "unresolved:") {
                    proof {
                        reveal_strlit("unresolved:");
                    }
                    let label = match alias {
                        Some(a) => a,
                        None => {
                            let tc = chars_of(t.as_str());
                            string_from_range(&tc, 11, tc.len())
                        },
                    };
                    Some(MetaLinkInfo { href: None, label, raw: t })
                } else {
                    let mut raw = String::new();
                    match &alias {
                        Some(a) => {
                            raw.push_str("[[");
                            raw.push_str(t.as_str());
                            raw.push_str("|");
                            raw.push_str(a.as_str());
                            raw.push_str("]]");
                        },
                        None => {
                            raw.push_str("@link(ref:");
                            raw.push_str(t.as_str());
                            raw.push_str(")");
                        },
                    }
                    let (href, label) = link_pair_exec(raw.as_str(), cx);
                    Some(MetaLinkInfo { href, label, raw })
                }
            },
            _ => None,
        },
        _ => None,
    }
}

/// The link targets the vault is asked about for a value `raw`: its link
/// target, that target without leading `@`s, and the target a media
/// reference names.
pub open spec fn lookup_targets_spec(raw: Seq<char>) -> Seq<Seq<char>> {
    let t = parse_link_ref_spec(trim_ws(raw)).0;
    seq![t, strip_at(t), clean_ref_target_spec(trim_ws(raw))]
}

/// List the link targets whose resolution reading `raw` may need.
pub fn lookup_targets(raw: &str) -> (r: Vec<String>)
    requires
        link_ref_parses(raw@),
    ensures
        r@.map_values(|s: String| s@) == lookup_targets_spec(raw@),
{
    let s = trimmed(raw);
    proof {
        lemma_trim_ws_idempotent(raw@);
    }
    let t = parse_link_ref(s.as_str()).target;
    let st = strip_at_exec(t.as_str());
    let c = clean_ref_target(s.as_str());
    let r = vec![t, st, c];
    assert(r@.map_values(|s: String| s@) =~= lookup_targets_spec(raw@));
    r
}

/// Spell out the reference an element stands for.
pub(crate) fn element_raw_of(t: &str, alias: Option<String>) -> (r: String)
    ensures
        r@ == element_raw(t@, crate::links::opt_view(alias)),
{
    let mut raw = String::new();
    match alias {
        Some(a) => {
            raw.push_str("[[");
            raw.push_str(t);
            raw.push_str("|");
            raw.push_str(a.as_str());
            raw.push_str("]]");
        },
        None => {
            raw.push_str("@link(ref:");
            raw.push_str(t);
            raw.push_str(")");
        },
    }
    raw
}

} // verus!
