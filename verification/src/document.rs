//! One source document, turned into everything a page needs.
//!
//! Parsing, macro expansion, link resolution and HTML rendering happen in the
//! document toolchain; what comes back (the metadata, the heading outline,
//! the body, the pages the body links to) is assembled into the page here.

use vstd::prelude::*;

use crate::links::{opt_view, strip_doc_extension, strip_doc_extension_spec};
use crate::meta::value::{get, obj_get, str_of, MetaValue};
use crate::meta::{has_data_spec, row_views, chip_views, HeroChipItem, InfoboxRowItem, MetaProperties};
use crate::paths::{file_stem, file_stem_spec, is_absolute, path_parts, split_path};
use crate::slug::{no_repeats, normalize_path_str, normalize_separators, string_views};
use crate::text::{ascii_lower_seq, chars_of, eq_ascii_lower, str_eq};
use crate::toc::{
    annotated_all, build_section_tabs, first_h1_spec, forest_spec, item_view, toc_from_outline, toc_spec,
    top_level_spec, trees_of, HeadingInfo, TocItem, TocNode,
};

verus! {

/// A page, as the templates and the search index read it.
#[derive(Debug)]
pub struct ProcessedDoc {
    pub slug: String,
    pub rel_path: String,
    pub source_path: String,
    pub title: String,
    pub section: Option<String>,
    pub kind: Option<String>,
    pub primary_color: Option<String>,
    pub icon: Option<String>,
    pub icon_image_url: Option<String>,
    pub link_icon: Option<String>,
    pub banner_url: Option<String>,
    pub banner_original_url: Option<String>,
    /// The banner's vertical position, as the number was written.
    pub banner_y: Option<String>,
    pub images: Vec<String>,
    pub original_images: Vec<String>,
    pub hero_chips: Vec<HeroChipItem>,
    pub infobox_rows: Vec<InfoboxRowItem>,
    pub has_data: bool,
    pub toc: Vec<TocItem>,
    pub section_tabs: Vec<TocNode>,
    pub body_html: String,
    /// Pages this one links to, as slugs. The build reverses these into the
    /// backlinks each page shows.
    pub outgoing: Vec<String>,
}

/// The metadata's `title`, when it is a string.
pub open spec fn meta_title(meta: Option<MetaValue>) -> Option<Seq<char>> {
    match meta {
        Some(MetaValue::Object(m)) => match obj_get(m@, "title"@) {
            Some(v) => str_of(v),
            None => None,
        },
        _ => None,
    }
}

/// A file name that says nothing about the page.
pub open spec fn is_generic_stem(stem: Seq<char>) -> bool {
    ascii_lower_seq(stem) == "index"@ || ascii_lower_seq(stem) == "readme"@ || stem == "Untitled"@
}

/// The page title: `@meta.title`, else the first H1 when the file name says
/// nothing (`index`, `readme`), else the file name.
pub open spec fn title_spec(rel_path: Seq<char>, meta: Option<MetaValue>, first_h1: Option<Seq<char>>) -> Seq<char> {
    let stem = match file_stem_spec(rel_path) {
        Some(s) => s,
        None => "Untitled"@,
    };
    match meta_title(meta) {
        Some(t) => t,
        None => if is_generic_stem(stem) {
            match first_h1 {
                Some(h) => h,
                None => stem,
            }
        } else {
            stem
        },
    }
}

pub open spec fn opt_value(meta: Option<&MetaValue>) -> Option<MetaValue> {
    match meta {
        Some(v) => Some(*v),
        None => None,
    }
}

/// Work out the page title.
pub fn resolve_title(rel_path: &str, meta: Option<&MetaValue>, first_h1: Option<String>) -> (r: String)
    ensures
        r@ == title_spec(rel_path@, opt_value(meta), opt_view(first_h1)),
{
    let stem = match file_stem(rel_path) {
        Some(s) => s,
        None => "Untitled".to_owned(),
    };
    let title = match meta {
        Some(MetaValue::Object(m)) => match get(m, "title") {
            Some(MetaValue::Text(t)) => Some(t.clone()),
            _ => None,
        },
        _ => None,
    };
    if let Some(t) = title {
        return t;
    }
    let sc = chars_of(stem.as_str());
    let generic = eq_ascii_lower(&sc, "index") || eq_ascii_lower(&sc, "readme") || str_eq(stem.as_str(), "Untitled");
    if generic {
        match first_h1 {
            Some(h) => h,
            None => stem,
        }
    } else {
        stem
    }
}

/// The top-level folder a page sits in, as `Path::parent` and its first
/// component give it: `30-39 Knowledge` for `30-39 Knowledge/01 Dev/a.tmt`,
/// nothing for a file at the top.
pub open spec fn section_spec(rel_path: Seq<char>) -> Option<Seq<char>> {
    let parts = path_parts(rel_path);
    if is_absolute(rel_path) {
        if parts.len() >= 1 {
            Some("/"@)
        } else {
            None
        }
    } else if parts.len() >= 2 {
        Some(parts[0])
    } else {
        None
    }
}

/// The section a page belongs to.
pub fn section_of(rel_path: &str) -> (r: Option<String>)
    ensures
        opt_view(r) == section_spec(rel_path@),
{
    let parts = split_path(rel_path);
    let cs = chars_of(rel_path);
    if cs.len() > 0 && cs[0] == '/' {
        if parts.len() >= 1 {
            Some("/".to_owned())
        } else {
            None
        }
    } else if parts.len() >= 2 {
        Some(parts[0].clone())
    } else {
        None
    }
}

/// The table of contents with a first H1 that merely repeats the title dropped.
pub open spec fn toc_without_title(
    toc: Seq<(Seq<char>, u32, Seq<char>)>,
    title: Seq<char>,
) -> Seq<(Seq<char>, u32, Seq<char>)> {
    if toc.len() > 0 && toc[0].1 == 1 && toc[0].2 == title {
        toc.drop_first()
    } else {
        toc
    }
}

/// `acc` with each of `more` added, in order, unless it is `slug` itself or
/// already there.
pub open spec fn merge_links(acc: Seq<Seq<char>>, more: Seq<Seq<char>>, slug: Seq<char>) -> Seq<Seq<char>>
    decreases more.len(),
{
    if more.len() == 0 {
        acc
    } else {
        let prev = merge_links(acc, more.drop_last(), slug);
        let l = more.last();
        if l != slug && !prev.contains(l) {
            prev.push(l)
        } else {
            prev
        }
    }
}

fn contains_str(v: &Vec<String>, s: &str) -> (r: bool)
    ensures
        r == string_views(v@).contains(s@),
{
    let ghost vs = string_views(v@);
    let mut i: usize = 0;
    while i < v.len()
        invariant
            i <= v@.len(),
            vs == string_views(v@),
            forall|k: int| 0 <= k < i ==> vs[k] != s@,
        decreases v@.len() - i,
    {
        if str_eq(v[i].as_str(), s) {
            assert(vs[i as int] == s@);
            return true;
        }
        i = i + 1;
    }
    false
}

/// Add the pages the metadata links to, leaving out the page itself and any
/// already listed.
pub fn merge_outgoing(outgoing: &mut Vec<String>, linked: &Vec<String>, slug: &str)
    ensures
        string_views(final(outgoing)@) == merge_links(string_views(old(outgoing)@), string_views(linked@), slug@),
{
    let ghost start = string_views(outgoing@);
    let mut i: usize = 0;
    assert(string_views(linked@.take(0)) =~= Seq::<Seq<char>>::empty());
    while i < linked.len()
        invariant
            i <= linked@.len(),
            string_views(outgoing@) == merge_links(start, string_views(linked@.take(i as int)), slug@),
        decreases linked@.len() - i,
    {
        let ghost before = string_views(linked@.take(i as int));
        assert(string_views(linked@.take(i + 1)).drop_last() =~= before);
        assert(string_views(linked@.take(i + 1)).last() == linked@[i as int]@);
        let l = linked[i].as_str();
        if !str_eq(l, slug) && !contains_str(outgoing, l) {
            outgoing.push(linked[i].clone());
            assert(string_views(outgoing@) =~= merge_links(start, before, slug@).push(l@));
        }
        i = i + 1;
    }
    assert(linked@.take(linked@.len() as int) =~= linked@);
}

/// What the document toolchain hands back about one document.
pub struct RenderedDocument {
    /// The document's `@kind`, if it declares one.
    pub kind: Option<String>,
    /// The page's `@meta` data.
    pub meta: Option<MetaValue>,
    /// The page icon, when `@meta` writes it as a `@doc.icon(...)` element.
    pub meta_icon: Option<String>,
    pub body_html: String,
    /// The body's headings, in order.
    pub outline: Vec<HeadingInfo>,
    /// The published pages the body links to, as slugs, each once.
    pub outgoing: Vec<String>,
}

/// How the parts of a page follow from the document, its metadata and the
/// chrome extracted from it.
pub open spec fn assembled(
    d: ProcessedDoc,
    rel_path: Seq<char>,
    abs_path: Option<Seq<char>>,
    doc: RenderedDocument,
    props: MetaProperties,
) -> bool {
    let slug = strip_doc_extension_spec(normalize_separators(rel_path));
    let title = title_spec(rel_path, doc.meta, first_h1_spec(doc.outline@));
    let toc = toc_without_title(toc_spec(doc.outline@), title);
    &&& d.slug@ == slug
    &&& d.rel_path@ == rel_path
    &&& d.source_path@ == (match abs_path {
        Some(a) => a,
        None => rel_path,
    })
    &&& d.title@ == title
    &&& opt_view(d.section) == section_spec(rel_path)
    &&& opt_view(d.kind) == opt_view(doc.kind)
    &&& opt_view(d.primary_color) == opt_view(props.primary_color)
    &&& opt_view(d.icon) == (match doc.meta_icon {
        Some(i) => Some(i@),
        None => opt_view(props.icon),
    })
    &&& opt_view(d.icon_image_url) == opt_view(props.icon_image_url)
    &&& opt_view(d.link_icon) == opt_view(props.link_icon)
    &&& opt_view(d.banner_url) == opt_view(props.banner_url)
    &&& opt_view(d.banner_original_url) == opt_view(props.banner_url)
    &&& opt_view(d.banner_y) == opt_view(props.banner_y)
    &&& string_views(d.images@) == string_views(props.images@)
    &&& string_views(d.original_images@) == string_views(props.images@)
    &&& chip_views(d.hero_chips@) == chip_views(props.hero_chips@)
    &&& row_views(d.infobox_rows@) == row_views(props.infobox_rows@)
    &&& d.has_data == has_data_spec(props)
    &&& d.toc@.map_values(|it: TocItem| item_view(it)) == toc
    &&& annotated_all(forest_spec(d.toc@, top_level_spec(d.toc@)), trees_of(d.section_tabs@))
    &&& d.body_html@ == doc.body_html@
    &&& string_views(d.outgoing@) == merge_links(string_views(doc.outgoing@), string_views(props.linked_slugs@), slug)
}

fn clone_opt(o: &Option<String>) -> (r: Option<String>)
    ensures
        opt_view(r) == opt_view(*o),
{
    match o {
        Some(s) => Some(s.clone()),
        None => None,
    }
}

fn clone_strings(v: &Vec<String>) -> (r: Vec<String>)
    ensures
        string_views(r@) == string_views(v@),
{
    let mut out: Vec<String> = Vec::new();
    let mut i: usize = 0;
    while i < v.len()
        invariant
            i <= v@.len(),
            string_views(out@) == string_views(v@.take(i as int)),
        decreases v@.len() - i,
    {
        let ghost before = out@;
        let s = v[i].as_str().to_owned();
        out.push(s);
        assert(out@ =~= before.push(s));
        assert(v@.take(i + 1) =~= v@.take(i as int).push(v@[i as int]));
        assert(s@ == v@[i as int]@);
        assert(string_views(before.push(s)) =~= string_views(before).push(s@));
        assert(string_views(v@.take(i as int).push(v@[i as int])) =~= string_views(v@.take(i as int)).push(v@[i as int]@));
        assert(string_views(out@) =~= string_views(v@.take(i + 1)));
        i = i + 1;
    }
    assert(v@.take(v@.len() as int) =~= v@);
    out
}

/// Turn a rendered document and the chrome read out of its metadata into the page.
pub fn assemble_document(
    rel_path: &str,
    abs_path: Option<&str>,
    doc: RenderedDocument,
    props: MetaProperties,
) -> (d: ProcessedDoc)
    ensures
        assembled(d, rel_path@, crate::icon::opt_str(abs_path), doc, props),
{
    let ghost doc0 = doc;
    let ghost props0 = props;
    let slug = strip_doc_extension(normalize_path_str(rel_path).as_str());
    let (first_h1, toc0) = toc_from_outline(doc.outline.as_slice());
    let title = resolve_title(
        rel_path,
        match &doc.meta {
            Some(m) => Some(m),
            None => None,
        },
        first_h1,
    );
    let mut toc = toc0;
    let ghost full = toc@.map_values(|it: TocItem| item_view(it));
    if toc.len() > 0 && toc[0].level == 1 && str_eq(toc[0].text.as_str(), title.as_str()) {
        toc.remove(0);
        assert(toc@.map_values(|it: TocItem| item_view(it)) =~= full.drop_first());
    }
    let section_tabs = build_section_tabs(toc.as_slice());
    let section = section_of(rel_path);
    let mut outgoing = doc.outgoing;
    merge_outgoing(&mut outgoing, &props.linked_slugs, slug.as_str());
    let source_path = match abs_path {
        Some(a) => a.to_owned(),
        None => rel_path.to_owned(),
    };
    let has_data = props.has_data();
    let icon = match doc.meta_icon {
        Some(i) => Some(i),
        None => props.icon,
    };
    let banner_original_url = clone_opt(&props.banner_url);
    let original_images = clone_strings(&props.images);
    ProcessedDoc {
        slug,
        rel_path: rel_path.to_owned(),
        source_path,
        title,
        section,
        kind: doc.kind,
        primary_color: props.primary_color,
        icon,
        icon_image_url: props.icon_image_url,
        link_icon: props.link_icon,
        banner_url: props.banner_url,
        banner_original_url,
        banner_y: props.banner_y,
        images: props.images,
        original_images,
        hero_chips: props.hero_chips,
        infobox_rows: props.infobox_rows,
        has_data,
        toc,
        section_tabs,
        body_html: doc.body_html,
        outgoing,
    }
}

/// The pages a document's links lead to, given where each page-kind link
/// resolved in the vault, in order: each published document once, the
/// document itself and links to anything but a document left out.
pub open spec fn page_slugs_spec(
    resolved: Seq<Seq<char>>,
    own_slug: Seq<char>,
    unpublished: Seq<Seq<char>>,
) -> Seq<Seq<char>>
    decreases resolved.len(),
{
    if resolved.len() == 0 {
        Seq::empty()
    } else {
        let prev = page_slugs_spec(resolved.drop_last(), own_slug, unpublished);
        let path = normalize_separators(resolved.last());
        let slug = strip_doc_extension_spec(path);
        if unpublished.contains(path) || slug == path || slug == own_slug || prev.contains(slug) {
            prev
        } else {
            prev.push(slug)
        }
    }
}

/// The pages the resolved targets of a document's links point at.
pub fn outgoing_page_slugs(resolved: &Vec<String>, own_slug: &str, unpublished: &Vec<String>) -> (r: Vec<String>)
    ensures
        string_views(r@) == page_slugs_spec(string_views(resolved@), own_slug@, string_views(unpublished@)),
{
    let mut slugs: Vec<String> = Vec::new();
    let mut i: usize = 0;
    assert(string_views(resolved@.take(0)) =~= Seq::<Seq<char>>::empty());
    assert(string_views(slugs@) =~= Seq::<Seq<char>>::empty());
    while i < resolved.len()
        invariant
            i <= resolved@.len(),
            string_views(slugs@) == page_slugs_spec(string_views(resolved@.take(i as int)), own_slug@, string_views(unpublished@)),
        decreases resolved@.len() - i,
    {
        let ghost rv = string_views(resolved@.take(i + 1));
        assert(rv.drop_last() =~= string_views(resolved@.take(i as int)));
        assert(rv.last() == resolved@[i as int]@);
        let path = normalize_path_str(resolved[i].as_str());
        let slug = strip_doc_extension(path.as_str());
        if !contains_str(unpublished, path.as_str()) && !str_eq(slug.as_str(), path.as_str()) && !str_eq(
            slug.as_str(),
            own_slug,
        ) && !contains_str(&slugs, slug.as_str()) {
            let ghost before = slugs@;
            slugs.push(slug);
            assert(string_views(slugs@) =~= string_views(before).push(slugs@.last()@));
        }
        i = i + 1;
    }
    assert(resolved@.take(resolved@.len() as int) =~= resolved@);
    slugs
}

/// The pages a document's links lead to are each listed once, never the
/// document itself, and each comes from a link to a published document.
pub proof fn lemma_outgoing_pages_are_distinct_published_others(
    resolved: Seq<Seq<char>>,
    own_slug: Seq<char>,
    unpublished: Seq<Seq<char>>,
)
    ensures
        no_repeats(page_slugs_spec(resolved, own_slug, unpublished)),
        !page_slugs_spec(resolved, own_slug, unpublished).contains(own_slug),
        forall|k: int|
            0 <= k < page_slugs_spec(resolved, own_slug, unpublished).len() ==> exists|i: int|
                0 <= i < resolved.len() && !unpublished.contains(normalize_separators(resolved[i]))
                    && #[trigger] page_slugs_spec(resolved, own_slug, unpublished)[k] == strip_doc_extension_spec(
                    normalize_separators(resolved[i]),
                ),
    decreases resolved.len(),
{
    if resolved.len() > 0 {
        let prev_in = resolved.drop_last();
        lemma_outgoing_pages_are_distinct_published_others(prev_in, own_slug, unpublished);
        let prev = page_slugs_spec(prev_in, own_slug, unpublished);
        let r = page_slugs_spec(resolved, own_slug, unpublished);
        let n = resolved.len() - 1;
        assert forall|k: int| 0 <= k < r.len() implies exists|i: int|
            0 <= i < resolved.len() && !unpublished.contains(normalize_separators(resolved[i]))
                && #[trigger] r[k] == strip_doc_extension_spec(normalize_separators(resolved[i])) by {
            if k < prev.len() {
                let i = choose|i: int|
                    0 <= i < prev_in.len() && !unpublished.contains(normalize_separators(prev_in[i]))
                        && #[trigger] prev[k] == strip_doc_extension_spec(normalize_separators(prev_in[i]));
                assert(prev_in[i] == resolved[i]);
                assert(r[k] == prev[k]);
            } else {
                assert(r[k] == strip_doc_extension_spec(normalize_separators(resolved[n])));
            }
        }
    }
}

/// Adding the metadata's links to a list with no repeats and without the
/// page itself keeps both true, and keeps the list's own order in front.
pub proof fn lemma_merge_keeps_links_distinct(acc: Seq<Seq<char>>, more: Seq<Seq<char>>, slug: Seq<char>)
    requires
        no_repeats(acc),
        !acc.contains(slug),
    ensures
        no_repeats(merge_links(acc, more, slug)),
        !merge_links(acc, more, slug).contains(slug),
        acc.is_prefix_of(merge_links(acc, more, slug)),
    decreases more.len(),
{
    if more.len() > 0 {
        lemma_merge_keeps_links_distinct(acc, more.drop_last(), slug);
        let prev = merge_links(acc, more.drop_last(), slug);
        let l = more.last();
        if l != slug && !prev.contains(l) {
            let r = prev.push(l);
            assert forall|i: int, j: int| 0 <= i < j < r.len() implies r[i] != r[j] by {
                if j == r.len() - 1 {
                    assert(r[i] == prev[i]);
                    assert(prev.contains(prev[i]));
                }
            }
            assert(!r.contains(slug)) by {
                if r.contains(slug) {
                    let k = choose|k: int| 0 <= k < r.len() && r[k] == slug;
                    if k < prev.len() {
                        assert(prev[k] == slug);
                    }
                }
            }
        }
    }
}

/// A page lists each page it links to once and never itself, when the
/// body's links it was given do (as `outgoing_page_slugs` gives them).
pub proof fn lemma_page_links_once_and_never_to_itself(
    d: ProcessedDoc,
    rel_path: Seq<char>,
    abs_path: Option<Seq<char>>,
    doc: RenderedDocument,
    props: MetaProperties,
)
    requires
        assembled(d, rel_path, abs_path, doc, props),
        no_repeats(string_views(doc.outgoing@)),
        !string_views(doc.outgoing@).contains(d.slug@),
    ensures
        no_repeats(string_views(d.outgoing@)),
        !string_views(d.outgoing@).contains(d.slug@),
{
    lemma_merge_keeps_links_distinct(string_views(doc.outgoing@), string_views(props.linked_slugs@), d.slug@);
}

} // verus!
