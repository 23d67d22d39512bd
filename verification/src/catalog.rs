//! The reading order a hand-written `*.index.tmt` document defines.
//!
//! The catalog page lists every document in whatever order the vault walk
//! produced; an index document states the reading order instead: what to
//! open first, what belongs under what, and what not to show at all.

use vstd::prelude::*;

use crate::links::{strip_doc_extension, strip_doc_extension_spec};
use crate::slug::{normalize_path_str, normalize_separators};
use crate::text::{chars_of, contains_char, has_suffix, str_eq};

verus! {

/// A control document that orders the book.
pub open spec fn is_index_spec(rel: Seq<char>) -> bool {
    ".index.tmt"@.is_suffix_of(rel)
}

/// True for the control documents that shape the book without being part of it.
pub open spec fn is_control_spec(rel: Seq<char>) -> bool {
    is_index_spec(rel) || ".config.tmt"@.is_suffix_of(rel)
}

/// True for the control documents that shape the book without being part of
/// it. They are read by name and must not also become pages.
pub fn is_control_document(rel_path: &str) -> (r: bool)
    ensures
        r == is_control_spec(rel_path@),
{
    let cs = chars_of(rel_path);
    has_suffix(&cs, ".index.tmt") || has_suffix(&cs, ".config.tmt")
}

pub open spec fn is_root_index_spec(rel: Seq<char>) -> bool {
    is_index_spec(rel) && !rel.contains('/')
}

/// True for an index document that governs the whole book: one that sits at
/// the vault root. Index files deeper in the vault are reserved for ordering
/// their own folder, which nothing reads yet.
pub fn is_root_index(rel_path: &str) -> (r: bool)
    ensures
        r == is_root_index_spec(rel_path@),
{
    let cs = chars_of(rel_path);
    assert(cs@.subrange(0, cs@.len() as int) =~= cs@);
    has_suffix(&cs, ".index.tmt") && !contains_char(&cs, 0, cs.len(), '/')
}

/// One line of a hand-written index: the page it points at, and whatever the
/// author nested under it.
#[derive(Debug)]
pub struct IndexEntry {
    pub slug: String,
    pub children: Vec<IndexEntry>,
}

/// The page a resolved link target names: the path without its document
/// extension, or nothing when the target is not a document.
pub open spec fn page_slug_spec(path: Seq<char>) -> Option<Seq<char>> {
    let slug = strip_doc_extension_spec(path);
    if slug != path {
        Some(slug)
    } else {
        None
    }
}

/// Turn the vault path a link resolved to into the slug of a page.
///
/// Stripping the document extension leaves non-documents untouched, which is
/// how a link to an image is told apart from a link to a page.
pub fn page_slug_of_resolved(path: &str) -> (r: Option<String>)
    ensures
        r is Some <==> page_slug_spec(path@) is Some,
        r matches Some(s) ==> page_slug_spec(path@) == Some(s@),
{
    let slug = strip_doc_extension(path);
    if str_eq(slug.as_str(), path) {
        None
    } else {
        Some(slug)
    }
}

/// An index entry as a mathematical tree.
pub struct IndexTree {
    pub slug: Seq<char>,
    pub children: Seq<IndexTree>,
}

pub open spec fn index_tree(e: IndexEntry) -> IndexTree
    decreases e,
{
    IndexTree { slug: e.slug@, children: index_trees(e.children@) }
}

pub open spec fn index_trees(s: Seq<IndexEntry>) -> Seq<IndexTree>
    decreases s,
{
    if s.len() == 0 {
        Seq::empty()
    } else {
        index_trees(s.drop_last()).push(index_tree(s.last()))
    }
}

proof fn lemma_index_trees_append(s: Seq<IndexEntry>, t: Seq<IndexEntry>)
    ensures
        index_trees(s + t) == index_trees(s) + index_trees(t),
    decreases t.len(),
{
    if t.len() == 0 {
        assert(s + t =~= s);
        assert(index_trees(s) + index_trees(t) =~= index_trees(s));
    } else {
        lemma_index_trees_append(s, t.drop_last());
        assert((s + t).drop_last() =~= s + t.drop_last());
        assert((s + t).last() == t.last());
        assert(index_trees(s) + index_trees(t) =~= (index_trees(s) + index_trees(t.drop_last())).push(
            index_tree(t.last()),
        ));
    }
}

/// One item of an index document's lists: the first page link it holds,
/// where the vault resolved that link, and the items nested under it.
#[derive(Debug)]
pub struct IndexItem {
    pub target: Option<String>,
    pub resolved: Option<String>,
    pub children: Vec<IndexItem>,
}

/// The page a resolved link lands on, if it lands on a document.
pub open spec fn resolved_slug(resolved: Option<String>) -> Option<Seq<char>> {
    match resolved {
        Some(p) => page_slug_spec(normalize_separators(p@)),
        None => None,
    }
}

/// The entries a list of items defines and the links nothing answered:
/// an item whose link lands on a page becomes an entry with its nested
/// entries under it; an item without one lets its nested entries take
/// its place.
pub open spec fn collect_items(items: Seq<IndexItem>) -> (Seq<IndexTree>, Seq<Seq<char>>)
    decreases items,
{
    if items.len() == 0 {
        (Seq::empty(), Seq::empty())
    } else {
        let (e0, u0) = collect_items(items.drop_last());
        let (e1, u1) = collect_item(items.last());
        (e0 + e1, u0 + u1)
    }
}

pub open spec fn collect_item(it: IndexItem) -> (Seq<IndexTree>, Seq<Seq<char>>)
    decreases it,
{
    let (ce, cu) = collect_items(it.children@);
    match it.target {
        None => (ce, cu),
        Some(t) => match resolved_slug(it.resolved) {
            Some(slug) => (seq![IndexTree { slug, children: ce }], cu),
            None => (ce, cu.push(t@)),
        },
    }
}

pub open spec fn string_seqs(v: Seq<String>) -> Seq<Seq<char>> {
    v.map_values(|s: String| s@)
}

/// Read the entries an index document's lists define, and collect the
/// link targets nothing in the vault answered to.
pub fn collect_entries(items: &Vec<IndexItem>) -> (r: (Vec<IndexEntry>, Vec<String>))
    ensures
        (index_trees(r.0@), string_seqs(r.1@)) == collect_items(items@),
    decreases items@,
{
    let mut entries: Vec<IndexEntry> = Vec::new();
    let mut unresolved: Vec<String> = Vec::new();
    let mut i: usize = 0;
    assert(items@.take(0) =~= Seq::<IndexItem>::empty());
    assert(index_trees(entries@) =~= Seq::<IndexTree>::empty());
    assert(string_seqs(unresolved@) =~= Seq::<Seq<char>>::empty());
    while i < items.len()
        invariant
            i <= items@.len(),
            (index_trees(entries@), string_seqs(unresolved@)) == collect_items(items@.take(i as int)),
        decreases items@.len() - i,
    {
        assert(items@.take(i + 1).drop_last() =~= items@.take(i as int));
        assert(items@.take(i + 1).last() == items@[i as int]);
        let it = &items[i];
        assert(decreases_to!(items@ => items@[i as int]));
        assert(decreases_to!(items@[i as int] => items@[i as int].children));
        let (child_entries, child_unresolved) = collect_entries(&it.children);
        let ghost e0 = entries@;
        let ghost u0 = unresolved@;
        let ghost ce = index_trees(child_entries@);
        let ghost cu = string_seqs(child_unresolved@);
        let slug = match &it.resolved {
            Some(p) => page_slug_of_resolved(normalize_path_str(p.as_str()).as_str()),
            None => None,
        };
        assert(crate::links::opt_view(slug) == resolved_slug(it.resolved));
        let mut add_entries: Vec<IndexEntry> = Vec::new();
        let mut add_unresolved: Vec<String> = child_unresolved;
        match &it.target {
            None => {
                add_entries = child_entries;
            },
            Some(t) => match slug {
                Some(s) => {
                    let e = IndexEntry { slug: s, children: child_entries };
                    let ghost ev = e;
                    add_entries.push(e);
                    assert(add_entries@ =~= seq![ev]);
                    assert(seq![ev].drop_last() =~= Seq::<IndexEntry>::empty());
                    assert(index_trees(Seq::<IndexEntry>::empty()) =~= Seq::<IndexTree>::empty());
                    assert(index_trees(add_entries@) =~= seq![index_tree(ev)]);
                },
                None => {
                    add_entries = child_entries;
                    let ghost before = add_unresolved@;
                    add_unresolved.push(t.as_str().to_owned());
                    assert(string_seqs(add_unresolved@) =~= string_seqs(before).push(t@));
                },
            },
        }
        assert((index_trees(add_entries@), string_seqs(add_unresolved@)) == collect_item(items@[i as int]));
        proof {
            lemma_index_trees_append(e0, add_entries@);
        }
        let ghost ae = add_entries@;
        let ghost au = add_unresolved@;
        entries.append(&mut add_entries);
        unresolved.append(&mut add_unresolved);
        assert(entries@ =~= e0 + ae);
        assert(string_seqs(unresolved@) =~= string_seqs(u0) + string_seqs(au));
        i = i + 1;
    }
    assert(items@.take(items@.len() as int) =~= items@);
    (entries, unresolved)
}

} // verus!
