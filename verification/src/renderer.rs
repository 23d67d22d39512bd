//! What the page templates are handed: section counts, backlinks, and the
//! book's own table of contents.

use vstd::prelude::*;

use crate::catalog::IndexEntry;
use crate::text::{chars_of, lex_lt, str_eq, str_lt};

verus! {

/// How many pages one top-level section holds.
#[derive(Debug, Clone)]
pub struct SectionSummary {
    pub name: String,
    pub count: usize,
}

/// A page that points at the one being rendered.
#[derive(Debug, Clone)]
pub struct Backlink {
    pub url: String,
    pub title: String,
    pub section: Option<String>,
}

/// One line of the book's table of contents.
#[derive(Debug)]
pub struct EntrySummary {
    pub url: String,
    pub title: String,
    pub section: Option<String>,
    /// Pages the index nested under this one. Always empty when the catalog
    /// is generated rather than written.
    pub children: Vec<EntrySummary>,
}

pub open spec fn opt_view(o: Option<String>) -> Option<Seq<char>> {
    match o {
        Some(s) => Some(s@),
        None => None,
    }
}

/// One line of the table of contents, as a mathematical tree.
pub struct EntryTree {
    pub url: Seq<char>,
    pub title: Seq<char>,
    pub section: Option<Seq<char>>,
    pub children: Seq<EntryTree>,
}

pub open spec fn entry_tree(e: EntrySummary) -> EntryTree
    decreases e,
{
    EntryTree { url: e.url@, title: e.title@, section: opt_view(e.section), children: entry_trees(e.children@) }
}

pub open spec fn entry_trees(s: Seq<EntrySummary>) -> Seq<EntryTree>
    decreases s,
{
    if s.len() == 0 {
        Seq::empty()
    } else {
        entry_trees(s.drop_last()).push(entry_tree(s.last()))
    }
}

proof fn lemma_entry_trees_push(s: Seq<EntrySummary>, x: EntrySummary)
    ensures
        entry_trees(s.push(x)) == entry_trees(s).push(entry_tree(x)),
{
    assert(s.push(x).drop_last() =~= s);
}

proof fn lemma_entry_trees_append(s: Seq<EntrySummary>, t: Seq<EntrySummary>)
    ensures
        entry_trees(s + t) == entry_trees(s) + entry_trees(t),
    decreases t.len(),
{
    if t.len() == 0 {
        assert(s + t =~= s);
        assert(entry_trees(s) + entry_trees(t) =~= entry_trees(s));
    } else {
        lemma_entry_trees_append(s, t.drop_last());
        assert((s + t).drop_last() =~= s + t.drop_last());
        assert((s + t).last() == t.last());
        assert(entry_trees(s) + entry_trees(t) =~= (entry_trees(s) + entry_trees(t.drop_last())).push(entry_tree(t.last())));
    }
}

/// The letters of the rail title, one string per character.
pub fn rail_letters(rail_title: Option<&str>, book_title: &str) -> (r: Vec<String>)
    ensures
        ({
            let t = match rail_title {
                Some(s) => s@,
                None => book_title@,
            };
            &&& r@.len() == t.len()
            &&& forall|i: int| 0 <= i < t.len() ==> #[trigger] r@[i]@ == seq![t[i]]
        }),
{
    let t: &str = match rail_title {
        Some(s) => s,
        None => book_title,
    };
    let cs = chars_of(t);
    let mut out: Vec<String> = Vec::new();
    let mut i: usize = 0;
    while i < cs.len()
        invariant
            i <= cs@.len(),
            cs@ == t@,
            out@.len() == i,
            forall|k: int| 0 <= k < i ==> #[trigger] out@[k]@ == seq![cs@[k]],
        decreases cs@.len() - i,
    {
        let mut s = String::new();
        s.push(cs[i]);
        assert(s@ =~= seq![cs@[i as int]]);
        out.push(s);
        i = i + 1;
    }
    out
}

/// How often `x` occurs in `s`.
pub open spec fn occurrences(s: Seq<Seq<char>>, x: Seq<char>) -> nat
    decreases s.len(),
{
    if s.len() == 0 {
        0
    } else {
        occurrences(s.drop_last(), x) + if s.last() == x {
            1nat
        } else {
            0nat
        }
    }
}

/// The section summaries of a set of pages: every section once, in name
/// order, with the number of pages in it.
pub open spec fn summarizes(r: Seq<SectionSummary>, sections: Seq<Seq<char>>) -> bool {
    &&& forall|i: int, j: int| 0 <= i < j < r.len() ==> lex_lt(r[i].name@, r[j].name@)
    &&& forall|i: int| 0 <= i < r.len() ==> #[trigger] r[i].count == occurrences(sections, r[i].name@)
    &&& forall|k: int| #![trigger sections[k]] 0 <= k < sections.len() ==> exists|i: int| #![trigger r[i]] 0 <= i < r.len() && r[i].name@ == sections[k]
}

/// Count the pages in each section, sorted by section name.
pub fn summarize_sections(sections: &[String]) -> (r: Vec<SectionSummary>)
    ensures
        summarizes(r@, sections@.map_values(|s: String| s@)),
{
    let ghost all = sections@.map_values(|s: String| s@);
    let mut out: Vec<SectionSummary> = Vec::new();
    let mut i: usize = 0;
    while i < sections.len()
        invariant
            i <= sections@.len(),
            all == sections@.map_values(|s: String| s@),
            summarizes(out@, all.take(i as int)),
            forall|k: int| 0 <= k < out@.len() ==> #[trigger] out@[k].count <= i,
        decreases sections@.len() - i,
    {
        let name = sections[i].as_str();
        let ghost prev = all.take(i as int);
        let ghost next = all.take(i + 1);
        proof {
            assert(next.drop_last() =~= prev);
            assert(next.last() == name@);
        }
        let mut p: usize = 0;
        while p < out.len() && str_lt(out[p].name.as_str(), name)
            invariant
                p <= out@.len(),
                forall|k: int| 0 <= k < p ==> lex_lt(#[trigger] out@[k].name@, name@),
            decreases out@.len() - p,
        {
            p = p + 1;
        }
        let ghost before = out@;
        if p < out.len() && str_eq(out[p].name.as_str(), name) {
            let c = out[p].count;
            let entry = SectionSummary { name: out[p].name.clone(), count: c + 1 };
            out.set(p, entry);
            proof {
                assert forall|a: int, b: int| 0 <= a < b < out@.len() implies lex_lt(out@[a].name@, out@[b].name@) by {
                    assert(before[a].name@ == out@[a].name@ && before[b].name@ == out@[b].name@);
                }
                assert forall|k: int| 0 <= k < out@.len() implies #[trigger] out@[k].count == occurrences(next, out@[k].name@) by {
                    if k != p {
                        assert(before[k].name@ != name@) by {
                            crate::text::lemma_lex_lt_irreflexive(name@);
                            if k < p {
                                assert(lex_lt(before[k].name@, before[p as int].name@));
                            } else {
                                assert(lex_lt(before[p as int].name@, before[k].name@));
                            }
                        }
                    }
                }
                assert forall|k: int| #![trigger next[k]] 0 <= k < next.len() implies exists|a: int| #![trigger out@[a]] 0 <= a < out@.len() && out@[a].name@ == next[k] by {
                    if k < i {
                        assert(prev[k] == next[k]);
                        let a = choose|a: int| #![trigger before[a]] 0 <= a < before.len() && before[a].name@ == prev[k];
                        assert(out@[a].name@ == next[k]);
                    } else {
                        assert(out@[p as int].name@ == next[k]);
                    }
                }
            }
        } else {
            let entry = SectionSummary { name: sections[i].clone(), count: 1 };
            out.insert(p, entry);
            proof {
                assert(!exists|k: int| 0 <= k < before.len() && before[k].name@ == name@) by {
                    if exists|k: int| 0 <= k < before.len() && before[k].name@ == name@ {
                        let k = choose|k: int| 0 <= k < before.len() && before[k].name@ == name@;
                        crate::text::lemma_lex_lt_irreflexive(name@);
                        if k > p {
                            crate::text::lemma_lex_lt_total(before[p as int].name@, name@);
                            assert(lex_lt(before[p as int].name@, before[k].name@));
                            crate::text::lemma_lex_lt_total(before[p as int].name@, before[k].name@);
                        }
                    }
                }
                assert(occurrences(prev, name@) == 0) by {
                    assert forall|k: int| 0 <= k < prev.len() implies prev[k] != name@ by {
                        let a = choose|a: int| #![trigger before[a]] 0 <= a < before.len() && before[a].name@ == prev[k];
                    }
                    lemma_occurrences_absent(prev, name@);
                }
                if p < before.len() {
                    crate::text::lemma_lex_lt_total(before[p as int].name@, name@);
                }
                assert forall|a: int, b: int| 0 <= a < b < out@.len() implies lex_lt(out@[a].name@, out@[b].name@) by {
                    if b < p {
                        assert(out@[a] == before[a] && out@[b] == before[b]);
                    } else if b == p {
                        assert(out@[a] == before[a]);
                    } else if a < p {
                        assert(out@[a] == before[a] && out@[b] == before[b - 1]);
                        assert(lex_lt(before[a].name@, name@));
                        if b - 1 > p {
                            assert(lex_lt(before[p as int].name@, before[b - 1].name@));
                            crate::text::lemma_lex_lt_transitive(name@, before[p as int].name@, before[b - 1].name@);
                        }
                        crate::text::lemma_lex_lt_transitive(before[a].name@, name@, before[b - 1].name@);
                    } else if a == p {
                        assert(out@[b] == before[b - 1]);
                        if b - 1 > p {
                            assert(lex_lt(before[p as int].name@, before[b - 1].name@));
                            crate::text::lemma_lex_lt_transitive(name@, before[p as int].name@, before[b - 1].name@);
                        }
                    } else {
                        assert(out@[a] == before[a - 1] && out@[b] == before[b - 1]);
                    }
                }
                assert forall|k: int| 0 <= k < out@.len() implies #[trigger] out@[k].count == occurrences(next, out@[k].name@) by {
                    if k < p {
                        assert(out@[k] == before[k]);
                    } else if k > p {
                        assert(out@[k] == before[k - 1]);
                    }
                }
                assert forall|k: int| #![trigger next[k]] 0 <= k < next.len() implies exists|a: int| #![trigger out@[a]] 0 <= a < out@.len() && out@[a].name@ == next[k] by {
                    if k < i {
                        assert(prev[k] == next[k]);
                        let a = choose|a: int| #![trigger before[a]] 0 <= a < before.len() && before[a].name@ == prev[k];
                        if a < p {
                            assert(out@[a].name@ == next[k]);
                        } else {
                            assert(out@[a + 1].name@ == next[k]);
                        }
                    } else {
                        assert(out@[p as int].name@ == next[k]);
                    }
                }
            }
        }
        i = i + 1;
    }
    assert(all.take(sections@.len() as int) =~= all);
    out
}

proof fn lemma_occurrences_absent(s: Seq<Seq<char>>, x: Seq<char>)
    requires
        forall|k: int| 0 <= k < s.len() ==> s[k] != x,
    ensures
        occurrences(s, x) == 0,
    decreases s.len(),
{
    if s.len() > 0 {
        let t = s.drop_last();
        assert forall|k: int| 0 <= k < t.len() implies t[k] != x by {
            assert(t[k] == s[k]);
        }
        lemma_occurrences_absent(t, x);
    }
}

/// The page a slug names, the last one listed when several share it.
pub open spec fn lookup_page(pages: Seq<(String, EntrySummary)>, slug: Seq<char>) -> Option<int>
    decreases pages.len(),
{
    if pages.len() == 0 {
        None
    } else if pages.last().0@ == slug {
        Some(pages.len() - 1)
    } else {
        lookup_page(pages.drop_last(), slug)
    }
}

proof fn lemma_lookup_page(pages: Seq<(String, EntrySummary)>, slug: Seq<char>)
    ensures
        lookup_page(pages, slug) matches Some(j) ==> 0 <= j < pages.len() && pages[j].0@ == slug,
    decreases pages.len(),
{
    if pages.len() > 0 {
        lemma_lookup_page(pages.drop_last(), slug);
    }
}

/// The entries of a written index, each given the summary of the page its
/// slug names; an entry whose page is missing hands its children up.
pub open spec fn arrange_spec(index: Seq<IndexEntry>, pages: Seq<(String, EntrySummary)>) -> Seq<EntryTree>
    decreases index,
{
    if index.len() == 0 {
        Seq::empty()
    } else {
        arrange_spec(index.drop_last(), pages) + arrange_one(index.last(), pages)
    }
}

pub open spec fn arrange_one(e: IndexEntry, pages: Seq<(String, EntrySummary)>) -> Seq<EntryTree>
    decreases e,
{
    let kids = arrange_spec(e.children@, pages);
    match lookup_page(pages, e.slug@) {
        Some(j) => seq![
            EntryTree {
                url: pages[j].1.url@,
                title: pages[j].1.title@,
                section: opt_view(pages[j].1.section),
                children: kids,
            },
        ],
        None => kids,
    }
}

fn find_page(pages: &[(String, EntrySummary)], slug: &str) -> (r: Option<usize>)
    ensures
        r matches Some(j) ==> lookup_page(pages@, slug@) == Some(j as int),
        r is None ==> lookup_page(pages@, slug@) is None,
{
    let mut k = pages.len();
    assert(pages@.take(k as int) =~= pages@);
    while k > 0
        invariant
            k <= pages@.len(),
            lookup_page(pages@, slug@) == lookup_page(pages@.take(k as int), slug@),
        decreases k,
    {
        assert(pages@.take(k as int).drop_last() =~= pages@.take(k - 1));
        if str_eq(pages[k - 1].0.as_str(), slug) {
            return Some(k - 1);
        }
        k = k - 1;
    }
    None
}

fn walk_entries(index: &Vec<IndexEntry>, pages: &[(String, EntrySummary)], out: &mut Vec<EntrySummary>)
    ensures
        entry_trees(final(out)@) == entry_trees(old(out)@) + arrange_spec(index@, pages@),
    decreases index@,
{
    let ghost start = out@;
    let mut i: usize = 0;
    assert(entry_trees(start) + arrange_spec(index@.take(0), pages@) =~= entry_trees(start));
    while i < index.len()
        invariant
            i <= index@.len(),
            entry_trees(out@) == entry_trees(start) + arrange_spec(index@.take(i as int), pages@),
        decreases index@.len() - i,
    {
        let entry = &index[i];
        let ghost before = out@;
        proof {
            assert(index@.take(i + 1).drop_last() =~= index@.take(i as int));
            assert(index@.take(i + 1).last() == index@[i as int]);
            assert(arrange_spec(index@.take(i + 1), pages@) == arrange_spec(index@.take(i as int), pages@) + arrange_one(index@[i as int], pages@));
            assert(decreases_to!(index@ => index@[i as int]));
            assert(decreases_to!(index@[i as int] => index@[i as int].children));
        }
        let mut children: Vec<EntrySummary> = Vec::new();
        walk_entries(&entry.children, pages, &mut children);
        assert(entry_trees(children@) =~= arrange_spec(entry.children@, pages@)) by {
            assert(entry_trees(Seq::<EntrySummary>::empty()) + arrange_spec(entry.children@, pages@) =~= arrange_spec(entry.children@, pages@));
        }
        match find_page(pages, entry.slug.as_str()) {
            Some(j) => {
                proof {
                    lemma_lookup_page(pages@, entry.slug@);
                }
                let summary = &pages[j].1;
                let e = EntrySummary {
                    url: summary.url.clone(),
                    title: summary.title.clone(),
                    section: match &summary.section {
                        Some(s) => Some(s.clone()),
                        None => None,
                    },
                    children,
                };
                out.push(e);
                proof {
                    lemma_entry_trees_push(before, e);
                    assert(entry_tree(e) == EntryTree {
                        url: pages@[j as int].1.url@,
                        title: pages@[j as int].1.title@,
                        section: opt_view(pages@[j as int].1.section),
                        children: arrange_spec(index@[i as int].children@, pages@),
                    });
                    assert(arrange_one(index@[i as int], pages@) == seq![entry_tree(e)]);
                    assert(entry_trees(out@) =~= entry_trees(start) + arrange_spec(index@.take(i + 1), pages@));
                }
            },
            None => {
                let ghost kids = children@;
                out.append(&mut children);
                proof {
                    assert(out@ =~= before + kids);
                    lemma_entry_trees_append(before, kids);
                    assert(arrange_one(index@[i as int], pages@) == entry_trees(kids));
                    assert(entry_trees(out@) =~= entry_trees(start) + arrange_spec(index@.take(i + 1), pages@));
                }
            },
        }
        i = i + 1;
    }
    assert(index@.take(index@.len() as int) =~= index@);
}

/// Give every slug the index names the page summary that was rendered for it.
///
/// A slug with no page behind it is dropped: the index may have been written
/// before the note, or the note may have failed to render. What hung below it
/// is kept.
pub fn arrange_entries(index: &Vec<IndexEntry>, by_slug: &[(String, EntrySummary)]) -> (r: Vec<EntrySummary>)
    ensures
        entry_trees(r@) == arrange_spec(index@, by_slug@),
{
    let mut out: Vec<EntrySummary> = Vec::new();
    walk_entries(index, by_slug, &mut out);
    assert(entry_trees(Seq::<EntrySummary>::empty()) + arrange_spec(index@, by_slug@) =~= arrange_spec(index@, by_slug@));
    out
}

/// The links one page makes, with what a backlink to it shows.
#[derive(Debug, Clone)]
pub struct PageLinks {
    pub slug: String,
    pub title: String,
    pub section: Option<String>,
    /// Slugs of the pages this one links to, in document order.
    pub outgoing: Vec<String>,
}

/// A backlink as plain values: its url, title and section.
pub type BacklinkView = (Seq<char>, Seq<char>, Option<Seq<char>>);

pub open spec fn backlink_view(b: Backlink) -> BacklinkView {
    (b.url@, b.title@, opt_view(b.section))
}

/// Backlinks sort by title, then by url.
pub open spec fn backlink_lt(a: BacklinkView, b: BacklinkView) -> bool {
    lex_lt(a.1, b.1) || (a.1 == b.1 && lex_lt(a.0, b.0))
}

/// Where `x` goes in a sorted list so that it lands after every entry that
/// does not sort after it.
pub open spec fn insert_pos(list: Seq<BacklinkView>, x: BacklinkView) -> int
    decreases list.len(),
{
    if list.len() == 0 {
        0
    } else if backlink_lt(x, list.last()) {
        insert_pos(list.drop_last(), x)
    } else {
        list.len() as int
    }
}

pub open spec fn insert_sorted_spec(list: Seq<BacklinkView>, x: BacklinkView) -> Seq<BacklinkView> {
    list.insert(insert_pos(list, x), x)
}

/// The backlink table built from `(target, backlink)` pairs in order: one row
/// per target, in order of first mention, each list kept sorted with equal
/// entries in the order they came.
pub open spec fn backlink_table_spec(pairs: Seq<(Seq<char>, BacklinkView)>) -> Seq<(Seq<char>, Seq<BacklinkView>)>
    decreases pairs.len(),
{
    if pairs.len() == 0 {
        Seq::empty()
    } else {
        let t = backlink_table_spec(pairs.drop_last());
        let (k, b) = pairs.last();
        match row_of(t, k) {
            Some(m) => t.update(m, (k, insert_sorted_spec(t[m].1, b))),
            None => t.push((k, seq![b])),
        }
    }
}

/// The row holding key `k`, if any.
pub open spec fn row_of(t: Seq<(Seq<char>, Seq<BacklinkView>)>, k: Seq<char>) -> Option<int>
    decreases t.len(),
{
    if t.len() == 0 {
        None
    } else if t.last().0 == k {
        Some(t.len() - 1)
    } else {
        row_of(t.drop_last(), k)
    }
}

/// The `(target, backlink)` pairs a set of pages produce, page by page and
/// link by link.
pub open spec fn link_pairs(docs: Seq<PageLinks>, prefix: Seq<char>) -> Seq<(Seq<char>, BacklinkView)>
    decreases docs.len(),
{
    if docs.len() == 0 {
        Seq::empty()
    } else {
        let d = docs.last();
        let b = (prefix + seq!['/'] + d.slug@, d.title@, opt_view(d.section));
        link_pairs(docs.drop_last(), prefix) + d.outgoing@.map_values(|t: String| (t@, b))
    }
}

pub open spec fn table_view(t: Seq<(String, Vec<Backlink>)>) -> Seq<(Seq<char>, Seq<BacklinkView>)> {
    t.map_values(|row: (String, Vec<Backlink>)| (row.0@, row.1@.map_values(|b: Backlink| backlink_view(b))))
}

pub open spec fn sorted_backlinks(list: Seq<BacklinkView>) -> bool {
    forall|i: int, j: int| 0 <= i < j < list.len() ==> !backlink_lt(list[j], list[i])
}

fn backlink_less(a: &Backlink, b: &Backlink) -> (r: bool)
    ensures
        r == backlink_lt(backlink_view(*a), backlink_view(*b)),
{
    if str_lt(a.title.as_str(), b.title.as_str()) {
        true
    } else if str_eq(a.title.as_str(), b.title.as_str()) {
        str_lt(a.url.as_str(), b.url.as_str())
    } else {
        false
    }
}

fn insert_backlink(list: &mut Vec<Backlink>, x: Backlink)
    ensures
        final(list)@.map_values(|b: Backlink| backlink_view(b)) == insert_sorted_spec(
            old(list)@.map_values(|b: Backlink| backlink_view(b)),
            backlink_view(x),
        ),
{
    let ghost v = list@.map_values(|b: Backlink| backlink_view(b));
    let mut p = list.len();
    assert(v.take(p as int) =~= v);
    while p > 0 && backlink_less(&x, &list[p - 1])
        invariant
            p <= list@.len(),
            v == list@.map_values(|b: Backlink| backlink_view(b)),
            insert_pos(v, backlink_view(x)) == insert_pos(v.take(p as int), backlink_view(x)),
        decreases p,
    {
        assert(v.take(p as int).drop_last() =~= v.take(p - 1));
        p = p - 1;
    }
    assert(insert_pos(v.take(p as int), backlink_view(x)) == p) by {
        if p > 0 {
            assert(v.take(p as int).last() == v[p - 1]);
        }
    }
    list.insert(p, x);
    assert(list@.map_values(|b: Backlink| backlink_view(b)) =~= v.insert(p as int, backlink_view(x)));
}

fn find_row(t: &Vec<(String, Vec<Backlink>)>, k: &str) -> (r: Option<usize>)
    ensures
        r matches Some(m) ==> row_of(table_view(t@), k@) == Some(m as int),
        r is None ==> row_of(table_view(t@), k@) is None,
{
    let ghost tv = table_view(t@);
    let mut m = t.len();
    assert(tv.take(m as int) =~= tv);
    while m > 0
        invariant
            m <= t@.len(),
            tv == table_view(t@),
            row_of(tv, k@) == row_of(tv.take(m as int), k@),
        decreases m,
    {
        assert(tv.take(m as int).drop_last() =~= tv.take(m - 1));
        if str_eq(t[m - 1].0.as_str(), k) {
            return Some(m - 1);
        }
        m = m - 1;
    }
    None
}

/// Turn every page's outgoing links into the incoming list of its targets.
///
/// Each list is sorted by title (then url), so an unchanged vault keeps
/// producing byte-identical pages, which is what lets the writer skip
/// untouched files.
pub fn build_backlink_index(docs: &[PageLinks], clean_url_prefix: &str) -> (r: Vec<(String, Vec<Backlink>)>)
    ensures
        table_view(r@) == backlink_table_spec(link_pairs(docs@, clean_url_prefix@)),
{
    let mut table: Vec<(String, Vec<Backlink>)> = Vec::new();
    let mut i: usize = 0;
    while i < docs.len()
        invariant
            i <= docs@.len(),
            table_view(table@) == backlink_table_spec(link_pairs(docs@.take(i as int), clean_url_prefix@)),
        decreases docs@.len() - i,
    {
        let d = &docs[i];
        let mut url = clean_url_prefix.to_owned();
        url.push('/');
        url.push_str(d.slug.as_str());
        let ghost b = (clean_url_prefix@ + seq!['/'] + d.slug@, d.title@, opt_view(d.section));
        assert(url@ =~= b.0);
        let ghost base = link_pairs(docs@.take(i as int), clean_url_prefix@);
        let ghost targets = d.outgoing@.map_values(|t: String| (t@, b));
        proof {
            assert(docs@.take(i + 1).drop_last() =~= docs@.take(i as int));
            assert(link_pairs(docs@.take(i + 1), clean_url_prefix@) == base + targets);
        }
        let mut j: usize = 0;
        assert(base + targets.take(0) =~= base);
        while j < d.outgoing.len()
            invariant
                j <= d.outgoing@.len(),
                i < docs@.len(),
                d == docs@[i as int],
                d.title@ == b.1,
                opt_view(d.section) == b.2,
                url@ == b.0,
                targets == d.outgoing@.map_values(|t: String| (t@, b)),
                table_view(table@) == backlink_table_spec(base + targets.take(j as int)),
            decreases d.outgoing@.len() - j,
        {
            let target = d.outgoing[j].as_str();
            let link = Backlink {
                url: url.clone(),
                title: d.title.clone(),
                section: match &d.section {
                    Some(s) => Some(s.clone()),
                    None => None,
                },
            };
            assert(backlink_view(link) == b);
            let ghost prev = base + targets.take(j as int);
            let ghost tv = table_view(table@);
            proof {
                assert((base + targets.take(j + 1)).drop_last() =~= prev);
                assert((base + targets.take(j + 1)).last() == (target@, b));
            }
            match find_row(&table, target) {
                Some(m) => {
                    proof {
                        lemma_row_of(tv, target@);
                    }
                    let ghost old_rows = table@;
                    let mut row = table.remove(m);
                    assert(row == old_rows[m as int]);
                    insert_backlink(&mut row.1, link);
                    table.insert(m, row);
                    proof {
                        assert(table@ =~= old_rows.update(m as int, row));
                        assert(table_view(table@) =~= tv.update(m as int, (target@, insert_sorted_spec(tv[m as int].1, b))));
                    }
                },
                None => {
                    let v = vec![link];
                    assert(v@.map_values(|x: Backlink| backlink_view(x)) =~= seq![b]);
                    table.push((d.outgoing[j].clone(), v));
                    proof {
                        assert(table_view(table@) =~= tv.push((target@, seq![b])));
                    }
                },
            }
            j = j + 1;
        }
        assert(targets.take(targets.len() as int) =~= targets);
        i = i + 1;
    }
    assert(docs@.take(docs@.len() as int) =~= docs@);
    table
}

/// Every list of backlinks comes out sorted by title, then url.
pub proof fn lemma_backlinks_are_sorted(pairs: Seq<(Seq<char>, BacklinkView)>)
    ensures
        forall|m: int| 0 <= m < backlink_table_spec(pairs).len() ==> sorted_backlinks(#[trigger] backlink_table_spec(pairs)[m].1),
    decreases pairs.len(),
{
    if pairs.len() > 0 {
        lemma_backlinks_are_sorted(pairs.drop_last());
        let t = backlink_table_spec(pairs.drop_last());
        let (k, b) = pairs.last();
        lemma_row_of(t, k);
        match row_of(t, k) {
            Some(m) => {
                lemma_insert_sorted(t[m].1, b);
            },
            None => {},
        }
    }
}

proof fn lemma_row_of(t: Seq<(Seq<char>, Seq<BacklinkView>)>, k: Seq<char>)
    ensures
        row_of(t, k) matches Some(m) ==> 0 <= m < t.len() && t[m].0 == k,
        row_of(t, k) is None ==> forall|m: int| 0 <= m < t.len() ==> t[m].0 != k,
    decreases t.len(),
{
    if t.len() > 0 {
        lemma_row_of(t.drop_last(), k);
        if row_of(t, k) is None {
            assert forall|m: int| 0 <= m < t.len() implies t[m].0 != k by {
                if m < t.len() - 1 {
                    assert(t[m] == t.drop_last()[m]);
                }
            }
        }
    }
}

/// The backlinks the pairs give target `k`, in the order they come.
pub open spec fn backlinks_to(pairs: Seq<(Seq<char>, BacklinkView)>, k: Seq<char>) -> Seq<BacklinkView>
    decreases pairs.len(),
{
    if pairs.len() == 0 {
        Seq::empty()
    } else {
        let r = backlinks_to(pairs.drop_last(), k);
        if pairs.last().0 == k {
            r.push(pairs.last().1)
        } else {
            r
        }
    }
}

proof fn lemma_no_backlinks_to(pairs: Seq<(Seq<char>, BacklinkView)>, k: Seq<char>)
    requires
        forall|i: int| 0 <= i < pairs.len() ==> (#[trigger] pairs[i]).0 != k,
    ensures
        backlinks_to(pairs, k) == Seq::<BacklinkView>::empty(),
    decreases pairs.len(),
{
    if pairs.len() > 0 {
        assert forall|i: int| 0 <= i < pairs.drop_last().len() implies (#[trigger] pairs.drop_last()[i]).0 != k by {
            assert(pairs.drop_last()[i] == pairs[i]);
        }
        lemma_no_backlinks_to(pairs.drop_last(), k);
        assert(pairs.last() == pairs[pairs.len() - 1]);
    }
}

/// The pages' links name a target exactly when some page links to it.
pub proof fn lemma_link_pairs_name_the_linked(docs: Seq<PageLinks>, prefix: Seq<char>, k: Seq<char>)
    ensures
        names_target(link_pairs(docs, prefix), k) <==> exists|d: int, j: int|
            0 <= d < docs.len() && 0 <= j < docs[d].outgoing@.len() && #[trigger] docs[d].outgoing@[j]@ == k,
    decreases docs.len(),
{
    if docs.len() > 0 {
        let front = docs.drop_last();
        lemma_link_pairs_name_the_linked(front, prefix, k);
        let a = link_pairs(front, prefix);
        let last = docs.last();
        let bl = (prefix + seq!['/'] + last.slug@, last.title@, opt_view(last.section));
        let added = last.outgoing@.map_values(|t: String| (t@, bl));
        let all = link_pairs(docs, prefix);
        assert(all == a + added);
        if names_target(all, k) {
            let i = choose|i: int| 0 <= i < all.len() && #[trigger] all[i].0 == k;
            if i < a.len() {
                assert(all[i] == a[i]);
                assert(names_target(a, k));
                let (d, j) = choose|d: int, j: int|
                    0 <= d < front.len() && 0 <= j < front[d].outgoing@.len() && #[trigger] front[d].outgoing@[j]@ == k;
                assert(docs[d] == front[d]);
            } else {
                assert(all[i] == added[i - a.len()]);
                assert(docs[docs.len() - 1].outgoing@[i - a.len()]@ == k);
            }
        }
        if exists|d: int, j: int|
            0 <= d < docs.len() && 0 <= j < docs[d].outgoing@.len() && #[trigger] docs[d].outgoing@[j]@ == k {
            let (d, j) = choose|d: int, j: int|
                0 <= d < docs.len() && 0 <= j < docs[d].outgoing@.len() && #[trigger] docs[d].outgoing@[j]@ == k;
            if d < front.len() {
                assert(front[d] == docs[d]);
                assert(front[d].outgoing@[j]@ == k);
                let i = choose|i: int| 0 <= i < a.len() && #[trigger] a[i].0 == k;
                assert(all[i] == a[i]);
            } else {
                assert(docs[d] == last);
                assert(all[a.len() + j] == added[j]);
                assert(all[a.len() + j].0 == k);
            }
        }
    }
}

/// The table has a row for `k`.
pub open spec fn has_row(t: Seq<(Seq<char>, Seq<BacklinkView>)>, k: Seq<char>) -> bool {
    exists|m: int| 0 <= m < t.len() && #[trigger] t[m].0 == k
}

/// Some pair names `k` as its target.
pub open spec fn names_target(pairs: Seq<(Seq<char>, BacklinkView)>, k: Seq<char>) -> bool {
    exists|i: int| 0 <= i < pairs.len() && #[trigger] pairs[i].0 == k
}

/// The backlink table has one row per target the pairs name and no other,
/// each target once; and each row holds exactly the backlinks the pairs give
/// that target, each as often as it is given, only reordered.
pub proof fn lemma_backlink_rows(pairs: Seq<(Seq<char>, BacklinkView)>)
    ensures
        ({
            let t = backlink_table_spec(pairs);
            &&& forall|a: int, c: int| 0 <= a < c < t.len() ==> t[a].0 != t[c].0
            &&& forall|k: Seq<char>|
                #![trigger has_row(t, k)]
                #![trigger names_target(pairs, k)]
                has_row(t, k) <==> names_target(pairs, k)
            &&& forall|m: int|
                0 <= m < t.len() ==> (#[trigger] t[m]).1.to_multiset() == backlinks_to(pairs, t[m].0).to_multiset()
        }),
    decreases pairs.len(),
{
    broadcast use vstd::seq_lib::to_multiset_build, vstd::seq_lib::to_multiset_insert;

    if pairs.len() == 0 {
        return;
    }
    let front = pairs.drop_last();
    lemma_backlink_rows(front);
    let t = backlink_table_spec(front);
    let (k, b) = pairs.last();
    assert(pairs.last() == pairs[pairs.len() - 1]);
    lemma_row_of(t, k);
    let t2 = backlink_table_spec(pairs);
    assert forall|kk: Seq<char>| #[trigger] names_target(pairs, kk) <==> (names_target(front, kk) || kk == k) by {
        if names_target(pairs, kk) {
            let i = choose|i: int| 0 <= i < pairs.len() && #[trigger] pairs[i].0 == kk;
            if i < front.len() {
                assert(front[i] == pairs[i]);
            }
        }
        if names_target(front, kk) {
            let i = choose|i: int| 0 <= i < front.len() && #[trigger] front[i].0 == kk;
            assert(pairs[i] == front[i]);
        }
        if kk == k {
            assert(pairs[pairs.len() - 1].0 == kk);
        }
    }
    match row_of(t, k) {
        Some(m) => {
            lemma_insert_pos(t[m].1, b);
            assert(t2 == t.update(m, (k, insert_sorted_spec(t[m].1, b))));
            assert forall|a: int, c: int| 0 <= a < c < t2.len() implies t2[a].0 != t2[c].0 by {
                assert(t2[a].0 == t[a].0 && t2[c].0 == t[c].0);
            }
            assert forall|kk: Seq<char>| #[trigger] has_row(t2, kk) <==> has_row(t, kk) by {
                if has_row(t2, kk) {
                    let x = choose|x: int| 0 <= x < t2.len() && #[trigger] t2[x].0 == kk;
                    assert(t[x].0 == kk);
                }
                if has_row(t, kk) {
                    let x = choose|x: int| 0 <= x < t.len() && #[trigger] t[x].0 == kk;
                    assert(t2[x].0 == kk);
                }
            }
            assert(has_row(t, k));
            assert forall|x: int| 0 <= x < t2.len() implies (#[trigger] t2[x]).1.to_multiset() == backlinks_to(
                pairs,
                t2[x].0,
            ).to_multiset() by {
                if x == m {
                    assert(backlinks_to(pairs, k) == backlinks_to(front, k).push(b));
                } else {
                    assert(t2[x] == t[x]);
                    assert(t[x].0 != k);
                    assert(backlinks_to(pairs, t[x].0) == backlinks_to(front, t[x].0));
                }
            }
        },
        None => {
            assert(t2 == t.push((k, seq![b])));
            assert forall|a: int, c: int| 0 <= a < c < t2.len() implies t2[a].0 != t2[c].0 by {
                assert(t2[a].0 == t[a].0);
                if c < t.len() {
                    assert(t2[c].0 == t[c].0);
                }
            }
            assert(!has_row(t, k));
            assert forall|i: int| 0 <= i < front.len() implies (#[trigger] front[i]).0 != k by {
                if front[i].0 == k {
                    assert(names_target(front, k));
                }
            }
            lemma_no_backlinks_to(front, k);
            assert forall|kk: Seq<char>| #[trigger] has_row(t2, kk) <==> (has_row(t, kk) || kk == k) by {
                if has_row(t2, kk) {
                    let x = choose|x: int| 0 <= x < t2.len() && #[trigger] t2[x].0 == kk;
                    if x < t.len() {
                        assert(t[x].0 == kk);
                    }
                }
                if has_row(t, kk) {
                    let x = choose|x: int| 0 <= x < t.len() && #[trigger] t[x].0 == kk;
                    assert(t2[x].0 == kk);
                }
                if kk == k {
                    assert(t2[t.len() as int].0 == k);
                }
            }
            assert forall|x: int| 0 <= x < t2.len() implies (#[trigger] t2[x]).1.to_multiset() == backlinks_to(
                pairs,
                t2[x].0,
            ).to_multiset() by {
                if x == t.len() {
                    assert(backlinks_to(pairs, k) == Seq::<BacklinkView>::empty().push(b));
                    assert(seq![b] =~= Seq::<BacklinkView>::empty().push(b));
                } else {
                    assert(t2[x] == t[x]);
                    assert(t[x].0 != k);
                    assert(backlinks_to(pairs, t[x].0) == backlinks_to(front, t[x].0));
                }
            }
        },
    }
}

proof fn lemma_insert_pos(list: Seq<BacklinkView>, x: BacklinkView)
    ensures
        0 <= insert_pos(list, x) <= list.len(),
        forall|i: int| insert_pos(list, x) <= i < list.len() ==> backlink_lt(x, #[trigger] list[i]) || !sorted_backlinks(list),
        insert_pos(list, x) > 0 ==> !backlink_lt(x, list[insert_pos(list, x) - 1]),
    decreases list.len(),
{
    if list.len() > 0 && backlink_lt(x, list.last()) {
        let d = list.drop_last();
        lemma_insert_pos(d, x);
        assert forall|i: int| insert_pos(list, x) <= i < list.len() implies backlink_lt(x, #[trigger] list[i]) || !sorted_backlinks(list) by {
            if i < list.len() - 1 {
                assert(list[i] == d[i]);
                if !sorted_backlinks(d) {
                    let (a, c) = choose|a: int, c: int| 0 <= a < c < d.len() && backlink_lt(d[c], d[a]);
                    assert(backlink_lt(list[c], list[a]));
                }
            }
        }
        if insert_pos(list, x) > 0 {
            assert(d[insert_pos(list, x) - 1] == list[insert_pos(list, x) - 1]);
        }
    }
}

proof fn lemma_backlink_lt_facts(a: BacklinkView, b: BacklinkView, c: BacklinkView)
    ensures
        backlink_lt(a, b) && backlink_lt(b, c) ==> backlink_lt(a, c),
        !backlink_lt(a, b) ==> (backlink_lt(b, a) || (a.1 == b.1 && a.0 == b.0)),
        !(backlink_lt(a, b) && backlink_lt(b, a)),
{
    crate::text::lemma_lex_lt_total(a.1, b.1);
    crate::text::lemma_lex_lt_total(a.0, b.0);
    if backlink_lt(a, b) && backlink_lt(b, c) {
        if lex_lt(a.1, b.1) && lex_lt(b.1, c.1) {
            crate::text::lemma_lex_lt_transitive(a.1, b.1, c.1);
        } else if lex_lt(a.0, b.0) && lex_lt(b.0, c.0) && a.1 == b.1 && b.1 == c.1 {
            crate::text::lemma_lex_lt_transitive(a.0, b.0, c.0);
        }
    }
}

proof fn lemma_insert_sorted(list: Seq<BacklinkView>, x: BacklinkView)
    requires
        sorted_backlinks(list),
    ensures
        sorted_backlinks(insert_sorted_spec(list, x)),
{
    lemma_insert_pos(list, x);
    let p = insert_pos(list, x);
    let r = insert_sorted_spec(list, x);
    assert forall|i: int, j: int| 0 <= i < j < r.len() implies !backlink_lt(r[j], r[i]) by {
        if j < p {
            assert(r[i] == list[i] && r[j] == list[j]);
        } else if j == p {
            assert(r[i] == list[i] && r[j] == x);
            assert(!backlink_lt(x, list[p - 1]));
            if i < p - 1 {
                assert(!backlink_lt(list[p - 1], list[i]));
                lemma_backlink_lt_facts(x, list[i], list[p - 1]);
                lemma_backlink_lt_facts(list[i], list[p - 1], x);
                lemma_backlink_lt_facts(x, list[p - 1], list[i]);
                lemma_backlink_lt_facts(list[p - 1], list[i], x);
            }
        } else if i < p {
            assert(r[i] == list[i] && r[j] == list[j - 1]);
        } else if i == p {
            assert(r[j] == list[j - 1]);
            assert(backlink_lt(x, list[j - 1]));
            lemma_backlink_lt_facts(x, list[j - 1], x);
        } else {
            assert(r[i] == list[i - 1] && r[j] == list[j - 1]);
        }
    }
}

} // verus!
