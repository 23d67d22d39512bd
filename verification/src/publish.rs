//! The decisions a whole-book build makes between reading the vault and
//! writing the site: what is left out, what each page is listed as, what
//! output is stale, and what must be written again.

use vstd::prelude::*;

use crate::document::ProcessedDoc;
use crate::kinds::{publishes, publishes_spec};
use crate::links::opt_view;
use crate::renderer::{entry_tree, entry_trees, EntrySummary, EntryTree};
use crate::slug::string_views;
use crate::text::str_eq;

verus! {

/// A document that could not be turned into a page.
#[derive(Debug, Clone)]
pub struct DocFailure {
    pub rel_path: String,
    pub error: String,
}

/// The documents the book leaves out: those whose `@kind` the configured
/// rules do not publish, in vault order.
pub open spec fn unpublished_spec(parsed: Seq<(String, Option<String>)>, rules: Seq<Seq<char>>) -> Seq<Seq<char>>
    decreases parsed.len(),
{
    if parsed.len() == 0 {
        Seq::empty()
    } else {
        let prev = unpublished_spec(parsed.drop_last(), rules);
        if !publishes_spec(opt_view(parsed.last().1), rules) {
            prev.push(parsed.last().0@)
        } else {
            prev
        }
    }
}

/// Of the documents that parsed, given as path and `@kind`, the ones the
/// book does not publish. A document that did not parse is reported as a
/// failure rather than left out, so it is not listed here.
pub fn unpublished_docs(parsed: &Vec<(String, Option<String>)>, rules: &Vec<String>) -> (r: Vec<String>)
    ensures
        string_views(r@) == unpublished_spec(parsed@, string_views(rules@)),
{
    let mut out: Vec<String> = Vec::new();
    let mut i: usize = 0;
    assert(string_views(out@) =~= Seq::<Seq<char>>::empty());
    while i < parsed.len()
        invariant
            i <= parsed@.len(),
            string_views(out@) == unpublished_spec(parsed@.take(i as int), string_views(rules@)),
        decreases parsed@.len() - i,
    {
        assert(parsed@.take(i + 1).drop_last() =~= parsed@.take(i as int));
        assert(parsed@.take(i + 1).last() == parsed@[i as int]);
        let kind: Option<&str> = match &parsed[i].1 {
            Some(k) => Some(k.as_str()),
            None => None,
        };
        assert(string_views(rules@) =~= rules@.map_values(|s: String| s@));
        if !publishes(kind, rules.as_slice()) {
            let ghost before = out@;
            let p = parsed[i].0.as_str().to_owned();
            out.push(p);
            assert(string_views(out@) =~= string_views(before).push(p@));
        }
        i = i + 1;
    }
    assert(parsed@.take(parsed@.len() as int) =~= parsed@);
    out
}

/// The catalog line of a page: where it is and what it is called.
pub open spec fn page_entry_spec(d: ProcessedDoc, prefix: Seq<char>) -> EntryTree {
    EntryTree { url: prefix + "/"@ + d.slug@, title: d.title@, section: opt_view(d.section), children: Seq::empty() }
}

fn page_entry(d: &ProcessedDoc, prefix: &str) -> (r: EntrySummary)
    ensures
        entry_tree(r) == page_entry_spec(*d, prefix@),
{
    let mut url = prefix.to_owned();
    url.push_str("/");
    url.push_str(d.slug.as_str());
    let section = match &d.section {
        Some(s) => Some(s.as_str().to_owned()),
        None => None,
    };
    let r = EntrySummary { url, title: d.title.as_str().to_owned(), section, children: Vec::new() };
    assert(entry_trees(r.children@) =~= Seq::<EntryTree>::empty());
    r
}

/// A catalog line for each page, in order.
pub fn page_entries(docs: &Vec<ProcessedDoc>, prefix: &str) -> (r: Vec<EntrySummary>)
    ensures
        r@.len() == docs@.len(),
        forall|i: int| 0 <= i < docs@.len() ==> #[trigger] entry_tree(r@[i]) == page_entry_spec(docs@[i], prefix@),
{
    let mut out: Vec<EntrySummary> = Vec::new();
    let mut i: usize = 0;
    while i < docs.len()
        invariant
            i <= docs@.len(),
            out@.len() == i,
            forall|k: int| 0 <= k < i ==> #[trigger] entry_tree(out@[k]) == page_entry_spec(docs@[k], prefix@),
        decreases docs@.len() - i,
    {
        out.push(page_entry(&docs[i], prefix));
        i = i + 1;
    }
    out
}

/// Each page's catalog line under its slug, for arranging a written index.
pub fn entries_by_slug(docs: &Vec<ProcessedDoc>, prefix: &str) -> (r: Vec<(String, EntrySummary)>)
    ensures
        r@.len() == docs@.len(),
        forall|i: int|
            0 <= i < docs@.len() ==> #[trigger] r@[i].0@ == docs@[i].slug@ && entry_tree(r@[i].1) == page_entry_spec(
                docs@[i],
                prefix@,
            ),
{
    let mut out: Vec<(String, EntrySummary)> = Vec::new();
    let mut i: usize = 0;
    while i < docs.len()
        invariant
            i <= docs@.len(),
            out@.len() == i,
            forall|k: int|
                0 <= k < i ==> #[trigger] out@[k].0@ == docs@[k].slug@ && entry_tree(out@[k].1) == page_entry_spec(
                    docs@[k],
                    prefix@,
                ),
        decreases docs@.len() - i,
    {
        out.push((docs[i].slug.as_str().to_owned(), page_entry(&docs[i], prefix)));
        i = i + 1;
    }
    out
}

/// The link-side icon of each page that has one, under its slug; nothing
/// when note icons are switched off.
pub open spec fn note_icons_spec(docs: Seq<ProcessedDoc>, enabled: bool) -> Seq<(Seq<char>, Seq<char>)>
    decreases docs.len(),
{
    if !enabled || docs.len() == 0 {
        Seq::empty()
    } else {
        let prev = note_icons_spec(docs.drop_last(), enabled);
        match docs.last().link_icon {
            Some(icon) => prev.push((docs.last().slug@, icon@)),
            None => prev,
        }
    }
}

pub open spec fn pair_views(v: Seq<(String, String)>) -> Seq<(Seq<char>, Seq<char>)> {
    v.map_values(|p: (String, String)| (p.0@, p.1@))
}

/// Collect the icons that decorate links to each page.
pub fn note_icons(docs: &Vec<ProcessedDoc>, enabled: bool) -> (r: Vec<(String, String)>)
    ensures
        pair_views(r@) == note_icons_spec(docs@, enabled),
{
    let mut out: Vec<(String, String)> = Vec::new();
    if !enabled {
        assert(pair_views(out@) =~= Seq::<(Seq<char>, Seq<char>)>::empty());
        return out;
    }
    let mut i: usize = 0;
    assert(pair_views(out@) =~= Seq::<(Seq<char>, Seq<char>)>::empty());
    while i < docs.len()
        invariant
            enabled,
            i <= docs@.len(),
            pair_views(out@) == note_icons_spec(docs@.take(i as int), enabled),
        decreases docs@.len() - i,
    {
        assert(docs@.take(i + 1).drop_last() =~= docs@.take(i as int));
        assert(docs@.take(i + 1).last() == docs@[i as int]);
        match &docs[i].link_icon {
            Some(icon) => {
                let ghost before = out@;
                let p = (docs[i].slug.as_str().to_owned(), icon.as_str().to_owned());
                out.push(p);
                assert(pair_views(out@) =~= pair_views(before).push((p.0@, p.1@)));
            },
            None => {},
        }
        i = i + 1;
    }
    assert(docs@.take(docs@.len() as int) =~= docs@);
    out
}

/// What the last build wrote that this one does not, in the last build's order.
pub open spec fn stale_spec(previous: Seq<Seq<char>>, current: Seq<Seq<char>>) -> Seq<Seq<char>>
    decreases previous.len(),
{
    if previous.len() == 0 {
        Seq::empty()
    } else {
        let prev = stale_spec(previous.drop_last(), current);
        if current.contains(previous.last()) {
            prev
        } else {
            prev.push(previous.last())
        }
    }
}

fn contains_string(v: &Vec<String>, s: &str) -> (r: bool)
    ensures
        r == string_views(v@).contains(s@),
{
    let ghost vs = string_views(v@);
    let mut i: usize = 0;
    while i < v.len()
        invariant
            i <= v@.len(),
            vs == string_views(v@),
            forall|k: int| 0 <= k < i ==> vs[k] != s@,
        decreases v@.len() - i,
    {
        if str_eq(v[i].as_str(), s) {
            assert(vs[i as int] == s@);
            return true;
        }
        i = i + 1;
    }
    false
}

/// The entries of `previous` that `current` no longer has.
pub fn stale_items(previous: &Vec<String>, current: &Vec<String>) -> (r: Vec<String>)
    ensures
        string_views(r@) == stale_spec(string_views(previous@), string_views(current@)),
{
    let ghost cur = string_views(current@);
    let ghost pv = string_views(previous@);
    let mut out: Vec<String> = Vec::new();
    let mut i: usize = 0;
    assert(pv.take(0) =~= Seq::<Seq<char>>::empty());
    assert(string_views(out@) =~= Seq::<Seq<char>>::empty());
    while i < previous.len()
        invariant
            i <= previous@.len(),
            pv == string_views(previous@),
            cur == string_views(current@),
            string_views(out@) == stale_spec(pv.take(i as int), cur),
        decreases previous@.len() - i,
    {
        assert(pv.take(i + 1).drop_last() =~= pv.take(i as int));
        assert(pv.take(i + 1).last() == previous@[i as int]@);
        if !contains_string(current, previous[i].as_str()) {
            let ghost before = out@;
            let p = previous[i].as_str().to_owned();
            out.push(p);
            assert(string_views(out@) =~= string_views(before).push(p@));
        }
        i = i + 1;
    }
    assert(pv.take(previous@.len() as int) =~= pv);
    out
}

/// What a build prunes is exactly what it dropped: an item a previous build
/// wrote is stale when, and only when, this build no longer has it, and the
/// stale items keep the previous build's order.
pub proof fn lemma_stale_is_what_the_build_dropped(previous: Seq<Seq<char>>, current: Seq<Seq<char>>)
    ensures
        stale_spec(previous, current) == previous.filter(|x: Seq<char>| !current.contains(x)),
        forall|x: Seq<char>|
            #[trigger] stale_spec(previous, current).contains(x) <==> (previous.contains(x) && !current.contains(x)),
    decreases previous.len(),
{
    reveal(Seq::filter);
    if previous.len() > 0 {
        let d = previous.drop_last();
        let last = previous.last();
        lemma_stale_is_what_the_build_dropped(d, current);
        let r = stale_spec(previous, current);
        assert forall|x: Seq<char>| #[trigger] r.contains(x) <==> (previous.contains(x) && !current.contains(x)) by {
            if previous.contains(x) && !current.contains(x) {
                let j = choose|j: int| 0 <= j < previous.len() && previous[j] == x;
                if j < d.len() {
                    assert(d[j] == x);
                    assert(stale_spec(d, current).contains(x));
                    let m = choose|m: int| 0 <= m < stale_spec(d, current).len() && stale_spec(d, current)[m] == x;
                    assert(r[m] == x);
                } else {
                    assert(r[r.len() - 1] == x);
                }
            }
            if r.contains(x) {
                let m = choose|m: int| 0 <= m < r.len() && r[m] == x;
                if m < stale_spec(d, current).len() {
                    assert(stale_spec(d, current)[m] == x);
                    assert(stale_spec(d, current).contains(x));
                    let j = choose|j: int| 0 <= j < d.len() && d[j] == x;
                    assert(previous[j] == x);
                } else {
                    assert(x == last);
                    assert(previous[previous.len() - 1] == x);
                }
            }
        }
    } else {
        assert(stale_spec(previous, current) =~= Seq::<Seq<char>>::empty());
    }
}

/// The root page that sends a reader on to the book.
pub open spec fn redirect_spec(lang: Seq<char>, prefix: Seq<char>) -> Seq<char> {
    "<!doctype html><html lang=\""@ + lang + "\" data-pagefind-ignore><head><meta charset=\"utf-8\"><title>Redirecting to: "@
        + prefix + "</title><meta http-equiv=\"refresh\" content=\"0;url="@ + prefix + "\"><link rel=\"canonical\" href=\""@
        + prefix + "\"></head><body><a href=\""@ + prefix + "\">Redirecting to "@ + prefix + "</a></body></html>"@
}

/// Render the root redirect page.
pub fn redirect_html(lang: &str, prefix: &str) -> (r: String)
    ensures
        r@ == redirect_spec(lang@, prefix@),
{
    let mut out = String::new();
    out.push_str("<!doctype html><html lang=\"");
    out.push_str(lang);
    out.push_str("\" data-pagefind-ignore><head><meta charset=\"utf-8\"><title>Redirecting to: ");
    out.push_str(prefix);
    out.push_str("</title><meta http-equiv=\"refresh\" content=\"0;url=");
    out.push_str(prefix);
    out.push_str("\"><link rel=\"canonical\" href=\"");
    out.push_str(prefix);
    out.push_str("\"></head><body><a href=\"");
    out.push_str(prefix);
    out.push_str("\">Redirecting to ");
    out.push_str(prefix);
    out.push_str("</a></body></html>");
    out
}

/// Whether a file must be written: unless it already holds exactly `content`.
pub fn needs_write(existing: Option<&str>, content: &str) -> (r: bool)
    ensures
        r == !(existing matches Some(e) && e@ == content@),
{
    match existing {
        Some(e) => !str_eq(e, content),
        None => true,
    }
}

/// Whether the Pagefind index must be built again: when any page, the
/// catalog or the redirect was written or a page pruned, or there is no
/// index yet.
pub fn pagefind_needed(
    written: usize,
    catalog_written: bool,
    redirect_written: bool,
    pruned_pages: usize,
    index_missing: bool,
) -> (r: bool)
    ensures
        r == (written > 0 || catalog_written || redirect_written || pruned_pages > 0 || index_missing),
{
    written > 0 || catalog_written || redirect_written || pruned_pages > 0 || index_missing
}

/// Who owns each slug after the rendered pages, in order, claim theirs:
/// the last claimant, with each slug listed once in the order first claimed.
pub open spec fn owners_spec(claims: Seq<(Seq<char>, Seq<char>)>) -> Seq<(Seq<char>, Seq<char>)>
    decreases claims.len(),
{
    if claims.len() == 0 {
        Seq::empty()
    } else {
        let prev = owners_spec(claims.drop_last());
        let (slug, rel) = claims.last();
        match owner_index(prev, slug) {
            Some(k) => prev.update(k, (slug, rel)),
            None => prev.push((slug, rel)),
        }
    }
}

/// Where `slug` stands among the owners.
pub open spec fn owner_index(owners: Seq<(Seq<char>, Seq<char>)>, slug: Seq<char>) -> Option<int>
    decreases owners.len(),
{
    if owners.len() == 0 {
        None
    } else if owners.last().0 == slug {
        Some(owners.len() - 1)
    } else {
        owner_index(owners.drop_last(), slug)
    }
}

/// Each claim of a slug already claimed, as (earlier owner, claimant, slug).
pub open spec fn collisions_spec(claims: Seq<(Seq<char>, Seq<char>)>) -> Seq<(Seq<char>, Seq<char>, Seq<char>)>
    decreases claims.len(),
{
    if claims.len() == 0 {
        Seq::empty()
    } else {
        let prev = collisions_spec(claims.drop_last());
        let owners = owners_spec(claims.drop_last());
        let (slug, rel) = claims.last();
        match owner_index(owners, slug) {
            Some(k) => prev.push((owners[k].1, rel, slug)),
            None => prev,
        }
    }
}

proof fn lemma_owner_index(owners: Seq<(Seq<char>, Seq<char>)>, slug: Seq<char>)
    ensures
        owner_index(owners, slug) matches Some(k) ==> 0 <= k < owners.len() && owners[k].0 == slug,
        owner_index(owners, slug) is None ==> forall|k: int| 0 <= k < owners.len() ==> owners[k].0 != slug,
    decreases owners.len(),
{
    if owners.len() > 0 {
        lemma_owner_index(owners.drop_last(), slug);
        if owners.last().0 != slug {
            assert forall|k: int| 0 <= k < owners.len() - 1 implies owners[k] == owners.drop_last()[k] by {}
        }
    }
}

/// The pages a build wrote and the slug collisions among them.
pub struct SlugOwners {
    /// Each slug with the page that owns it.
    pub owners: Vec<(String, String)>,
    /// (earlier owner, later claimant, slug) for each clash.
    pub collisions: Vec<(String, String, String)>,
}

pub open spec fn triple_views(v: Seq<(String, String, String)>) -> Seq<(Seq<char>, Seq<char>, Seq<char>)> {
    v.map_values(|t: (String, String, String)| (t.0@, t.1@, t.2@))
}

fn find_owner(owners: &Vec<(String, String)>, slug: &str) -> (r: Option<usize>)
    ensures
        match r {
            Some(k) => owner_index(pair_views(owners@), slug@) == Some(k as int),
            None => owner_index(pair_views(owners@), slug@) is None,
        },
{
    let ghost ov = pair_views(owners@);
    let mut i: usize = owners.len();
    assert(ov.take(ov.len() as int) =~= ov);
    while i > 0
        invariant
            i <= owners@.len(),
            ov == pair_views(owners@),
            owner_index(ov, slug@) == owner_index(ov.take(i as int), slug@),
        decreases i,
    {
        assert(ov.take(i as int).last() == ov[i - 1]);
        assert(ov.take(i as int).drop_last() =~= ov.take(i - 1));
        if str_eq(owners[i - 1].0.as_str(), slug) {
            return Some(i - 1);
        }
        i = i - 1;
    }
    assert(ov.take(0) =~= Seq::<(Seq<char>, Seq<char>)>::empty());
    None
}

/// Settle who owns each slug, given each rendered page's (slug, path) in order.
pub fn slug_owners(claims: &Vec<(String, String)>) -> (r: SlugOwners)
    ensures
        pair_views(r.owners@) == owners_spec(pair_views(claims@)),
        triple_views(r.collisions@) == collisions_spec(pair_views(claims@)),
{
    let ghost cv = pair_views(claims@);
    let mut owners: Vec<(String, String)> = Vec::new();
    let mut collisions: Vec<(String, String, String)> = Vec::new();
    let mut i: usize = 0;
    assert(cv.take(0) =~= Seq::<(Seq<char>, Seq<char>)>::empty());
    assert(pair_views(owners@) =~= Seq::<(Seq<char>, Seq<char>)>::empty());
    assert(triple_views(collisions@) =~= Seq::<(Seq<char>, Seq<char>, Seq<char>)>::empty());
    while i < claims.len()
        invariant
            i <= claims@.len(),
            cv == pair_views(claims@),
            pair_views(owners@) == owners_spec(cv.take(i as int)),
            triple_views(collisions@) == collisions_spec(cv.take(i as int)),
        decreases claims@.len() - i,
    {
        assert(cv.take(i + 1).drop_last() =~= cv.take(i as int));
        assert(cv.take(i + 1).last() == cv[i as int]);
        let slug = claims[i].0.as_str();
        let rel = claims[i].1.as_str();
        let ghost ov = pair_views(owners@);
        match find_owner(&owners, slug) {
            Some(k) => {
                proof {
                    lemma_owner_index(ov, slug@);
                }
                let ghost cbefore = collisions@;
                let t = (owners[k].1.as_str().to_owned(), rel.to_owned(), slug.to_owned());
                collisions.push(t);
                assert(triple_views(collisions@) =~= triple_views(cbefore).push((t.0@, t.1@, t.2@)));
                let ghost obefore = owners@;
                let p = (slug.to_owned(), rel.to_owned());
                owners.set(k, p);
                assert(pair_views(owners@) =~= pair_views(obefore).update(k as int, (p.0@, p.1@)));
            },
            None => {
                let ghost obefore = owners@;
                let p = (slug.to_owned(), rel.to_owned());
                owners.push(p);
                assert(pair_views(owners@) =~= pair_views(obefore).push((p.0@, p.1@)));
            },
        }
        i = i + 1;
    }
    assert(cv.take(claims@.len() as int) =~= cv);
    SlugOwners { owners, collisions }
}

/// After the pages claim their slugs, each slug has one owner, the last
/// page that claimed it; every claimed slug is owned; and each claim that
/// did not make a new owner is reported as a collision.
pub proof fn lemma_each_slug_has_its_last_claimant(claims: Seq<(Seq<char>, Seq<char>)>)
    ensures
        forall|a: int, b: int|
            0 <= a < b < owners_spec(claims).len() ==> #[trigger] owners_spec(claims)[a].0 != #[trigger] owners_spec(
                claims,
            )[b].0,
        forall|i: int| 0 <= i < claims.len() ==> #[trigger] owner_index(owners_spec(claims), claims[i].0) is Some,
        forall|k: int|
            0 <= k < owners_spec(claims).len() ==> exists|i: int|
                0 <= i < claims.len() && claims[i] == #[trigger] owners_spec(claims)[k] && forall|j: int|
                    i < j < claims.len() ==> claims[j].0 != claims[i].0,
        collisions_spec(claims).len() + owners_spec(claims).len() == claims.len(),
    decreases claims.len(),
{
    if claims.len() > 0 {
        let pc = claims.drop_last();
        lemma_each_slug_has_its_last_claimant(pc);
        let prev = owners_spec(pc);
        let (slug, rel) = claims.last();
        let cur = owners_spec(claims);
        lemma_owner_index(prev, slug);
        let n = claims.len() - 1;
        assert forall|i: int| 0 <= i < claims.len() implies #[trigger] owner_index(cur, claims[i].0) is Some by {
            lemma_owner_index(cur, claims[i].0);
            if owner_index(cur, claims[i].0) is None {
                if i < n {
                    assert(claims[i] == pc[i]);
                    lemma_owner_index(prev, pc[i].0);
                    let k = owner_index(prev, pc[i].0).unwrap();
                    assert(cur[k].0 == prev[k].0);
                } else {
                    match owner_index(prev, slug) {
                        Some(k) => {
                            assert(cur[k].0 == slug);
                        },
                        None => {
                            assert(cur[prev.len() as int].0 == slug);
                        },
                    }
                }
            }
        }
        assert forall|k: int| 0 <= k < cur.len() implies exists|i: int|
            0 <= i < claims.len() && claims[i] == #[trigger] cur[k] && forall|j: int|
                i < j < claims.len() ==> claims[j].0 != claims[i].0 by {
            if cur[k] == (slug, rel) {
                assert(claims[n] == cur[k]);
            } else {
                assert(k < prev.len());
                assert(cur[k] == prev[k]);
                let i = choose|i: int|
                    0 <= i < pc.len() && pc[i] == #[trigger] prev[k] && forall|j: int|
                        i < j < pc.len() ==> pc[j].0 != pc[i].0;
                assert(claims[i] == pc[i]);
                assert forall|j: int| i < j < claims.len() implies claims[j].0 != claims[i].0 by {
                    if j == n {
                        match owner_index(prev, slug) {
                            Some(kk) => {
                                if kk == k {
                                    assert(cur[k] == (slug, rel));
                                } else {
                                    assert(prev[kk].0 == slug);
                                    assert(prev[k].0 != prev[kk].0);
                                }
                            },
                            None => {
                                assert(prev[k].0 != slug);
                            },
                        }
                    } else {
                        assert(claims[j] == pc[j]);
                    }
                }
            }
        }
    }
}

} // verus!

verus! {

/// What becomes of a scanned document in a build.
#[derive(Debug, Clone, Copy, PartialEq, Eq, Structural)]
pub enum DocRoute {
    /// It parsed and its kind is published: it is rendered.
    Process,
    /// It did not parse: it is reported as a failure.
    ParseFailure,
    /// It parsed but its kind is not published: it is left out.
    LeftOut,
}

/// The route of one document, from how parsing went: its `@kind` when it
/// parsed, `None` when it did not.
pub open spec fn route_spec(parse: Option<Option<String>>, rules: Seq<Seq<char>>) -> DocRoute {
    match parse {
        None => DocRoute::ParseFailure,
        Some(kind) => if publishes_spec(opt_view(kind), rules) {
            DocRoute::Process
        } else {
            DocRoute::LeftOut
        },
    }
}

/// The positions of the documents on `route`, in vault order.
pub open spec fn routed(docs: Seq<(String, Option<Option<String>>)>, rules: Seq<Seq<char>>, route: DocRoute) -> Seq<int>
    decreases docs.len(),
{
    if docs.len() == 0 {
        Seq::empty()
    } else {
        let prev = routed(docs.drop_last(), rules, route);
        if route_spec(docs.last().1, rules) == route {
            prev.push(docs.len() - 1)
        } else {
            prev
        }
    }
}

/// The positions of the documents the build takes on (those to render and
/// those that failed to parse), in vault order: every document that is not
/// left out.
pub open spec fn taken_spec(docs: Seq<(String, Option<Option<String>>)>, rules: Seq<Seq<char>>) -> Seq<int>
    decreases docs.len(),
{
    if docs.len() == 0 {
        Seq::empty()
    } else {
        let prev = taken_spec(docs.drop_last(), rules);
        if route_spec(docs.last().1, rules) != DocRoute::LeftOut {
            prev.push(docs.len() - 1)
        } else {
            prev
        }
    }
}

/// What a build does with the scanned documents: the positions to render,
/// the positions that failed to parse, both together in vault order (one
/// outcome each), and the paths it leaves out.
#[derive(Debug)]
pub struct BuildPlan {
    pub process: Vec<usize>,
    pub parse_failures: Vec<usize>,
    pub taken: Vec<usize>,
    pub unpublished: Vec<String>,
}

pub open spec fn positions(v: Seq<usize>) -> Seq<int> {
    v.map_values(|i: usize| i as int)
}

/// Sort the scanned documents, each with its path and how parsing went, by
/// what the build does with them.
pub fn plan_build(docs: &Vec<(String, Option<Option<String>>)>, rules: &Vec<String>) -> (r: BuildPlan)
    ensures
        positions(r.process@) == routed(docs@, string_views(rules@), DocRoute::Process),
        positions(r.parse_failures@) == routed(docs@, string_views(rules@), DocRoute::ParseFailure),
        positions(r.taken@) == taken_spec(docs@, string_views(rules@)),
        string_views(r.unpublished@) == routed(docs@, string_views(rules@), DocRoute::LeftOut).map_values(
            |i: int| docs@[i].0@,
        ),
{
    let ghost rs = string_views(rules@);
    let mut process: Vec<usize> = Vec::new();
    let mut failed: Vec<usize> = Vec::new();
    let mut taken: Vec<usize> = Vec::new();
    let mut left: Vec<String> = Vec::new();
    let mut i: usize = 0;
    assert(positions(process@) =~= Seq::<int>::empty());
    assert(positions(failed@) =~= Seq::<int>::empty());
    assert(positions(taken@) =~= Seq::<int>::empty());
    assert(string_views(left@) =~= Seq::<Seq<char>>::empty());
    while i < docs.len()
        invariant
            i <= docs@.len(),
            rs == string_views(rules@),
            positions(process@) == routed(docs@.take(i as int), rs, DocRoute::Process),
            positions(failed@) == routed(docs@.take(i as int), rs, DocRoute::ParseFailure),
            positions(taken@) == taken_spec(docs@.take(i as int), rs),
            string_views(left@) == routed(docs@.take(i as int), rs, DocRoute::LeftOut).map_values(
                |k: int| docs@[k].0@,
            ),
            forall|k: int|
                0 <= k < routed(docs@.take(i as int), rs, DocRoute::LeftOut).len() ==> 0 <= #[trigger] routed(
                    docs@.take(i as int),
                    rs,
                    DocRoute::LeftOut,
                )[k] < i,
        decreases docs@.len() - i,
    {
        let ghost t = docs@.take(i + 1);
        assert(t.drop_last() =~= docs@.take(i as int));
        assert(t.last() == docs@[i as int]);
        let ghost lo = routed(docs@.take(i as int), rs, DocRoute::LeftOut);
        match &docs[i].1 {
            None => {
                failed.push(i);
                taken.push(i);
                assert(positions(failed@) =~= routed(docs@.take(i as int), rs, DocRoute::ParseFailure).push(i as int));
                assert(positions(taken@) =~= taken_spec(docs@.take(i as int), rs).push(i as int));
            },
            Some(kind) => {
                let k: Option<&str> = match kind {
                    Some(k) => Some(k.as_str()),
                    None => None,
                };
                assert(rs =~= rules@.map_values(|s: String| s@));
                if publishes(k, rules.as_slice()) {
                    process.push(i);
                    taken.push(i);
                    assert(positions(process@) =~= routed(docs@.take(i as int), rs, DocRoute::Process).push(i as int));
                    assert(positions(taken@) =~= taken_spec(docs@.take(i as int), rs).push(i as int));
                } else {
                    let ghost bv = string_views(left@);
                    left.push(docs[i].0.clone());
                    assert(string_views(left@) =~= bv.push(docs@[i as int].0@));
                    assert(lo.push(i as int).map_values(|k: int| docs@[k].0@) =~= lo.map_values(|k: int| docs@[k].0@).push(
                        docs@[i as int].0@,
                    ));
                }
            },
        }
        i = i + 1;
    }
    assert(docs@.take(docs@.len() as int) =~= docs@);
    BuildPlan { process, parse_failures: failed, taken, unpublished: left }
}

/// Every scanned document takes exactly one route: the rendered, the
/// failed and the left-out together are all of them, each once. The
/// documents taken on are exactly those not left out: as many as the
/// rendered and the failed, and none of them left out.
pub proof fn lemma_every_document_takes_one_route(docs: Seq<(String, Option<Option<String>>)>, rules: Seq<Seq<char>>)
    ensures
        routed(docs, rules, DocRoute::Process).len() + routed(docs, rules, DocRoute::ParseFailure).len() + routed(
            docs,
            rules,
            DocRoute::LeftOut,
        ).len() == docs.len(),
        taken_spec(docs, rules).len() == routed(docs, rules, DocRoute::Process).len() + routed(
            docs,
            rules,
            DocRoute::ParseFailure,
        ).len(),
        forall|route: DocRoute, k: int|
            0 <= k < routed(docs, rules, route).len() ==> {
                let i = #[trigger] routed(docs, rules, route)[k];
                0 <= i < docs.len() && route_spec(docs[i].1, rules) == route
            },
        forall|k: int|
            0 <= k < taken_spec(docs, rules).len() ==> {
                let i = #[trigger] taken_spec(docs, rules)[k];
                0 <= i < docs.len() && route_spec(docs[i].1, rules) != DocRoute::LeftOut
            },
    decreases docs.len(),
{
    if docs.len() > 0 {
        let d = docs.drop_last();
        lemma_every_document_takes_one_route(d, rules);
        assert forall|route: DocRoute, k: int| 0 <= k < routed(docs, rules, route).len() implies {
            let i = #[trigger] routed(docs, rules, route)[k];
            0 <= i < docs.len() && route_spec(docs[i].1, rules) == route
        } by {
            let prev = routed(d, rules, route);
            if k < prev.len() {
                assert(routed(docs, rules, route)[k] == prev[k]);
                assert(docs[prev[k]] == d[prev[k]]);
            } else {
                assert(docs.last() == docs[docs.len() - 1]);
            }
        }
        assert forall|k: int| 0 <= k < taken_spec(docs, rules).len() implies {
            let i = #[trigger] taken_spec(docs, rules)[k];
            0 <= i < docs.len() && route_spec(docs[i].1, rules) != DocRoute::LeftOut
        } by {
            let prev = taken_spec(d, rules);
            if k < prev.len() {
                assert(taken_spec(docs, rules)[k] == prev[k]);
                assert(docs[prev[k]] == d[prev[k]]);
            } else {
                assert(docs.last() == docs[docs.len() - 1]);
            }
        }
    }
}

/// The values of the outcomes that succeeded, in order.
pub open spec fn succeeded<T>(outcomes: Seq<Result<T, DocFailure>>) -> Seq<T>
    decreases outcomes.len(),
{
    if outcomes.len() == 0 {
        Seq::empty()
    } else {
        match outcomes.last() {
            Ok(d) => succeeded(outcomes.drop_last()).push(d),
            Err(_) => succeeded(outcomes.drop_last()),
        }
    }
}

/// The failures among the outcomes, in order.
pub open spec fn failed<T>(outcomes: Seq<Result<T, DocFailure>>) -> Seq<DocFailure>
    decreases outcomes.len(),
{
    if outcomes.len() == 0 {
        Seq::empty()
    } else {
        match outcomes.last() {
            Ok(_) => failed(outcomes.drop_last()),
            Err(f) => failed(outcomes.drop_last()).push(f),
        }
    }
}

/// Every outcome is a success or a failure, never both.
pub proof fn lemma_outcomes_split<T>(outcomes: Seq<Result<T, DocFailure>>)
    ensures
        succeeded(outcomes).len() + failed(outcomes).len() == outcomes.len(),
    decreases outcomes.len(),
{
    if outcomes.len() > 0 {
        lemma_outcomes_split(outcomes.drop_last());
    }
}

/// Split the outcomes of a stage of the build into what succeeded and the
/// failures reported, each in order; there are as many of the two together
/// as outcomes.
pub fn settle_outcomes<T>(outcomes: Vec<Result<T, DocFailure>>) -> (r: (Vec<T>, Vec<DocFailure>))
    ensures
        r.0@ == succeeded(outcomes@),
        r.1@ == failed(outcomes@),
        r.0@.len() + r.1@.len() == outcomes@.len(),
{
    let ghost orig = outcomes@;
    let n = outcomes.len();
    let mut rest = outcomes;
    let mut rev: Vec<Result<T, DocFailure>> = Vec::new();
    while rest.len() > 0
        invariant
            rest@.len() + rev@.len() == n,
            n == orig.len(),
            rest@ == orig.take(rest@.len() as int),
            forall|k: int| 0 <= k < rev@.len() ==> #[trigger] rev@[k] == orig[n - 1 - k],
        decreases rest@.len(),
    {
        let x = rest.pop().unwrap();
        assert(x == orig[rest@.len() as int]);
        assert(rest@ =~= orig.take(rest@.len() as int));
        rev.push(x);
    }
    let mut oks: Vec<T> = Vec::new();
    let mut fails: Vec<DocFailure> = Vec::new();
    assert(orig.take(0) =~= Seq::<Result<T, DocFailure>>::empty());
    while rev.len() > 0
        invariant
            rev@.len() <= n,
            n == orig.len(),
            forall|k: int| 0 <= k < rev@.len() ==> #[trigger] rev@[k] == orig[n - 1 - k],
            oks@ == succeeded(orig.take(n - rev@.len())),
            fails@ == failed(orig.take(n - rev@.len())),
        decreases rev@.len(),
    {
        let ghost c = n - rev@.len();
        let x = rev.pop().unwrap();
        assert(x == orig[c]);
        assert(orig.take(c + 1).drop_last() =~= orig.take(c));
        assert(orig.take(c + 1).last() == orig[c]);
        match x {
            Ok(d) => oks.push(d),
            Err(f) => fails.push(f),
        }
    }
    assert(orig.take(n as int) =~= orig);
    proof {
        lemma_outcomes_split(orig);
    }
    (oks, fails)
}

/// Every published document is rendered or reported as a failure, and no
/// left-out document is taken on. The build takes on the planned documents
/// (`taken_spec`), one processing outcome each; then it writes a page for
/// every processed document, one writing outcome each. The pages written
/// and the failures of both stages together number the scanned documents
/// less the left-out ones, and no document taken on is a left-out one.
pub proof fn lemma_build_accounts_for_every_document<P, W>(
    docs: Seq<(String, Option<Option<String>>)>,
    rules: Seq<Seq<char>>,
    processed: Seq<Result<P, DocFailure>>,
    written: Seq<Result<W, DocFailure>>,
)
    requires
        processed.len() == taken_spec(docs, rules).len(),
        written.len() == succeeded(processed).len(),
    ensures
        succeeded(written).len() + failed(processed).len() + failed(written).len() == docs.len() - routed(
            docs,
            rules,
            DocRoute::LeftOut,
        ).len(),
        forall|k: int|
            0 <= k < processed.len() ==> route_spec(docs[#[trigger] taken_spec(docs, rules)[k]].1, rules)
                != DocRoute::LeftOut,
{
    lemma_every_document_takes_one_route(docs, rules);
    lemma_outcomes_split(processed);
    lemma_outcomes_split(written);
}

} // verus!
