use tmtbook::catalog::IndexEntry;
use tmtbook::renderer::{arrange_entries, build_backlink_index, Backlink, EntrySummary, PageLinks};

fn doc(slug: &str, title: &str, section: Option<&str>, outgoing: &[&str]) -> PageLinks {
    PageLinks {
        slug: slug.to_string(),
        title: title.to_string(),
        section: section.map(str::to_string),
        outgoing: outgoing.iter().map(|s| s.to_string()).collect(),
    }
}

fn summary(slug: &str, title: &str) -> EntrySummary {
    EntrySummary { url: format!("/wiki/{slug}"), title: title.to_string(), section: None, children: Vec::new() }
}

fn listed(slugs: &[(&str, &[&str])]) -> Vec<IndexEntry> {
    slugs
        .iter()
        .map(|(slug, kids)| IndexEntry {
            slug: slug.to_string(),
            children: kids.iter().map(|k| IndexEntry { slug: k.to_string(), children: Vec::new() }).collect(),
        })
        .collect()
}

fn rendered(slugs: &[&str]) -> Vec<(String, EntrySummary)> {
    slugs.iter().map(|s| (s.to_string(), summary(s, &s.to_uppercase()))).collect()
}

fn row<'a>(index: &'a [(String, Vec<Backlink>)], slug: &str) -> Option<&'a Vec<Backlink>> {
    index.iter().find(|(k, _)| k == slug).map(|(_, v)| v)
}

#[test]
fn the_catalog_follows_the_written_order() {
    let out = arrange_entries(&listed(&[("zebra", &[]), ("apple", &[])]), &rendered(&["apple", "zebra"]));

    let titles: Vec<&str> = out.iter().map(|e| e.title.as_str()).collect();
    assert_eq!(titles, ["ZEBRA", "APPLE"]);
}

#[test]
fn a_page_the_index_leaves_out_is_not_listed() {
    let out = arrange_entries(&listed(&[("apple", &[])]), &rendered(&["apple", "hidden"]));

    assert_eq!(out.len(), 1);
    assert_eq!(out[0].title, "APPLE");
}

#[test]
fn nesting_survives_the_lookup() {
    let out = arrange_entries(&listed(&[("guide", &["install"])]), &rendered(&["guide", "install"]));

    assert_eq!(out.len(), 1);
    assert_eq!(out[0].children.len(), 1);
    assert_eq!(out[0].children[0].title, "INSTALL");
}

#[test]
fn a_named_page_that_does_not_exist_hands_its_children_up() {
    // The index may have been written before the note, or the note may
    // have failed to render. What hung below it is still real.
    let out = arrange_entries(&listed(&[("ghost", &["install"])]), &rendered(&["install"]));

    let titles: Vec<&str> = out.iter().map(|e| e.title.as_str()).collect();
    assert_eq!(titles, ["INSTALL"]);
}

#[test]
fn backlinks_point_from_every_linking_page() {
    let a = doc("a", "Aardvark", Some("Animals"), &["hub"]);
    let b = doc("b", "Bison", None, &["hub", "a"]);
    let hub = doc("hub", "Hub", None, &[]);
    let index = build_backlink_index(&[a, b, hub], "/wiki");

    let into_hub = row(&index, "hub").unwrap();
    assert_eq!(into_hub.len(), 2);
    assert_eq!(into_hub[0].title, "Aardvark");
    assert_eq!(into_hub[0].url, "/wiki/a");
    assert_eq!(into_hub[0].section.as_deref(), Some("Animals"));
    assert_eq!(into_hub[1].title, "Bison");
    assert_eq!(into_hub[1].section, None);

    assert_eq!(row(&index, "a").unwrap().len(), 1, "b links to a");
    assert!(row(&index, "b").is_none(), "nothing links to b");
}

#[test]
fn backlinks_are_ordered_by_title_then_url() {
    // Two pages share a title; the url settles the tie.
    let z = doc("z", "Same", None, &["t"]);
    let m = doc("m", "Same", None, &["t"]);
    let first = doc("first", "Alpha", None, &["t"]);
    let index = build_backlink_index(&[z, m, first], "/wiki");

    let urls: Vec<&str> = row(&index, "t").unwrap().iter().map(|b| b.url.as_str()).collect();
    assert_eq!(urls, ["/wiki/first", "/wiki/m", "/wiki/z"]);
}

#[test]
fn a_vault_without_links_has_an_empty_index() {
    let a = doc("a", "A", None, &[]);
    assert!(build_backlink_index(&[a], "/wiki").is_empty());
}

#[test]
fn the_url_prefix_reaches_the_backlink_urls() {
    let a = doc("a", "A", None, &["b"]);
    let index = build_backlink_index(&[a], "/docs/book");
    assert_eq!(row(&index, "b").unwrap()[0].url, "/docs/book/a");
}
