use tmtbook::catalog::{collect_entries, is_control_document, is_root_index, IndexEntry, IndexItem};

fn item(target: Option<&str>, resolved: Option<&str>, children: Vec<IndexItem>) -> IndexItem {
    IndexItem { target: target.map(|s| s.to_string()), resolved: resolved.map(|s| s.to_string()), children }
}

#[test]
fn the_written_order_is_the_order_and_what_hangs_below_stays() {
    let items = vec![
        item(Some("zebra"), Some("zebra.tmt"), vec![]),
        item(Some("apple"), Some("apple.tmt"), vec![item(Some("mango"), Some("sub\\mango.tmt"), vec![])]),
        item(Some("ghost"), None, vec![item(Some("kiwi"), Some("kiwi.tmt"), vec![])]),
        item(None, None, vec![item(Some("pic"), Some("pic.png"), vec![])]),
    ];
    let (entries, unresolved) = collect_entries(&items);
    let slugs: Vec<&str> = entries.iter().map(|e| e.slug.as_str()).collect();
    assert_eq!(slugs, vec!["zebra", "apple", "kiwi"]);
    assert_eq!(entries[1].children.len(), 1);
    assert_eq!(entries[1].children[0].slug, "sub/mango");
    assert_eq!(unresolved, vec!["ghost", "pic"]);
}

/// A linked bullet whose target the vault resolved to `resolved`.
fn link(target: &str, resolved: Option<&str>, children: Vec<IndexItem>) -> IndexItem {
    item(Some(target), resolved, children)
}

fn slugs_of(entries: &[IndexEntry]) -> Vec<&str> {
    entries.iter().map(|e| e.slug.as_str()).collect()
}

#[test]
fn the_written_order_is_the_order() {
    let (entries, unresolved) = collect_entries(&vec![
        link("zebra", Some("zebra.tmt"), vec![]),
        link("apple", Some("apple.tmt"), vec![]),
        link("mango", Some("mango.tmt"), vec![]),
    ]);
    assert_eq!(slugs_of(&entries), ["zebra", "apple", "mango"]);
    assert!(unresolved.is_empty());
}

#[test]
fn nesting_is_kept() {
    let (entries, _) = collect_entries(&vec![
        link(
            "guide",
            Some("guide.tmt"),
            vec![link("install", Some("install.tmt"), vec![]), link("usage", Some("usage.tmt"), vec![])],
        ),
        link("reference", Some("reference.tmt"), vec![]),
    ]);

    assert_eq!(entries.len(), 2);
    assert_eq!(entries[0].slug, "guide");
    assert_eq!(slugs_of(&entries[0].children), ["install", "usage"]);
    assert_eq!(entries[1].slug, "reference");
    assert!(entries[1].children.is_empty());
}

#[test]
fn a_target_that_resolves_to_nothing_is_reported() {
    let (entries, unresolved) =
        collect_entries(&vec![link("ghost", None, vec![]), link("real", Some("real.tmt"), vec![])]);
    assert_eq!(entries.len(), 1);
    assert_eq!(entries[0].slug, "real");
    assert_eq!(unresolved, ["ghost"]);
}

#[test]
fn a_bullet_without_a_link_hands_its_children_up() {
    let (entries, _) = collect_entries(&vec![
        item(None, None, vec![link("essay", Some("essay.tmt"), vec![])]),
        link("notes", Some("notes.tmt"), vec![]),
    ]);
    assert_eq!(slugs_of(&entries), ["essay", "notes"]);
}

#[test]
fn a_link_to_an_image_is_not_a_page() {
    let (entries, _) =
        collect_entries(&vec![link("cover.png", Some("cover.png"), vec![]), link("page", Some("page.tmt"), vec![])]);
    assert_eq!(slugs_of(&entries), ["page"]);
}

#[test]
fn control_documents_are_named_by_their_suffix() {
    assert!(is_control_document("book.index.tmt"));
    assert!(is_control_document("default.config.tmt"));
    assert!(!is_control_document("index.tmt"));
    assert!(!is_control_document("notes/index.tm"));

    assert!(is_root_index("book.index.tmt"));
    assert!(is_root_index("10-guides.index.tmt"));
    assert!(!is_root_index("creation/book.index.tmt"));
}
