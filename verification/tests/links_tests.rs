use tmtbook::links::{clean_ref_target, is_link_ref, slug_from_href, strip_doc_extension};

#[test]
fn links_recognizes_link_reference_forms() {
    assert!(is_link_ref(r#"@link(ref:"@foo")"#));
    assert!(is_link_ref("link(ref:bar)"));
    assert!(is_link_ref("[[foo]]"));
    assert!(is_link_ref("[[foo|別名]]"));
    assert!(is_link_ref("ref:baz"));
    assert!(is_link_ref("@foo"));
}

#[test]
fn links_plain_values_are_not_link_references() {
    assert!(!is_link_ref("ただのテキスト"));
    assert!(!is_link_ref("2024-01-01"));
    assert!(!is_link_ref("@foo @bar"));
    assert!(!is_link_ref("a@b"));
}

#[test]
fn links_clean_ref_target_unwraps_every_form() {
    assert_eq!(clean_ref_target(r#"@link(ref:"@foo")"#), "foo");
    assert_eq!(clean_ref_target("link(ref:bar)"), "bar");
    assert_eq!(clean_ref_target("[[foo]]"), "foo");
    assert_eq!(clean_ref_target("ref:baz"), "baz");
    assert_eq!(clean_ref_target("@qux"), "qux");
    assert_eq!(clean_ref_target("  plain  "), "plain");
}

#[test]
fn links_clean_ref_target_prefers_the_alias() {
    assert_eq!(clean_ref_target("[[foo|別名]]"), "別名");
}

#[test]
fn links_strips_a_single_document_extension() {
    assert_eq!(strip_doc_extension("foo/bar.tmt"), "foo/bar");
    assert_eq!(strip_doc_extension("foo/bar.tm"), "foo/bar");
}

#[test]
fn links_does_not_chew_through_repeated_suffixes() {
    assert_eq!(strip_doc_extension("notes.tmt.tmt"), "notes.tmt");
}

#[test]
fn links_leaves_other_names_alone() {
    assert_eq!(strip_doc_extension("image.png"), "image.png");
    assert_eq!(strip_doc_extension("plain"), "plain");
}

#[test]
fn a_href_under_the_prefix_yields_its_slug() {
    assert_eq!(slug_from_href("/wiki/30-39 Knowledge/rust", "/wiki").as_deref(), Some("30-39 Knowledge/rust"));
    assert_eq!(slug_from_href("/wiki/a", "/wiki/").as_deref(), Some("a"));
}

#[test]
fn an_href_outside_the_prefix_is_not_a_page() {
    assert_eq!(slug_from_href("https://example.com", "/wiki"), None);
    assert_eq!(slug_from_href("/vault/img.png", "/wiki"), None);
    // The catalog itself is not a page anyone backlinks to.
    assert_eq!(slug_from_href("/wiki", "/wiki"), None);
}

#[test]
fn document_recognizes_link_reference_forms() {
    assert!(is_link_ref(r#"@link(ref:"@foo")"#));
    assert!(is_link_ref("link(ref:bar)"));
    assert!(is_link_ref("[[foo]]"));
    assert!(is_link_ref("[[foo|別名]]"));
    assert!(is_link_ref("ref:baz"));
    assert!(is_link_ref("@foo"));
}

#[test]
fn document_plain_values_are_not_link_references() {
    assert!(!is_link_ref("ただのテキスト"));
    assert!(!is_link_ref("2024-01-01"));
    assert!(!is_link_ref("@foo @bar"));
    assert!(!is_link_ref("a@b"));
}

#[test]
fn document_clean_ref_target_unwraps_every_form() {
    assert_eq!(clean_ref_target(r#"@link(ref:"@foo")"#), "foo");
    assert_eq!(clean_ref_target("link(ref:bar)"), "bar");
    assert_eq!(clean_ref_target("[[foo]]"), "foo");
    assert_eq!(clean_ref_target("ref:baz"), "baz");
    assert_eq!(clean_ref_target("@qux"), "qux");
    assert_eq!(clean_ref_target("  plain  "), "plain");
}

#[test]
fn document_clean_ref_target_prefers_the_alias() {
    assert_eq!(clean_ref_target("[[foo|別名]]"), "別名");
}

#[test]
fn document_strips_a_single_document_extension() {
    assert_eq!(strip_doc_extension("foo/bar.tmt"), "foo/bar");
    assert_eq!(strip_doc_extension("foo/bar.tm"), "foo/bar");
}

#[test]
fn document_does_not_chew_through_repeated_suffixes() {
    assert_eq!(strip_doc_extension("notes.tmt.tmt"), "notes.tmt");
}

#[test]
fn document_leaves_other_names_alone() {
    assert_eq!(strip_doc_extension("image.png"), "image.png");
    assert_eq!(strip_doc_extension("plain"), "plain");
}
