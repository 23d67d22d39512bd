use tmtbook::publish::{needs_write, pagefind_needed, redirect_html, slug_owners, stale_items, unpublished_docs};

fn strings(list: &[&str]) -> Vec<String> {
    list.iter().map(|s| s.to_string()).collect()
}

#[test]
fn documents_of_unpublished_kinds_are_left_out() {
    let parsed = vec![
        ("a.tmt".to_string(), None),
        ("b.config.tmt".to_string(), Some("config".to_string())),
        ("c.tmt".to_string(), Some("page".to_string())),
    ];
    assert_eq!(unpublished_docs(&parsed, &strings(&["*", "!config", "!index"])), vec!["b.config.tmt"]);
}

#[test]
fn stale_output_is_what_the_last_build_wrote_and_this_one_did_not() {
    assert_eq!(stale_items(&strings(&["a", "b", "c"]), &strings(&["c", "a"])), vec!["b"]);
    assert!(stale_items(&strings(&[]), &strings(&["a"])).is_empty());
}

#[test]
fn the_root_redirect_points_at_the_book() {
    let html = redirect_html("ja", "/wiki");
    assert!(html.starts_with(r#"<!doctype html><html lang="ja" data-pagefind-ignore>"#));
    assert!(html.contains(r#"<meta http-equiv="refresh" content="0;url=/wiki">"#));
    assert!(html.contains(r#"<a href="/wiki">Redirecting to /wiki</a>"#));
}

#[test]
fn unchanged_content_is_not_written_again() {
    assert!(!needs_write(Some("same"), "same"));
    assert!(needs_write(Some("old"), "new"));
    assert!(needs_write(None, ""));
}

#[test]
fn pagefind_runs_only_when_output_changed_or_the_index_is_missing() {
    assert!(!pagefind_needed(0, false, false, 0, false));
    assert!(pagefind_needed(1, false, false, 0, false));
    assert!(pagefind_needed(0, false, false, 0, true));
}

#[test]
fn the_last_page_to_claim_a_slug_owns_it() {
    let claims = vec![
        ("a".to_string(), "a.tmt".to_string()),
        ("b".to_string(), "b.tmt".to_string()),
        ("a".to_string(), "a.tm".to_string()),
    ];
    let owners = slug_owners(&claims);
    assert_eq!(owners.owners, vec![("a".to_string(), "a.tm".to_string()), ("b".to_string(), "b.tmt".to_string())]);
    assert_eq!(owners.collisions, vec![("a.tmt".to_string(), "a.tm".to_string(), "a".to_string())]);
}
