use tmtbook::config::BookConfig;
use tmtbook::document::outgoing_page_slugs;
use tmtbook::meta::link_context;
use tmtbook::meta::value::{format_meta_value_to_html, resolve_meta_link, LinkCtx};

/// A book under `prefix` whose vault answers each `(target, path)` pair.
fn ctx(prefix: &str, answers: &[(&str, Option<&str>)]) -> LinkCtx {
    let mut config = BookConfig::default();
    config.build.url_prefix = prefix.to_string();
    let resolved = answers.iter().map(|(t, p)| (t.to_string(), p.map(|p| p.to_string()))).collect();
    link_context(&config, resolved)
}

/// The slugs of the pages a document links to, given the paths its links resolved to.
fn slugs(resolved: &[&str], own: &str) -> Vec<String> {
    let resolved: Vec<String> = resolved.iter().map(|s| s.to_string()).collect();
    outgoing_page_slugs(&resolved, own, &Vec::new())
}

#[test]
fn links_resolve_meta_link_builds_a_url_under_the_prefix() {
    let cx = ctx("/wiki", &[("rust", Some("30-39 Knowledge/rust.tmt"))]);
    let (href, label) = resolve_meta_link("[[rust]]", &cx).unwrap();
    assert_eq!(href, "/wiki/30-39 Knowledge/rust");
    assert_eq!(label, "rust");
}

#[test]
fn links_resolve_meta_link_keeps_the_alias_as_the_label() {
    let cx = ctx("/wiki", &[("rust", Some("30-39 Knowledge/rust.tmt"))]);
    let (href, label) = resolve_meta_link("[[rust|ラスト]]", &cx).unwrap();
    assert_eq!(href, "/wiki/30-39 Knowledge/rust");
    assert_eq!(label, "ラスト");
}

#[test]
fn links_resolve_meta_link_reports_unresolved_targets_with_an_empty_href() {
    let cx = ctx("/wiki", &[("missing", None)]);
    let (href, label) = resolve_meta_link("[[missing]]", &cx).unwrap();
    assert!(href.is_empty());
    assert_eq!(label, "missing");
}

#[test]
fn links_resolve_meta_link_ignores_non_references() {
    let cx = ctx("/wiki", &[]);
    assert!(resolve_meta_link("ただの値", &cx).is_none());
}

#[test]
fn links_trailing_slash_on_the_url_prefix_is_not_doubled() {
    let cx = ctx("/wiki/", &[("rust", Some("rust.tmt"))]);
    let (href, _) = resolve_meta_link("[[rust]]", &cx).unwrap();
    assert_eq!(href, "/wiki/rust");
}

#[test]
fn links_meta_values_cannot_break_out_of_the_infobox_cell() {
    let cx = ctx("/wiki", &[]);
    let html = format_meta_value_to_html(r#"<img src=x onerror=alert(1)>"#, &cx);
    // The payload survives as inert text, but never as markup.
    assert_eq!(html, "&lt;img src=x onerror=alert(1)&gt;");
}

#[test]
fn links_unresolved_link_labels_are_escaped() {
    let cx = ctx("/wiki", &[("missing", None)]);
    let html = format_meta_value_to_html(r#"[[missing|"><script>x</script>]]"#, &cx);
    assert!(!html.contains("<script>"));
    assert!(html.contains("&lt;script&gt;"));
}

#[test]
fn a_resolved_meta_link_becomes_an_anchor() {
    let cx = ctx("/wiki", &[("rust", Some("rust.tmt"))]);
    assert_eq!(
        format_meta_value_to_html("[[rust]]", &cx),
        "<a href=\"/wiki/rust\" class=\"tm-link tm-file\">rust</a>"
    );
}

#[test]
fn body_references_become_slugs() {
    // `ref:` targets are names, not paths, so a page in a folder is still
    // reached by its stem -- and the slug that comes back carries the folder.
    let out = slugs(&["other.tmt", "deep/page.tmt"], "a");
    assert_eq!(out, vec!["other", "deep/page"]);
}

#[test]
fn a_link_to_itself_is_not_an_outgoing_link() {
    let out = slugs(&["a.tmt"], "a");
    assert!(out.is_empty());
}

#[test]
fn the_same_page_twice_is_listed_once() {
    let out = slugs(&["other.tmt", "other.tmt"], "a");
    assert_eq!(out, vec!["other"]);
}

#[test]
fn unresolved_references_are_left_out() {
    let out = slugs(&[], "a");
    assert!(out.is_empty());
}

#[test]
fn media_is_not_a_page() {
    let out = slugs(&["photo.png"], "a");
    assert!(out.is_empty(), "got {out:?}");
}

#[test]
fn document_resolve_meta_link_builds_a_url_under_the_prefix() {
    let cx = ctx("/wiki", &[("rust", Some("30-39 Knowledge/rust.tmt"))]);
    let (href, label) = resolve_meta_link("[[rust]]", &cx).unwrap();
    assert_eq!(href, "/wiki/30-39 Knowledge/rust");
    assert_eq!(label, "rust");
}

#[test]
fn document_resolve_meta_link_keeps_the_alias_as_the_label() {
    let cx = ctx("/wiki", &[("rust", Some("30-39 Knowledge/rust.tmt"))]);
    let (href, label) = resolve_meta_link("[[rust|ラスト]]", &cx).unwrap();
    assert_eq!(href, "/wiki/30-39 Knowledge/rust");
    assert_eq!(label, "ラスト");
}

#[test]
fn document_resolve_meta_link_reports_unresolved_targets_with_an_empty_href() {
    let cx = ctx("/wiki", &[("missing", None)]);
    let (href, label) = resolve_meta_link("[[missing]]", &cx).unwrap();
    assert!(href.is_empty());
    assert_eq!(label, "missing");
}

#[test]
fn document_resolve_meta_link_ignores_non_references() {
    let cx = ctx("/wiki", &[]);
    assert!(resolve_meta_link("ただの値", &cx).is_none());
}

#[test]
fn document_trailing_slash_on_the_url_prefix_is_not_doubled() {
    let cx = ctx("/wiki/", &[("rust", Some("rust.tmt"))]);
    let (href, _) = resolve_meta_link("[[rust]]", &cx).unwrap();
    assert_eq!(href, "/wiki/rust");
}

#[test]
fn document_meta_values_cannot_break_out_of_the_infobox_cell() {
    let cx = ctx("/wiki", &[]);
    let html = format_meta_value_to_html(r#"<img src=x onerror=alert(1)>"#, &cx);
    // The payload survives as inert text, but never as markup.
    assert_eq!(html, "&lt;img src=x onerror=alert(1)&gt;");
}

#[test]
fn document_unresolved_link_labels_are_escaped() {
    let cx = ctx("/wiki", &[("missing", None)]);
    let html = format_meta_value_to_html(r#"[[missing|"><script>x</script>]]"#, &cx);
    assert!(!html.contains("<script>"));
    assert!(html.contains("&lt;script&gt;"));
}
