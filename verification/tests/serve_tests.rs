use tmtbook::routes::{decode_request_path, plan_request, EmbeddedAsset};
use tmtbook::serve::{plan_events, resolve_within, should_ignore_event, reload_action, FsEvent, FsEventKind, RebuildPlan, ReloadAction, ReloadSignal};

#[test]
fn request_paths_are_percent_decoded() {
    assert_eq!(decode_request_path("/vault/a%20b.png"), "/vault/a b.png");
    assert_eq!(decode_request_path("/vault/a+b.png"), "/vault/a+b.png");
    assert_eq!(decode_request_path("/wiki/%E8%AA%AD%E6%9B%B8"), "/wiki/読書");
    assert_eq!(decode_request_path("/bad/%zz"), "/bad/%zz");
    assert_eq!(decode_request_path("/bad/%ff"), "/bad/%ff");
}

#[test]
fn embedded_assets_are_served_with_their_types() {
    let p = plan_request("/tmtbook.js", "/wiki", "/vault");
    assert_eq!(p.asset, Some(EmbeddedAsset::BookJs));
    assert_eq!(EmbeddedAsset::BookJs.content_type(), "application/javascript; charset=utf-8");
    assert_eq!(EmbeddedAsset::LucideSprite.content_type(), "image/svg+xml");
    assert_eq!(plan_request("/other.js", "/wiki", "/vault").asset, None);
}

#[test]
fn the_root_redirects_into_the_book() {
    let p = plan_request("/", "/wiki", "/vault");
    assert_eq!(p.root_redirect.as_deref(), Some("/wiki/"));
    assert!(!p.root_index);
    let q = plan_request("/", "", "/vault");
    assert_eq!(q.root_redirect, None);
    assert!(q.root_index);
    assert!(q.catalog);
}

#[test]
fn catalog_pages_and_media_are_told_apart() {
    assert!(plan_request("/wiki/", "/wiki", "/vault").catalog);
    assert!(plan_request("/wiki/index.html", "/wiki", "/vault").catalog);
    let page = plan_request("/wiki/notes/rust/index.html", "/wiki", "/vault");
    assert_eq!(page.page_slug.as_deref(), Some("notes/rust"));
    assert_eq!(plan_request("/wiki/a.html", "/wiki", "/vault").page_slug.as_deref(), Some("a"));
    let media = plan_request("/vault/img/a.png", "/wiki", "/vault");
    assert_eq!(media.page_slug, None);
    assert_eq!(media.media_rel.as_deref(), Some("img/a.png"));
    assert!(plan_request("/search-index.json", "/wiki", "/vault").search_index);
    assert!(plan_request("/wiki/search-index.json", "/wiki", "/vault").search_index);
    assert!(plan_request("/nope", "/wiki", "/vault").not_found.contains("<code>/nope</code>"));
}

fn plan(global: bool, css: bool, docs: &[(&str, &str)], media: &[(&str, &str)]) -> RebuildPlan {
    let pairs = |v: &[(&str, &str)]| v.iter().map(|(a, b)| (a.to_string(), b.to_string())).collect();
    RebuildPlan { global, css, docs: pairs(docs), media: pairs(media) }
}

fn routes() -> Vec<(String, String)> {
    vec![("notes/a.tmt".to_string(), "notes/a".to_string())]
}

#[test]
fn nothing_to_do_sends_nothing() {
    match reload_action(&plan(false, false, &[], &[]), Some(&routes()), "/wiki") {
        ReloadAction::Send(s) => assert!(s.is_empty()),
        other => panic!("{other:?}"),
    }
}

#[test]
fn a_global_change_rebuilds_first() {
    match reload_action(&plan(true, true, &[], &[]), Some(&routes()), "/wiki") {
        ReloadAction::RebuildThenSend(s) => assert!(s.is_empty()),
        other => panic!("{other:?}"),
    }
}

#[test]
fn a_saved_page_reloads_alone_and_media_reloads_everything() {
    match reload_action(&plan(false, true, &[("/v/notes/a.tmt", "notes/a.tmt")], &[("/v/x.png", "x.png")]), Some(&routes()), "/wiki") {
        ReloadAction::Send(s) => assert_eq!(
            s,
            vec![ReloadSignal::Css, ReloadSignal::Doc { url: "/wiki/notes/a".to_string() }, ReloadSignal::Full]
        ),
        other => panic!("{other:?}"),
    }
}

#[test]
fn an_unknown_page_or_no_loaded_vault_rebuilds() {
    match reload_action(&plan(false, false, &[("/v/notes/a.tmt", "notes/a.tmt"), ("/v/b.tmt", "b.tmt")], &[]), Some(&routes()), "/wiki") {
        ReloadAction::RebuildThenSend(s) => assert_eq!(s, vec![ReloadSignal::Doc { url: "/wiki/notes/a".to_string() }]),
        other => panic!("{other:?}"),
    }
    match reload_action(&plan(false, true, &[("/v/b.tmt", "b.tmt")], &[]), None, "/wiki") {
        ReloadAction::RebuildThenSend(s) => assert_eq!(s, vec![ReloadSignal::Css]),
        other => panic!("{other:?}"),
    }
}

fn event(kind: FsEventKind, paths: &[&str]) -> FsEvent {
    FsEvent { kind, paths: paths.iter().map(|p| p.to_string()).collect() }
}

/// A change to a file's contents where it stands.
fn modified(paths: &[&str]) -> FsEvent {
    event(FsEventKind::EditInPlace, paths)
}

fn plan_in(events: &[FsEvent], src: &str, out: &str) -> RebuildPlan {
    plan_events(events, src, out, &["dist".to_string()])
}

fn plan_batch(events: &[FsEvent]) -> RebuildPlan {
    plan_in(events, "/vault", "/vault/dist")
}

#[test]
fn every_document_in_a_batch_is_rebuilt() {
    let plan = plan_in(&[modified(&["/vault/a.tmt"]), modified(&["/vault/notes/b.tmt"])], "/vault", "/vault/dist");

    assert!(!plan.global);
    let rels: Vec<&str> = plan.docs.iter().map(|(_, rel)| rel.as_str()).collect();
    assert_eq!(rels, vec!["a.tmt", "notes/b.tmt"]);
}

#[test]
fn the_same_document_is_only_rebuilt_once() {
    let plan = plan_in(&[modified(&["/vault/a.tmt"]), modified(&["/vault/a.tmt"])], "/vault", "/vault/dist");
    assert_eq!(plan.docs.len(), 1);
}

#[test]
fn a_vault_path_containing_dist_is_still_watched() {
    let plan = plan_in(
        &[modified(&["/home/u/distrib/vault/a.tmt"])],
        "/home/u/distrib/vault",
        "/home/u/distrib/vault/dist",
    );
    assert_eq!(plan.docs.len(), 1, "event was wrongly ignored");
}

#[test]
fn build_output_is_ignored() {
    let plan = plan_in(&[modified(&["/vault/dist/wiki/a/index.html"])], "/vault", "/vault/dist");
    assert!(plan.is_empty());
}

#[test]
fn hidden_directories_are_ignored() {
    let plan = plan_in(&[modified(&["/vault/.git/index"])], "/vault", "/vault/dist");
    assert!(plan.is_empty());
}

#[test]
fn creating_or_deleting_a_document_forces_a_full_rebuild() {
    let created = plan_in(&[event(FsEventKind::Other, &["/vault/new.tmt"])], "/vault", "/vault/dist");
    assert!(created.global);

    let removed = plan_in(&[event(FsEventKind::Other, &["/vault/old.tmt"])], "/vault", "/vault/dist");
    assert!(removed.global);
}

#[test]
fn editing_a_written_index_forces_a_full_rebuild() {
    let plan = plan_in(&[modified(&["/vault/book.index.tmt"])], "/vault", "/vault/dist");
    assert!(plan.global);
    assert!(plan.docs.is_empty(), "it must not be rendered as a page");
}

#[test]
fn config_changes_force_a_full_rebuild() {
    let plan = plan_in(&[modified(&["/vault/tmtbook.toml"])], "/vault", "/vault/dist");
    assert!(plan.global);
}

#[test]
fn css_and_media_are_classified_separately() {
    let plan = plan_in(&[modified(&["/vault/custom.css", "/vault/img/a.png"])], "/vault", "/vault/dist");
    assert!(plan.css);
    assert!(!plan.global);
    assert_eq!(plan.media.len(), 1);
    assert_eq!(plan.media[0].1, "img/a.png");
}

#[test]
fn a_save_stays_on_the_incremental_path() {
    let plan = plan_batch(&[
        event(FsEventKind::EditInPlace, &["/vault/a.tmt"]),
        event(FsEventKind::Access, &["/vault/a.tmt"]),
    ]);

    assert!(!plan.global, "a plain save should not rebuild everything");
    assert_eq!(plan.docs.len(), 1);
}

#[test]
fn reads_alone_do_nothing() {
    let plan = plan_batch(&[event(FsEventKind::Access, &["/vault/a.tmt"])]);
    assert!(plan.is_empty());
}

#[test]
fn renaming_forces_a_full_rebuild() {
    let plan = plan_batch(&[event(FsEventKind::Other, &["/vault/a.tmt"])]);
    assert!(plan.global);
}

fn paths(ps: &[&str]) -> Vec<String> {
    ps.iter().map(|p| p.to_string()).collect()
}

#[test]
fn the_simple_watcher_skips_output_and_tool_directories() {
    assert!(should_ignore_event(&paths(&["/vault/site/index.html"]), "/vault/site"));
    assert!(should_ignore_event(&paths(&["/vault/.git/HEAD"]), "/vault/site"));
    assert!(should_ignore_event(&paths(&["/vault/a.tmt", "/vault/target/x"]), "/vault/site"));
    assert!(!should_ignore_event(&paths(&["/vault/a.tmt"]), "/vault/site"));
    assert!(!should_ignore_event(&paths(&[]), "/vault/site"));
}

// The candidate is the path the file system canonicalizes the request to.

#[test]
fn resolve_within_accepts_a_file_under_the_root() {
    let resolved = resolve_within("page.tmt", "/tmp/accepts", "/tmp/accepts/page.tmt").unwrap();
    assert_eq!(resolved, "/tmp/accepts/page.tmt");
}

#[test]
fn resolve_within_rejects_a_path_that_climbs_out_of_the_root() {
    assert!(resolve_within("../secret.txt", "/tmp/rejects/vault", "/tmp/rejects/secret.txt").is_err());
}
