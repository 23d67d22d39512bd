use tmtbook::config::BookConfig;
use tmtbook::loader::{exclude_prefixes, is_excluded_path, is_ignored_rel};

fn excludes() -> Vec<String> {
    vec!["dist".to_string(), "00-09 System/01 Apps".to_string()]
}

#[test]
fn excludes_the_directory_itself_and_its_contents() {
    assert!(is_excluded_path("dist", "dist"));
    assert!(is_excluded_path("dist/wiki/index.tmt", "dist"));
    assert!(is_excluded_path("notes/dist/a.tmt", "dist"));
    assert!(is_excluded_path("a/b/dist", "dist"));
}

#[test]
fn does_not_match_partial_segment_names() {
    assert!(!is_excluded_path("distributed-notes.tmt", "dist"));
    assert!(!is_excluded_path("old/distro/x.tmt", "dist"));
    assert!(!is_excluded_path("my-target/a.tmt", "target"));
    assert!(!is_excluded_path("notes/targets.tmt", "target"));
}

#[test]
fn matches_multi_segment_entries_as_a_whole() {
    let prefix = "00-09 System/01 Apps";
    assert!(is_excluded_path("00-09 System/01 Apps/zed.tmt", prefix));
    assert!(is_excluded_path("vault/00-09 System/01 Apps/zed.tmt", prefix));
    assert!(!is_excluded_path("00-09 System/02 Tools/zed.tmt", prefix));
    assert!(!is_excluded_path("00-09 System/01 Appsx/zed.tmt", prefix));
}

#[test]
fn ignores_empty_and_slash_only_entries() {
    assert!(!is_excluded_path("notes/a.tmt", ""));
    assert!(!is_excluded_path("notes/a.tmt", "/"));
    assert!(is_excluded_path("notes/a.tmt", "/notes/"));
}

#[test]
fn hidden_paths_are_ignored() {
    assert!(is_ignored_rel(".git/config", &excludes()));
    assert!(is_ignored_rel("notes/.obsidian/app.json", &excludes()));
    assert!(!is_ignored_rel("notes/a.tmt", &excludes()));
}

#[test]
fn configured_excludes_are_ignored() {
    assert!(is_ignored_rel("dist/wiki/index.html", &excludes()));
    assert!(is_ignored_rel("00-09 System/01 Apps/zed.tmt", &excludes()));
}

#[test]
fn lookalike_names_survive() {
    assert!(!is_ignored_rel("distributed.tmt", &excludes()));
    assert!(!is_ignored_rel("00-09 System/02 Tools/zed.tmt", &excludes()));
}

#[test]
fn the_destination_is_never_scanned() {
    let mut config = BookConfig::default();
    config.book.dest = "out\\site".to_string();
    config.build.exclude = vec!["drafts".to_string()];
    let prefixes = exclude_prefixes(&config);
    assert_eq!(prefixes, vec!["drafts", "out/site"]);
    assert!(is_ignored_rel("out/site/wiki/a/index.html", &prefixes));
    assert!(is_ignored_rel("out/site", &prefixes));
    assert!(!is_ignored_rel("out/sitemap.tmt", &prefixes));
}
