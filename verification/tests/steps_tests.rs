use tmtbook::code::{code_block, PRE_CODE_PATTERN};
use tmtbook::document::ProcessedDoc;
use tmtbook::internal_links::internal_link;
use tmtbook::meta::format::birthday_text;
use tmtbook::meta::icon::{text_icon_from_clusters, text_icon_link_from_clusters};
use tmtbook::pattern::{find_captures, first_group};
use tmtbook::publish::{plan_build, settle_outcomes, DocFailure};
use tmtbook::serve::{watch_step, watch_wait, WatchAction, WatchInput, DEBOUNCE_MS, MAX_BATCH_WAIT_MS};
use tmtbook::table::StringTable;

fn groups(list: &[Option<&str>]) -> Vec<Option<String>> {
    list.iter().map(|g| g.map(|s| s.to_string())).collect()
}

fn page(slug: &str) -> ProcessedDoc {
    ProcessedDoc {
        slug: slug.to_string(),
        rel_path: format!("{slug}.tmt"),
        source_path: format!("/v/{slug}.tmt"),
        title: slug.to_string(),
        section: None,
        kind: None,
        primary_color: None,
        icon: None,
        icon_image_url: None,
        link_icon: None,
        banner_url: None,
        banner_original_url: None,
        banner_y: None,
        images: vec![],
        original_images: vec![],
        hero_chips: vec![],
        infobox_rows: vec![],
        has_data: false,
        toc: vec![],
        section_tabs: vec![],
        body_html: String::new(),
        outgoing: vec![],
    }
}

// ---- captures ----

#[test]
fn find_captures_lists_every_match_with_its_groups() {
    let found = find_captures(r"(\d+)-(\d+)", "a 12-34 b 5-6");
    assert_eq!(
        found,
        Some(vec![
            groups(&[Some("12-34"), Some("12"), Some("34")]),
            groups(&[Some("5-6"), Some("5"), Some("6")]),
        ])
    );
    assert_eq!(find_captures(r"(\d+)", "none here"), Some(vec![]));
}

#[test]
fn find_captures_is_none_for_a_pattern_that_does_not_compile() {
    assert_eq!(find_captures("(", "anything"), None);
}

#[test]
fn first_group_reads_the_first_match_only() {
    let ms = Some(vec![groups(&[Some("ab"), Some("a"), None]), groups(&[Some("cd"), Some("c"), Some("d")])]);
    assert_eq!(first_group(&ms, 1), Some("a".to_string()));
    assert_eq!(first_group(&ms, 2), None, "a group that took no part");
    assert_eq!(first_group(&ms, 7), None, "a group the pattern does not have");
    assert_eq!(first_group(&Some(vec![]), 0), None, "no match");
    assert_eq!(first_group(&None, 0), None, "no pattern");
}

// ---- pieces that follow a search ----

#[test]
fn code_block_wraps_one_match_from_its_groups() {
    let m = groups(&[
        Some("<pre><code class=\"language-rust\">fn x()</code></pre>"),
        Some(""),
        Some(""),
        Some(" class=\"language-rust\""),
        Some("fn x()"),
        Some(""),
    ]);
    assert_eq!(
        code_block(&m, "Copy code"),
        [
            "<div class=\"code-block-wrapper\"><div class=\"code-block-header\">",
            "<span class=\"code-lang\">rust</span>",
            "<button type=\"button\" class=\"code-copy-btn\" title=\"Copy code\" aria-label=\"Copy code\">",
            "<svg class=\"tm-doc-icon\" aria-hidden=\"true\"><use href=\"/icons/lucide.svg#copy\"></use></svg></button>",
            "</div><pre><code class=\"language-rust\">fn x()</code></pre></div>",
        ]
        .join("")
    );
}

#[test]
fn code_block_groups_come_from_the_block_pattern() {
    let found = find_captures(PRE_CODE_PATTERN, "<pre> <code>x</code></pre>").unwrap();
    assert_eq!(found.len(), 1);
    let out = code_block(&found[0], "t");
    assert!(out.ends_with("<pre> <code>x</code></pre></div>"));
    assert!(!out.contains("code-lang"));
}

#[test]
fn internal_link_puts_the_icon_in_front_of_the_text() {
    let mut icons = StringTable::new();
    icons.insert("Shop".to_string(), "<i>S</i>".to_string());
    let m = groups(&[
        Some("<a class=\"tm-file\" href=\"/wiki/Shop\">Shop</a>"),
        Some(" class=\"tm-file\" href=\"/wiki/Shop\""),
        Some("/wiki/Shop"),
        Some("Shop"),
    ]);
    assert_eq!(internal_link(&m, &icons, "/wiki"), "<a class=\"tm-file\" href=\"/wiki/Shop\"><i>S</i>Shop</a>");
    let away = groups(&[
        Some("<a href=\"https://x.dev\">x</a>"),
        Some(" href=\"https://x.dev\""),
        Some("https://x.dev"),
        Some("x"),
    ]);
    assert_eq!(internal_link(&away, &icons, "/wiki"), "<a href=\"https://x.dev\">x</a>");
}

#[test]
fn text_icon_from_clusters_counts_clusters_not_chars() {
    let two = vec!["👨‍👩".to_string(), "B".to_string()];
    assert_eq!(
        text_icon_from_clusters(&two, "👨‍👩B"),
        [
            "<span class=\"avatar-text avatar-grid avatar-grid-2\">",
            "<span class=\"avatar-cell\">👨‍👩</span><span class=\"avatar-cell\">B</span></span>",
        ]
        .join("")
    );
    let five: Vec<String> = "abcde".chars().map(|c| c.to_string()).collect();
    assert_eq!(
        text_icon_from_clusters(&five, "abcde"),
        "<span class=\"avatar-text avatar-text-2 avatar-initials\" title=\"abcde\">ab</span>"
    );
    assert_eq!(text_icon_from_clusters(&vec!["<".to_string()], "<"), "<span class=\"avatar-text avatar-text-1\">&lt;</span>");
    assert_eq!(text_icon_from_clusters(&vec![], ""), "");
}

#[test]
fn text_icon_link_from_clusters_tells_emoji_from_text() {
    assert_eq!(
        text_icon_link_from_clusters(&vec!["🙂".to_string()]),
        "<span class=\"tm-link-icon tm-link-icon-emoji\" aria-hidden=\"true\">🙂</span>"
    );
    assert_eq!(
        text_icon_link_from_clusters(&vec!["A".to_string()]),
        "<span class=\"tm-link-icon tm-link-icon-text\" aria-hidden=\"true\">A</span>"
    );
    assert_eq!(
        text_icon_link_from_clusters(&vec!["A".to_string(), "B".to_string(), "C".to_string()]),
        "<span class=\"tm-link-icon tm-link-icon-text\" aria-hidden=\"true\">AB</span>"
    );
    assert_eq!(text_icon_link_from_clusters(&vec![]), "");
}

#[test]
fn birthday_text_reads_month_and_day_of_the_first_match() {
    let ms = Some(vec![groups(&[Some("2001-04-09"), Some("2001"), Some("04"), Some("09")])]);
    assert_eq!(birthday_text(&ms, "2001-04-09", Some("en")), "April 9");
    assert_eq!(birthday_text(&ms, "2001-04-09", None), "4月9日");
    assert_eq!(birthday_text(&ms, "2001-04-09", Some("ja")), "4月9日");
    let odd = Some(vec![groups(&[Some("2001-13-02"), Some("2001"), Some("13"), Some("02")])]);
    assert_eq!(birthday_text(&odd, "2001-13-02", Some("en")), "13月2日", "no month name past December");
    assert_eq!(birthday_text(&Some(vec![]), "spring", Some("en")), "spring");
    assert_eq!(birthday_text(&None, "spring", None), "spring");
}

// ---- watcher ----

#[test]
fn watcher_waits_forever_until_an_event_then_debounces() {
    assert_eq!(watch_wait(false), None);
    assert_eq!(watch_wait(true), Some(DEBOUNCE_MS));
    assert_eq!(DEBOUNCE_MS, 150);
    assert_eq!(MAX_BATCH_WAIT_MS, 1000);
}

#[test]
fn watcher_batches_events_and_flushes_when_quiet() {
    assert_eq!(watch_step(false, 0, WatchInput::Event), (true, true, WatchAction::Wait));
    assert_eq!(watch_step(true, 400, WatchInput::Event), (true, false, WatchAction::Wait));
    assert_eq!(watch_step(true, 400, WatchInput::Quiet), (false, false, WatchAction::Flush));
    assert_eq!(watch_step(false, 0, WatchInput::Quiet), (false, false, WatchAction::Wait));
}

#[test]
fn watcher_flushes_a_batch_that_grew_too_long() {
    assert_eq!(watch_step(true, 999, WatchInput::Event), (true, false, WatchAction::Wait));
    assert_eq!(watch_step(true, 1000, WatchInput::Event), (false, false, WatchAction::Flush));
    assert_eq!(watch_step(false, 5000, WatchInput::Event), (true, true, WatchAction::Wait), "a new batch starts its own clock");
}

#[test]
fn watcher_keeps_its_batch_on_errors_and_stops_when_closed() {
    assert_eq!(watch_step(true, 10, WatchInput::Error), (true, false, WatchAction::Wait));
    assert_eq!(watch_step(false, 10, WatchInput::Error), (false, false, WatchAction::Wait));
    assert_eq!(watch_step(true, 10, WatchInput::Closed), (true, false, WatchAction::Stop));
}

// ---- build plan ----

#[test]
fn plan_build_sorts_documents_by_route() {
    let docs = vec![
        ("a.tmt".to_string(), Some(Some("page".to_string()))),
        ("b.tmt".to_string(), None),
        ("c.tmt".to_string(), Some(Some("config".to_string()))),
        ("d.tmt".to_string(), Some(None)),
        ("e.tmt".to_string(), Some(Some("index".to_string()))),
    ];
    let rules = vec!["*".to_string(), "!config".to_string(), "!index".to_string()];
    let plan = plan_build(&docs, &rules);
    assert_eq!(plan.process, vec![0, 3]);
    assert_eq!(plan.parse_failures, vec![1]);
    assert_eq!(plan.taken, vec![0, 1, 3], "rendered and failed together, in vault order");
    assert_eq!(plan.unpublished, vec!["c.tmt".to_string(), "e.tmt".to_string()]);
    let total = plan.process.len() + plan.parse_failures.len() + plan.unpublished.len();
    assert_eq!(total, docs.len());
}

#[test]
fn plan_build_with_no_rules_leaves_every_parsed_document_out() {
    let docs = vec![("a.tmt".to_string(), Some(None)), ("b.tmt".to_string(), None)];
    let plan = plan_build(&docs, &Vec::new());
    assert!(plan.process.is_empty());
    assert_eq!(plan.parse_failures, vec![1]);
    assert_eq!(plan.unpublished, vec!["a.tmt".to_string()]);
}

#[test]
fn settle_outcomes_keeps_order_and_counts_every_outcome() {
    let fail = DocFailure { rel_path: "b.tmt".to_string(), error: "bad".to_string() };
    let outcomes = vec![Ok(page("a")), Err(fail), Ok(page("c"))];
    let (pages, failures) = settle_outcomes(outcomes);
    let slugs: Vec<&str> = pages.iter().map(|p| p.slug.as_str()).collect();
    assert_eq!(slugs, vec!["a", "c"]);
    assert_eq!(failures.len(), 1);
    assert_eq!(failures[0].rel_path, "b.tmt");
    assert_eq!(failures[0].error, "bad");
    let (none, nofail) = settle_outcomes::<ProcessedDoc>(vec![]);
    assert!(none.is_empty() && nofail.is_empty());
}

#[test]
fn settle_outcomes_tallies_the_writing_stage_too() {
    let fail = DocFailure { rel_path: "x.tmt".to_string(), error: "could not write".to_string() };
    let outcomes = vec![Ok(("a".to_string(), true)), Err(fail), Ok(("b".to_string(), false))];
    let (pages, failures) = settle_outcomes(outcomes);
    assert_eq!(pages, vec![("a".to_string(), true), ("b".to_string(), false)]);
    assert_eq!(failures.len(), 1);
    assert_eq!(failures[0].rel_path, "x.tmt");
}
