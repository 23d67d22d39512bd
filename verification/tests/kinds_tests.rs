use tmtbook::kinds::{glob_matches, publishes};

fn patterns(list: &[&str]) -> Vec<String> {
    list.iter().map(|s| s.to_string()).collect()
}

#[test]
fn the_default_publishes_everything_but_the_control_kinds() {
    let p = patterns(&["*", "!config", "!index"]);
    assert!(publishes(Some("page"), &p));
    assert!(publishes(Some("unit"), &p));
    assert!(publishes(None, &p), "a document with no kind is a page");
    assert!(!publishes(Some("config"), &p));
    assert!(!publishes(Some("index"), &p));
}

#[test]
fn a_list_without_a_star_publishes_exactly_what_it_names() {
    let p = patterns(&["page", "unit"]);
    assert!(publishes(Some("page"), &p));
    assert!(publishes(Some("unit"), &p));
    assert!(!publishes(Some("event"), &p));
    assert!(!publishes(None, &p), "only `*` reaches a document with no kind");
}

#[test]
fn the_last_matching_rule_wins() {
    let p = patterns(&["*", "!deck.*", "deck.card"]);
    assert!(publishes(Some("deck.card"), &p));
    assert!(!publishes(Some("deck.bookmark"), &p));
    assert!(publishes(Some("page"), &p));

    // Order is the whole rule: reversed, the namespace wins again.
    let reversed = patterns(&["*", "deck.card", "!deck.*"]);
    assert!(!publishes(Some("deck.card"), &reversed));
}

#[test]
fn an_empty_list_publishes_nothing() {
    assert!(!publishes(Some("page"), &[]));
    assert!(!publishes(None, &[]));
}

#[test]
fn stars_match_anywhere_in_the_name() {
    assert!(glob_matches("*", ""));
    assert!(glob_matches("*", "anything"));
    assert!(glob_matches("deck.*", "deck.card"));
    assert!(!glob_matches("deck.*", "decoy"));
    assert!(glob_matches("*.card", "deck.card"));
    assert!(glob_matches("deck.*.jp", "deck.card.jp"));
    assert!(!glob_matches("deck.*.jp", "deck.card.en"));
    assert!(glob_matches("page", "page"));
    assert!(!glob_matches("page", "pages"));
}
