use tmtbook::config::{default_ui_strings, BookConfig, BookMeta, BuildConfig, UiConfig};
use tmtbook::table::StringTable;
use tmtbook::i18n::{en, ja};

fn prefixes(url: &str, asset: &str) -> BuildConfig {
    BuildConfig { url_prefix: url.to_string(), asset_prefix: asset.to_string(), ..Default::default() }
}

#[test]
fn output_dirs_are_derived_from_the_configured_prefixes() {
    let cfg = prefixes("/docs", "/media");
    assert_eq!(cfg.wiki_out_rel(), "docs");
    assert_eq!(cfg.asset_out_rel(), "media");
    assert_eq!(cfg.clean_url_prefix(), "/docs");
    assert_eq!(cfg.clean_asset_prefix(), "/media");
}

#[test]
fn the_defaults_still_land_in_wiki_and_vault() {
    let cfg = BuildConfig::default();
    assert_eq!(cfg.wiki_out_rel(), "wiki");
    assert_eq!(cfg.asset_out_rel(), "vault");
}

#[test]
fn surrounding_slashes_are_normalized() {
    let cfg = prefixes("/docs/", "media/");
    assert_eq!(cfg.wiki_out_rel(), "docs");
    assert_eq!(cfg.asset_out_rel(), "media");
    assert_eq!(cfg.clean_url_prefix(), "/docs");
}

#[test]
fn nested_prefixes_keep_their_depth() {
    let cfg = prefixes("/en/wiki", "/en/vault");
    assert_eq!(cfg.wiki_out_rel(), "en/wiki");
    assert_eq!(cfg.asset_out_rel(), "en/vault");
}

#[test]
fn a_root_prefix_means_the_destination_root() {
    let cfg = prefixes("/", "/");
    assert_eq!(cfg.wiki_out_rel(), "");
    assert_eq!(cfg.clean_url_prefix(), "");
}

#[test]
fn the_defaults_are_complete_without_a_config_file() {
    let cfg = BookConfig::default();
    assert_eq!(cfg.ui.strings.get("pane.toc"), Some("目次"));
    assert!(cfg.ui.strings.contains_key("search.placeholder"));
}

#[test]
fn english_and_japanese_dictionaries_have_identical_keys() {
    let ja_strings = ja::ui_strings();
    let en_strings = en::ui_strings();
    assert_eq!(ja_strings.len(), en_strings.len());
    for key in ja_strings.keys() {
        assert!(en_strings.contains_key(&key), "Missing English UI string key: {key}");
    }

    let ja_labels = ja::key_labels();
    let en_labels = en::key_labels();
    assert_eq!(ja_labels.len(), en_labels.len());
    for key in ja_labels.keys() {
        assert!(en_labels.contains_key(&key), "Missing English infobox label key: {key}");
    }

    let ja_chips = ja::hero_chips();
    let en_chips = en::hero_chips();
    assert_eq!(ja_chips.len(), en_chips.len());
    for i in 0..ja_chips.len() {
        assert_eq!(ja_chips[i].key, en_chips[i].key);
    }
}

/// The configuration a `tmtbook.toml` describes once read: what it names,
/// every other field at its serde default, then the defaults filled in.
fn loaded(title: Option<&str>, lang: Option<&str>, strings: &[(&str, &str)]) -> BookConfig {
    let mut book = BookMeta::default();
    if let Some(t) = title {
        book.title = t.to_string();
    }
    if let Some(l) = lang {
        book.lang = l.to_string();
    }
    let mut table = StringTable::new();
    for (k, v) in strings {
        table.insert(k.to_string(), v.to_string());
    }
    let mut cfg = BookConfig { book, ui: UiConfig { strings: table, ..UiConfig::default() }, build: BuildConfig::default() };
    cfg.apply_defaults();
    cfg
}

#[test]
fn a_config_without_a_strings_table_keeps_every_default() {
    let cfg = loaded(Some("X"), None, &[]);
    assert_eq!(cfg.ui.strings.len(), default_ui_strings().len());
}

#[test]
fn overriding_one_string_leaves_the_rest_intact() {
    // A partial table replaces the whole map when the file is read, so
    // this is the case that would blank out the interface.
    let cfg = loaded(None, None, &[("pane.toc", "Contents")]);

    assert_eq!(cfg.ui.strings.get("pane.toc"), Some("Contents"));
    assert_eq!(cfg.ui.strings.get("pane.links"), Some("リンク"), "untouched strings must survive");
    assert_eq!(cfg.ui.strings.len(), default_ui_strings().len());
}

#[test]
fn an_unknown_string_key_is_kept_rather_than_dropped() {
    let cfg = loaded(None, None, &[("custom.key", "mine")]);
    assert_eq!(cfg.ui.strings.get("custom.key"), Some("mine"));
}

#[test]
fn english_language_loads_english_defaults() {
    let cfg = loaded(Some("My Book"), Some("en"), &[]);
    assert_eq!(cfg.ui.strings.get("pane.toc"), Some("Table of Contents"));
    assert_eq!(cfg.ui.strings.get("recent.heading"), Some("Recent Notes"));
    assert_eq!(cfg.ui.infobox.labels.get("birth"), Some("Birthday"));
    assert_eq!(cfg.ui.hero_chips[0].label.as_deref(), Some("Affiliation"));
}

#[test]
fn english_language_with_user_overrides() {
    let cfg = loaded(None, Some("en"), &[("pane.toc", "Custom Outline")]);
    assert_eq!(cfg.ui.strings.get("pane.toc"), Some("Custom Outline"));
    assert_eq!(cfg.ui.strings.get("pane.links"), Some("Links"));
    assert_eq!(cfg.ui.strings.len(), en::ui_strings().len());
}
