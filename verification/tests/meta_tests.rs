use tmtbook::config::BookConfig;
use tmtbook::icon::IconSet;
use tmtbook::meta::value::MetaValue;
use tmtbook::meta::{extract, link_context, MetaProperties};

fn text(s: &str) -> MetaValue {
    MetaValue::Text(s.to_string())
}

fn num(s: &str) -> MetaValue {
    MetaValue::Number(s.to_string())
}

fn obj(entries: Vec<(&str, MetaValue)>) -> MetaValue {
    MetaValue::Object(entries.into_iter().map(|(k, v)| (k.to_string(), v)).collect())
}

fn link_element(element: &str, args: MetaValue) -> MetaValue {
    obj(vec![("args", args), ("element", text(element))])
}

/// The vault holds `30-39 Knowledge/rust.tmt`, which the target `rust` resolves to.
fn extract_from(meta: MetaValue, kind: Option<&str>) -> MetaProperties {
    let config = BookConfig::default();
    let cx = link_context(&config, vec![("rust".to_string(), Some("30-39 Knowledge/rust.tmt".to_string()))]);
    let none = IconSet { names: vec![] };
    extract(Some(&meta), kind, &cx, &config, &none, &none)
}

#[test]
fn tests_only_hex_colours_become_the_primary_colour() {
    assert_eq!(
        extract_from(obj(vec![("colors", MetaValue::Array(vec![text("#A1B2C3"), text("#000")]))]), None)
            .primary_color
            .as_deref(),
        Some("a1b2c3")
    );
    assert_eq!(extract_from(obj(vec![("colors", text("red"))]), None).primary_color, None);
}

#[test]
fn tests_banner_y_accepts_both_spellings_and_both_number_types() {
    let y = |p: MetaProperties| p.banner_y.map(|n| n.parse::<f64>().unwrap());
    assert_eq!(y(extract_from(obj(vec![("banner-y", num("11"))]), None)), Some(11.0));
    assert_eq!(y(extract_from(obj(vec![("banner_y", num("12.5"))]), None)), Some(12.5));
}

#[test]
fn tests_hero_chips_follow_the_configured_keys() {
    // The default config asks for parent, type.list-a, type.element-a, birth.
    let props = extract_from(
        obj(vec![("birth", text("2001-04-09")), ("ignored", text("x")), ("parent", text("[[rust]]"))]),
        None,
    );
    let values: Vec<&str> = props.hero_chips.iter().map(|c| c.value.as_str()).collect();
    assert_eq!(values, vec!["rust", "4月9日"]);
    assert_eq!(props.hero_chips[0].href.as_deref(), Some("/wiki/30-39-Knowledge/rust"));
}

#[test]
fn tests_an_array_meta_value_becomes_one_chip_per_entry() {
    let props = extract_from(obj(vec![("parent", MetaValue::Array(vec![text("[[rust]]"), text("other")]))]), None);
    assert_eq!(props.hero_chips.len(), 2);
    assert_eq!(props.hero_chips[1].href, None);
}

#[test]
fn tests_the_document_kind_fills_in_for_a_missing_type() {
    let rows = extract_from(obj(vec![("place", text("東京"))]), Some("person")).infobox_rows;
    assert!(rows.iter().any(|r| r.label == "種別" && r.value == "person"));
}

#[test]
fn tests_an_explicit_type_wins_over_the_document_kind() {
    let rows = extract_from(obj(vec![("type", text("キャラクター"))]), Some("person")).infobox_rows;
    let kinds: Vec<&str> = rows.iter().filter(|r| r.label == "種別").map(|r| r.value.as_str()).collect();
    assert_eq!(kinds, vec!["キャラクター"]);
}

#[test]
fn tests_excluded_keys_never_reach_the_infobox() {
    // `icon` and `banner` are chrome, not rows.
    let rows = extract_from(obj(vec![("banner", text("x.png")), ("icon", text("🎂")), ("place", text("東京"))]), None)
        .infobox_rows;
    let labels: Vec<&str> = rows.iter().map(|r| r.label.as_str()).collect();
    assert_eq!(labels, vec!["出身地"]);
}

#[test]
fn tests_external_urls_become_links_and_arrays_are_joined() {
    let rows = extract_from(
        obj(vec![("aliases", MetaValue::Array(vec![text("A"), text("B")])), ("url.wiki", text("https://example.com"))]),
        None,
    )
    .infobox_rows;

    let wiki = rows.iter().find(|r| r.label == "Wikipedia").unwrap();
    assert!(wiki.value.contains(r#"href="https://example.com""#));

    let aliases = rows.iter().find(|r| r.label == "別名 / 愛称").unwrap();
    assert_eq!(aliases.value, "A、B");
}

#[test]
fn tests_booleans_and_numbers_render_as_text() {
    let rows = extract_from(obj(vec![("flags", MetaValue::Bool(true)), ("rating", num("5"))]), None).infobox_rows;
    assert!(rows.iter().any(|r| r.value == "5"));
    assert!(rows.iter().any(|r| r.value == "Yes"));
}

#[test]
fn tests_element_link_in_hero_chips_and_infobox_rows() {
    let props = extract_from(
        obj(vec![
            ("author", link_element("link", obj(vec![("alias", text("Rust Lang")), ("target", text("rust"))]))),
            ("parent", link_element("link", obj(vec![("ref", text("rust"))]))),
        ]),
        None,
    );
    assert_eq!(props.hero_chips.len(), 1);
    assert_eq!(props.hero_chips[0].value, "rust");
    assert_eq!(props.hero_chips[0].href.as_deref(), Some("/wiki/30-39-Knowledge/rust"));
    assert!(props.linked_slugs.contains(&"30-39-Knowledge/rust".to_string()));

    let author_row = props.infobox_rows.iter().find(|r| r.label == "author").unwrap();
    assert!(author_row.value.contains(r#"href="/wiki/30-39-Knowledge/rust""#));
    assert!(author_row.value.contains("Rust Lang"));
}

#[test]
fn tests_icon_as_embed_or_link_or_image_path_resolves() {
    let props_embed = extract_from(
        obj(vec![("icon", link_element("embed", obj(vec![("target", text("avatar.png"))])))]),
        None,
    );
    assert_eq!(
        props_embed.icon.as_deref(),
        Some(r#"<img class="tm-doc-icon-img" src="/vault/avatar.png" alt="icon" loading="lazy">"#)
    );
    assert_eq!(props_embed.icon_image_url.as_deref(), Some("/vault/avatar.png"));

    let props_link = extract_from(obj(vec![("icon", link_element("link", text("avatar.png")))]), None);
    assert_eq!(
        props_link.icon.as_deref(),
        Some(r#"<img class="tm-doc-icon-img" src="/vault/avatar.png" alt="icon" loading="lazy">"#)
    );

    let props_str = extract_from(obj(vec![("icon", text("profile.jpg"))]), None);
    assert_eq!(
        props_str.icon.as_deref(),
        Some(r#"<img class="tm-doc-icon-img" src="/vault/profile.jpg" alt="icon" loading="lazy">"#)
    );

    let props_emoji = extract_from(obj(vec![("icon", text("🎂"))]), None);
    assert_eq!(props_emoji.icon.as_deref(), Some(r#"<span class="avatar-text avatar-text-1">🎂</span>"#));
    assert_eq!(props_emoji.icon_image_url, None);
}

#[test]
fn tests_no_metadata_yields_nothing_to_show() {
    let config = BookConfig::default();
    let cx = link_context(&config, vec![]);
    let none = IconSet { names: vec![] };
    let props = extract(None, None, &cx, &config, &none, &none);
    assert!(!props.has_data());
    assert!(props.infobox_rows.is_empty());
}

#[test]
fn tests_media_references_resolve_under_the_asset_prefix() {
    let props = extract_from(
        obj(vec![("banner", text("hero.png")), ("images", MetaValue::Array(vec![text("a.png"), text("b.png")]))]),
        None,
    );
    assert_eq!(props.banner_url.as_deref(), Some("/vault/hero.png"));
    assert_eq!(props.images, vec!["/vault/a.png", "/vault/b.png"]);
    assert!(props.has_data());
}

#[test]
fn tests_element_link_in_banner_and_images_resolves() {
    let props = extract_from(
        obj(vec![
            ("banner", link_element("link", obj(vec![("ref", text("+771a.svg"))]))),
            (
                "images",
                MetaValue::Array(vec![
                    link_element("link", obj(vec![("ref", text("a.png"))])),
                    link_element("link", text("b.png")),
                ]),
            ),
        ]),
        None,
    );
    assert_eq!(props.banner_url.as_deref(), Some("/vault/+771a.svg"));
    assert_eq!(props.images, vec!["/vault/a.png", "/vault/b.png"]);
    assert!(props.has_data());
}

#[test]
fn meta_only_hex_colours_become_the_primary_colour() {
    assert_eq!(
        extract_from(obj(vec![("colors", MetaValue::Array(vec![text("#A1B2C3"), text("#000")]))]), None)
            .primary_color
            .as_deref(),
        Some("a1b2c3")
    );
    assert_eq!(extract_from(obj(vec![("colors", text("red"))]), None).primary_color, None);
}

#[test]
fn meta_banner_y_accepts_both_spellings_and_both_number_types() {
    let y = |p: MetaProperties| p.banner_y.map(|n| n.parse::<f64>().unwrap());
    assert_eq!(y(extract_from(obj(vec![("banner-y", num("11"))]), None)), Some(11.0));
    assert_eq!(y(extract_from(obj(vec![("banner_y", num("12.5"))]), None)), Some(12.5));
}

#[test]
fn meta_an_array_meta_value_becomes_one_chip_per_entry() {
    let props = extract_from(obj(vec![("parent", MetaValue::Array(vec![text("[[rust]]"), text("other")]))]), None);
    assert_eq!(props.hero_chips.len(), 2);
    assert_eq!(props.hero_chips[1].href, None);
}

#[test]
fn meta_the_document_kind_fills_in_for_a_missing_type() {
    let rows = extract_from(obj(vec![("place", text("東京"))]), Some("person")).infobox_rows;
    assert!(rows.iter().any(|r| r.label == "種別" && r.value == "person"));
}

#[test]
fn meta_an_explicit_type_wins_over_the_document_kind() {
    let rows = extract_from(obj(vec![("type", text("キャラクター"))]), Some("person")).infobox_rows;
    let kinds: Vec<&str> = rows.iter().filter(|r| r.label == "種別").map(|r| r.value.as_str()).collect();
    assert_eq!(kinds, vec!["キャラクター"]);
}

#[test]
fn meta_excluded_keys_never_reach_the_infobox() {
    // `icon` and `banner` are chrome, not rows.
    let rows = extract_from(obj(vec![("banner", text("x.png")), ("icon", text("🎂")), ("place", text("東京"))]), None)
        .infobox_rows;
    let labels: Vec<&str> = rows.iter().map(|r| r.label.as_str()).collect();
    assert_eq!(labels, vec!["出身地"]);
}

#[test]
fn meta_external_urls_become_links_and_arrays_are_joined() {
    let rows = extract_from(
        obj(vec![("aliases", MetaValue::Array(vec![text("A"), text("B")])), ("url.wiki", text("https://example.com"))]),
        None,
    )
    .infobox_rows;

    let wiki = rows.iter().find(|r| r.label == "Wikipedia").unwrap();
    assert!(wiki.value.contains(r#"href="https://example.com""#));

    let aliases = rows.iter().find(|r| r.label == "別名 / 愛称").unwrap();
    assert_eq!(aliases.value, "A、B");
}

#[test]
fn meta_booleans_and_numbers_render_as_text() {
    let rows = extract_from(obj(vec![("flags", MetaValue::Bool(true)), ("rating", num("5"))]), None).infobox_rows;
    assert!(rows.iter().any(|r| r.value == "5"));
    assert!(rows.iter().any(|r| r.value == "Yes"));
}

#[test]
fn meta_icon_as_embed_or_link_or_image_path_resolves() {
    let props_embed = extract_from(
        obj(vec![("icon", link_element("embed", obj(vec![("target", text("avatar.png"))])))]),
        None,
    );
    assert_eq!(
        props_embed.icon.as_deref(),
        Some(r#"<img class="tm-doc-icon-img" src="/vault/avatar.png" alt="icon" loading="lazy">"#)
    );
    assert_eq!(props_embed.icon_image_url.as_deref(), Some("/vault/avatar.png"));

    let props_link = extract_from(obj(vec![("icon", link_element("link", text("avatar.png")))]), None);
    assert_eq!(
        props_link.icon.as_deref(),
        Some(r#"<img class="tm-doc-icon-img" src="/vault/avatar.png" alt="icon" loading="lazy">"#)
    );

    let props_str = extract_from(obj(vec![("icon", text("profile.jpg"))]), None);
    assert_eq!(
        props_str.icon.as_deref(),
        Some(r#"<img class="tm-doc-icon-img" src="/vault/profile.jpg" alt="icon" loading="lazy">"#)
    );

    let props_emoji = extract_from(obj(vec![("icon", text("🎂"))]), None);
    assert_eq!(props_emoji.icon.as_deref(), Some(r#"<span class="avatar-text avatar-text-1">🎂</span>"#));
    assert_eq!(props_emoji.icon_image_url, None);
}

#[test]
fn meta_no_metadata_yields_nothing_to_show() {
    let config = BookConfig::default();
    let cx = link_context(&config, vec![]);
    let none = IconSet { names: vec![] };
    let props = extract(None, None, &cx, &config, &none, &none);
    assert!(!props.has_data());
    assert!(props.infobox_rows.is_empty());
}

#[test]
fn meta_media_references_resolve_under_the_asset_prefix() {
    let props = extract_from(
        obj(vec![("banner", text("hero.png")), ("images", MetaValue::Array(vec![text("a.png"), text("b.png")]))]),
        None,
    );
    assert_eq!(props.banner_url.as_deref(), Some("/vault/hero.png"));
    assert_eq!(props.images, vec!["/vault/a.png", "/vault/b.png"]);
    assert!(props.has_data());
}

#[test]
fn meta_element_link_in_banner_and_images_resolves() {
    let props = extract_from(
        obj(vec![
            ("banner", link_element("link", obj(vec![("ref", text("+771a.svg"))]))),
            (
                "images",
                MetaValue::Array(vec![
                    link_element("link", obj(vec![("ref", text("a.png"))])),
                    link_element("link", text("b.png")),
                ]),
            ),
        ]),
        None,
    );
    assert_eq!(props.banner_url.as_deref(), Some("/vault/+771a.svg"));
    assert_eq!(props.images, vec!["/vault/a.png", "/vault/b.png"]);
    assert!(props.has_data());
}
