use tmtbook::document::ProcessedDoc;
use tmtbook::meta::InfoboxRowItem;
use tmtbook::search::build_search_index;
use tmtbook::toc::TocItem;

fn page(slug: &str, rows: Vec<(&str, &str)>) -> ProcessedDoc {
    ProcessedDoc {
        slug: slug.to_string(),
        rel_path: format!("{slug}.tmt"),
        source_path: format!("/v/{slug}.tmt"),
        title: "Title".to_string(),
        section: Some("S".to_string()),
        kind: None,
        primary_color: None,
        icon: None,
        icon_image_url: None,
        link_icon: None,
        banner_url: Some("/vault/b.png".to_string()),
        banner_original_url: None,
        banner_y: None,
        images: vec![],
        original_images: vec![],
        hero_chips: vec![],
        infobox_rows: rows
            .into_iter()
            .map(|(l, v)| InfoboxRowItem { label: l.to_string(), value: v.to_string() })
            .collect(),
        has_data: false,
        toc: vec![TocItem { id: "h".to_string(), level: 2, text: "Heading".to_string() }],
        section_tabs: vec![],
        body_html: "<p>Hello <b>there</b></p>".to_string(),
        outgoing: vec![],
    }
}

#[test]
fn search_index_numbers_pages_and_splits_aliases() {
    let docs = vec![
        page("a", vec![("Aliases", "Foo, Bar、 Foo ;;Baz"), ("place", "x")]),
        page("b", vec![("別名 / 愛称", " Q ")]),
    ];
    let index = build_search_index(&docs, "/wiki");
    assert_eq!(index.docs.len(), 2);
    let a = &index.docs[0];
    assert_eq!(a.id, 0);
    assert_eq!(a.url, "/wiki/a");
    assert_eq!(a.aliases, vec!["Foo", "Bar", "Baz"]);
    assert_eq!(a.headings, vec!["Heading"]);
    assert_eq!(a.text, "Hello there");
    assert_eq!(a.image.as_deref(), Some("/vault/b.png"));
    assert_eq!(index.docs[1].id, 1);
    assert_eq!(index.docs[1].aliases, vec!["Q"]);
}

#[test]
fn test_build_search_index_extracts_aliases_and_plain_text() {
    let doc = ProcessedDoc {
        slug: "talents/raora".to_string(),
        rel_path: "talents/raora.tmt".to_string(),
        source_path: "/vault/talents/raora.tmt".to_string(),
        title: "Raora Panthera".to_string(),
        section: Some("talents".to_string()),
        kind: Some("talent".to_string()),
        primary_color: None,
        icon: None,
        icon_image_url: Some("/vault/img/raora_icon.png".to_string()),
        link_icon: None,
        banner_url: None,
        banner_original_url: None,
        banner_y: None,
        images: vec![],
        original_images: vec![],
        hero_chips: vec![],
        infobox_rows: vec![InfoboxRowItem {
            label: "別名 / 愛称".to_string(),
            value: "ラオラ, Raora".to_string(),
        }],
        has_data: true,
        toc: vec![TocItem { level: 2, id: "overview".to_string(), text: "Overview".to_string() }],
        section_tabs: vec![],
        body_html: "<h2>Overview</h2><p>Artist from Italy &amp; VTuber.</p>".to_string(),
        outgoing: vec![],
    };

    let index = build_search_index(&vec![doc], "/wiki");
    assert_eq!(index.docs.len(), 1);
    let d = &index.docs[0];
    assert_eq!(d.slug, "talents/raora");
    assert_eq!(d.title, "Raora Panthera");
    assert_eq!(d.url, "/wiki/talents/raora");
    assert_eq!(d.aliases, vec!["ラオラ", "Raora"]);
    assert_eq!(d.headings, vec!["Overview"]);
    assert_eq!(d.image, Some("/vault/img/raora_icon.png".to_string()));
    assert_eq!(d.text, "Overview Artist from Italy & VTuber.");
}
