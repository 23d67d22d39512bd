use tmtbook::document::{
    assemble_document, merge_outgoing, outgoing_page_slugs, resolve_title, section_of, RenderedDocument,
};
use tmtbook::meta::value::MetaValue;
use tmtbook::meta::MetaProperties;
use tmtbook::toc::HeadingInfo;

fn meta_with_title(t: &str) -> MetaValue {
    MetaValue::Object(vec![("title".to_string(), MetaValue::Text(t.to_string()))])
}

#[test]
fn meta_title_wins_over_everything() {
    let meta = meta_with_title("From Meta");
    assert_eq!(resolve_title("notes/file.tmt", Some(&meta), Some("From H1".into())), "From Meta");
}

#[test]
fn a_named_file_keeps_its_name() {
    assert_eq!(resolve_title("notes/Rust.tmt", None, Some("Some Heading".into())), "Rust");
}

#[test]
fn a_generic_filename_defers_to_the_first_heading() {
    for stem in ["index", "README"] {
        let path = format!("notes/{stem}.tmt");
        assert_eq!(resolve_title(&path, None, Some("Real Title".into())), "Real Title");
    }
}

#[test]
fn a_generic_filename_with_no_heading_falls_back_to_the_stem() {
    assert_eq!(resolve_title("notes/index.tmt", None, None), "index");
}

#[test]
fn a_page_sits_in_its_top_level_folder() {
    assert_eq!(section_of("30-39 Knowledge/01 Dev/a.tmt").as_deref(), Some("30-39 Knowledge"));
    assert_eq!(section_of("a.tmt"), None);
}

#[test]
fn links_to_unpublished_or_non_documents_or_itself_are_not_outgoing_pages() {
    let resolved = vec![
        "secret.tmt".to_string(),
        "notes\\other.tmt".to_string(),
        "image.png".to_string(),
        "page.tmt".to_string(),
        "notes/other.tmt".to_string(),
    ];
    let unpublished = vec!["secret.tmt".to_string()];
    assert_eq!(outgoing_page_slugs(&resolved, "page", &unpublished), vec!["notes/other"]);
}

#[test]
fn metadata_links_join_the_body_links_once() {
    let mut outgoing = vec!["a".to_string()];
    merge_outgoing(&mut outgoing, &vec!["a".to_string(), "self".to_string(), "b".to_string(), "b".to_string()], "self");
    assert_eq!(outgoing, vec!["a", "b"]);
}

fn heading(level: u8, text: &str, id: Option<&str>) -> HeadingInfo {
    HeadingInfo { level, text: text.to_string(), id: id.map(|s| s.to_string()), number: None }
}

#[test]
fn an_assembled_page_drops_a_heading_that_repeats_its_title() {
    let doc = RenderedDocument {
        kind: Some("person".to_string()),
        meta: None,
        meta_icon: Some("<svg/>".to_string()),
        body_html: "<h1>Rust</h1><p>x</p>".to_string(),
        outline: vec![heading(1, "Rust", Some("rust")), heading(2, "Usage", Some("usage"))],
        outgoing: vec!["other".to_string()],
    };
    let mut props = MetaProperties::default();
    props.linked_slugs = vec!["notes/Rust".to_string(), "more".to_string()];
    props.banner_url = Some("/vault/b.png".to_string());
    let page = assemble_document("notes/Rust.tmt", None, doc, props);
    assert_eq!(page.slug, "notes/Rust");
    assert_eq!(page.title, "Rust");
    assert_eq!(page.source_path, "notes/Rust.tmt");
    assert_eq!(page.toc.len(), 1);
    assert_eq!(page.toc[0].text, "Usage");
    assert_eq!(page.section_tabs.len(), 1);
    assert_eq!(page.icon.as_deref(), Some("<svg/>"));
    assert_eq!(page.banner_original_url.as_deref(), Some("/vault/b.png"));
    assert!(page.has_data);
    assert_eq!(page.outgoing, vec!["other", "more"]);
}
