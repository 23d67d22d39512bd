use tmtbook::config::BookConfig;
use tmtbook::html::{escape_html, sanitize_color_hex};
use tmtbook::icon::IconSet;
use tmtbook::links::{clean_ref_target_checked, parse_link_ref_checked};
use tmtbook::meta::targets::meta_targets;
use tmtbook::meta::value::MetaValue;
use tmtbook::meta::{extract_checked, link_context};
use tmtbook::search::strip_html_to_plain_text;
use tmtbook::slug::{clean_doc_slug, clean_segment};

fn unescape(s: &str) -> String {
    s.replace("&lt;", "<").replace("&gt;", ">").replace("&quot;", "\"").replace("&#39;", "'").replace("&amp;", "&")
}

#[test]
fn escaping_then_unescaping_gives_the_text_back() {
    for raw in [r#"<a href="x">Tom & 'Jerry'</a>"#, "&amp;lt;", "plain 日本語", ""] {
        let out = escape_html(raw);
        assert!(!out.contains(['<', '>', '"', '\'']));
        assert_eq!(unescape(&out), raw);
    }
}

#[test]
fn a_sanitized_colour_sanitizes_to_itself() {
    let h = sanitize_color_hex("  #A1b2C3 ").unwrap();
    assert_eq!(h, "a1b2c3");
    assert_eq!(sanitize_color_hex(&h).as_deref(), Some("a1b2c3"));
}

#[test]
fn cleaning_a_clean_segment_changes_nothing() {
    for seg in ["Rust (基礎) 🦀", "  spaced  out  ", "🦀🦀", "(o_O)", "foo---bar"] {
        let once = clean_segment(seg);
        assert_eq!(clean_segment(&once), once);
    }
}

#[test]
fn a_slug_has_one_clean_segment_per_path_piece() {
    let slug = clean_doc_slug("30-39 📚 読書//Rust (基礎) 🦀.tmt");
    let segs: Vec<&str> = slug.split('/').collect();
    assert_eq!(segs, vec!["30-39-読書", "Rust-基礎"]);
    for g in segs {
        assert!(!g.is_empty() && !g.starts_with(['-', '_']) && !g.ends_with(['-', '_']) && !g.contains("--"));
    }
}

#[test]
fn tag_free_text_is_its_words_joined_by_spaces() {
    let text = "  several\twords \n here  ";
    assert_eq!(strip_html_to_plain_text(text), text.split_whitespace().collect::<Vec<_>>().join(" "));
    let html = "<p>one</p>  <div>two\u{a0}three</div>";
    let out = strip_html_to_plain_text(html);
    assert!(!out.starts_with(' ') && !out.ends_with(' ') && !out.contains("  "));
}

#[test]
fn checked_link_parsing_refuses_a_lone_quote() {
    assert!(parse_link_ref_checked("\"").is_none());
    assert!(clean_ref_target_checked("\"").is_none());
    let parsed = parse_link_ref_checked("[[rust|ラスト]]").unwrap();
    assert_eq!(parsed.target, "rust");
    assert_eq!(parsed.alias.as_deref(), Some("ラスト"));
    assert_eq!(clean_ref_target_checked("@link(ref:\"@foo\")").as_deref(), Some("foo"));
}

#[test]
fn checked_extraction_refuses_metadata_link_parsing_cannot_read() {
    let config = BookConfig::default();
    let cx = link_context(&config, vec![]);
    let none = IconSet { names: vec![] };
    let bad = MetaValue::Object(vec![("parent".to_string(), MetaValue::Text("\"".to_string()))]);
    assert!(extract_checked(Some(&bad), None, &cx, &config, &none, &none).is_none());
    let good = MetaValue::Object(vec![("colors".to_string(), MetaValue::Text("#ABC".to_string()))]);
    let props = extract_checked(Some(&good), None, &cx, &config, &none, &none).unwrap();
    assert_eq!(props.primary_color.as_deref(), Some("abc"));
    assert!(extract_checked(None, None, &cx, &config, &none, &none).is_some());
}

#[test]
fn metadata_targets_are_listed_once_in_the_order_first_met() {
    let meta = MetaValue::Object(vec![
        ("parent".to_string(), MetaValue::Text("[[rust]]".to_string())),
        (
            "tags".to_string(),
            MetaValue::Array(vec![MetaValue::Text("[[rust]]".to_string()), MetaValue::Number("3".to_string())]),
        ),
    ]);
    let targets = meta_targets(Some(&meta));
    assert_eq!(targets[0], "rust");
    assert!(targets.contains(&"[[rust]]".to_string()));
    let mut sorted = targets.clone();
    sorted.sort();
    sorted.dedup();
    assert_eq!(sorted.len(), targets.len());
    assert!(meta_targets(None).is_empty());
}
