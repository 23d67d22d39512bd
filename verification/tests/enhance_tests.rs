use tmtbook::code::enhance_code_blocks;
use tmtbook::config::{FaviconService, LinksConfig, MarkerEntryConfig, MarkersConfig};
use tmtbook::external_links::enhance_external_links;
use tmtbook::icon::{render_doc_icon, IconSet};
use tmtbook::internal_links::enhance_internal_links;
use tmtbook::marker::enhance_list_markers;
use tmtbook::table::StringTable;

fn simple_icons() -> IconSet {
    IconSet { names: vec!["github".to_string(), "zenn".to_string()] }
}

fn lucide_icons() -> IconSet {
    let names = [
        "square",
        "square-check",
        "clock",
        "circle-minus",
        "triangle-alert",
        "circle-question-mark",
        "star",
        "flame",
        "bug",
        "lightbulb",
        "copy",
    ];
    IconSet { names: names.iter().map(|n| n.to_string()).collect() }
}

fn markers(enable: bool, strikethrough: bool) -> MarkersConfig {
    MarkersConfig { enable, strikethrough, custom: Vec::new() }
}

fn icon_table(key: &str, value: &str) -> StringTable {
    let mut t = StringTable::new();
    t.insert(key.to_string(), value.to_string());
    t
}

// ---- code blocks ----

#[test]
fn wraps_code_block_with_language_label_and_copy_button() {
    let html = r#"<pre><code class="language-toml">[ui.markers]
enable = true</code></pre>"#;
    let out = enhance_code_blocks(html, None);

    assert!(out.contains("<div class=\"code-block-wrapper\">"));
    assert!(out.contains("<span class=\"code-lang\">toml</span>"));
    assert!(out.contains("class=\"code-copy-btn\""));
    assert!(out.contains("title=\"コードをコピー\""));
    assert!(out.contains("<use href=\"/icons/lucide.svg#copy\"></use>"));
    assert!(out.contains(r#"<pre><code class="language-toml">[ui.markers]
enable = true</code></pre>"#));
}

#[test]
fn wraps_code_block_without_language_label() {
    let html = "<pre><code>plain code</code></pre>";
    let out = enhance_code_blocks(html, None);

    assert!(out.contains("<div class=\"code-block-wrapper\">"));
    assert!(!out.contains("code-lang"));
    assert!(out.contains("class=\"code-copy-btn\""));
    assert!(out.contains("<pre><code>plain code</code></pre>"));
}

#[test]
fn preserves_pre_and_code_attributes() {
    let html = r#"<pre id="snippet1" class="custom-pre"><code class="language-rust custom-code">fn main() {}</code></pre>"#;
    let out = enhance_code_blocks(html, None);

    assert!(out.contains("<span class=\"code-lang\">rust</span>"));
    assert!(out.contains(r#"<pre id="snippet1" class="custom-pre"><code class="language-rust custom-code">fn main() {}</code></pre>"#));
}

#[test]
fn supports_english_copy_title() {
    let html = r#"<pre><code class="language-rust">fn main() {}</code></pre>"#;
    let out = enhance_code_blocks(html, Some("en"));

    assert!(out.contains("title=\"Copy code\""));
    assert!(out.contains("aria-label=\"Copy code\""));
}

#[test]
fn code_text_outside_a_block_is_left_as_it_is() {
    let html = "<p>no code here</p>";
    assert_eq!(enhance_code_blocks(html, None), html);
}

// ---- external links ----

#[test]
fn enhances_github_link_with_simple_icon() {
    let config = LinksConfig::default();
    let html = r#"<p><a class="tm-url" href="https://github.com/tomet-lang/tomet">GitHub</a></p>"#;
    let out = enhance_external_links(html, &config, &simple_icons());
    assert_eq!(
        out,
        r#"<p><a class="tm-url" href="https://github.com/tomet-lang/tomet"><svg class="tm-link-icon" aria-hidden="true"><use href="/icons/simple.svg#github"></use></svg>GitHub</a></p>"#
    );
}

#[test]
fn enhances_zenn_link_with_simple_icon() {
    let config = LinksConfig::default();
    let html = r#"<p><a class="tm-url" href="https://zenn.dev/articles/123">Zenn Article</a></p>"#;
    let out = enhance_external_links(html, &config, &simple_icons());
    assert!(out.contains("/icons/simple.svg#zenn"));
}

#[test]
fn enhances_unknown_domain_with_google_favicon() {
    let config = LinksConfig::default();
    let html = r#"<p><a class="tm-url" href="https://example.com/blog">My Blog</a></p>"#;
    let out = enhance_external_links(html, &config, &simple_icons());
    assert!(out.contains(
        r#"<img class="tm-link-icon tm-link-favicon" src="https://www.google.com/s2/favicons?domain=example.com&amp;sz=32""#
    ));
}

#[test]
fn enhances_unknown_domain_with_duckduckgo_favicon() {
    let config = LinksConfig {
        external_icons: true,
        note_icons: true,
        favicon_service: FaviconService::DuckDuckGo,
    };
    let html = r#"<p><a class="tm-url" href="https://example.com/blog">My Blog</a></p>"#;
    let out = enhance_external_links(html, &config, &simple_icons());
    assert!(out.contains(
        r#"<img class="tm-link-icon tm-link-favicon" src="https://icons.duckduckgo.com/ip3/example.com.ico""#
    ));
}

#[test]
fn leaves_links_alone_when_disabled() {
    let config = LinksConfig {
        external_icons: false,
        note_icons: true,
        favicon_service: FaviconService::Google,
    };
    let html = r#"<p><a class="tm-url" href="https://github.com/">GitHub</a></p>"#;
    let out = enhance_external_links(html, &config, &simple_icons());
    assert_eq!(out, html);
}

#[test]
fn does_not_add_icon_to_links_already_containing_images() {
    let config = LinksConfig::default();
    let html = r#"<p><a href="https://github.com/"><img src="badge.png" alt="badge"></a></p>"#;
    let out = enhance_external_links(html, &config, &simple_icons());
    assert_eq!(out, html);
}

#[test]
fn does_not_add_icon_when_favicon_service_none_and_not_known_brand() {
    let config = LinksConfig {
        external_icons: true,
        note_icons: true,
        favicon_service: FaviconService::Disabled,
    };
    let html = r#"<p><a href="https://unknown-domain-123.com/">Link</a></p>"#;
    let out = enhance_external_links(html, &config, &simple_icons());
    assert_eq!(out, html);
}

// ---- internal links ----

#[test]
fn enhances_internal_link_with_note_icon() {
    let icons = icon_table(
        "Shopify",
        r#"<span class="tm-link-icon tm-link-icon-emoji" aria-hidden="true">🛍️</span>"#,
    );
    let html = r#"<p><a class="tm-file" href="/wiki/Shopify">Shopify</a></p>"#;
    let out = enhance_internal_links(html, &icons, "/wiki");
    assert_eq!(
        out,
        r#"<p><a class="tm-file" href="/wiki/Shopify"><span class="tm-link-icon tm-link-icon-emoji" aria-hidden="true">🛍️</span>Shopify</a></p>"#
    );
}

#[test]
fn enhances_internal_link_with_anchor_fragment() {
    let icons = icon_table(
        "30-39 Knowledge/Shopify",
        r#"<svg class="tm-link-icon tm-link-icon-lucide" aria-hidden="true"><use href="/icons/lucide.svg#store"></use></svg>"#,
    );
    let html = r#"<p><a class="tm-file" href="/wiki/30-39 Knowledge/Shopify#pricing">Shopify Pricing</a></p>"#;
    let out = enhance_internal_links(html, &icons, "/wiki");
    assert_eq!(
        out,
        r#"<p><a class="tm-file" href="/wiki/30-39 Knowledge/Shopify#pricing"><svg class="tm-link-icon tm-link-icon-lucide" aria-hidden="true"><use href="/icons/lucide.svg#store"></use></svg>Shopify Pricing</a></p>"#
    );
}

#[test]
fn enhances_internal_link_with_url_decoding() {
    let icons = icon_table(
        "My Notes",
        r#"<svg class="tm-link-icon tm-link-icon-lucide" aria-hidden="true"><use href="/icons/lucide.svg#file-text"></use></svg>"#,
    );
    let html = r#"<p><a class="tm-file" href="/wiki/My%20Notes">My Notes</a></p>"#;
    let out = enhance_internal_links(html, &icons, "/wiki");
    assert!(out.contains("file-text"));
}

#[test]
fn skips_unresolved_links() {
    let icons = icon_table("Secret", r#"<span class="tm-link-icon tm-link-icon-emoji">🔒</span>"#);
    let html = r#"<p><a class="tm-ref tm-ref-unresolved" aria-disabled="true" data-ref="Secret">Secret</a></p>"#;
    let out = enhance_internal_links(html, &icons, "/wiki");
    assert_eq!(out, html);
}

#[test]
fn skips_links_already_containing_images_or_icons() {
    let icons = icon_table("Shopify", r#"<span class="tm-link-icon">🛍️</span>"#);
    let html = r#"<p><a class="tm-file" href="/wiki/Shopify"><img src="badge.png" alt="" /></a></p>"#;
    let out = enhance_internal_links(html, &icons, "/wiki");
    assert_eq!(out, html);
}

#[test]
fn skips_external_links() {
    let icons = icon_table("example", r#"<span class="tm-link-icon">🌐</span>"#);
    let html = r#"<p><a class="tm-url" href="https://example.com">Example</a></p>"#;
    let out = enhance_internal_links(html, &icons, "/wiki");
    assert_eq!(out, html);
}

#[test]
fn works_with_empty_url_prefix() {
    let icons = icon_table(
        "docs/guide",
        r#"<span class="tm-link-icon tm-link-icon-emoji" aria-hidden="true">📖</span>"#,
    );
    let html = r#"<p><a class="tm-file" href="/docs/guide">Guide</a></p>"#;
    let out = enhance_internal_links(html, &icons, "");
    assert_eq!(
        out,
        r#"<p><a class="tm-file" href="/docs/guide"><span class="tm-link-icon tm-link-icon-emoji" aria-hidden="true">📖</span>Guide</a></p>"#
    );
}

// ---- list markers ----

#[test]
fn disabled_by_default_renders_all_markers_as_badges_without_icons_or_strikethrough() {
    let config = MarkersConfig::default();
    let html = "<ul>\n<li><span class=\"tm-list-marker\" data-marker=\"x\">[x]</span> task</li>\n<li><span class=\"tm-list-marker\" data-marker=\"12:01\">[12:01]</span> breakfast</li>\n</ul>";
    let out = enhance_list_markers(html, &config, &lucide_icons());

    assert!(!out.contains("<svg"), "must not contain svg icon when disabled");
    assert!(!out.contains("tm-task-done"), "must not have done class");
    assert!(out.contains("<li class=\"tm-list-item-with-badge\">"));
    assert!(out.contains(
        "<span class=\"tm-list-marker tm-list-marker-badge\" data-marker=\"x\">x</span>"
    ));
    assert!(out.contains(
        "<span class=\"tm-list-marker tm-list-marker-badge\" data-marker=\"12:01\">12:01</span>"
    ));
}

#[test]
fn enabled_renders_empty_marker_as_square_checkbox() {
    let config = markers(true, true);
    let html = "<ul>\n<li><span class=\"tm-list-marker\"></span> todo item</li>\n</ul>";
    let out = enhance_list_markers(html, &config, &lucide_icons());

    assert!(out.contains("class=\"tm-task-item\""));
    assert!(out.contains("<use href=\"/icons/lucide.svg#square\"></use>"));
}

#[test]
fn enabled_renders_x_as_done_checkbox_with_strikethrough() {
    let config = markers(true, true);
    let html = "<ul>\n<li><span class=\"tm-list-marker\" data-marker=\"x\">[x]</span> completed task</li>\n</ul>";
    let out = enhance_list_markers(html, &config, &lucide_icons());

    assert!(out.contains("class=\"tm-task-item tm-task-done tm-strikethrough\""));
    assert!(out.contains("<use href=\"/icons/lucide.svg#square-check\"></use>"));
    assert!(out.contains("tm-marker-done"));
}

#[test]
fn enabled_renders_done_without_strikethrough_when_disabled_in_config() {
    let config = markers(true, false);
    let html = "<ul>\n<li><span class=\"tm-list-marker\" data-marker=\"x\">[x]</span> completed task</li>\n</ul>";
    let out = enhance_list_markers(html, &config, &lucide_icons());

    assert!(out.contains("class=\"tm-task-item tm-task-done\""));
    assert!(!out.contains("tm-strikethrough"));
    assert!(out.contains("<use href=\"/icons/lucide.svg#square-check\"></use>"));
}

#[test]
fn enabled_renders_builtin_alternate_markers() {
    let config = markers(true, true);
    let html = r#"<ul>
<li><span class="tm-list-marker" data-marker="/">[/]</span> in progress</li>
<li><span class="tm-list-marker" data-marker="-">[-]</span> canceled</li>
<li><span class="tm-list-marker" data-marker="!">!]</span> important</li>
<li><span class="tm-list-marker" data-marker="?">[?]</span> question</li>
<li><span class="tm-list-marker" data-marker="*">[*]</span> star</li>
</ul>"#;
    let out = enhance_list_markers(html, &config, &lucide_icons());

    assert!(out.contains("<use href=\"/icons/lucide.svg#clock\"></use>"));
    assert!(out.contains("<use href=\"/icons/lucide.svg#circle-minus\"></use>"));
    assert!(out.contains("<use href=\"/icons/lucide.svg#triangle-alert\"></use>"));
    assert!(out.contains("<use href=\"/icons/lucide.svg#circle-question-mark\"></use>"));
    assert!(out.contains("<use href=\"/icons/lucide.svg#star\"></use>"));
}

#[test]
fn enabled_supports_direct_lucide_icon_and_namespaced_icon() {
    let config = markers(true, true);
    let html = r#"<ul>
<li><span class="tm-list-marker" data-marker="flame">[flame]</span> hot</li>
<li><span class="tm-list-marker" data-marker="lucide.bug">[lucide.bug]</span> bug</li>
</ul>"#;
    let out = enhance_list_markers(html, &config, &lucide_icons());

    assert!(out.contains("<use href=\"/icons/lucide.svg#flame\"></use>"));
    assert!(out.contains("<use href=\"/icons/lucide.svg#bug\"></use>"));
}

#[test]
fn unmapped_text_becomes_a_badge_even_when_enabled() {
    let config = markers(true, true);
    let html = "<ul>\n<li><span class=\"tm-list-marker\" data-marker=\"12:01\">[12:01]</span> breakfast</li>\n</ul>";
    let out = enhance_list_markers(html, &config, &lucide_icons());

    assert!(!out.contains("<svg"));
    assert!(out.contains("<li class=\"tm-list-item-with-badge\">"));
    assert!(out.contains(
        "<span class=\"tm-list-marker tm-list-marker-badge\" data-marker=\"12:01\">12:01</span>"
    ));
}

#[test]
fn custom_marker_overrides_builtin() {
    let custom = vec![(
        "fire".to_string(),
        MarkerEntryConfig::Detailed {
            icon: "flame".to_string(),
            color: Some("#f97316".to_string()),
            pkg: None,
        },
    )];
    let config = MarkersConfig { enable: true, strikethrough: true, custom };
    let html = "<ul>\n<li><span class=\"tm-list-marker\" data-marker=\"fire\">[fire]</span> fire item</li>\n</ul>";
    let out = enhance_list_markers(html, &config, &lucide_icons());

    assert!(out.contains("<use href=\"/icons/lucide.svg#flame\"></use>"));
    assert!(out.contains("style=\"--marker-color: #f97316;\""));
}

#[test]
fn icon_marker_drops_the_redundant_trailing_space() {
    let custom = vec![(
        "idea".to_string(),
        MarkerEntryConfig::Detailed {
            icon: "lightbulb".to_string(),
            color: Some("#ffee00".to_string()),
            pkg: None,
        },
    )];
    let config = MarkersConfig { enable: true, strikethrough: true, custom };
    let html = "<ul>\n<li><span class=\"tm-list-marker\" data-marker=\"idea\">[idea]</span> content</li>\n</ul>";
    let out = enhance_list_markers(html, &config, &lucide_icons());
    assert!(
        out.contains("</span>content"),
        "expected no literal space between marker span and content, got: {out}"
    );
}

#[test]
fn renders_badge_with_inline_elements() {
    let config = MarkersConfig::default();
    let html = "<ul>\n<li><span class=\"tm-list-marker\"><em>Important</em></span> content</li>\n<li><span class=\"tm-list-marker\"><a class=\"tm-url\" href=\"https://example.com\">Wiki</a></span> docs</li>\n</ul>";
    let out = enhance_list_markers(html, &config, &lucide_icons());

    assert!(out.contains(
        "<li class=\"tm-list-item-with-badge\"><span class=\"tm-list-marker tm-list-marker-badge\"><em>Important</em></span>content</li>"
    ));
    assert!(out.contains(
        "<li class=\"tm-list-item-with-badge\"><span class=\"tm-list-marker tm-list-marker-badge\"><a class=\"tm-url\" href=\"https://example.com\">Wiki</a></span>docs</li>"
    ));
}

#[test]
fn enabled_renders_badge_with_inline_elements() {
    let config = markers(true, true);
    let html = "<ul>\n<li><span class=\"tm-list-marker\"><em>Important</em></span> content</li>\n<li><span class=\"tm-list-marker\"><a class=\"tm-url\" href=\"https://example.com\">Wiki</a></span> docs</li>\n</ul>";
    let out = enhance_list_markers(html, &config, &lucide_icons());

    assert!(out.contains(
        "<li class=\"tm-list-item-with-badge\"><span class=\"tm-list-marker tm-list-marker-badge\"><em>Important</em></span>content</li>"
    ));
    assert!(out.contains(
        "<li class=\"tm-list-item-with-badge\"><span class=\"tm-list-marker tm-list-marker-badge\"><a class=\"tm-url\" href=\"https://example.com\">Wiki</a></span>docs</li>"
    ));
}

// ---- doc.icon ----

fn star_only() -> IconSet {
    IconSet { names: vec!["star".to_string()] }
}

#[test]
fn ignores_kinds_other_than_doc_icon() {
    assert_eq!(render_doc_icon("doc.index", Some("star"), Some("lucide"), true, &star_only()), None);
}

#[test]
fn renders_a_vendored_lucide_icon_inline() {
    let html = render_doc_icon("doc.icon", Some("star"), Some("lucide"), true, &star_only()).unwrap();
    assert_eq!(
        html,
        "<svg class=\"tm-doc-icon\" data-icon=\"star\" aria-hidden=\"true\"><use href=\"/icons/lucide.svg#star\"></use></svg>"
    );
}

#[test]
fn defaults_pkg_to_lucide_when_omitted() {
    let html = render_doc_icon("doc.icon", Some("star"), None, true, &star_only()).unwrap();
    assert!(html.contains("data-icon=\"star\""));
}

#[test]
fn wraps_a_block_icon_in_a_div() {
    let html = render_doc_icon("doc.icon", Some("star"), Some("lucide"), false, &star_only()).unwrap();
    assert!(html.starts_with("<div class=\"tm-doc-icon-block\"><svg"));
    assert!(html.ends_with("</svg></div>"));
}

#[test]
fn an_unknown_icon_name_is_a_visible_placeholder_not_nothing() {
    let html = render_doc_icon("doc.icon", Some("this-icon-does-not-exist"), Some("lucide"), true, &star_only())
        .unwrap();
    assert!(html.contains("tm-doc-icon-missing"));
    assert!(html.contains("this-icon-does-not-exist"));
}

#[test]
fn an_unsupported_pkg_is_a_visible_placeholder() {
    let html = render_doc_icon("doc.icon", Some("star"), Some("heroicons"), true, &star_only()).unwrap();
    assert!(html.contains("tm-doc-icon-missing"));
    assert!(html.contains("heroicons"));
}

#[test]
fn a_lucide_icon_the_sprite_actually_defines_is_recognized() {
    // A sprite sheet of the real sheet's size: every symbol it defines must be found.
    let mut sprite = String::from("<svg xmlns=\"http://www.w3.org/2000/svg\">");
    for i in 0..1800 {
        sprite.push_str(&format!("<symbol id=\"icon-{i}\" viewBox=\"0 0 24 24\"><path d=\"M0 0\"/></symbol>"));
    }
    sprite.push_str("<symbol id=\"triangle\" viewBox=\"0 0 24 24\"><path d=\"M0 0\"/></symbol></svg>");
    let names = tmtbook::icon::sprite_icon_set(&sprite);
    assert!(names.names.len() > 1000, "{}", names.names.len());
    assert!(tmtbook::icon::is_lucide_icon(&names, "triangle"));
}
