use tmtbook::html::{color_chip_html, escape_html, external_link_html, sanitize_color_hex};

#[test]
fn html_escape_html_covers_the_markup_and_quote_characters() {
    assert_eq!(escape_html(r#"<b> & "x" 'y'"#), "&lt;b&gt; &amp; &quot;x&quot; &#39;y&#39;");
    assert_eq!(escape_html("日本語 plain"), "日本語 plain");
}

#[test]
fn html_external_links_escape_the_url_in_both_slots() {
    let html = external_link_html(r#"https://example.com/?a=1&b="x""#);
    assert!(html.contains(r#"href="https://example.com/?a=1&amp;b=&quot;x&quot;""#));
    assert!(!html.contains(r#"b=""#));
}

#[test]
fn html_sanitize_color_hex_accepts_the_valid_hex_lengths() {
    assert_eq!(sanitize_color_hex("#AABBCC").as_deref(), Some("aabbcc"));
    assert_eq!(sanitize_color_hex("abc").as_deref(), Some("abc"));
    assert_eq!(sanitize_color_hex(" #12345678 ").as_deref(), Some("12345678"));
}

#[test]
fn html_sanitize_color_hex_rejects_anything_else() {
    assert_eq!(sanitize_color_hex("red"), None);
    assert_eq!(sanitize_color_hex("#12345"), None);
    assert_eq!(sanitize_color_hex(r#"fff;" onmouseover="alert(1)"#), None);
    assert_eq!(sanitize_color_hex(""), None);
}

#[test]
fn html_color_chips_fall_back_to_escaped_text_for_invalid_input() {
    let html = color_chip_html(r#"fff;" onmouseover="alert(1)"#);
    assert!(!html.contains("onmouseover=\""));
    assert!(!html.contains("style="));
    assert!(html.contains("&quot;"));
}

#[test]
fn html_valid_colors_still_render_a_swatch() {
    let html = color_chip_html("#A1B2C3");
    assert!(html.contains("background-color: #a1b2c3;"));
    assert!(html.contains(r##"title="#a1b2c3""##));
}

#[test]
fn document_escape_html_covers_the_markup_and_quote_characters() {
    assert_eq!(escape_html(r#"<b> & "x" 'y'"#), "&lt;b&gt; &amp; &quot;x&quot; &#39;y&#39;");
    assert_eq!(escape_html("日本語 plain"), "日本語 plain");
}

#[test]
fn document_external_links_escape_the_url_in_both_slots() {
    let html = external_link_html(r#"https://example.com/?a=1&b="x""#);
    assert!(html.contains(r#"href="https://example.com/?a=1&amp;b=&quot;x&quot;""#));
    assert!(!html.contains(r#"b=""#));
}

#[test]
fn document_sanitize_color_hex_accepts_the_valid_hex_lengths() {
    assert_eq!(sanitize_color_hex("#AABBCC").as_deref(), Some("aabbcc"));
    assert_eq!(sanitize_color_hex("abc").as_deref(), Some("abc"));
    assert_eq!(sanitize_color_hex(" #12345678 ").as_deref(), Some("12345678"));
}

#[test]
fn document_sanitize_color_hex_rejects_anything_else() {
    assert_eq!(sanitize_color_hex("red"), None);
    assert_eq!(sanitize_color_hex("#12345"), None);
    assert_eq!(sanitize_color_hex(r#"fff;" onmouseover="alert(1)"#), None);
    assert_eq!(sanitize_color_hex(""), None);
}

#[test]
fn document_color_chips_fall_back_to_escaped_text_for_invalid_input() {
    let html = color_chip_html(r#"fff;" onmouseover="alert(1)"#);
    assert!(!html.contains("onmouseover=\""));
    assert!(!html.contains("style="));
    assert!(html.contains("&quot;"));
}

#[test]
fn document_valid_colors_still_render_a_swatch() {
    let html = color_chip_html("#A1B2C3");
    assert!(html.contains("background-color: #a1b2c3;"));
    assert!(html.contains(r##"title="#a1b2c3""##));
}
