use tmtbook::search::strip_html_to_plain_text;

#[test]
fn test_strip_html_basic() {
    let html = "<p>Hello <strong>world</strong>!</p>";
    assert_eq!(strip_html_to_plain_text(html), "Hello world!");
}

#[test]
fn test_strip_html_ignores_script_and_style() {
    let html = "<div>Text<script>console.log('secret');</script> after <style>.btn{color:red;}</style>done</div>";
    assert_eq!(strip_html_to_plain_text(html), "Text after done");
}

#[test]
fn test_strip_html_entities() {
    let html = "Tom &amp; Jerry &lt;friends&gt; &quot;quote&quot; &#39;single&#39; a&nbsp;b";
    assert_eq!(strip_html_to_plain_text(html), "Tom & Jerry <friends> \"quote\" 'single' a b");
}
