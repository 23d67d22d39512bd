//! Code blocks: each `<pre><code>` gets a header bar with its language (when
//! the class names one) and a copy button.

use vstd::prelude::*;

use crate::html::{escape_html, escaped};
use crate::i18n::{is_english, is_english_spec};
use crate::pattern::{
    captures_view, find_captures, first_group, first_group_spec, group, group_text, group_views, interleave,
    match_pieces, regex_captures, regex_split, splice,
    string_seqs,
};

verus! {

/// A `<pre>` around a `<code>`, with the whitespace between them.
pub const PRE_CODE_PATTERN: &'static str = "(?s)<pre([^>]*)>(\\s*)<code([^>]*)>(.*?)</code>(\\s*)</pre>";

/// The `language-...` class of a code element.
pub const LANG_PATTERN: &'static str = "class=\"[^\"]*language-([a-zA-Z0-9_.-]+)[^\"]*\"";

/// The language a code element's attributes name, if any.
pub open spec fn language_spec(code_attrs: Seq<char>) -> Option<Seq<char>> {
    first_group_spec(regex_captures(LANG_PATTERN@, code_attrs), 1)
}

/// The language a code element's attributes name, from its first `language-` class.
pub fn extract_language(code_attrs: &str) -> (r: Option<String>)
    ensures
        r is Some <==> language_spec(code_attrs@) is Some,
        r matches Some(l) ==> language_spec(code_attrs@) == Some(l@),
{
    first_group(&find_captures(LANG_PATTERN, code_attrs), 1)
}

pub open spec fn copy_title_spec(lang: Option<Seq<char>>) -> Seq<char> {
    match lang {
        Some(l) => if is_english_spec(l) {
            "Copy code"@
        } else {
            "コードをコピー"@
        },
        None => "コードをコピー"@,
    }
}

/// One wrapped code block, from the groups of its match.
pub open spec fn code_block_spec(m: Seq<Option<Seq<char>>>, title: Seq<char>) -> Seq<char> {
    let lang_html = match language_spec(group(m, 3)) {
        Some(l) => if l.len() > 0 {
            "<span class=\"code-lang\">"@ + escaped(l) + "</span>"@
        } else {
            Seq::empty()
        },
        None => Seq::empty(),
    };
    let copy_btn = "<button type=\"button\" class=\"code-copy-btn\" title=\""@ + title + "\" aria-label=\""@ + title
        + "\"><svg class=\"tm-doc-icon\" aria-hidden=\"true\"><use href=\"/icons/lucide.svg#copy\"></use></svg></button>"@;
    "<div class=\"code-block-wrapper\"><div class=\"code-block-header\">"@ + lang_html + copy_btn + "</div><pre"@
        + group(m, 1) + ">"@ + group(m, 2) + "<code"@ + group(m, 3) + ">"@ + group(m, 4) + "</code>"@ + group(m, 5)
        + "</pre></div>"@
}

/// The body with every code block wrapped.
pub open spec fn enhance_code_spec(body: Seq<char>, lang: Option<Seq<char>>) -> Seq<char> {
    match (regex_split(PRE_CODE_PATTERN@, body), regex_captures(PRE_CODE_PATTERN@, body)) {
        (Some(gaps), Some(ms)) => interleave(
            gaps,
            ms.map_values(|m: Seq<Option<Seq<char>>>| code_block_spec(m, copy_title_spec(lang))),
        ),
        _ => body,
    }
}

/// What one `<pre><code>` match becomes, from its capture groups (group 0
/// the whole match, 1 the `<pre>` attributes, 2 and 5 the whitespace around
/// the code element, 3 its attributes, 4 its content): the block wrapped
/// with its language label and a copy button titled `title`.
pub fn code_block(m: &Vec<Option<String>>, title: &str) -> (r: String)
    ensures
        r@ == code_block_spec(group_views(m@), title@),
{
    let code_attrs = group_text(m, 3);
    let mut lang_html = String::new();
    match extract_language(code_attrs.as_str()) {
        Some(l) => {
            if crate::text::chars_of(l.as_str()).len() > 0 {
                lang_html.push_str("<span class=\"code-lang\">");
                lang_html.push_str(escape_html(l.as_str()).as_str());
                lang_html.push_str("</span>");
            }
        },
        None => {},
    }
    let mut out = String::new();
    out.push_str("<div class=\"code-block-wrapper\"><div class=\"code-block-header\">");
    out.push_str(lang_html.as_str());
    out.push_str("<button type=\"button\" class=\"code-copy-btn\" title=\"");
    out.push_str(title);
    out.push_str("\" aria-label=\"");
    out.push_str(title);
    out.push_str("\"><svg class=\"tm-doc-icon\" aria-hidden=\"true\"><use href=\"/icons/lucide.svg#copy\"></use></svg></button>");
    out.push_str("</div><pre");
    out.push_str(group_text(m, 1).as_str());
    out.push_str(">");
    out.push_str(group_text(m, 2).as_str());
    out.push_str("<code");
    out.push_str(code_attrs.as_str());
    out.push_str(">");
    out.push_str(group_text(m, 4).as_str());
    out.push_str("</code>");
    out.push_str(group_text(m, 5).as_str());
    out.push_str("</pre></div>");
    out
}

/// Enhances code blocks in the rendered HTML by wrapping them in a container
/// with a language label and a copy button.
pub fn enhance_code_blocks(body_html: &str, lang: Option<&str>) -> (r: String)
    ensures
        r@ == enhance_code_spec(body_html@, crate::icon::opt_str(lang)),
{
    let english = match lang {
        Some(l) => is_english(l),
        None => false,
    };
    let title: &str = if english { "Copy code" } else { "コードをコピー" };
    assert(title@ == copy_title_spec(crate::icon::opt_str(lang)));
    match match_pieces(PRE_CODE_PATTERN, body_html) {
        Some((gaps, ms)) => {
            let ghost cv = captures_view(ms@);
            let mut reps: Vec<String> = Vec::new();
            let mut k: usize = 0;
            while k < ms.len()
                invariant
                    k <= ms@.len(),
                    cv == captures_view(ms@),
                    title@ == copy_title_spec(crate::icon::opt_str(lang)),
                    string_seqs(reps@) == cv.take(k as int).map_values(
                        |m: Seq<Option<Seq<char>>>| code_block_spec(m, copy_title_spec(crate::icon::opt_str(lang))),
                    ),
                decreases ms@.len() - k,
            {
                let rep = code_block(&ms[k], title);
                let ghost before = reps@;
                reps.push(rep);
                assert(string_seqs(reps@) =~= cv.take(k + 1).map_values(
                    |m: Seq<Option<Seq<char>>>| code_block_spec(m, copy_title_spec(crate::icon::opt_str(lang))),
                )) by {
                    assert(string_seqs(reps@) =~= string_seqs(before).push(rep@));
                    assert(cv[k as int] == group_views(ms@[k as int]@));
                }
                k = k + 1;
            }
            assert(cv.take(ms@.len() as int) =~= cv);
            splice(&gaps, &reps)
        },
        None => body_html.to_owned(),
    }
}

} // verus!
