//! List markers: the `<span class="tm-list-marker">` the renderer emits for
//! `- [x]`, `- [12:01]` and friends becomes a Lucide icon (checkboxes and
//! task markers) or a clean badge pill (timestamps, tags, unmapped text).

use vstd::prelude::*;

use crate::config::{MarkerEntryConfig, MarkersConfig};
use crate::html::{escape_html, escaped};
use crate::icon::{is_lucide_icon, names_of, IconSet};
use crate::pattern::{
    captures_view, find_captures, first_group, first_group_spec, group, group_text, group_views, interleave,
    match_pieces, regex_captures, regex_split, splice,
    string_seqs,
};
use crate::text::{
    ascii_lower_seq, chars_of, eq_ascii_lower, is_lit, str_eq, string_from_range, trim_ws, trim_ws_range,
};

verus! {

/// A list item opening with a marker span: the item's attributes, the
/// whitespace before the span, the span's attributes and its content. The
/// one space the renderer puts after the span goes with it.
pub const LI_MARKER_PATTERN: &'static str = "(?s)<li([^>]*)>(\\s*)<span class=\"tm-list-marker\"([^>]*)>(.*?)</span> ?";

/// The `data-marker` attribute and its value.
pub const DATA_MARKER_PATTERN: &'static str = "data-marker=\"([^\"]*)\"";

/// The raw marker text a span's attributes carry, if any.
pub open spec fn data_marker_spec(attrs: Seq<char>) -> Option<Seq<char>> {
    first_group_spec(regex_captures(DATA_MARKER_PATTERN@, attrs), 1)
}

/// The value of the first `data-marker="..."` attribute.
pub fn extract_data_marker(attrs: &str) -> (r: Option<String>)
    ensures
        r is Some <==> data_marker_spec(attrs@) is Some,
        r matches Some(v) ==> data_marker_spec(attrs@) == Some(v@),
{
    first_group(&find_captures(DATA_MARKER_PATTERN, attrs), 1)
}

/// `s` trimmed, then one pair of surrounding brackets removed.
pub open spec fn strip_brackets_spec(s: Seq<char>) -> Seq<char> {
    let t = trim_ws(s);
    if t.len() >= 2 && t[0] == '[' && t.last() == ']' {
        t.subrange(1, t.len() - 1)
    } else {
        t
    }
}

/// Trim `s` and take off one pair of surrounding brackets: `[x]` -> `x`.
pub fn strip_brackets(s: &str) -> (r: String)
    ensures
        r@ == strip_brackets_spec(s@),
{
    let cs = chars_of(s);
    let (a, b) = trim_ws_range(&cs, 0, cs.len());
    assert(cs@.subrange(0, cs@.len() as int) =~= s@);
    if b - a >= 2 && cs[a] == '[' && cs[b - 1] == ']' {
        assert(cs@.subrange(a + 1, b - 1) =~= cs@.subrange(a as int, b as int).subrange(1, (b - a - 1) as int));
        string_from_range(&cs, a + 1, b - 1)
    } else {
        string_from_range(&cs, a, b)
    }
}

/// Lucide's current name for an icon some configs still spell the old way.
pub open spec fn lucide_name_spec(name: Seq<char>) -> Seq<char> {
    if name == "check-square"@ {
        "square-check"@
    } else if name == "minus-circle"@ {
        "circle-minus"@
    } else if name == "alert-triangle"@ {
        "triangle-alert"@
    } else if name == "help-circle"@ || name == "circle-help"@ {
        "circle-question-mark"@
    } else if name == "arrow-right-circle"@ {
        "circle-arrow-right"@
    } else {
        name
    }
}

/// Rename a Lucide icon to its current name.
pub fn normalize_lucide_name(name: &str) -> (r: String)
    ensures
        r@ == lucide_name_spec(name@),
{
    let cs = chars_of(name);
    if is_lit(&cs, "check-square") {
        "square-check".to_owned()
    } else if is_lit(&cs, "minus-circle") {
        "circle-minus".to_owned()
    } else if is_lit(&cs, "alert-triangle") {
        "triangle-alert".to_owned()
    } else if is_lit(&cs, "help-circle") || is_lit(&cs, "circle-help") {
        "circle-question-mark".to_owned()
    } else if is_lit(&cs, "arrow-right-circle") {
        "circle-arrow-right".to_owned()
    } else {
        name.to_owned()
    }
}

/// What a marker becomes.
#[derive(Debug)]
pub enum ResolvedMarker {
    Icon { icon: String, color: Option<String>, pkg: String, is_done: bool },
    Badge { html: String },
}

/// What a marker becomes, as plain values.
pub enum MarkerSpec {
    Icon { icon: Seq<char>, color: Option<Seq<char>>, pkg: Seq<char>, is_done: bool },
    Badge { html: Seq<char> },
}

pub open spec fn opt_view(o: Option<String>) -> Option<Seq<char>> {
    match o {
        Some(s) => Some(s@),
        None => None,
    }
}

pub open spec fn marker_view(m: ResolvedMarker) -> MarkerSpec {
    match m {
        ResolvedMarker::Icon { icon, color, pkg, is_done } => MarkerSpec::Icon {
            icon: icon@,
            color: opt_view(color),
            pkg: pkg@,
            is_done,
        },
        ResolvedMarker::Badge { html } => MarkerSpec::Badge { html: html@ },
    }
}

pub open spec fn lucide_icon(icon: Seq<char>, color: Option<Seq<char>>, is_done: bool) -> MarkerSpec {
    MarkerSpec::Icon { icon, color, pkg: "lucide"@, is_done }
}

/// The author's own marker for `t`, the last one listed when several share it.
pub open spec fn custom_entry(custom: Seq<(String, MarkerEntryConfig)>, t: Seq<char>) -> Option<MarkerEntryConfig>
    decreases custom.len(),
{
    if custom.len() == 0 {
        None
    } else if custom.last().0@ == t {
        Some(custom.last().1)
    } else {
        custom_entry(custom.drop_last(), t)
    }
}

pub open spec fn entry_icon(e: MarkerEntryConfig) -> Seq<char> {
    match e {
        MarkerEntryConfig::Simple(i) => i@,
        MarkerEntryConfig::Detailed { icon, .. } => icon@,
    }
}

pub open spec fn entry_color(e: MarkerEntryConfig) -> Option<Seq<char>> {
    match e {
        MarkerEntryConfig::Detailed { color: Some(c), .. } => Some(c@),
        _ => None,
    }
}

pub open spec fn entry_pkg(e: MarkerEntryConfig) -> Seq<char> {
    match e {
        MarkerEntryConfig::Detailed { pkg: Some(p), .. } => p@,
        _ => "lucide"@,
    }
}

/// The built-in markers, Obsidian-style alternate checkboxes.
pub open spec fn preset_marker(t: Seq<char>) -> Option<MarkerSpec> {
    if t == "x"@ || t == "X"@ || t == "done"@ {
        Some(lucide_icon("square-check"@, Some("var(--marker-done-color, #22c55e)"@), true))
    } else if t == "/"@ || t == "wip"@ {
        Some(lucide_icon("clock"@, Some("#eab308"@), false))
    } else if t == "-"@ || t == "canceled"@ || t == "cancel"@ {
        Some(lucide_icon("circle-minus"@, Some("var(--text-muted)"@), false))
    } else if t == "!"@ || t == "important"@ {
        Some(lucide_icon("triangle-alert"@, Some("#ef4444"@), false))
    } else if t == "?"@ || t == "question"@ {
        Some(lucide_icon("circle-question-mark"@, Some("#3b82f6"@), false))
    } else if t == "i"@ || t == "info"@ {
        Some(lucide_icon("info"@, Some("#3b82f6"@), false))
    } else if t == "*"@ || t == "star"@ {
        Some(lucide_icon("star"@, Some("#f59e0b"@), false))
    } else if t == ">"@ || t == "forward"@ {
        Some(lucide_icon("circle-arrow-right"@, Some("var(--text-muted)"@), false))
    } else if t == "todo"@ {
        Some(lucide_icon("square"@, None, false))
    } else {
        None
    }
}

/// The badge text: the bracketed content when there is any, the marker otherwise.
pub open spec fn badge_text(content: Seq<char>, fallback: Seq<char>) -> Seq<char> {
    if trim_ws(content).len() > 0 {
        strip_brackets_spec(content)
    } else {
        fallback
    }
}

/// What a marker becomes, in order of precedence: everything is a badge
/// when icons are off; an empty marker is an open checkbox; then the
/// author's own markers, the built-in ones, `lucide.<name>`, a bare Lucide
/// name; anything else is a badge.
pub open spec fn resolve_marker_spec(
    raw: Seq<char>,
    content: Seq<char>,
    enable: bool,
    custom: Seq<(String, MarkerEntryConfig)>,
    lucide: Seq<Seq<char>>,
) -> MarkerSpec {
    if !enable {
        MarkerSpec::Badge { html: badge_text(content, raw) }
    } else {
        let t = trim_ws(raw);
        let c = trim_ws(content);
        if t.len() == 0 && (c.len() == 0 || c == "[ ]"@) {
            lucide_icon("square"@, None, false)
        } else {
            match custom_entry(custom, t) {
                Some(e) => MarkerSpec::Icon {
                    icon: lucide_name_spec(entry_icon(e)),
                    color: entry_color(e),
                    pkg: entry_pkg(e),
                    is_done: ascii_lower_seq(t) == "x"@ || ascii_lower_seq(t) == "done"@,
                },
                None => match preset_marker(t) {
                    Some(m) => m,
                    None => if "lucide."@.is_prefix_of(t) && lucide.contains(lucide_name_spec(t.skip(7))) {
                        lucide_icon(lucide_name_spec(t.skip(7)), None, false)
                    } else if lucide.contains(lucide_name_spec(t)) {
                        lucide_icon(lucide_name_spec(t), None, false)
                    } else {
                        MarkerSpec::Badge { html: badge_text(content, t) }
                    },
                },
            }
        }
    }
}

fn trimmed(s: &str) -> (r: String)
    ensures
        r@ == trim_ws(s@),
{
    let cs = chars_of(s);
    let (a, b) = trim_ws_range(&cs, 0, cs.len());
    assert(cs@.subrange(0, cs@.len() as int) =~= s@);
    string_from_range(&cs, a, b)
}

fn badge(content: &str, fallback: &str) -> (r: ResolvedMarker)
    ensures
        marker_view(r) == (MarkerSpec::Badge { html: badge_text(content@, fallback@) }),
{
    let c = trimmed(content);
    if chars_of(c.as_str()).len() > 0 {
        ResolvedMarker::Badge { html: strip_brackets(content) }
    } else {
        ResolvedMarker::Badge { html: fallback.to_owned() }
    }
}

fn lucide_marker(icon: &str, color: Option<&str>, is_done: bool) -> (r: ResolvedMarker)
    ensures
        marker_view(r) == lucide_icon(icon@, crate::icon::opt_str(color), is_done),
{
    ResolvedMarker::Icon {
        icon: icon.to_owned(),
        color: match color {
            Some(c) => Some(c.to_owned()),
            None => None,
        },
        pkg: "lucide".to_owned(),
        is_done,
    }
}

fn find_custom(custom: &Vec<(String, MarkerEntryConfig)>, t: &str) -> (r: Option<usize>)
    ensures
        match r {
            Some(j) => j < custom@.len() && custom_entry(custom@, t@) == Some(custom@[j as int].1),
            None => custom_entry(custom@, t@) is None,
        },
{
    let mut k = custom.len();
    assert(custom@.take(k as int) =~= custom@);
    while k > 0
        invariant
            k <= custom@.len(),
            custom_entry(custom@, t@) == custom_entry(custom@.take(k as int), t@),
        decreases k,
    {
        assert(custom@.take(k as int).drop_last() =~= custom@.take(k - 1));
        if str_eq(custom[k - 1].0.as_str(), t) {
            return Some(k - 1);
        }
        k = k - 1;
    }
    None
}

fn preset(t: &str) -> (r: Option<ResolvedMarker>)
    ensures
        match r {
            Some(m) => preset_marker(t@) == Some(marker_view(m)),
            None => preset_marker(t@) is None,
        },
{
    let cs = chars_of(t);
    if is_lit(&cs, "x") || is_lit(&cs, "X") || is_lit(&cs, "done") {
        Some(lucide_marker("square-check", Some("var(--marker-done-color, #22c55e)"), true))
    } else if is_lit(&cs, "/") || is_lit(&cs, "wip") {
        Some(lucide_marker("clock", Some("#eab308"), false))
    } else if is_lit(&cs, "-") || is_lit(&cs, "canceled") || is_lit(&cs, "cancel") {
        Some(lucide_marker("circle-minus", Some("var(--text-muted)"), false))
    } else if is_lit(&cs, "!") || is_lit(&cs, "important") {
        Some(lucide_marker("triangle-alert", Some("#ef4444"), false))
    } else if is_lit(&cs, "?") || is_lit(&cs, "question") {
        Some(lucide_marker("circle-question-mark", Some("#3b82f6"), false))
    } else if is_lit(&cs, "i") || is_lit(&cs, "info") {
        Some(lucide_marker("info", Some("#3b82f6"), false))
    } else if is_lit(&cs, "*") || is_lit(&cs, "star") {
        Some(lucide_marker("star", Some("#f59e0b"), false))
    } else if is_lit(&cs, ">") || is_lit(&cs, "forward") {
        Some(lucide_marker("circle-arrow-right", Some("var(--text-muted)"), false))
    } else if is_lit(&cs, "todo") {
        Some(lucide_marker("square", None, false))
    } else {
        None
    }
}

/// Decide what a marker becomes; see [`resolve_marker_spec`].
pub fn resolve_marker(raw_val: &str, content: &str, config: &MarkersConfig, lucide: &IconSet) -> (r: ResolvedMarker)
    ensures
        marker_view(r) == resolve_marker_spec(raw_val@, content@, config.enable, config.custom@, names_of(*lucide)),
{
    if !config.enable {
        return badge(content, raw_val);
    }
    let t = trimmed(raw_val);
    let c = trimmed(content);
    let tc = chars_of(t.as_str());
    let cc = chars_of(c.as_str());
    if tc.len() == 0 && (cc.len() == 0 || is_lit(&cc, "[ ]")) {
        return lucide_marker("square", None, false);
    }
    match find_custom(&config.custom, t.as_str()) {
        Some(j) => {
            let entry = &config.custom[j].1;
            let is_done = eq_ascii_lower(&tc, "x") || eq_ascii_lower(&tc, "done");
            let icon = normalize_lucide_name(entry.icon());
            let color = match entry.color() {
                Some(col) => Some(col.to_owned()),
                None => None,
            };
            return ResolvedMarker::Icon { icon, color, pkg: entry.pkg().to_owned(), is_done };
        },
        None => {},
    }
    match preset(t.as_str()) {
        Some(m) => return m,
        None => {},
    }
    proof {
        reveal_strlit("lucide.");
    }
    if crate::text::has_prefix(&tc, "lucide.") {
        let rest = string_from_range(&tc, 7, tc.len());
        assert(rest@ == t@.skip(7));
        let norm = normalize_lucide_name(rest.as_str());
        if is_lucide_icon(lucide, norm.as_str()) {
            return lucide_marker(norm.as_str(), None, false);
        }
    }
    let norm = normalize_lucide_name(t.as_str());
    if is_lucide_icon(lucide, norm.as_str()) {
        return lucide_marker(norm.as_str(), None, false);
    }
    badge(content, t.as_str())
}

/// `attrs` with `new_class` put first in its `class` attribute, or a
/// `class` attribute added in front when it has none.
pub open spec fn add_class_spec(attrs: Seq<char>, new_class: Seq<char>) -> Seq<char> {
    match crate::kinds::occ_from(attrs, "class=\""@, 0) {
        Some(p) => attrs.take(p + 7) + new_class + " "@ + attrs.skip(p + 7),
        None => " class=\""@ + new_class + "\""@ + attrs,
    }
}

/// Put `new_class` first among the classes in `attrs`.
pub fn add_class_to_attrs(attrs: &str, new_class: &str) -> (r: String)
    ensures
        r@ == add_class_spec(attrs@, new_class@),
{
    let cs = chars_of(attrs);
    let key = chars_of("class=\"");
    proof {
        reveal_strlit("class=\"");
    }
    let n = cs.len();
    let pos = crate::kinds::find_sub(&cs, 0, &key);
    assert(cs@.skip(0) =~= cs@);
    let found = pos.is_some();
    let p: usize = match pos {
        Some(k) => k,
        None => 0,
    };
    let mut out = String::new();
    if found {
        proof {
            crate::kinds::lemma_occ_from(attrs@, key@, 0);
        }
        let head = string_from_range(&cs, 0, p + 7);
        let tail = string_from_range(&cs, p + 7, n);
        out.push_str(head.as_str());
        out.push_str(new_class);
        out.push_str(" ");
        out.push_str(tail.as_str());
        assert(head@ =~= attrs@.take(p + 7));
        assert(tail@ =~= attrs@.skip(p + 7));
    } else {
        out.push_str(" class=\"");
        out.push_str(new_class);
        out.push_str("\"");
        out.push_str(attrs);
    }
    out
}

/// The classes an icon marker's list item gets.
pub open spec fn task_classes(is_done: bool, strikethrough: bool) -> Seq<char> {
    if is_done {
        if strikethrough {
            "tm-task-item tm-task-done tm-strikethrough"@
        } else {
            "tm-task-item tm-task-done"@
        }
    } else {
        "tm-task-item"@
    }
}

pub open spec fn marker_attr(raw: Seq<char>) -> Seq<char> {
    if raw.len() > 0 {
        " data-marker=\""@ + escaped(raw) + "\""@
    } else {
        Seq::empty()
    }
}

/// One list item, from the groups of its match.
pub open spec fn list_marker_rep(m: Seq<Option<Seq<char>>>, config: MarkersConfig, lucide: Seq<Seq<char>>) -> Seq<char> {
    let li_attrs = group(m, 1);
    let ws = group(m, 2);
    let raw = match data_marker_spec(group(m, 3)) {
        Some(v) => v,
        None => Seq::empty(),
    };
    match resolve_marker_spec(raw, group(m, 4), config.enable, config.custom@, lucide) {
        MarkerSpec::Icon { icon, color, pkg, is_done } => {
            let style = match color {
                Some(c) => " style=\"--marker-color: "@ + c + ";\""@,
                None => Seq::empty(),
            };
            let done = if is_done { " tm-marker-done"@ } else { Seq::empty() };
            "<li"@ + add_class_spec(li_attrs, task_classes(is_done, config.strikethrough)) + ">"@ + ws
                + "<span class=\"tm-list-marker tm-list-marker-icon"@ + done + "\""@ + marker_attr(raw) + style
                + "><svg class=\"tm-doc-icon\" aria-hidden=\"true\"><use href=\"/icons/"@ + escaped(pkg) + ".svg#"@
                + escaped(icon) + "\"></use></svg></span>"@
        },
        MarkerSpec::Badge { html } => "<li"@ + add_class_spec(li_attrs, "tm-list-item-with-badge"@) + ">"@ + ws
            + "<span class=\"tm-list-marker tm-list-marker-badge\""@ + marker_attr(raw) + ">"@ + html + "</span>"@,
    }
}

/// The body with every list marker drawn.
pub open spec fn enhance_markers_spec(body: Seq<char>, config: MarkersConfig, lucide: Seq<Seq<char>>) -> Seq<char> {
    match (regex_split(LI_MARKER_PATTERN@, body), regex_captures(LI_MARKER_PATTERN@, body)) {
        (Some(gaps), Some(ms)) => interleave(
            gaps,
            ms.map_values(|m: Seq<Option<Seq<char>>>| list_marker_rep(m, config, lucide)),
        ),
        _ => body,
    }
}

fn push_marker_attr(out: &mut String, raw: &str)
    ensures
        final(out)@ == old(out)@ + marker_attr(raw@),
{
    if chars_of(raw).len() > 0 {
        out.push_str(" data-marker=\"");
        out.push_str(escape_html(raw).as_str());
        out.push_str("\"");
    } else {
        assert(old(out)@ + Seq::<char>::empty() =~= old(out)@);
    }
}

/// What one list item opening with a marker span becomes, from its capture
/// groups (1 the item's attributes, 2 the whitespace, 3 the span's
/// attributes, 4 its content): a task checkbox, an icon or a badge.
pub fn list_marker(m: &Vec<Option<String>>, config: &MarkersConfig, lucide: &IconSet) -> (r: String)
    ensures
        r@ == list_marker_rep(group_views(m@), *config, names_of(*lucide)),
{
    let li_attrs = group_text(m, 1);
    let ws = group_text(m, 2);
    let raw = match extract_data_marker(group_text(m, 3).as_str()) {
        Some(v) => v,
        None => String::new(),
    };
    let resolved = resolve_marker(raw.as_str(), group_text(m, 4).as_str(), config, lucide);
    let mut out = String::new();
    match resolved {
        ResolvedMarker::Icon { icon, color, pkg, is_done } => {
            let classes: &str = if is_done {
                if config.strikethrough {
                    "tm-task-item tm-task-done tm-strikethrough"
                } else {
                    "tm-task-item tm-task-done"
                }
            } else {
                "tm-task-item"
            };
            out.push_str("<li");
            out.push_str(add_class_to_attrs(li_attrs.as_str(), classes).as_str());
            out.push_str(">");
            out.push_str(ws.as_str());
            out.push_str("<span class=\"tm-list-marker tm-list-marker-icon");
            if is_done {
                out.push_str(" tm-marker-done");
            }
            out.push_str("\"");
            push_marker_attr(&mut out, raw.as_str());
            match &color {
                Some(c) => {
                    out.push_str(" style=\"--marker-color: ");
                    out.push_str(c.as_str());
                    out.push_str(";\"");
                },
                None => {},
            }
            out.push_str("><svg class=\"tm-doc-icon\" aria-hidden=\"true\"><use href=\"/icons/");
            out.push_str(escape_html(pkg.as_str()).as_str());
            out.push_str(".svg#");
            out.push_str(escape_html(icon.as_str()).as_str());
            out.push_str("\"></use></svg></span>");
        },
        ResolvedMarker::Badge { html } => {
            out.push_str("<li");
            out.push_str(add_class_to_attrs(li_attrs.as_str(), "tm-list-item-with-badge").as_str());
            out.push_str(">");
            out.push_str(ws.as_str());
            out.push_str("<span class=\"tm-list-marker tm-list-marker-badge\"");
            push_marker_attr(&mut out, raw.as_str());
            out.push_str(">");
            out.push_str(html.as_str());
            out.push_str("</span>");
        },
    }
    out
}

/// Enhances list markers in the rendered HTML:
/// - Replaces checkbox/icon markers with Lucide SVGs (if `config.enable` is true)
/// - Replaces raw bracketed text markers `[xxx]` with pill badges
/// - Injects task item classes onto enclosing `<li>`s
pub fn enhance_list_markers(body_html: &str, config: &MarkersConfig, lucide: &IconSet) -> (r: String)
    ensures
        r@ == enhance_markers_spec(body_html@, *config, names_of(*lucide)),
{
    match match_pieces(LI_MARKER_PATTERN, body_html) {
        Some((gaps, ms)) => {
            let ghost cv = captures_view(ms@);
            let ghost f = |m: Seq<Option<Seq<char>>>| list_marker_rep(m, *config, names_of(*lucide));
            let mut reps: Vec<String> = Vec::new();
            let mut k: usize = 0;
            while k < ms.len()
                invariant
                    k <= ms@.len(),
                    cv == captures_view(ms@),
                    f == (|m: Seq<Option<Seq<char>>>| list_marker_rep(m, *config, names_of(*lucide))),
                    string_seqs(reps@) == cv.take(k as int).map_values(f),
                decreases ms@.len() - k,
            {
                let rep = list_marker(&ms[k], config, lucide);
                let ghost before = reps@;
                reps.push(rep);
                assert(string_seqs(reps@) =~= cv.take(k + 1).map_values(f)) by {
                    assert(string_seqs(reps@) =~= string_seqs(before).push(rep@));
                    assert(cv[k as int] == group_views(ms@[k as int]@));
                }
                k = k + 1;
            }
            assert(cv.take(ms@.len() as int) =~= cv);
            splice(&gaps, &reps)
        },
        None => body_html.to_owned(),
    }
}

} // verus!
