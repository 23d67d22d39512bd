//! The English dictionary.

use vstd::prelude::*;

use crate::config::HeroChipConfig;
use crate::table::StringTable;

verus! {

/// The interface's text in English.
pub open spec fn ui_strings_spec() -> Map<Seq<char>, Seq<char>> {
    Map::empty()
        .insert("pane.toc"@, "Table of Contents"@)
        .insert("pane.toc_short"@, "TOC"@)
        .insert("pane.links"@, "Links"@)
        .insert("pane.links_short"@, "LINKS"@)
        .insert("pane.graph"@, "Graph"@)
        .insert("pane.graph_short"@, "GRAPH"@)
        .insert("pane.index"@, "Index"@)
        .insert("pane.index_short"@, "INDEX"@)
        .insert("index.empty"@, "No index entries"@)
        .insert("pane.lookup"@, "Search"@)
        .insert("pane.lookup_short"@, "SEARCH"@)
        .insert("lookup.placeholder"@, "Filter by title..."@)
        .insert("lookup.tags_all"@, "All"@)
        .insert("pane.data"@, "Data & Profile"@)
        .insert("pane.data_short"@, "Data"@)
        .insert("pane.collapse"@, "Click to collapse panel"@)
        .insert("pane.data_expand"@, "Click to expand data"@)
        .insert("pane.data_collapse"@, "Click to collapse data"@)
        .insert("nav.home"@, "← Home"@)
        .insert("nav.home_title"@, "Go to home"@)
        .insert("nav.section"@, "Section:"@)
        .insert("nav.bar"@, "Navigation bar"@)
        .insert("toc.heading"@, "Table of Contents"@)
        .insert("recent.heading"@, "Recent Notes"@)
        .insert("backlinks.heading"@, "Backlinks"@)
        .insert("backlinks.empty"@, "No backlinks to this note"@)
        .insert("graph.heading"@, "Local Graph"@)
        .insert("graph.placeholder"@, "Graph loading..."@)
        .insert("sticky.label"@, "Sticky Headings"@)
        .insert("sticky.to_top"@, "Scroll to top"@)
        .insert("sticky.to_bottom"@, "Scroll to bottom"@)
        .insert("tabs.side"@, "Switch tab position"@)
        .insert("tabs.top"@, "⬒ Top"@)
        .insert("tabs.top_title"@, "Place tabs at top horizontally"@)
        .insert("tabs.right"@, "◨ Right"@)
        .insert("tabs.right_title"@, "Place tabs at right vertically"@)
        .insert("costume.label"@, "Costume:"@)
        .insert("costume.item"@, "Costume"@)
        .insert("image.zoom"@, "Zoom"@)
        .insert("image.zoom_banner"@, "View full banner"@)
        .insert("image.banner_alt"@, "Banner"@)
        .insert("lightbox.close"@, "Close"@)
        .insert("peek.fullscreen"@, "Open fullscreen"@)
        .insert("peek.close"@, "Close"@)
        .insert("preview.open_peek"@, "Click to open"@)
        .insert("peek.error"@, "Failed to load page"@)
        .insert("peek.not_found"@, "Content not found"@)
        .insert("index.sections"@, "Sections"@)
        .insert("index.entries"@, "All Notes"@)
        .insert("index.note_unit"@, "notes"@)
        .insert("view.switch"@, "Switch view mode"@)
        .insert("view.book"@, "📖 Book"@)
        .insert("view.book_title"@, "Book mode (multi-pane)"@)
        .insert("view.classic"@, "📄 Scroll"@)
        .insert("view.classic_title"@, "Vertical scroll mode"@)
        .insert("drag.handle"@, "Drag to move"@)
        .insert("theme.toggle"@, "Toggle theme (Light / Dark)"@)
        .insert("theme.toggle_label"@, "Toggle theme"@)
        .insert("theme.to_light"@, "Switch to light theme"@)
        .insert("theme.to_dark"@, "Switch to dark theme"@)
        .insert("theme.shell_toggle"@, "Toggle shell theme"@)
        .insert("theme.shell_label"@, "Shell Theme"@)
        .insert("theme.shell.color_label"@, "Color"@)
        .insert("theme.shell.pattern_label"@, "Pattern"@)
        .insert("theme.shell.contrast_label"@, "Contrast"@)
        .insert("theme.shell.contrast_high"@, "High Contrast"@)
        .insert("theme.shell.slate"@, "Slate"@)
        .insert("theme.shell.violet"@, "Violet"@)
        .insert("theme.shell.indigo"@, "Indigo"@)
        .insert("theme.shell.olive"@, "Olive"@)
        .insert("theme.shell.contrast"@, "Contrast"@)
        .insert("theme.shell.color_slate"@, "Slate"@)
        .insert("theme.shell.color_violet"@, "Violet"@)
        .insert("theme.shell.color_indigo"@, "Indigo"@)
        .insert("theme.shell.color_olive"@, "Olive"@)
        .insert("theme.shell.pattern_marble"@, "Marble"@)
        .insert("theme.shell.pattern_cloud"@, "Cloud"@)
        .insert("theme.shell.pattern_seigaiha"@, "Seigaiha"@)
        .insert("theme.shell.pattern_flourish"@, "Flourish"@)
        .insert("theme.shell.pattern_mesh"@, "Mesh"@)
        .insert("theme.shell.pattern_none"@, "None"@)
        .insert("search.placeholder"@, "Search... (Ctrl+K)"@)
        .insert("search.loading"@, "Preparing search index..."@)
        .insert("search.empty"@, "No results found"@)
        .insert("search.aliases"@, "Aliases:"@)
        .insert("search.prev"@, "◀ Prev"@)
        .insert("search.next"@, "Next ▶"@)
        .insert("edit.open"@, "Edit"@)
        .insert("edit.editor"@, "Open in Editor"@)
        .insert("edit.vscode"@, "Open in VSCode"@)
        .insert("edit.cursor"@, "Open in Cursor"@)
        .insert("edit.copy_path"@, "Copy Path"@)
        .insert("edit.copy_path_title"@, "Copy file path"@)
        .insert("toast.copied"@, "📋 Copied path to clipboard"@)
        .insert("toast.copy_failed"@, "❌ Failed to copy path"@)
        .insert("link.unresolved"@, "Page not yet created"@)
}

/// The interface's text in English.
pub fn ui_strings() -> (t: StringTable)
    ensures
        t@ == ui_strings_spec(),
{
    let mut t = StringTable::new();
    t.insert("pane.toc".to_owned(), "Table of Contents".to_owned());
    t.insert("pane.toc_short".to_owned(), "TOC".to_owned());
    t.insert("pane.links".to_owned(), "Links".to_owned());
    t.insert("pane.links_short".to_owned(), "LINKS".to_owned());
    t.insert("pane.graph".to_owned(), "Graph".to_owned());
    t.insert("pane.graph_short".to_owned(), "GRAPH".to_owned());
    t.insert("pane.index".to_owned(), "Index".to_owned());
    t.insert("pane.index_short".to_owned(), "INDEX".to_owned());
    t.insert("index.empty".to_owned(), "No index entries".to_owned());
    t.insert("pane.lookup".to_owned(), "Search".to_owned());
    t.insert("pane.lookup_short".to_owned(), "SEARCH".to_owned());
    t.insert("lookup.placeholder".to_owned(), "Filter by title...".to_owned());
    t.insert("lookup.tags_all".to_owned(), "All".to_owned());
    t.insert("pane.data".to_owned(), "Data & Profile".to_owned());
    t.insert("pane.data_short".to_owned(), "Data".to_owned());
    t.insert("pane.collapse".to_owned(), "Click to collapse panel".to_owned());
    t.insert("pane.data_expand".to_owned(), "Click to expand data".to_owned());
    t.insert("pane.data_collapse".to_owned(), "Click to collapse data".to_owned());
    t.insert("nav.home".to_owned(), "← Home".to_owned());
    t.insert("nav.home_title".to_owned(), "Go to home".to_owned());
    t.insert("nav.section".to_owned(), "Section:".to_owned());
    t.insert("nav.bar".to_owned(), "Navigation bar".to_owned());
    t.insert("toc.heading".to_owned(), "Table of Contents".to_owned());
    t.insert("recent.heading".to_owned(), "Recent Notes".to_owned());
    t.insert("backlinks.heading".to_owned(), "Backlinks".to_owned());
    t.insert("backlinks.empty".to_owned(), "No backlinks to this note".to_owned());
    t.insert("graph.heading".to_owned(), "Local Graph".to_owned());
    t.insert("graph.placeholder".to_owned(), "Graph loading...".to_owned());
    t.insert("sticky.label".to_owned(), "Sticky Headings".to_owned());
    t.insert("sticky.to_top".to_owned(), "Scroll to top".to_owned());
    t.insert("sticky.to_bottom".to_owned(), "Scroll to bottom".to_owned());
    t.insert("tabs.side".to_owned(), "Switch tab position".to_owned());
    t.insert("tabs.top".to_owned(), "⬒ Top".to_owned());
    t.insert("tabs.top_title".to_owned(), "Place tabs at top horizontally".to_owned());
    t.insert("tabs.right".to_owned(), "◨ Right".to_owned());
    t.insert("tabs.right_title".to_owned(), "Place tabs at right vertically".to_owned());
    t.insert("costume.label".to_owned(), "Costume:".to_owned());
    t.insert("costume.item".to_owned(), "Costume".to_owned());
    t.insert("image.zoom".to_owned(), "Zoom".to_owned());
    t.insert("image.zoom_banner".to_owned(), "View full banner".to_owned());
    t.insert("image.banner_alt".to_owned(), "Banner".to_owned());
    t.insert("lightbox.close".to_owned(), "Close".to_owned());
    t.insert("peek.fullscreen".to_owned(), "Open fullscreen".to_owned());
    t.insert("peek.close".to_owned(), "Close".to_owned());
    t.insert("preview.open_peek".to_owned(), "Click to open".to_owned());
    t.insert("peek.error".to_owned(), "Failed to load page".to_owned());
    t.insert("peek.not_found".to_owned(), "Content not found".to_owned());
    t.insert("index.sections".to_owned(), "Sections".to_owned());
    t.insert("index.entries".to_owned(), "All Notes".to_owned());
    t.insert("index.note_unit".to_owned(), "notes".to_owned());
    t.insert("view.switch".to_owned(), "Switch view mode".to_owned());
    t.insert("view.book".to_owned(), "📖 Book".to_owned());
    t.insert("view.book_title".to_owned(), "Book mode (multi-pane)".to_owned());
    t.insert("view.classic".to_owned(), "📄 Scroll".to_owned());
    t.insert("view.classic_title".to_owned(), "Vertical scroll mode".to_owned());
    t.insert("drag.handle".to_owned(), "Drag to move".to_owned());
    t.insert("theme.toggle".to_owned(), "Toggle theme (Light / Dark)".to_owned());
    t.insert("theme.toggle_label".to_owned(), "Toggle theme".to_owned());
    t.insert("theme.to_light".to_owned(), "Switch to light theme".to_owned());
    t.insert("theme.to_dark".to_owned(), "Switch to dark theme".to_owned());
    t.insert("theme.shell_toggle".to_owned(), "Toggle shell theme".to_owned());
    t.insert("theme.shell_label".to_owned(), "Shell Theme".to_owned());
    t.insert("theme.shell.color_label".to_owned(), "Color".to_owned());
    t.insert("theme.shell.pattern_label".to_owned(), "Pattern".to_owned());
    t.insert("theme.shell.contrast_label".to_owned(), "Contrast".to_owned());
    t.insert("theme.shell.contrast_high".to_owned(), "High Contrast".to_owned());
    t.insert("theme.shell.slate".to_owned(), "Slate".to_owned());
    t.insert("theme.shell.violet".to_owned(), "Violet".to_owned());
    t.insert("theme.shell.indigo".to_owned(), "Indigo".to_owned());
    t.insert("theme.shell.olive".to_owned(), "Olive".to_owned());
    t.insert("theme.shell.contrast".to_owned(), "Contrast".to_owned());
    t.insert("theme.shell.color_slate".to_owned(), "Slate".to_owned());
    t.insert("theme.shell.color_violet".to_owned(), "Violet".to_owned());
    t.insert("theme.shell.color_indigo".to_owned(), "Indigo".to_owned());
    t.insert("theme.shell.color_olive".to_owned(), "Olive".to_owned());
    t.insert("theme.shell.pattern_marble".to_owned(), "Marble".to_owned());
    t.insert("theme.shell.pattern_cloud".to_owned(), "Cloud".to_owned());
    t.insert("theme.shell.pattern_seigaiha".to_owned(), "Seigaiha".to_owned());
    t.insert("theme.shell.pattern_flourish".to_owned(), "Flourish".to_owned());
    t.insert("theme.shell.pattern_mesh".to_owned(), "Mesh".to_owned());
    t.insert("theme.shell.pattern_none".to_owned(), "None".to_owned());
    t.insert("search.placeholder".to_owned(), "Search... (Ctrl+K)".to_owned());
    t.insert("search.loading".to_owned(), "Preparing search index...".to_owned());
    t.insert("search.empty".to_owned(), "No results found".to_owned());
    t.insert("search.aliases".to_owned(), "Aliases:".to_owned());
    t.insert("search.prev".to_owned(), "◀ Prev".to_owned());
    t.insert("search.next".to_owned(), "Next ▶".to_owned());
    t.insert("edit.open".to_owned(), "Edit".to_owned());
    t.insert("edit.editor".to_owned(), "Open in Editor".to_owned());
    t.insert("edit.vscode".to_owned(), "Open in VSCode".to_owned());
    t.insert("edit.cursor".to_owned(), "Open in Cursor".to_owned());
    t.insert("edit.copy_path".to_owned(), "Copy Path".to_owned());
    t.insert("edit.copy_path_title".to_owned(), "Copy file path".to_owned());
    t.insert("toast.copied".to_owned(), "📋 Copied path to clipboard".to_owned());
    t.insert("toast.copy_failed".to_owned(), "❌ Failed to copy path".to_owned());
    t.insert("link.unresolved".to_owned(), "Page not yet created".to_owned());
    t
}

/// The hero chips a English book shows by default.
pub open spec fn hero_chips_spec() -> Seq<(Seq<char>, Option<Seq<char>>, Option<Seq<char>>)> {
    seq![
        ("parent"@, Some("Affiliation"@), None),
        ("type.list-a"@, Some("Fans"@), None),
        ("type.element-a"@, None, None),
        ("birth"@, Some("🎂"@), Some("birthday"@)),
    ]
}

/// The hero chips a English book shows by default.
pub fn hero_chips() -> (r: Vec<HeroChipConfig>)
    ensures
        r@.map_values(|c: HeroChipConfig| c@) == hero_chips_spec(),
{
    let r = vec![
        HeroChipConfig { key: "parent".to_owned(), label: Some("Affiliation".to_owned()), format: None },
        HeroChipConfig { key: "type.list-a".to_owned(), label: Some("Fans".to_owned()), format: None },
        HeroChipConfig { key: "type.element-a".to_owned(), label: None, format: None },
        HeroChipConfig { key: "birth".to_owned(), label: Some("🎂".to_owned()), format: Some("birthday".to_owned()) },
    ];
    assert(r@.map_values(|c: HeroChipConfig| c@) =~= hero_chips_spec());
    r
}

/// The infobox labels a English book shows by default.
pub open spec fn key_labels_spec() -> Map<Seq<char>, Seq<char>> {
    Map::empty()
        .insert("kind"@, "Kind"@)
        .insert("type"@, "Type"@)
        .insert("birth"@, "Birthday"@)
        .insert("height"@, "Height"@)
        .insert("creator"@, "Creator"@)
        .insert("type.list-a"@, "Fan Name"@)
        .insert("type.element-a"@, "Element / MBTI"@)
        .insert("colors"@, "Colors"@)
        .insert("parent"@, "Affiliation"@)
        .insert("group"@, "Organization"@)
        .insert("place"@, "Origin"@)
        .insert("created"@, "Created"@)
        .insert("modified"@, "Modified"@)
        .insert("reviewed"@, "Reviewed"@)
        .insert("rating"@, "Rating"@)
        .insert("aliases"@, "Aliases / Nicknames"@)
        .insert("topics"@, "Topics"@)
        .insert("flags"@, "Flags"@)
        .insert("published"@, "Published"@)
        .insert("url.wiki"@, "Wikipedia"@)
        .insert("url.else"@, "Related Links"@)
}

/// The infobox labels a English book shows by default.
pub fn key_labels() -> (t: StringTable)
    ensures
        t@ == key_labels_spec(),
{
    let mut t = StringTable::new();
    t.insert("kind".to_owned(), "Kind".to_owned());
    t.insert("type".to_owned(), "Type".to_owned());
    t.insert("birth".to_owned(), "Birthday".to_owned());
    t.insert("height".to_owned(), "Height".to_owned());
    t.insert("creator".to_owned(), "Creator".to_owned());
    t.insert("type.list-a".to_owned(), "Fan Name".to_owned());
    t.insert("type.element-a".to_owned(), "Element / MBTI".to_owned());
    t.insert("colors".to_owned(), "Colors".to_owned());
    t.insert("parent".to_owned(), "Affiliation".to_owned());
    t.insert("group".to_owned(), "Organization".to_owned());
    t.insert("place".to_owned(), "Origin".to_owned());
    t.insert("created".to_owned(), "Created".to_owned());
    t.insert("modified".to_owned(), "Modified".to_owned());
    t.insert("reviewed".to_owned(), "Reviewed".to_owned());
    t.insert("rating".to_owned(), "Rating".to_owned());
    t.insert("aliases".to_owned(), "Aliases / Nicknames".to_owned());
    t.insert("topics".to_owned(), "Topics".to_owned());
    t.insert("flags".to_owned(), "Flags".to_owned());
    t.insert("published".to_owned(), "Published".to_owned());
    t.insert("url.wiki".to_owned(), "Wikipedia".to_owned());
    t.insert("url.else".to_owned(), "Related Links".to_owned());
    t
}

} // verus!
