//! The book's settings, as `tmtbook.toml` states them once defaults are filled in.
//!
//! Reading the TOML file is the program's job; this module holds the settings
//! themselves, their defaults, and what is derived from them.

use vstd::prelude::*;

use crate::i18n::{
    default_hero_chips_for, default_key_labels_for, default_ui_strings_for, hero_chips_for_spec,
    key_labels_for_spec, ui_strings_for_spec,
};
use crate::table::StringTable;
use crate::text::{chars_of, is_char_pred, string_from_range, trim_both_spec, trim_end_char, trim_end_spec, trim_start_char};

verus! {

/// The whole configuration.
#[derive(Debug, Clone)]
pub struct BookConfig {
    pub book: BookMeta,
    pub ui: UiConfig,
    pub build: BuildConfig,
}

/// What the book is called and where it goes.
#[derive(Debug, Clone)]
pub struct BookMeta {
    pub title: String,
    pub description: Option<String>,
    pub lang: String,
    /// Where the built site goes, relative to the vault.
    pub dest: String,
}

/// How the interface looks and what it says.
#[derive(Debug, Clone)]
pub struct UiConfig {
    pub rail_title: Option<String>,
    pub default_view: String,
    pub custom_css: Vec<String>,
    pub hero_chips: Vec<HeroChipConfig>,
    pub infobox: InfoboxConfig,
    /// Every piece of text the interface shows, keyed by name.
    ///
    /// Defaults are chosen based on `[book] lang` ("ja" or "en");
    /// `[ui.strings]` in `tmtbook.toml` overrides any subset of them, and
    /// anything left out keeps its default.
    pub strings: StringTable,
    /// How list markers (`- [x]`, `- [12:01]`) are drawn.
    pub markers: MarkersConfig,
    /// How links are decorated with icons.
    pub links: LinksConfig,
}

/// Which service draws favicons for sites Simple Icons has no brand for.
#[derive(Debug, Clone, Copy, PartialEq, Eq, Structural)]
pub enum FaviconService {
    Google,
    DuckDuckGo,
    /// No favicon at all.
    Disabled,
}

/// How links are decorated.
#[derive(Debug, Clone)]
pub struct LinksConfig {
    /// Put a brand icon or favicon in front of external links.
    pub external_icons: bool,
    /// Put the target note's own icon in front of internal links.
    pub note_icons: bool,
    pub favicon_service: FaviconService,
}

impl Default for LinksConfig {
    fn default() -> (r: Self)
        ensures
            r.external_icons,
            r.note_icons,
            r.favicon_service == FaviconService::Google,
    {
        LinksConfig { external_icons: true, note_icons: true, favicon_service: FaviconService::Google }
    }
}

/// A marker of the author's own, from `[ui.markers.custom]`: an icon name,
/// or an icon with a colour and a sprite package.
#[derive(Debug, Clone)]
pub enum MarkerEntryConfig {
    Simple(String),
    Detailed { icon: String, color: Option<String>, pkg: Option<String> },
}

impl MarkerEntryConfig {
    /// The icon the marker draws.
    pub fn icon(&self) -> (r: &str)
        ensures
            r@ == match self {
                MarkerEntryConfig::Simple(i) => i@,
                MarkerEntryConfig::Detailed { icon, .. } => icon@,
            },
    {
        match self {
            MarkerEntryConfig::Simple(i) => i.as_str(),
            MarkerEntryConfig::Detailed { icon, .. } => icon.as_str(),
        }
    }

    /// The colour the marker is drawn in, if one was given.
    pub fn color(&self) -> (r: Option<&str>)
        ensures
            match self {
                MarkerEntryConfig::Detailed { color: Some(c), .. } => r matches Some(x) && x@ == c@,
                _ => r is None,
            },
    {
        match self {
            MarkerEntryConfig::Detailed { color: Some(c), .. } => Some(c.as_str()),
            _ => None,
        }
    }

    /// The sprite package the icon comes from, `lucide` unless given.
    pub fn pkg(&self) -> (r: &str)
        ensures
            r@ == match self {
                MarkerEntryConfig::Detailed { pkg: Some(p), .. } => p@,
                _ => "lucide"@,
            },
    {
        match self {
            MarkerEntryConfig::Detailed { pkg: Some(p), .. } => p.as_str(),
            _ => "lucide",
        }
    }
}

/// How list markers are drawn.
#[derive(Debug, Clone)]
pub struct MarkersConfig {
    /// Draw checkbox and task markers as icons; otherwise every marker is a badge.
    pub enable: bool,
    /// Strike through the text of done items.
    pub strikethrough: bool,
    /// Markers of the author's own, by the text inside the brackets.
    pub custom: Vec<(String, MarkerEntryConfig)>,
}

impl Default for MarkersConfig {
    fn default() -> (r: Self)
        ensures
            !r.enable,
            r.strikethrough,
            r.custom@.len() == 0,
    {
        MarkersConfig { enable: false, strikethrough: true, custom: Vec::new() }
    }
}

/// One chip in a page's hero area: which metadata key it shows, and how.
#[derive(Debug, Clone)]
pub struct HeroChipConfig {
    pub key: String,
    pub label: Option<String>,
    pub format: Option<String>,
}

/// The data box beside a page.
#[derive(Debug, Clone)]
pub struct InfoboxConfig {
    pub enable: bool,
    pub exclude_keys: Vec<String>,
    pub labels: StringTable,
}

/// What the build reads and where it writes.
#[derive(Debug, Clone)]
pub struct BuildConfig {
    pub exclude: Vec<String>,
    /// Which `@kind`s reach the site, as an ordered list where the last
    /// matching rule wins: `"*"` takes everything, `"!config"` puts one back.
    /// See `kinds`.
    pub kinds: Vec<String>,
    pub pagefind: bool,
    pub url_prefix: String,
    pub asset_prefix: String,
    pub config_path: Option<String>,
}

pub open spec fn opt_seq(o: Option<String>) -> Option<Seq<char>> {
    match o {
        Some(s) => Some(s@),
        None => None,
    }
}

impl View for HeroChipConfig {
    type V = (Seq<char>, Option<Seq<char>>, Option<Seq<char>>);

    open spec fn view(&self) -> (Seq<char>, Option<Seq<char>>, Option<Seq<char>>) {
        (self.key@, opt_seq(self.label), opt_seq(self.format))
    }
}

pub open spec fn chip_views(v: Seq<HeroChipConfig>) -> Seq<(Seq<char>, Option<Seq<char>>, Option<Seq<char>>)> {
    v.map_values(|c: HeroChipConfig| c@)
}

pub open spec fn string_seqs(v: Seq<String>) -> Seq<Seq<char>> {
    v.map_values(|s: String| s@)
}

fn default_title() -> (r: String)
    ensures
        r@ == "Tomet Book"@,
{
    "Tomet Book".to_owned()
}

fn default_lang() -> (r: String)
    ensures
        r@ == "ja"@,
{
    "ja".to_owned()
}

fn default_dest() -> (r: String)
    ensures
        r@ == "dist"@,
{
    "dist".to_owned()
}

impl Default for BookMeta {
    fn default() -> (r: Self)
        ensures
            r.title@ == "Tomet Book"@,
            r.description is None,
            r.lang@ == "ja"@,
            r.dest@ == "dist"@,
    {
        BookMeta { title: default_title(), description: None, lang: default_lang(), dest: default_dest() }
    }
}

/// The Japanese interface strings, the default dictionary.
pub fn default_ui_strings() -> (t: StringTable)
    ensures
        t@ == crate::i18n::ja::ui_strings_spec(),
{
    crate::i18n::ja::ui_strings()
}

/// The Japanese hero chips, the default set.
pub fn default_hero_chips() -> (r: Vec<HeroChipConfig>)
    ensures
        chip_views(r@) == crate::i18n::ja::hero_chips_spec(),
{
    crate::i18n::ja::hero_chips()
}

/// The Japanese infobox labels, the default set.
pub fn default_key_labels() -> (t: StringTable)
    ensures
        t@ == crate::i18n::ja::key_labels_spec(),
{
    crate::i18n::ja::key_labels()
}

fn default_view() -> (r: String)
    ensures
        r@ == "book"@,
{
    "book".to_owned()
}

fn default_true() -> (r: bool)
    ensures
        r,
{
    true
}

/// Metadata keys the infobox leaves out unless told otherwise.
pub open spec fn default_exclude_keys_spec() -> Seq<Seq<char>> {
    seq!["id"@, "banner"@, "banner-y"@, "images"@, "icon"@]
}

fn default_exclude_keys() -> (r: Vec<String>)
    ensures
        string_seqs(r@) == default_exclude_keys_spec(),
{
    let r = vec!["id".to_owned(), "banner".to_owned(), "banner-y".to_owned(), "images".to_owned(), "icon".to_owned()];
    assert(string_seqs(r@) =~= default_exclude_keys_spec());
    r
}

/// Paths a scan skips unless told otherwise.
pub open spec fn default_exclude_spec() -> Seq<Seq<char>> {
    seq!["00-09 System/01 Apps"@, ".git"@, ".tomet"@, ".web"@, "node_modules"@, "dist"@, "target"@]
}

fn default_exclude() -> (r: Vec<String>)
    ensures
        string_seqs(r@) == default_exclude_spec(),
{
    let r = vec![
        "00-09 System/01 Apps".to_owned(),
        ".git".to_owned(),
        ".tomet".to_owned(),
        ".web".to_owned(),
        "node_modules".to_owned(),
        "dist".to_owned(),
        "target".to_owned(),
    ];
    assert(string_seqs(r@) =~= default_exclude_spec());
    r
}

/// Everything except the documents that shape the book rather than belong to it.
pub open spec fn default_kinds_spec() -> Seq<Seq<char>> {
    seq!["*"@, "!config"@, "!index"@]
}

/// Everything except the documents that shape the book rather than belong to
/// it. Spelled as a value so that `*.config.tmt` not appearing on the site is
/// a setting the reader can see and change, not a rule buried in the code.
fn default_kinds() -> (r: Vec<String>)
    ensures
        string_seqs(r@) == default_kinds_spec(),
{
    let r = vec!["*".to_owned(), "!config".to_owned(), "!index".to_owned()];
    assert(string_seqs(r@) =~= default_kinds_spec());
    r
}

fn default_url_prefix() -> (r: String)
    ensures
        r@ == "/wiki"@,
{
    "/wiki".to_owned()
}

fn default_asset_prefix() -> (r: String)
    ensures
        r@ == "/vault"@,
{
    "/vault".to_owned()
}

impl Default for InfoboxConfig {
    fn default() -> (r: Self)
        ensures
            r.enable,
            string_seqs(r.exclude_keys@) == default_exclude_keys_spec(),
            r.labels@ == Map::<Seq<char>, Seq<char>>::empty(),
    {
        InfoboxConfig { enable: default_true(), exclude_keys: default_exclude_keys(), labels: StringTable::new() }
    }
}

impl Default for UiConfig {
    fn default() -> (r: Self)
        ensures
            r.rail_title is None,
            r.default_view@ == "book"@,
            r.custom_css@.len() == 0,
            r.hero_chips@.len() == 0,
            r.infobox.enable,
            string_seqs(r.infobox.exclude_keys@) == default_exclude_keys_spec(),
            r.infobox.labels@ == Map::<Seq<char>, Seq<char>>::empty(),
            r.strings@ == Map::<Seq<char>, Seq<char>>::empty(),
    {
        UiConfig {
            rail_title: None,
            default_view: default_view(),
            custom_css: Vec::new(),
            hero_chips: Vec::new(),
            infobox: InfoboxConfig::default(),
            strings: StringTable::new(),
            markers: MarkersConfig::default(),
            links: LinksConfig::default(),
        }
    }
}

/// The settings that come back to their default where the user's table
/// left a key out: the user's entries win, the defaults fill the gaps.
pub open spec fn filled(defaults: Map<Seq<char>, Seq<char>>, user: Map<Seq<char>, Seq<char>>) -> Map<Seq<char>, Seq<char>> {
    defaults.union_prefer_right(user)
}

/// Copy every entry of `defaults` into `table` whose key is not there yet.
fn fill_table(table: &mut StringTable, defaults: &StringTable)
    ensures
        final(table)@ == filled(defaults@, old(table)@),
{
    let keys = defaults.keys();
    let ghost d = defaults@;
    let ghost u = old(table)@;
    let mut i: usize = 0;
    while i < keys.len()
        invariant
            i <= keys@.len(),
            keys@.len() == d.dom().len(),
            d == defaults@,
            forall|x: int| 0 <= x < keys@.len() ==> #[trigger] d.contains_key(keys@[x]@),
            forall|k: Seq<char>| #[trigger] d.contains_key(k) ==> exists|x: int| 0 <= x < keys@.len() && keys@[x]@ == k,
            forall|x: int, y: int| 0 <= x < y < keys@.len() ==> keys@[x]@ != keys@[y]@,
            forall|k: Seq<char>| #[trigger] table@.contains_key(k) <==> (u.contains_key(k) || exists|x: int| 0 <= x < i && keys@[x]@ == k),
            forall|k: Seq<char>| #[trigger] table@.contains_key(k) ==> table@[k] == (if u.contains_key(k) { u[k] } else { d[k] }),
        decreases keys@.len() - i,
    {
        let key = keys[i].as_str();
        match defaults.get(key) {
            Some(v) => {
                table.insert_if_absent(keys[i].clone(), v.to_owned());
            },
            None => {},
        }
        i = i + 1;
    }
    assert(table@ =~= filled(d, u)) by {
        assert forall|k: Seq<char>| #[trigger] table@.contains_key(k) <==> filled(d, u).contains_key(k) by {
            if d.contains_key(k) {
                let x = choose|x: int| 0 <= x < keys@.len() && keys@[x]@ == k;
                assert(0 <= x < i);
            }
        }
    }
}

impl UiConfig {
    /// Restore any string or label the user's config did not mention, using defaults for `lang`.
    ///
    /// A partial `[ui.strings]` or `[ui.infobox.labels]` table replaces the whole map during
    /// deserialization, so without this an override of one label would blank out the rest.
    pub fn fill_defaults(&mut self, lang: &str)
        ensures
            final(self).strings@ == filled(ui_strings_for_spec(lang@), old(self).strings@),
            final(self).infobox.labels@ == filled(key_labels_for_spec(lang@), old(self).infobox.labels@),
            chip_views(final(self).hero_chips@) == (if old(self).hero_chips@.len() == 0 {
                hero_chips_for_spec(lang@)
            } else {
                chip_views(old(self).hero_chips@)
            }),
            final(self).rail_title == old(self).rail_title,
            final(self).default_view == old(self).default_view,
            final(self).custom_css == old(self).custom_css,
            final(self).infobox.enable == old(self).infobox.enable,
            final(self).infobox.exclude_keys == old(self).infobox.exclude_keys,
            final(self).markers == old(self).markers,
            final(self).links == old(self).links,
    {
        let strings = default_ui_strings_for(lang);
        fill_table(&mut self.strings, &strings);
        let labels = default_key_labels_for(lang);
        fill_table(&mut self.infobox.labels, &labels);
        if self.hero_chips.len() == 0 {
            self.hero_chips = default_hero_chips_for(lang);
        }
    }

    /// Restore defaults using the default Japanese dictionary.
    pub fn fill_string_defaults(&mut self)
        ensures
            final(self).strings@ == filled(crate::i18n::ja::ui_strings_spec(), old(self).strings@),
            final(self).infobox.labels@ == filled(crate::i18n::ja::key_labels_spec(), old(self).infobox.labels@),
            chip_views(final(self).hero_chips@) == (if old(self).hero_chips@.len() == 0 {
                crate::i18n::ja::hero_chips_spec()
            } else {
                chip_views(old(self).hero_chips@)
            }),
            final(self).rail_title == old(self).rail_title,
            final(self).default_view == old(self).default_view,
            final(self).custom_css == old(self).custom_css,
            final(self).infobox.enable == old(self).infobox.enable,
            final(self).infobox.exclude_keys == old(self).infobox.exclude_keys,
            final(self).markers == old(self).markers,
            final(self).links == old(self).links,
    {
        proof {
            crate::i18n::lemma_japanese_is_not_english();
        }
        self.fill_defaults("ja");
    }
}

impl Default for BuildConfig {
    fn default() -> (r: Self)
        ensures
            string_seqs(r.exclude@) == default_exclude_spec(),
            string_seqs(r.kinds@) == default_kinds_spec(),
            r.pagefind,
            r.url_prefix@ == "/wiki"@,
            r.asset_prefix@ == "/vault"@,
            r.config_path is None,
    {
        BuildConfig {
            exclude: default_exclude(),
            kinds: default_kinds(),
            pagefind: default_true(),
            url_prefix: default_url_prefix(),
            asset_prefix: default_asset_prefix(),
            config_path: None,
        }
    }
}

/// A prefix without its trailing slashes.
pub open spec fn without_trailing_slashes(s: Seq<char>) -> Seq<char> {
    trim_end_spec(s, is_char_pred('/'))
}

/// A prefix without its leading and trailing slashes.
pub open spec fn without_slashes(s: Seq<char>) -> Seq<char> {
    trim_both_spec(s, is_char_pred('/'))
}

fn trim_trailing_slashes(s: &str) -> (r: String)
    ensures
        r@ == without_trailing_slashes(s@),
{
    let cs = chars_of(s);
    let b = trim_end_char(&cs, 0, cs.len(), '/');
    assert(cs@.subrange(0, cs@.len() as int) =~= s@);
    string_from_range(&cs, 0, b)
}

fn trim_slashes(s: &str) -> (r: String)
    ensures
        r@ == without_slashes(s@),
{
    let cs = chars_of(s);
    let a = trim_start_char(&cs, 0, cs.len(), '/');
    let b = trim_end_char(&cs, a, cs.len(), '/');
    assert(cs@.subrange(0, cs@.len() as int) =~= s@);
    string_from_range(&cs, a, b)
}

impl BuildConfig {
    /// `url_prefix` without a trailing slash, for building page hrefs (`/wiki`).
    pub fn clean_url_prefix(&self) -> (r: String)
        ensures
            r@ == without_trailing_slashes(self.url_prefix@),
    {
        trim_trailing_slashes(self.url_prefix.as_str())
    }

    /// `asset_prefix` without a trailing slash, for building media hrefs (`/vault`).
    pub fn clean_asset_prefix(&self) -> (r: String)
        ensures
            r@ == without_trailing_slashes(self.asset_prefix@),
    {
        trim_trailing_slashes(self.asset_prefix.as_str())
    }

    /// Where rendered pages go, relative to the destination root.
    ///
    /// Derived from `url_prefix` so the files always land where the links point;
    /// an empty result means the pages sit at the destination root.
    pub fn wiki_out_rel(&self) -> (r: String)
        ensures
            r@ == without_slashes(self.url_prefix@),
    {
        trim_slashes(self.url_prefix.as_str())
    }

    /// Where vault media goes, relative to the destination root.
    pub fn asset_out_rel(&self) -> (r: String)
        ensures
            r@ == without_slashes(self.asset_prefix@),
    {
        trim_slashes(self.asset_prefix.as_str())
    }
}

impl BookConfig {
    /// The configuration a book in `lang` has when `tmtbook.toml` says nothing.
    pub fn default_with_lang(lang: &str) -> (r: Self)
        ensures
            r.book.title@ == "Tomet Book"@,
            r.book.description is None,
            r.book.lang@ == lang@,
            r.book.dest@ == "dist"@,
            r.ui.rail_title is None,
            r.ui.default_view@ == "book"@,
            r.ui.custom_css@.len() == 0,
            r.ui.strings@ == ui_strings_for_spec(lang@),
            chip_views(r.ui.hero_chips@) == hero_chips_for_spec(lang@),
            r.ui.infobox.enable,
            string_seqs(r.ui.infobox.exclude_keys@) == default_exclude_keys_spec(),
            r.ui.infobox.labels@ == key_labels_for_spec(lang@),
            string_seqs(r.build.exclude@) == default_exclude_spec(),
            string_seqs(r.build.kinds@) == default_kinds_spec(),
            r.build.pagefind,
            r.build.url_prefix@ == "/wiki"@,
            r.build.asset_prefix@ == "/vault"@,
            r.build.config_path is None,
    {
        let meta = BookMeta::default();
        let infobox = InfoboxConfig::default();
        let ui = UiConfig::default();
        BookConfig {
            book: BookMeta { title: meta.title, description: meta.description, lang: lang.to_owned(), dest: meta.dest },
            ui: UiConfig {
                rail_title: ui.rail_title,
                default_view: ui.default_view,
                custom_css: ui.custom_css,
                hero_chips: default_hero_chips_for(lang),
                infobox: InfoboxConfig {
                    enable: infobox.enable,
                    exclude_keys: infobox.exclude_keys,
                    labels: default_key_labels_for(lang),
                },
                strings: default_ui_strings_for(lang),
                markers: ui.markers,
                links: ui.links,
            },
            build: BuildConfig::default(),
        }
    }

    /// Fill in every string, label and chip the loaded file left out, for the book's language.
    pub fn apply_defaults(&mut self)
        ensures
            final(self).book == old(self).book,
            final(self).build == old(self).build,
            final(self).ui.strings@ == filled(ui_strings_for_spec(old(self).book.lang@), old(self).ui.strings@),
            final(self).ui.infobox.labels@ == filled(key_labels_for_spec(old(self).book.lang@), old(self).ui.infobox.labels@),
            chip_views(final(self).ui.hero_chips@) == (if old(self).ui.hero_chips@.len() == 0 {
                hero_chips_for_spec(old(self).book.lang@)
            } else {
                chip_views(old(self).ui.hero_chips@)
            }),
            final(self).ui.rail_title == old(self).ui.rail_title,
            final(self).ui.default_view == old(self).ui.default_view,
            final(self).ui.custom_css == old(self).ui.custom_css,
            final(self).ui.infobox.enable == old(self).ui.infobox.enable,
            final(self).ui.infobox.exclude_keys == old(self).ui.infobox.exclude_keys,
            final(self).ui.markers == old(self).ui.markers,
            final(self).ui.links == old(self).ui.links,
    {
        let lang = self.book.lang.clone();
        self.ui.fill_defaults(lang.as_str());
    }
}

impl Default for BookConfig {
    fn default() -> (r: Self)
        ensures
            r.book.lang@ == "ja"@,
            r.ui.strings@ == crate::i18n::ja::ui_strings_spec(),
            r.ui.infobox.labels@ == crate::i18n::ja::key_labels_spec(),
            chip_views(r.ui.hero_chips@) == crate::i18n::ja::hero_chips_spec(),
            r.build.url_prefix@ == "/wiki"@,
            r.build.asset_prefix@ == "/vault"@,
    {
        proof {
            reveal_strlit("ja");
            crate::i18n::lemma_japanese_is_not_english();
        }
        Self::default_with_lang("ja")
    }
}

} // verus!
