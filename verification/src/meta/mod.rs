//! Turning a document's `@meta` block into the page's chrome: the hero chips,
//! the infobox rows, and the images the template hangs off them.

pub mod format;
pub mod icon;
pub mod value;
pub mod targets;

use vstd::prelude::*;

use crate::config::{opt_seq, string_seqs, without_trailing_slashes, BookConfig, HeroChipConfig, InfoboxConfig};
use crate::html::{
    color_chip_html, color_chip_spec, escape_html, escaped, external_link_html, external_link_spec, is_external_url,
    is_external_url_spec, sanitize_color_hex, sanitized_color,
};
use crate::i18n::{is_english, is_english_spec};
use crate::icon::{link_icon_spec, names_of, opt_str, render_link_icon, IconSet};
use crate::links::{link_ref_parses, opt_view, slug_from_href, slug_from_href_spec};
use crate::slug::{join_spec, lemma_push_new_keeps_no_repeats, no_repeats};
use crate::text::{chars_of, has_prefix, str_eq, string_from_range, trim_ws};
use self::format::{chip_value_spec, format_chip_value};
use self::icon::{
    format_text_icon, format_text_icon_link, is_image_target, is_image_target_spec, text_icon_link_spec,
    text_icon_spec,
};
use self::value::{
    extract_media_target, get, info_view, item_parses, link_info_spec, media_path_spec, media_target_spec,
    value_html_in, obj_get, value_html_exec, resolve_link_val, resolve_meta_media_path, trimmed,
    value_parses, LinkCtx, LinkInfoView, MetaLinkInfo, MetaValue,
};

verus! {

/// One chip under the page title.
#[derive(Debug, Clone)]
pub struct HeroChipItem {
    pub label: Option<String>,
    pub value: String,
    pub href: Option<String>,
}

pub struct ChipView {
    pub label: Option<Seq<char>>,
    pub value: Seq<char>,
    pub href: Option<Seq<char>>,
}

pub open spec fn chip_view(c: HeroChipItem) -> ChipView {
    ChipView { label: opt_view(c.label), value: c.value@, href: opt_view(c.href) }
}

pub open spec fn chip_views(v: Seq<HeroChipItem>) -> Seq<ChipView> {
    v.map_values(|c: HeroChipItem| chip_view(c))
}

/// One row of the infobox beside the page.
#[derive(Debug, Clone)]
pub struct InfoboxRowItem {
    pub label: String,
    pub value: String,
}

pub open spec fn row_views(v: Seq<InfoboxRowItem>) -> Seq<(Seq<char>, Seq<char>)> {
    v.map_values(|r: InfoboxRowItem| (r.label@, r.value@))
}

/// The values of an object's entries are all ones link parsing can read.
pub open spec fn meta_parses(entries: Seq<(String, MetaValue)>) -> bool {
    forall|i: int| 0 <= i < entries.len() ==> #[trigger] value_parses(entries[i].1)
}

/// A value found in entries that parse, parses.
pub proof fn lemma_obj_get_parses(entries: Seq<(String, MetaValue)>, key: Seq<char>)
    requires
        meta_parses(entries),
    ensures
        obj_get(entries, key) matches Some(v) ==> value_parses(v),
    decreases entries.len(),
{
    if entries.len() > 0 {
        assert(value_parses(entries[0].1));
        if entries[0].0@ != key {
            let rest = entries.drop_first();
            assert forall|i: int| 0 <= i < rest.len() implies #[trigger] value_parses(rest[i].1) by {
                assert(rest[i] == entries[i + 1]);
                assert(value_parses(entries[i + 1].1));
            }
            lemma_obj_get_parses(rest, key);
        }
    }
}

/// The items a value stands for: each entry of an array, or the value itself.
pub open spec fn items_of(v: MetaValue) -> Seq<MetaValue> {
    match v {
        MetaValue::Array(a) => a@,
        _ => seq![v],
    }
}

/// Every item of a value that parses, parses.
pub proof fn lemma_items_parse(v: MetaValue)
    requires
        value_parses(v),
    ensures
        forall|i: int| 0 <= i < items_of(v).len() ==> #[trigger] item_parses(items_of(v)[i]),
{
    match v {
        MetaValue::Array(a) => {},
        _ => {
            assert forall|i: int| 0 <= i < items_of(v).len() implies #[trigger] item_parses(items_of(v)[i]) by {
                assert(i == 0);
            }
        },
    }
}

// ---------------------------------------------------------------- hero chips

/// The chip one item gives under a chip setting: one when it reads as a link
/// or a number with a label to show, none otherwise.
pub open spec fn chip_of(item: MetaValue, cfg: HeroChipConfig, lang: Seq<char>, cx: LinkCtx) -> Seq<ChipView> {
    match link_info_spec(item, cx) {
        Some(info) => if info.label.len() > 0 {
            seq![
                ChipView {
                    label: opt_seq(cfg.label),
                    value: chip_value_spec(info.label, opt_seq(cfg.format), Some(lang)),
                    href: info.href,
                },
            ]
        } else {
            Seq::empty()
        },
        None => Seq::empty(),
    }
}

pub open spec fn chips_from(items: Seq<MetaValue>, cfg: HeroChipConfig, lang: Seq<char>, cx: LinkCtx) -> Seq<ChipView>
    decreases items.len(),
{
    if items.len() == 0 {
        Seq::empty()
    } else {
        chips_from(items.drop_last(), cfg, lang, cx) + chip_of(items.last(), cfg, lang, cx)
    }
}

/// The hero chips: for each configured key, in the configured order, a chip
/// for each item of its value.
pub open spec fn hero_chips_spec(
    entries: Seq<(String, MetaValue)>,
    cfgs: Seq<HeroChipConfig>,
    lang: Seq<char>,
    cx: LinkCtx,
) -> Seq<ChipView>
    decreases cfgs.len(),
{
    if cfgs.len() == 0 {
        Seq::empty()
    } else {
        let rest = hero_chips_spec(entries, cfgs.drop_last(), lang, cx);
        match obj_get(entries, cfgs.last().key@) {
            Some(v) => rest + chips_from(items_of(v), cfgs.last(), lang, cx),
            None => rest,
        }
    }
}

fn opt_as_str(o: &Option<String>) -> (r: Option<&str>)
    ensures
        opt_str(r) == opt_seq(*o),
{
    match o {
        Some(s) => Some(s.as_str()),
        None => None,
    }
}

fn clone_opt(o: &Option<String>) -> (r: Option<String>)
    ensures
        opt_view(r) == opt_view(*o),
{
    match o {
        Some(s) => Some(s.clone()),
        None => None,
    }
}

fn push_chip(chips: &mut Vec<HeroChipItem>, item: &MetaValue, cfg: &HeroChipConfig, lang: &str, cx: &LinkCtx)
    requires
        item_parses(*item),
    ensures
        chip_views(final(chips)@) == chip_views(old(chips)@) + chip_of(*item, *cfg, lang@, *cx),
{
    match resolve_link_val(item, cx) {
        Some(info) => {
            if chars_of(info.label.as_str()).len() > 0 {
                let value = format_chip_value(info.label.as_str(), opt_as_str(&cfg.format), Some(lang));
                let chip = HeroChipItem { label: clone_opt(&cfg.label), value, href: info.href };
                chips.push(chip);
                assert(chip_views(chips@) =~= chip_views(old(chips)@) + chip_of(*item, *cfg, lang@, *cx));
            } else {
                assert(chip_views(chips@) =~= chip_views(old(chips)@) + chip_of(*item, *cfg, lang@, *cx));
            }
        },
        None => {
            assert(chip_views(chips@) =~= chip_views(old(chips)@) + chip_of(*item, *cfg, lang@, *cx));
        },
    }
}

fn push_chips_for(chips: &mut Vec<HeroChipItem>, val: &MetaValue, cfg: &HeroChipConfig, lang: &str, cx: &LinkCtx)
    requires
        value_parses(*val),
    ensures
        chip_views(final(chips)@) == chip_views(old(chips)@) + chips_from(items_of(*val), *cfg, lang@, *cx),
{
    let ghost start = chip_views(chips@);
    match val {
        MetaValue::Array(items) => {
            let mut i: usize = 0;
            proof {
                lemma_items_parse(*val);
            }
            assert(items_of(*val) == items@);
            assert(items@.take(0) =~= Seq::<MetaValue>::empty());
            assert(start + Seq::<ChipView>::empty() =~= start);
            while i < items.len()
                invariant
                    i <= items@.len(),
                    *val == MetaValue::Array(*items),
                    forall|k: int| 0 <= k < items@.len() ==> #[trigger] item_parses(items@[k]),
                    chip_views(chips@) == start + chips_from(items@.take(i as int), *cfg, lang@, *cx),
                decreases items@.len() - i,
            {
                assert(items@.take(i + 1).drop_last() =~= items@.take(i as int));
                assert(items@.take(i + 1).last() == items@[i as int]);
                assert(item_parses(items@[i as int]));
                let ghost before = chip_views(chips@);
                push_chip(chips, &items[i], cfg, lang, cx);
                assert(chip_views(chips@) =~= start + chips_from(items@.take(i + 1), *cfg, lang@, *cx));
                i = i + 1;
            }
            assert(items@.take(items@.len() as int) =~= items@);
        },
        _ => {
            assert(items_of(*val) =~= seq![*val]);
            assert(seq![*val].drop_last() =~= Seq::<MetaValue>::empty());
            assert(chips_from(Seq::<MetaValue>::empty(), *cfg, lang@, *cx) == Seq::<ChipView>::empty());
            assert(chips_from(seq![*val], *cfg, lang@, *cx) == chip_of(*val, *cfg, lang@, *cx));
            push_chip(chips, val, cfg, lang, cx);
            assert(chip_views(chips@) =~= start + chips_from(items_of(*val), *cfg, lang@, *cx));
        },
    }
}

fn hero_chips(entries: &Vec<(String, MetaValue)>, cfgs: &Vec<HeroChipConfig>, lang: &str, cx: &LinkCtx) -> (r: Vec<
    HeroChipItem,
>)
    requires
        meta_parses(entries@),
    ensures
        chip_views(r@) == hero_chips_spec(entries@, cfgs@, lang@, *cx),
{
    let mut chips: Vec<HeroChipItem> = Vec::new();
    let mut i: usize = 0;
    assert(chip_views(chips@) =~= Seq::<ChipView>::empty());
    while i < cfgs.len()
        invariant
            i <= cfgs@.len(),
            meta_parses(entries@),
            chip_views(chips@) == hero_chips_spec(entries@, cfgs@.take(i as int), lang@, *cx),
        decreases cfgs@.len() - i,
    {
        assert(cfgs@.take(i + 1).drop_last() =~= cfgs@.take(i as int));
        assert(cfgs@.take(i + 1).last() == cfgs@[i as int]);
        proof {
            lemma_obj_get_parses(entries@, cfgs@[i as int].key@);
        }
        match get(entries, cfgs[i].key.as_str()) {
            Some(v) => {
                push_chips_for(&mut chips, v, &cfgs[i], lang, cx);
            },
            None => {},
        }
        i = i + 1;
    }
    assert(cfgs@.take(cfgs@.len() as int) =~= cfgs@);
    chips
}

// ---------------------------------------------------------------- infobox

/// Whether `key` names a link to somewhere else on the web.
pub open spec fn is_url_key(key: Seq<char>) -> bool {
    "url."@.is_prefix_of(key) || key == "url"@
}

/// The items whose rendering goes through link parsing can be read by it.
pub open spec fn renders(info: LinkInfoView) -> bool {
    info.href is None && !"unresolved:"@.is_prefix_of(info.raw) ==> link_ref_parses(info.raw)
}

/// One item of an infobox cell: an outside link under a `url` key, a page
/// link, a link to a page not written yet, or the value as text.
pub open spec fn render_info_spec(info: LinkInfoView, key: Seq<char>, cx: LinkCtx) -> Seq<char> {
    if is_url_key(key) && is_external_url_spec(info.raw) {
        external_link_spec(info.raw)
    } else {
        match info.href {
            Some(h) => "<a href=\""@ + escaped(h) + "\" class=\"tm-link tm-file\">"@ + escaped(info.label) + "</a>"@,
            None => if "unresolved:"@.is_prefix_of(info.raw) {
                "<span class=\"tm-link tm-unresolved\" title=\""@ + escaped(cx.unresolved_title@) + "\">"@
                    + escaped(info.label) + "</span>"@
            } else {
                value_html_in(info.raw, cx, true)
            },
        }
    }
}

/// The colour chips of the string items, side by side.
pub open spec fn color_chips_spec(items: Seq<MetaValue>) -> Seq<char>
    decreases items.len(),
{
    if items.len() == 0 {
        Seq::empty()
    } else {
        let last = match items.last() {
            MetaValue::Text(s) => color_chip_spec(s@),
            _ => Seq::empty(),
        };
        color_chips_spec(items.drop_last()) + last
    }
}

/// The non-empty renderings of the items that read as links or numbers.
pub open spec fn rendered_items(items: Seq<MetaValue>, key: Seq<char>, cx: LinkCtx) -> Seq<Seq<char>>
    decreases items.len(),
{
    if items.len() == 0 {
        Seq::empty()
    } else {
        let rest = rendered_items(items.drop_last(), key, cx);
        match link_info_spec(items.last(), cx) {
            Some(info) => {
                let h = render_info_spec(info, key, cx);
                if h.len() > 0 {
                    rest.push(h)
                } else {
                    rest
                }
            },
            None => rest,
        }
    }
}

pub open spec fn color_box(inner: Seq<char>) -> Seq<char> {
    "<div class=\"color-chips\">"@ + inner + "</div>"@
}

/// One infobox cell, or nothing for a value with nothing to show: colour
/// chips under `colors`, `Yes` or `No` for a flag, the items joined with
/// `、` for an array, the one item otherwise.
pub open spec fn row_value_spec(key: Seq<char>, val: MetaValue, cx: LinkCtx) -> Option<Seq<char>> {
    if key == "colors"@ {
        match val {
            MetaValue::Text(s) => Some(color_box(color_chip_spec(s@))),
            MetaValue::Array(a) => Some(color_box(color_chips_spec(a@))),
            _ => None,
        }
    } else {
        match val {
            MetaValue::Bool(b) => Some(
                if b {
                    "Yes"@
                } else {
                    "No"@
                },
            ),
            MetaValue::Array(a) => {
                let parts = rendered_items(a@, key, cx);
                if parts.len() == 0 {
                    None
                } else {
                    Some(join_spec(parts, "、"@))
                }
            },
            _ => match link_info_spec(val, cx) {
                Some(info) => Some(render_info_spec(info, key, cx)),
                None => None,
            },
        }
    }
}

/// The label a key shows with: the configured one, else the key itself.
pub open spec fn label_for(labels: Map<Seq<char>, Seq<char>>, key: Seq<char>) -> Seq<char> {
    if labels.contains_key(key) {
        labels[key]
    } else {
        key
    }
}

pub open spec fn excluded(infobox: InfoboxConfig, key: Seq<char>) -> bool {
    string_seqs(infobox.exclude_keys@).contains(key)
}

/// A row for each entry, in order, that is not excluded and renders to
/// something.
pub open spec fn entry_rows(entries: Seq<(String, MetaValue)>, infobox: InfoboxConfig, cx: LinkCtx) -> Seq<
    (Seq<char>, Seq<char>),
>
    decreases entries.len(),
{
    if entries.len() == 0 {
        Seq::empty()
    } else {
        let rest = entry_rows(entries.drop_last(), infobox, cx);
        let key = entries.last().0@;
        if excluded(infobox, key) {
            rest
        } else {
            match row_value_spec(key, entries.last().1, cx) {
                Some(v) => if v.len() > 0 {
                    rest.push((label_for(infobox.labels@, key), v))
                } else {
                    rest
                },
                None => rest,
            }
        }
    }
}

pub open spec fn kind_label(infobox: InfoboxConfig, lang: Seq<char>) -> Seq<char> {
    if infobox.labels@.contains_key("kind"@) {
        infobox.labels@["kind"@]
    } else if is_english_spec(lang) {
        "Kind"@
    } else {
        "種別"@
    }
}

/// The document's kind, as a row, when the metadata does not say what the
/// page is and `kind` is not excluded.
pub open spec fn kind_rows(
    entries: Seq<(String, MetaValue)>,
    kind: Option<Seq<char>>,
    infobox: InfoboxConfig,
    lang: Seq<char>,
) -> Seq<(Seq<char>, Seq<char>)> {
    match kind {
        Some(k) => if !excluded(infobox, "kind"@) && obj_get(entries, "type"@) is None && obj_get(entries, "kind"@) is None {
            seq![(kind_label(infobox, lang), k)]
        } else {
            Seq::empty()
        },
        None => Seq::empty(),
    }
}

/// The infobox: nothing when it is switched off; else the kind row, then a
/// row per entry.
pub open spec fn infobox_rows_spec(
    entries: Seq<(String, MetaValue)>,
    kind: Option<Seq<char>>,
    infobox: InfoboxConfig,
    lang: Seq<char>,
    cx: LinkCtx,
) -> Seq<(Seq<char>, Seq<char>)> {
    if !infobox.enable {
        Seq::empty()
    } else {
        kind_rows(entries, kind, infobox, lang) + entry_rows(entries, infobox, cx)
    }
}

fn contains_string(v: &Vec<String>, s: &str) -> (r: bool)
    ensures
        r == string_seqs(v@).contains(s@),
{
    let ghost vs = string_seqs(v@);
    let mut i: usize = 0;
    while i < v.len()
        invariant
            i <= v@.len(),
            vs == string_seqs(v@),
            forall|k: int| 0 <= k < i ==> vs[k] != s@,
        decreases v@.len() - i,
    {
        if str_eq(v[i].as_str(), s) {
            assert(vs[i as int] == s@);
            return true;
        }
        i = i + 1;
    }
    false
}

fn is_url_key_exec(key: &str) -> (r: bool)
    ensures
        r == is_url_key(key@),
{
    has_prefix(&chars_of(key), "url.") || str_eq(key, "url")
}

fn render_info(info: &MetaLinkInfo, key: &str, cx: &LinkCtx) -> (r: String)
    requires
        renders(info_view(*info)),
    ensures
        r@ == render_info_spec(info_view(*info), key@, *cx),
{
    if is_url_key_exec(key) && is_external_url(info.raw.as_str()) {
        return external_link_html(info.raw.as_str());
    }
    match &info.href {
        Some(h) => {
            let mut out = String::new();
            out.push_str("<a href=\"");
            out.push_str(escape_html(h.as_str()).as_str());
            out.push_str("\" class=\"tm-link tm-file\">");
            out.push_str(escape_html(info.label.as_str()).as_str());
            out.push_str("</a>");
            out
        },
        None => {
            if has_prefix(&chars_of(info.raw.as_str()), "unresolved:") {
                let mut out = String::new();
                out.push_str("<span class=\"tm-link tm-unresolved\" title=\"");
                out.push_str(escape_html(cx.unresolved_title.as_str()).as_str());
                out.push_str("\">");
                out.push_str(escape_html(info.label.as_str()).as_str());
                out.push_str("</span>");
                out
            } else {
                value_html_exec(info.raw.as_str(), cx, true)
            }
        },
    }
}

/// What one item reads as renders.
proof fn lemma_item_renders(v: MetaValue, cx: LinkCtx)
    requires
        item_parses(v),
        link_info_spec(v, cx) is Some,
    ensures
        renders(link_info_spec(v, cx).unwrap()),
{
}

fn color_chips(items: &Vec<MetaValue>) -> (r: String)
    ensures
        r@ == color_chips_spec(items@),
{
    let mut out = String::new();
    let mut i: usize = 0;
    assert(items@.take(0) =~= Seq::<MetaValue>::empty());
    while i < items.len()
        invariant
            i <= items@.len(),
            out@ == color_chips_spec(items@.take(i as int)),
        decreases items@.len() - i,
    {
        assert(items@.take(i + 1).drop_last() =~= items@.take(i as int));
        assert(items@.take(i + 1).last() == items@[i as int]);
        match &items[i] {
            MetaValue::Text(s) => {
                out.push_str(color_chip_html(s.as_str()).as_str());
            },
            _ => {
                assert(out@ + Seq::<char>::empty() =~= out@);
            },
        }
        i = i + 1;
    }
    assert(items@.take(items@.len() as int) =~= items@);
    out
}

fn join_strings(parts: &Vec<String>, sep: &str) -> (r: String)
    ensures
        r@ == join_spec(string_seqs(parts@), sep@),
{
    let mut out = String::new();
    let mut i: usize = 0;
    while i < parts.len()
        invariant
            i <= parts@.len(),
            out@ == join_spec(string_seqs(parts@.take(i as int)), sep@),
        decreases parts@.len() - i,
    {
        let ghost before = string_seqs(parts@.take(i as int));
        let ghost after = string_seqs(parts@.take(i + 1));
        assert(after.drop_last() =~= before);
        assert(after.last() == parts@[i as int]@);
        if i > 0 {
            out.push_str(sep);
        } else {
            assert(before.len() == 0);
        }
        out.push_str(parts[i].as_str());
        i = i + 1;
    }
    assert(parts@.take(parts@.len() as int) =~= parts@);
    out
}

fn rendered(items: &Vec<MetaValue>, key: &str, cx: &LinkCtx) -> (r: Vec<String>)
    requires
        forall|k: int| 0 <= k < items@.len() ==> #[trigger] item_parses(items@[k]),
    ensures
        string_seqs(r@) == rendered_items(items@, key@, *cx),
{
    let mut out: Vec<String> = Vec::new();
    let mut i: usize = 0;
    assert(items@.take(0) =~= Seq::<MetaValue>::empty());
    assert(string_seqs(out@) =~= Seq::<Seq<char>>::empty());
    while i < items.len()
        invariant
            i <= items@.len(),
            forall|k: int| 0 <= k < items@.len() ==> #[trigger] item_parses(items@[k]),
            string_seqs(out@) == rendered_items(items@.take(i as int), key@, *cx),
        decreases items@.len() - i,
    {
        assert(items@.take(i + 1).drop_last() =~= items@.take(i as int));
        assert(items@.take(i + 1).last() == items@[i as int]);
        assert(item_parses(items@[i as int]));
        match resolve_link_val(&items[i], cx) {
            Some(info) => {
                proof {
                    lemma_item_renders(items@[i as int], *cx);
                }
                let h = render_info(&info, key, cx);
                if chars_of(h.as_str()).len() > 0 {
                    out.push(h);
                    assert(string_seqs(out@) =~= rendered_items(items@.take(i + 1), key@, *cx));
                }
            },
            None => {},
        }
        i = i + 1;
    }
    assert(items@.take(items@.len() as int) =~= items@);
    out
}

fn row_value(key: &str, val: &MetaValue, cx: &LinkCtx) -> (r: Option<String>)
    requires
        value_parses(*val),
    ensures
        opt_view(r) == row_value_spec(key@, *val, *cx),
{
    if str_eq(key, "colors") {
        return match val {
            MetaValue::Text(s) => {
                let mut out = String::new();
                out.push_str("<div class=\"color-chips\">");
                out.push_str(color_chip_html(s.as_str()).as_str());
                out.push_str("</div>");
                Some(out)
            },
            MetaValue::Array(a) => {
                let mut out = String::new();
                out.push_str("<div class=\"color-chips\">");
                out.push_str(color_chips(a).as_str());
                out.push_str("</div>");
                Some(out)
            },
            _ => None,
        };
    }
    match val {
        MetaValue::Bool(b) => Some(
            if *b {
                "Yes".to_owned()
            } else {
                "No".to_owned()
            },
        ),
        MetaValue::Array(a) => {
            let parts = rendered(a, key, cx);
            if parts.len() == 0 {
                None
            } else {
                Some(join_strings(&parts, "、"))
            }
        },
        _ => match resolve_link_val(val, cx) {
            Some(info) => {
                proof {
                    lemma_item_renders(*val, *cx);
                }
                Some(render_info(&info, key, cx))
            },
            None => None,
        },
    }
}

fn infobox_rows(
    entries: &Vec<(String, MetaValue)>,
    kind: Option<&str>,
    infobox: &InfoboxConfig,
    lang: &str,
    cx: &LinkCtx,
) -> (r: Vec<InfoboxRowItem>)
    requires
        meta_parses(entries@),
    ensures
        row_views(r@) == infobox_rows_spec(entries@, opt_str(kind), *infobox, lang@, *cx),
{
    let mut rows: Vec<InfoboxRowItem> = Vec::new();
    if !infobox.enable {
        assert(row_views(rows@) =~= Seq::<(Seq<char>, Seq<char>)>::empty());
        return rows;
    }
    match kind {
        Some(k) => {
            if !contains_string(&infobox.exclude_keys, "kind") && get(entries, "type").is_none() && get(
                entries,
                "kind",
            ).is_none() {
                let label = match infobox.labels.get("kind") {
                    Some(l) => l.to_string(),
                    None => if is_english(lang) {
                        "Kind".to_owned()
                    } else {
                        "種別".to_owned()
                    },
                };
                rows.push(InfoboxRowItem { label, value: k.to_string() });
            }
        },
        None => {},
    }
    let ghost head = kind_rows(entries@, opt_str(kind), *infobox, lang@);
    assert(row_views(rows@) =~= head);
    let mut i: usize = 0;
    assert(entries@.take(0) =~= Seq::<(String, MetaValue)>::empty());
    assert(head + Seq::<(Seq<char>, Seq<char>)>::empty() =~= head);
    while i < entries.len()
        invariant
            i <= entries@.len(),
            meta_parses(entries@),
            row_views(rows@) == head + entry_rows(entries@.take(i as int), *infobox, *cx),
        decreases entries@.len() - i,
    {
        assert(entries@.take(i + 1).drop_last() =~= entries@.take(i as int));
        assert(entries@.take(i + 1).last() == entries@[i as int]);
        let ghost before = entry_rows(entries@.take(i as int), *infobox, *cx);
        let key = entries[i].0.as_str();
        if !contains_string(&infobox.exclude_keys, key) {
            assert(value_parses(entries@[i as int].1));
            match row_value(key, &entries[i].1, cx) {
                Some(v) => {
                    if chars_of(v.as_str()).len() > 0 {
                        let label = match infobox.labels.get(key) {
                            Some(l) => l.to_string(),
                            None => key.to_string(),
                        };
                        let ghost lv = label@;
                        let ghost vv = v@;
                        assert(lv == label_for(infobox.labels@, key@));
                        let ghost old_rows = rows@;
                        rows.push(InfoboxRowItem { label, value: v });
                        assert(row_views(rows@) =~= row_views(old_rows).push((lv, vv)));
                        assert(row_views(rows@) =~= head + before.push((lv, vv)));
                    }
                },
                None => {},
            }
        }
        i = i + 1;
    }
    assert(entries@.take(entries@.len() as int) =~= entries@);
    rows
}

// ---------------------------------------------------------------- linked pages

/// The hrefs of the items that read as links somewhere, in order.
pub open spec fn item_hrefs(items: Seq<MetaValue>, cx: LinkCtx) -> Seq<Seq<char>>
    decreases items.len(),
{
    if items.len() == 0 {
        Seq::empty()
    } else {
        let rest = item_hrefs(items.drop_last(), cx);
        match link_info_spec(items.last(), cx) {
            Some(info) => match info.href {
                Some(h) => rest.push(h),
                None => rest,
            },
            None => rest,
        }
    }
}

/// The hrefs of every entry's items, entry by entry.
pub open spec fn entry_hrefs(entries: Seq<(String, MetaValue)>, cx: LinkCtx) -> Seq<Seq<char>>
    decreases entries.len(),
{
    if entries.len() == 0 {
        Seq::empty()
    } else {
        entry_hrefs(entries.drop_last(), cx) + item_hrefs(items_of(entries.last().1), cx)
    }
}

/// `acc` with the page `href` points at added, unless it is there already.
pub open spec fn slug_step(acc: Seq<Seq<char>>, href: Seq<char>, prefix: Seq<char>) -> Seq<Seq<char>> {
    match slug_from_href_spec(href, prefix) {
        Some(s) => if acc.contains(s) {
            acc
        } else {
            acc.push(s)
        },
        None => acc,
    }
}

/// `acc` with the pages of `hrefs` added in turn.
pub open spec fn slugs_after(acc: Seq<Seq<char>>, hrefs: Seq<Seq<char>>, prefix: Seq<char>) -> Seq<Seq<char>>
    decreases hrefs.len(),
{
    if hrefs.len() == 0 {
        acc
    } else {
        slug_step(slugs_after(acc, hrefs.drop_last(), prefix), hrefs.last(), prefix)
    }
}

/// The pages the metadata points at, each once, in the order first met.
pub open spec fn linked_slugs_spec(entries: Seq<(String, MetaValue)>, cx: LinkCtx) -> Seq<Seq<char>> {
    slugs_after(Seq::empty(), entry_hrefs(entries, cx), cx.url_prefix@)
}

proof fn lemma_slugs_after_concat(acc: Seq<Seq<char>>, a: Seq<Seq<char>>, b: Seq<Seq<char>>, prefix: Seq<char>)
    ensures
        slugs_after(acc, a + b, prefix) == slugs_after(slugs_after(acc, a, prefix), b, prefix),
    decreases b.len(),
{
    if b.len() == 0 {
        assert(a + b =~= a);
    } else {
        assert((a + b).drop_last() =~= a + b.drop_last());
        assert((a + b).last() == b.last());
        lemma_slugs_after_concat(acc, a, b.drop_last(), prefix);
    }
}

fn add_slug(slugs: &mut Vec<String>, href: &str, prefix: &str)
    ensures
        string_seqs(final(slugs)@) == slug_step(string_seqs(old(slugs)@), href@, prefix@),
{
    match slug_from_href(href, prefix) {
        Some(s) => {
            if !contains_string(slugs, s.as_str()) {
                slugs.push(s);
                assert(string_seqs(slugs@) =~= string_seqs(old(slugs)@).push(s@));
            }
        },
        None => {},
    }
}

fn add_value_slugs(slugs: &mut Vec<String>, val: &MetaValue, cx: &LinkCtx)
    requires
        value_parses(*val),
    ensures
        string_seqs(final(slugs)@) == slugs_after(string_seqs(old(slugs)@), item_hrefs(items_of(*val), *cx), cx.url_prefix@),
{
    let ghost start = string_seqs(slugs@);
    let ghost items = items_of(*val);
    proof {
        lemma_items_parse(*val);
    }
    let single: Vec<&MetaValue> = match val {
        MetaValue::Array(_) => Vec::new(),
        _ => vec![val],
    };
    let n: usize = match val {
        MetaValue::Array(a) => a.len(),
        _ => 1,
    };
    assert(n == items.len());
    let mut i: usize = 0;
    assert(items.take(0) =~= Seq::<MetaValue>::empty());
    while i < n
        invariant
            i <= n,
            n == items.len(),
            items == items_of(*val),
            single@.len() == (if val is Array { 0int } else { 1int }),
            !(val is Array) ==> single@[0] == val,
            forall|k: int| 0 <= k < items.len() ==> #[trigger] item_parses(items[k]),
            string_seqs(slugs@) == slugs_after(start, item_hrefs(items.take(i as int), *cx), cx.url_prefix@),
        decreases n - i,
    {
        assert(items.take(i + 1).drop_last() =~= items.take(i as int));
        assert(items.take(i + 1).last() == items[i as int]);
        let item: &MetaValue = match val {
            MetaValue::Array(a) => &a[i],
            _ => single[0],
        };
        assert(*item == items[i as int]);
        assert(item_parses(items[i as int]));
        let ghost hs = item_hrefs(items.take(i as int), *cx);
        match resolve_link_val(item, cx) {
            Some(info) => match &info.href {
                Some(h) => {
                    add_slug(slugs, h.as_str(), cx.url_prefix.as_str());
                    assert(item_hrefs(items.take(i + 1), *cx) == hs.push(h@));
                    assert(hs.push(h@).drop_last() =~= hs);
                },
                None => {
                    assert(item_hrefs(items.take(i + 1), *cx) == hs);
                },
            },
            None => {
                assert(item_hrefs(items.take(i + 1), *cx) == hs);
            },
        }
        i = i + 1;
    }
    assert(items.take(n as int) =~= items);
}

fn linked_slugs(entries: &Vec<(String, MetaValue)>, cx: &LinkCtx) -> (r: Vec<String>)
    requires
        meta_parses(entries@),
    ensures
        string_seqs(r@) == linked_slugs_spec(entries@, *cx),
{
    let mut slugs: Vec<String> = Vec::new();
    let mut i: usize = 0;
    assert(entries@.take(0) =~= Seq::<(String, MetaValue)>::empty());
    assert(string_seqs(slugs@) =~= Seq::<Seq<char>>::empty());
    while i < entries.len()
        invariant
            i <= entries@.len(),
            meta_parses(entries@),
            string_seqs(slugs@) == slugs_after(Seq::empty(), entry_hrefs(entries@.take(i as int), *cx), cx.url_prefix@),
        decreases entries@.len() - i,
    {
        assert(entries@.take(i + 1).drop_last() =~= entries@.take(i as int));
        assert(entries@.take(i + 1).last() == entries@[i as int]);
        assert(value_parses(entries@[i as int].1));
        proof {
            lemma_slugs_after_concat(
                Seq::empty(),
                entry_hrefs(entries@.take(i as int), *cx),
                item_hrefs(items_of(entries@[i as int].1), *cx),
                cx.url_prefix@,
            );
        }
        add_value_slugs(&mut slugs, &entries[i].1, cx);
        i = i + 1;
    }
    assert(entries@.take(entries@.len() as int) =~= entries@);
    slugs
}

// ---------------------------------------------------------------- icon and media

/// A sprite icon drawn as the page's icon.
pub open spec fn doc_svg_spec(name: Seq<char>, pkg: Seq<char>) -> Seq<char> {
    "<svg class=\"tm-doc-icon\" data-pkg=\""@ + pkg + "\" data-icon=\""@ + escaped(name)
        + "\" aria-hidden=\"true\"><use href=\"/icons/"@ + pkg + ".svg#"@ + escaped(name) + "\"></use></svg>"@
}

pub open spec fn icon_img_spec(url: Seq<char>) -> Seq<char> {
    "<img class=\"tm-doc-icon-img\" src=\""@ + escaped(url) + "\" alt=\"icon\" loading=\"lazy\">"@
}

pub open spec fn icon_link_img_spec(url: Seq<char>) -> Seq<char> {
    "<img class=\"tm-link-icon tm-link-favicon tm-link-icon-img\" src=\""@ + escaped(url)
        + "\" alt=\"\" width=\"14\" height=\"14\" loading=\"lazy\" decoding=\"async\" />"@
}

/// An image as the page icon: the page-side tag, the image URL, the link-side tag.
pub open spec fn image_icon(url: Seq<char>) -> (Option<Seq<char>>, Option<Seq<char>>, Option<Seq<char>>) {
    (Some(icon_img_spec(url)), Some(url), Some(icon_link_img_spec(url)))
}

/// The page icon, the image behind it (when it is one), and the small icon
/// that links to the page show: a sprite icon for `lucide:name` or
/// `simple:name` that the sprite draws, an image for an image file, a URL
/// or an embed, the text or emoji itself otherwise.
pub open spec fn icon_spec(
    entries: Seq<(String, MetaValue)>,
    cx: LinkCtx,
    lucide: Seq<Seq<char>>,
    simple: Seq<Seq<char>>,
) -> (Option<Seq<char>>, Option<Seq<char>>, Option<Seq<char>>) {
    match obj_get(entries, "icon"@) {
        Some(MetaValue::Text(s)) => {
            let t = trim_ws(s@);
            if "lucide:"@.is_prefix_of(t) && lucide.contains(t.skip(7)) {
                (Some(doc_svg_spec(t.skip(7), "lucide"@)), None, link_icon_spec(t.skip(7), "lucide"@, lucide))
            } else if "simple:"@.is_prefix_of(t) && simple.contains(t.skip(7)) {
                (Some(doc_svg_spec(t.skip(7), "simple"@)), None, link_icon_spec(t.skip(7), "simple"@, simple))
            } else if is_image_target_spec(s@) || "http://"@.is_prefix_of(s@) || "https://"@.is_prefix_of(s@) {
                image_icon(media_path_spec(s@, cx))
            } else {
                (Some(text_icon_spec(s@)), None, Some(text_icon_link_spec(s@)))
            }
        },
        Some(MetaValue::Object(m)) => match media_target_spec(MetaValue::Object(m)) {
            Some(t) => image_icon(media_path_spec(t, cx)),
            None => (None, None, None),
        },
        _ => (None, None, None),
    }
}

/// A media target named by a value that parses can be read.
proof fn lemma_media_target_parses(v: MetaValue)
    requires
        value_parses(v),
    ensures
        media_target_spec(v) matches Some(t) ==> link_ref_parses(t),
{
}

fn doc_svg(name: &str, pkg: &str) -> (r: String)
    ensures
        r@ == doc_svg_spec(name@, pkg@),
{
    let n = escape_html(name);
    let mut out = String::new();
    out.push_str("<svg class=\"tm-doc-icon\" data-pkg=\"");
    out.push_str(pkg);
    out.push_str("\" data-icon=\"");
    out.push_str(n.as_str());
    out.push_str("\" aria-hidden=\"true\"><use href=\"/icons/");
    out.push_str(pkg);
    out.push_str(".svg#");
    out.push_str(n.as_str());
    out.push_str("\"></use></svg>");
    out
}

fn image_icon_exec(url: String) -> (r: (Option<String>, Option<String>, Option<String>))
    ensures
        (opt_view(r.0), opt_view(r.1), opt_view(r.2)) == image_icon(url@),
{
    let safe = escape_html(url.as_str());
    let mut html = String::new();
    html.push_str("<img class=\"tm-doc-icon-img\" src=\"");
    html.push_str(safe.as_str());
    html.push_str("\" alt=\"icon\" loading=\"lazy\">");
    let mut link = String::new();
    link.push_str("<img class=\"tm-link-icon tm-link-favicon tm-link-icon-img\" src=\"");
    link.push_str(safe.as_str());
    link.push_str("\" alt=\"\" width=\"14\" height=\"14\" loading=\"lazy\" decoding=\"async\" />");
    (Some(html), Some(url), Some(link))
}

/// `name` after `prefix` in `t`, when `t` starts with it and the sprite draws it.
fn sprite_name(t: &str, prefix: &str, icons: &IconSet) -> (r: Option<String>)
    requires
        prefix@.len() == 7,
    ensures
        match r {
            Some(n) => prefix@.is_prefix_of(t@) && n@ == t@.skip(7) && names_of(*icons).contains(n@),
            None => !(prefix@.is_prefix_of(t@) && names_of(*icons).contains(t@.skip(7))),
        },
{
    let tc = chars_of(t);
    if !has_prefix(&tc, prefix) {
        return None;
    }
    let n = string_from_range(&tc, 7, tc.len());
    assert(n@ =~= t@.skip(7));
    if crate::icon::has_icon(icons, n.as_str()) {
        Some(n)
    } else {
        None
    }
}

fn extract_icon(entries: &Vec<(String, MetaValue)>, cx: &LinkCtx, lucide: &IconSet, simple: &IconSet) -> (r: (
    Option<String>,
    Option<String>,
    Option<String>,
))
    requires
        meta_parses(entries@),
    ensures
        (opt_view(r.0), opt_view(r.1), opt_view(r.2)) == icon_spec(entries@, *cx, names_of(*lucide), names_of(*simple)),
{
    proof {
        lemma_obj_get_parses(entries@, "icon"@);
    }
    match get(entries, "icon") {
        Some(val) => {
            proof {
                lemma_media_target_parses(*val);
            }
            match val {
                MetaValue::Text(s) => {
                    let t = trimmed(s.as_str());
                    proof {
                        reveal_strlit("lucide:");
                        reveal_strlit("simple:");
                    }
                    match sprite_name(t.as_str(), "lucide:", lucide) {
                        Some(n) => {
                            let link = render_link_icon(n.as_str(), "lucide", lucide);
                            return (Some(doc_svg(n.as_str(), "lucide")), None, link);
                        },
                        None => {},
                    }
                    match sprite_name(t.as_str(), "simple:", simple) {
                        Some(n) => {
                            let link = render_link_icon(n.as_str(), "simple", simple);
                            return (Some(doc_svg(n.as_str(), "simple")), None, link);
                        },
                        None => {},
                    }
                    let sc = chars_of(s.as_str());
                    if is_image_target(s.as_str()) || has_prefix(&sc, "http://") || has_prefix(&sc, "https://") {
                        image_icon_exec(resolve_meta_media_path(s.as_str(), cx))
                    } else {
                        (Some(format_text_icon(s.as_str())), None, Some(format_text_icon_link(s.as_str())))
                    }
                },
                MetaValue::Object(_) => match extract_media_target(val) {
                    Some(t) => image_icon_exec(resolve_meta_media_path(t.as_str(), cx)),
                    None => (None, None, None),
                },
                _ => (None, None, None),
            }
        },
        None => (None, None, None),
    }
}

/// The media URLs of the items that name media.
pub open spec fn media_urls(items: Seq<MetaValue>, cx: LinkCtx) -> Seq<Seq<char>>
    decreases items.len(),
{
    if items.len() == 0 {
        Seq::empty()
    } else {
        let rest = media_urls(items.drop_last(), cx);
        match media_target_spec(items.last()) {
            Some(t) => rest.push(media_path_spec(t, cx)),
            None => rest,
        }
    }
}

/// The gallery: a URL for each item of `images` that names media.
pub open spec fn images_spec(entries: Seq<(String, MetaValue)>, cx: LinkCtx) -> Seq<Seq<char>> {
    match obj_get(entries, "images"@) {
        Some(v) => media_urls(items_of(v), cx),
        None => Seq::empty(),
    }
}

/// The banner's URL, when `banner` names media.
pub open spec fn banner_spec(entries: Seq<(String, MetaValue)>, cx: LinkCtx) -> Option<Seq<char>> {
    match obj_get(entries, "banner"@) {
        Some(v) => match media_target_spec(v) {
            Some(t) => Some(media_path_spec(t, cx)),
            None => None,
        },
        None => None,
    }
}

/// The banner's vertical position: the number under `banner-y`, or under
/// `banner_y` when `banner-y` is absent, as written.
pub open spec fn banner_y_spec(entries: Seq<(String, MetaValue)>) -> Option<Seq<char>> {
    let v = match obj_get(entries, "banner-y"@) {
        Some(x) => Some(x),
        None => obj_get(entries, "banner_y"@),
    };
    match v {
        Some(MetaValue::Number(n)) => Some(n@),
        _ => None,
    }
}

/// The theme colour: the first of `colors` (or `colors` itself), when it is
/// a well-formed hex colour.
pub open spec fn primary_color_spec(entries: Seq<(String, MetaValue)>) -> Option<Seq<char>> {
    match obj_get(entries, "colors"@) {
        Some(MetaValue::Array(a)) => if a@.len() > 0 {
            match a@[0] {
                MetaValue::Text(s) => sanitized_color(s@),
                _ => None,
            }
        } else {
            None
        },
        Some(MetaValue::Text(s)) => sanitized_color(s@),
        _ => None,
    }
}

fn media_urls_of(val: &MetaValue, cx: &LinkCtx) -> (r: Vec<String>)
    requires
        value_parses(*val),
    ensures
        string_seqs(r@) == media_urls(items_of(*val), *cx),
{
    let ghost items = items_of(*val);
    proof {
        lemma_items_parse(*val);
    }
    let single: Vec<&MetaValue> = match val {
        MetaValue::Array(_) => Vec::new(),
        _ => vec![val],
    };
    let n: usize = match val {
        MetaValue::Array(a) => a.len(),
        _ => 1,
    };
    let mut out: Vec<String> = Vec::new();
    let mut i: usize = 0;
    assert(items.take(0) =~= Seq::<MetaValue>::empty());
    assert(string_seqs(out@) =~= Seq::<Seq<char>>::empty());
    while i < n
        invariant
            i <= n,
            n == items.len(),
            items == items_of(*val),
            single@.len() == (if val is Array { 0int } else { 1int }),
            !(val is Array) ==> single@[0] == val,
            forall|k: int| 0 <= k < items.len() ==> #[trigger] item_parses(items[k]),
            string_seqs(out@) == media_urls(items.take(i as int), *cx),
        decreases n - i,
    {
        assert(items.take(i + 1).drop_last() =~= items.take(i as int));
        assert(items.take(i + 1).last() == items[i as int]);
        let item: &MetaValue = match val {
            MetaValue::Array(a) => &a[i],
            _ => single[0],
        };
        assert(*item == items[i as int]);
        assert(item_parses(items[i as int]));
        match extract_media_target(item) {
            Some(t) => {
                let u = resolve_meta_media_path(t.as_str(), cx);
                out.push(u);
                assert(string_seqs(out@) =~= media_urls(items.take(i + 1), *cx));
            },
            None => {},
        }
        i = i + 1;
    }
    assert(items.take(n as int) =~= items);
    out
}

fn images(entries: &Vec<(String, MetaValue)>, cx: &LinkCtx) -> (r: Vec<String>)
    requires
        meta_parses(entries@),
    ensures
        string_seqs(r@) == images_spec(entries@, *cx),
{
    proof {
        lemma_obj_get_parses(entries@, "images"@);
    }
    match get(entries, "images") {
        Some(v) => media_urls_of(v, cx),
        None => {
            let out: Vec<String> = Vec::new();
            assert(string_seqs(out@) =~= Seq::<Seq<char>>::empty());
            out
        },
    }
}

fn banner_url(entries: &Vec<(String, MetaValue)>, cx: &LinkCtx) -> (r: Option<String>)
    requires
        meta_parses(entries@),
    ensures
        opt_view(r) == banner_spec(entries@, *cx),
{
    proof {
        lemma_obj_get_parses(entries@, "banner"@);
    }
    match get(entries, "banner") {
        Some(v) => {
            proof {
                lemma_media_target_parses(*v);
            }
            match extract_media_target(v) {
                Some(t) => Some(resolve_meta_media_path(t.as_str(), cx)),
                None => None,
            }
        },
        None => None,
    }
}

fn banner_y(entries: &Vec<(String, MetaValue)>) -> (r: Option<String>)
    ensures
        opt_view(r) == banner_y_spec(entries@),
{
    let v = match get(entries, "banner-y") {
        Some(x) => Some(x),
        None => get(entries, "banner_y"),
    };
    match v {
        Some(MetaValue::Number(n)) => Some(n.clone()),
        _ => None,
    }
}

fn primary_color(entries: &Vec<(String, MetaValue)>) -> (r: Option<String>)
    ensures
        opt_view(r) == primary_color_spec(entries@),
{
    match get(entries, "colors") {
        Some(MetaValue::Array(a)) => {
            if a.len() > 0 {
                match &a[0] {
                    MetaValue::Text(s) => sanitize_color_hex(s.as_str()),
                    _ => None,
                }
            } else {
                None
            }
        },
        Some(MetaValue::Text(s)) => sanitize_color_hex(s.as_str()),
        _ => None,
    }
}

// ---------------------------------------------------------------- the whole

/// Everything the page template reads out of `@meta`.
#[derive(Debug)]
pub struct MetaProperties {
    /// Pages this document points at through its metadata (`parent: "[[unit]]"`
    /// and the like). Collected here because this is where those references are
    /// resolved; the body's own links are collected from the parsed document.
    pub linked_slugs: Vec<String>,
    pub primary_color: Option<String>,
    pub icon: Option<String>,
    pub icon_image_url: Option<String>,
    pub link_icon: Option<String>,
    pub banner_url: Option<String>,
    /// The banner's vertical position, as the number was written.
    pub banner_y: Option<String>,
    pub images: Vec<String>,
    pub hero_chips: Vec<HeroChipItem>,
    pub infobox_rows: Vec<InfoboxRowItem>,
}

/// Properties with nothing in them.
pub open spec fn props_empty(p: MetaProperties) -> bool {
    &&& p.linked_slugs@.len() == 0
    &&& p.primary_color is None
    &&& p.icon is None
    &&& p.icon_image_url is None
    &&& p.link_icon is None
    &&& p.banner_url is None
    &&& p.banner_y is None
    &&& p.images@.len() == 0
    &&& p.hero_chips@.len() == 0
    &&& p.infobox_rows@.len() == 0
}

/// Whether the data pane has anything worth showing.
pub open spec fn has_data_spec(p: MetaProperties) -> bool {
    p.infobox_rows@.len() > 0 || p.banner_url is Some || p.images@.len() > 0
}

impl MetaProperties {
    /// Whether the data pane has anything worth showing.
    pub fn has_data(&self) -> (r: bool)
        ensures
            r == has_data_spec(*self),
    {
        self.infobox_rows.len() > 0 || self.banner_url.is_some() || self.images.len() > 0
    }
}

impl Default for MetaProperties {
    fn default() -> (p: Self)
        ensures
            props_empty(p),
    {
        MetaProperties {
            linked_slugs: Vec::new(),
            primary_color: None,
            icon: None,
            icon_image_url: None,
            link_icon: None,
            banner_url: None,
            banner_y: None,
            images: Vec::new(),
            hero_chips: Vec::new(),
            infobox_rows: Vec::new(),
        }
    }
}

/// The entries of the metadata, when it is an object.
pub open spec fn meta_entries(meta: Option<&MetaValue>) -> Option<Seq<(String, MetaValue)>> {
    match meta {
        Some(v) => match *v {
            MetaValue::Object(m) => Some(m@),
            _ => None,
        },
        None => None,
    }
}

/// What each property of the page is, read out of the metadata's entries.
pub open spec fn props_match(
    p: MetaProperties,
    entries: Seq<(String, MetaValue)>,
    kind: Option<Seq<char>>,
    cx: LinkCtx,
    config: BookConfig,
    lucide: Seq<Seq<char>>,
    simple: Seq<Seq<char>>,
) -> bool {
    &&& string_seqs(p.linked_slugs@) == linked_slugs_spec(entries, cx)
    &&& opt_view(p.primary_color) == primary_color_spec(entries)
    &&& (opt_view(p.icon), opt_view(p.icon_image_url), opt_view(p.link_icon)) == icon_spec(entries, cx, lucide, simple)
    &&& opt_view(p.banner_url) == banner_spec(entries, cx)
    &&& opt_view(p.banner_y) == banner_y_spec(entries)
    &&& string_seqs(p.images@) == images_spec(entries, cx)
    &&& chip_views(p.hero_chips@) == hero_chips_spec(entries, config.ui.hero_chips@, config.book.lang@, cx)
    &&& row_views(p.infobox_rows@) == infobox_rows_spec(entries, kind, config.ui.infobox, config.book.lang@, cx)
}

/// Read the page's chrome out of `@meta`.
///
/// `kind` is the document's element kind, used as an infobox row when the
/// metadata does not already say what this page is. Metadata that is absent
/// or not an object yields nothing.
pub fn extract(
    meta: Option<&MetaValue>,
    kind: Option<&str>,
    cx: &LinkCtx,
    config: &BookConfig,
    lucide: &IconSet,
    simple: &IconSet,
) -> (p: MetaProperties)
    requires
        meta_entries(meta) matches Some(entries) ==> meta_parses(entries),
    ensures
        match meta_entries(meta) {
            Some(entries) => props_match(p, entries, opt_str(kind), *cx, *config, names_of(*lucide), names_of(*simple)),
            None => props_empty(p),
        },
{
    let entries = match meta {
        Some(MetaValue::Object(m)) => m,
        _ => {
            return MetaProperties::default();
        },
    };
    let linked_slugs = linked_slugs(entries, cx);
    let (icon, icon_image_url, link_icon) = extract_icon(entries, cx, lucide, simple);
    MetaProperties {
        linked_slugs,
        primary_color: primary_color(entries),
        icon,
        icon_image_url,
        link_icon,
        banner_url: banner_url(entries, cx),
        banner_y: banner_y(entries),
        images: images(entries, cx),
        hero_chips: hero_chips(entries, &config.ui.hero_chips, config.book.lang.as_str(), cx),
        infobox_rows: infobox_rows(entries, kind, &config.ui.infobox, config.book.lang.as_str(), cx),
    }
}

/// Read the page's chrome out of `@meta`, first making sure link parsing can
/// read every value: `None` when one is a lone quote mark, which the reader
/// cannot take apart; otherwise what `extract` gives.
pub fn extract_checked(
    meta: Option<&MetaValue>,
    kind: Option<&str>,
    cx: &LinkCtx,
    config: &BookConfig,
    lucide: &IconSet,
    simple: &IconSet,
) -> (r: Option<MetaProperties>)
    ensures
        match meta_entries(meta) {
            Some(entries) => match r {
                Some(p) => meta_parses(entries) && props_match(
                    p,
                    entries,
                    opt_str(kind),
                    *cx,
                    *config,
                    names_of(*lucide),
                    names_of(*simple),
                ),
                None => !meta_parses(entries),
            },
            None => r matches Some(p) && props_empty(p),
        },
{
    match meta {
        Some(MetaValue::Object(m)) => {
            if !meta_ok(m) {
                return None;
            }
        },
        _ => {},
    }
    Some(extract(meta, kind, cx, config, lucide, simple))
}

/// The tooltip of a link to a page not written yet: the book's
/// `link.unresolved` string, or the built-in one.
pub open spec fn unresolved_title_spec(config: BookConfig) -> Seq<char> {
    if config.ui.strings@.contains_key("link.unresolved"@) {
        config.ui.strings@["link.unresolved"@]
    } else {
        "未作成のページ"@
    }
}

/// The link context of a book, with what each link target resolved to.
pub fn link_context(config: &BookConfig, resolved: Vec<(String, Option<String>)>) -> (cx: LinkCtx)
    ensures
        cx.resolved@ == resolved@,
        cx.url_prefix@ == without_trailing_slashes(config.build.url_prefix@),
        cx.asset_prefix@ == without_trailing_slashes(config.build.asset_prefix@),
        cx.unresolved_title@ == unresolved_title_spec(*config),
{
    let unresolved_title = match config.ui.strings.get("link.unresolved") {
        Some(t) => t.to_string(),
        None => "未作成のページ".to_owned(),
    };
    LinkCtx {
        resolved,
        url_prefix: config.build.clean_url_prefix(),
        asset_prefix: config.build.clean_asset_prefix(),
        unresolved_title,
    }
}

/// Adding pages in turn never lists one twice.
pub proof fn lemma_slugs_after_no_repeats(acc: Seq<Seq<char>>, hrefs: Seq<Seq<char>>, prefix: Seq<char>)
    requires
        no_repeats(acc),
    ensures
        no_repeats(slugs_after(acc, hrefs, prefix)),
    decreases hrefs.len(),
{
    if hrefs.len() > 0 {
        lemma_slugs_after_no_repeats(acc, hrefs.drop_last(), prefix);
        let prev = slugs_after(acc, hrefs.drop_last(), prefix);
        match slug_from_href_spec(hrefs.last(), prefix) {
            Some(s) => if !prev.contains(s) {
                lemma_push_new_keeps_no_repeats(prev, s);
            },
            None => {},
        }
    }
}

/// The pages a document's metadata points at are each listed once.
pub proof fn lemma_linked_slugs_are_distinct(entries: Seq<(String, MetaValue)>, cx: LinkCtx)
    ensures
        no_repeats(linked_slugs_spec(entries, cx)),
{
    lemma_slugs_after_no_repeats(Seq::empty(), entry_hrefs(entries, cx), cx.url_prefix@);
}

fn item_ok(v: &MetaValue) -> (r: bool)
    ensures
        r == item_parses(*v),
{
    match v {
        MetaValue::Text(s) => crate::links::link_ref_ok(s.as_str()),
        MetaValue::Number(n) => crate::links::link_ref_ok(n.as_str()),
        MetaValue::Object(m) => match self::value::element_parts_exec(m) {
            Some((Some(t), alias)) => {
                if !crate::links::link_ref_ok(t.as_str()) {
                    return false;
                }
                let tc = chars_of(t.as_str());
                if has_prefix(&tc, "/") || has_prefix(&tc, "http://") || has_prefix(&tc, "https://") || has_prefix(
                    &tc,
                    "unresolved:",
                ) {
                    return true;
                }
                let raw = self::value::element_raw_of(t.as_str(), alias);
                crate::links::link_ref_ok(raw.as_str())
            },
            _ => true,
        },
        _ => true,
    }
}

/// Whether link parsing can read a value, or each item of an array value.
pub fn value_ok(v: &MetaValue) -> (r: bool)
    ensures
        r == value_parses(*v),
{
    match v {
        MetaValue::Array(items) => {
            let mut i: usize = 0;
            while i < items.len()
                invariant
                    i <= items@.len(),
                    *v == MetaValue::Array(*items),
                    forall|k: int| 0 <= k < i ==> #[trigger] item_parses(items@[k]),
                decreases items@.len() - i,
            {
                if !item_ok(&items[i]) {
                    assert(!value_parses(*v)) by {
                        if value_parses(*v) {
                            match *v {
                                MetaValue::Array(its) => {
                                    assert(its@ == items@);
                                    assert(item_parses(its@[i as int]));
                                },
                                _ => {},
                            }
                        }
                    }
                    return false;
                }
                i = i + 1;
            }
            true
        },
        _ => item_ok(v),
    }
}

/// Whether link parsing can read every value of a metadata object's entries.
pub fn meta_ok(entries: &Vec<(String, MetaValue)>) -> (r: bool)
    ensures
        r == meta_parses(entries@),
{
    let mut i: usize = 0;
    while i < entries.len()
        invariant
            i <= entries@.len(),
            forall|k: int| 0 <= k < i ==> #[trigger] value_parses(entries@[k].1),
        decreases entries@.len() - i,
    {
        if !value_ok(&entries[i].1) {
            return false;
        }
        i = i + 1;
    }
    true
}

} // verus!
