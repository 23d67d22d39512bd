//! The interface's dictionaries, and which one a book's language picks.

pub mod en;
pub mod ja;

use vstd::prelude::*;

use crate::config::HeroChipConfig;
use crate::table::StringTable;
use crate::text::{ascii_lower, chars_of, char_ascii_lower, trim_ws, trim_ws_range};

verus! {

/// A language code counts as English when, trimmed and lowercased, it starts with `en`.
pub open spec fn is_english_spec(lang: Seq<char>) -> bool {
    let t = trim_ws(lang);
    t.len() >= 2 && ascii_lower(t[0]) == 'e' && ascii_lower(t[1]) == 'n'
}

/// Returns true if the given language code represents English (e.g. "en", "en-US").
pub fn is_english(lang: &str) -> (r: bool)
    ensures
        r == is_english_spec(lang@),
{
    let cs = chars_of(lang);
    let (a, b) = trim_ws_range(&cs, 0, cs.len());
    assert(cs@.subrange(0, cs@.len() as int) =~= lang@);
    if b - a < 2 {
        return false;
    }
    let ghost t = cs@.subrange(a as int, b as int);
    assert(t[0] == cs@[a as int] && t[1] == cs@[a + 1]);
    char_ascii_lower(cs[a]) == 'e' && char_ascii_lower(cs[a + 1]) == 'n'
}

pub open spec fn ui_strings_for_spec(lang: Seq<char>) -> Map<Seq<char>, Seq<char>> {
    if is_english_spec(lang) {
        en::ui_strings_spec()
    } else {
        ja::ui_strings_spec()
    }
}

pub open spec fn key_labels_for_spec(lang: Seq<char>) -> Map<Seq<char>, Seq<char>> {
    if is_english_spec(lang) {
        en::key_labels_spec()
    } else {
        ja::key_labels_spec()
    }
}

pub open spec fn hero_chips_for_spec(lang: Seq<char>) -> Seq<(Seq<char>, Option<Seq<char>>, Option<Seq<char>>)> {
    if is_english_spec(lang) {
        en::hero_chips_spec()
    } else {
        ja::hero_chips_spec()
    }
}

/// Look up default UI strings for a given book language code.
pub fn default_ui_strings_for(lang: &str) -> (t: StringTable)
    ensures
        t@ == ui_strings_for_spec(lang@),
{
    if is_english(lang) {
        en::ui_strings()
    } else {
        ja::ui_strings()
    }
}

/// Look up default infobox labels for a given book language code.
pub fn default_key_labels_for(lang: &str) -> (t: StringTable)
    ensures
        t@ == key_labels_for_spec(lang@),
{
    if is_english(lang) {
        en::key_labels()
    } else {
        ja::key_labels()
    }
}

/// Look up default hero chips for a given book language code.
pub fn default_hero_chips_for(lang: &str) -> (r: Vec<HeroChipConfig>)
    ensures
        r@.map_values(|c: HeroChipConfig| c@) == hero_chips_for_spec(lang@),
{
    if is_english(lang) {
        en::hero_chips()
    } else {
        ja::hero_chips()
    }
}

/// `ja`, the default language, is not English.
pub proof fn lemma_japanese_is_not_english()
    ensures
        !is_english_spec("ja"@),
{
    reveal_strlit("ja");
    let s = "ja"@;
    let p = crate::text::ws_pred();
    let t0 = crate::text::trim_start_spec(s, p);
    crate::text::lemma_trim_start_head(s, p);
    crate::text::lemma_trim_end_tail(t0, p);
    let t = trim_ws(s);
    if t.len() >= 2 {
        assert(t0 =~= s);
        assert(t =~= s);
        assert(t[0] == 'j');
    }
}

/// Whichever language a book picks, it gets the same interface: the English
/// and Japanese dictionaries name the same strings and labels, and the same
/// hero chips in the same order.
pub proof fn lemma_dictionaries_have_identical_keys()
    ensures
        en::ui_strings_spec().dom() == ja::ui_strings_spec().dom(),
        en::key_labels_spec().dom() == ja::key_labels_spec().dom(),
        en::hero_chips_spec().len() == ja::hero_chips_spec().len(),
        forall|i: int| 0 <= i < en::hero_chips_spec().len() ==> #[trigger] en::hero_chips_spec()[i].0 == ja::hero_chips_spec()[i].0,
{
    assert(en::ui_strings_spec().dom() =~= ja::ui_strings_spec().dom());
    assert(en::key_labels_spec().dom() =~= ja::key_labels_spec().dom());
}

} // verus!
