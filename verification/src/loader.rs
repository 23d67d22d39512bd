//! What a vault scan keeps, and what it skips.
//!
//! The walk itself (directories, file types on disk) belongs to the program;
//! this module decides, from a vault-relative path alone, whether the path is
//! part of the book and which kind of file it is.

use vstd::prelude::*;

use crate::catalog::{is_control_document, is_control_spec};
use crate::config::BookConfig;
use crate::slug::{normalize_path_str, normalize_separators};
use crate::text::{chars_of, is_char_pred, is_lit, starts_with_at, str_eq, trim_both_spec, trim_end_char, trim_start_char};

verus! {

/// One document found in the vault.
#[derive(Debug, Clone)]
pub struct DocFileInfo {
    pub abs_path: String,
    pub rel_path: String,
}

/// One media file found in the vault.
#[derive(Debug, Clone)]
pub struct MediaFileInfo {
    pub abs_path: String,
    pub rel_path: String,
}

/// An exclude entry with its surrounding slashes removed.
pub open spec fn trim_slashes(p: Seq<char>) -> Seq<char> {
    trim_both_spec(p, is_char_pred('/'))
}

/// `s` is where a path segment of `rel` begins: the start, or just after a `/`.
pub open spec fn is_segment_start(rel: Seq<char>, s: int) -> bool {
    s == 0 || (1 <= s <= rel.len() && rel[s - 1] == '/')
}

/// `p` is spelled out at `s` and ends on a segment boundary.
pub open spec fn whole_segments_at(rel: Seq<char>, p: Seq<char>, s: int) -> bool {
    &&& 0 <= s
    &&& s + p.len() <= rel.len()
    &&& rel.subrange(s, s + p.len()) == p
    &&& (s + p.len() == rel.len() || rel[s + p.len()] == '/')
}

/// `rel` is the excluded path `prefix` itself or lives under it, with the
/// match starting and ending on segment boundaries.
pub open spec fn is_excluded_spec(rel: Seq<char>, prefix: Seq<char>) -> bool {
    let p = trim_slashes(prefix);
    &&& p.len() > 0
    &&& exists|s: int| #[trigger] is_segment_start(rel, s) && whole_segments_at(rel, p, s)
}

/// Returns true when `rel` is the excluded path `prefix` itself, or lives under it.
///
/// Matching happens on path-segment boundaries, so an exclude entry like `dist`
/// drops `dist/index.tmt` but keeps `distributed.tmt` and `old/distro/x.tmt`.
/// Multi-segment entries (`"00-09 System/01 Apps"`) are matched as a whole.
pub fn is_excluded_path(rel: &str, prefix: &str) -> (r: bool)
    ensures
        r == is_excluded_spec(rel@, prefix@),
{
    let pc = chars_of(prefix);
    let a = trim_start_char(&pc, 0, pc.len(), '/');
    let b = trim_end_char(&pc, a, pc.len(), '/');
    assert(pc@.subrange(0, pc@.len() as int) =~= prefix@);
    let ghost p = trim_slashes(prefix@);
    assert(pc@.subrange(a as int, b as int) == p);
    if a == b {
        return false;
    }
    let mut pv: Vec<char> = Vec::new();
    let mut t = a;
    while t < b
        invariant
            a <= t <= b <= pc@.len(),
            pv@ == pc@.subrange(a as int, t as int),
        decreases b - t,
    {
        pv.push(pc[t]);
        assert(pc@.subrange(a as int, t + 1) =~= pc@.subrange(a as int, t as int).push(pc@[t as int]));
        t = t + 1;
    }
    assert(pv@ == p);
    let cs = chars_of(rel);
    let n = cs.len();
    let plen = pv.len();
    let mut s: usize = 0;
    while s <= n
        invariant
            n == cs@.len(),
            cs@ == rel@,
            pv@ == p,
            p == trim_slashes(prefix@),
            p.len() > 0,
            plen == p.len(),
            forall|x: int| 0 <= x < s ==> !(#[trigger] is_segment_start(rel@, x) && whole_segments_at(rel@, p, x)),
        decreases n + 1 - s,
    {
        let at_start = s == 0 || cs[s - 1] == '/';
        if at_start && starts_with_at(&cs, s, &pv) {
            let end = s + plen;
            if end == n || cs[end] == '/' {
                assert(is_segment_start(rel@, s as int) && whole_segments_at(rel@, p, s as int));
                return true;
            }
        }
        assert(!(is_segment_start(rel@, s as int) && whole_segments_at(rel@, p, s as int)));
        if s == n {
            assert forall|x: int| #[trigger] is_segment_start(rel@, x) implies !whole_segments_at(rel@, p, x) by {
                if 0 <= x && x + p.len() <= rel@.len() {
                    assert(x <= s);
                }
            }
            return false;
        }
        s = s + 1;
    }
    false
}

/// A hidden path: a name starting with `.` anywhere along it.
pub open spec fn is_hidden_rel(rel: Seq<char>) -> bool {
    ||| (rel.len() > 0 && rel[0] == '.')
    ||| exists|i: int| 0 <= i && i + 1 < rel.len() && #[trigger] rel[i] == '/' && rel[i + 1] == '.'
}

/// Excluded by one of `prefixes`, or hidden.
pub open spec fn is_ignored_spec(rel: Seq<char>, prefixes: Seq<Seq<char>>) -> bool {
    ||| is_hidden_rel(rel)
    ||| exists|j: int| 0 <= j < prefixes.len() && #[trigger] is_excluded_spec(rel, prefixes[j])
}

/// True when a vault-relative path is excluded by config, or is hidden.
///
/// Shared with the dev server so the watcher and the scanner agree on what
/// belongs to the book.
pub fn is_ignored_rel(rel_str: &str, exclude_prefixes: &[String]) -> (r: bool)
    ensures
        r == is_ignored_spec(rel_str@, exclude_prefixes@.map_values(|p: String| p@)),
{
    let cs = chars_of(rel_str);
    let n = cs.len();
    if n > 0 && cs[0] == '.' {
        return true;
    }
    let mut i: usize = 0;
    while i < n && i + 1 < n
        invariant
            n == cs@.len(),
            cs@ == rel_str@,
            forall|x: int| 0 <= x < i ==> !(#[trigger] cs@[x] == '/' && cs@[x + 1] == '.'),
        decreases n - i,
    {
        if cs[i] == '/' && cs[i + 1] == '.' {
            return true;
        }
        i = i + 1;
    }
    assert(!is_hidden_rel(rel_str@)) by {
        assert forall|x: int| 0 <= x && x + 1 < rel_str@.len() implies !(#[trigger] rel_str@[x] == '/' && rel_str@[x + 1] == '.') by {
            assert(x < i);
        }
    }
    let ghost ps = exclude_prefixes@.map_values(|p: String| p@);
    let mut j: usize = 0;
    while j < exclude_prefixes.len()
        invariant
            j <= exclude_prefixes@.len(),
            ps == exclude_prefixes@.map_values(|p: String| p@),
            forall|x: int| 0 <= x < j ==> !#[trigger] is_excluded_spec(rel_str@, ps[x]),
        decreases exclude_prefixes@.len() - j,
    {
        if is_excluded_path(rel_str, exclude_prefixes[j].as_str()) {
            assert(is_excluded_spec(rel_str@, ps[j as int]));
            return true;
        }
        j = j + 1;
    }
    false
}

/// The lowercase file extensions a scan keeps as media.
pub open spec fn is_media_extension_spec(ext: Seq<char>) -> bool {
    ||| ext == "png"@
    ||| ext == "jpg"@
    ||| ext == "jpeg"@
    ||| ext == "gif"@
    ||| ext == "svg"@
    ||| ext == "webp"@
    ||| ext == "pdf"@
    ||| ext == "mp4"@
    ||| ext == "mp3"@
    ||| ext == "webm"@
    ||| ext == "avif"@
    ||| ext == "ico"@
}

/// Whether a (lowercase) extension names a media file the book copies.
pub fn is_media_extension(ext: &str) -> (r: bool)
    ensures
        r == is_media_extension_spec(ext@),
{
    let cs = chars_of(ext);
    is_lit(&cs, "png") || is_lit(&cs, "jpg") || is_lit(&cs, "jpeg") || is_lit(&cs, "gif")
        || is_lit(&cs, "svg") || is_lit(&cs, "webp") || is_lit(&cs, "pdf") || is_lit(&cs, "mp4")
        || is_lit(&cs, "mp3") || is_lit(&cs, "webm") || is_lit(&cs, "avif") || is_lit(&cs, "ico")
}

/// The exclude list with separators normalised, then the destination
/// directory added when it is not already there.
pub open spec fn exclude_prefixes_spec(exclude: Seq<Seq<char>>, dest: Seq<char>) -> Seq<Seq<char>> {
    let ps = exclude.map_values(|e: Seq<char>| normalize_separators(e));
    let d = normalize_separators(dest);
    if d.len() > 0 && !ps.contains(d) {
        ps.push(d)
    } else {
        ps
    }
}

/// The paths a scan skips: the configured `build.exclude` entries plus the
/// destination directory, so a build never eats its own output.
pub fn exclude_prefixes(config: &BookConfig) -> (r: Vec<String>)
    ensures
        r@.map_values(|p: String| p@) == exclude_prefixes_spec(
            config.build.exclude@.map_values(|p: String| p@),
            config.book.dest@,
        ),
{
    let ghost ex = config.build.exclude@.map_values(|p: String| p@);
    let ghost ps = ex.map_values(|e: Seq<char>| normalize_separators(e));
    let mut prefixes: Vec<String> = Vec::new();
    let mut i: usize = 0;
    while i < config.build.exclude.len()
        invariant
            i <= config.build.exclude@.len(),
            ex == config.build.exclude@.map_values(|p: String| p@),
            ps == ex.map_values(|e: Seq<char>| normalize_separators(e)),
            prefixes@.map_values(|p: String| p@) == ps.take(i as int),
            prefixes@.len() == i,
            ps.len() == config.build.exclude@.len(),
        decreases config.build.exclude@.len() - i,
    {
        let ghost before = prefixes@;
        let norm = normalize_path_str(config.build.exclude[i].as_str());
        assert(norm@ == ps[i as int]) by {
            assert(ex[i as int] == config.build.exclude@[i as int]@);
        }
        prefixes.push(norm);
        proof {
            let pv = prefixes@.map_values(|p: String| p@);
            let bv = before.map_values(|p: String| p@);
            let tk = ps.take(i + 1);
            assert forall|x: int| 0 <= x < i + 1 implies #[trigger] pv[x] == tk[x] by {
                if x < i {
                    assert(prefixes@[x] == before[x]);
                    assert(bv[x] == ps.take(i as int)[x]);
                }
            }
            assert(pv =~= tk);
        }
        i = i + 1;
    }
    assert(ps.take(i as int) =~= ps);
    let dest_str = normalize_path_str(config.book.dest.as_str());
    if chars_of(dest_str.as_str()).len() == 0 {
        return prefixes;
    }
    let mut found = false;
    let mut j: usize = 0;
    while j < prefixes.len()
        invariant
            j <= prefixes@.len(),
            prefixes@.map_values(|p: String| p@) == ps,
            found == exists|x: int| 0 <= x < j && ps[x] == dest_str@,
        decreases prefixes@.len() - j,
    {
        if str_eq(prefixes[j].as_str(), dest_str.as_str()) {
            assert(ps[j as int] == dest_str@);
            found = true;
        }
        j = j + 1;
    }
    if !found {
        assert(!ps.contains(dest_str@));
        let ghost before = prefixes@;
        prefixes.push(dest_str);
        assert(prefixes@.map_values(|p: String| p@) =~= ps.push(normalize_separators(config.book.dest@))) by {
            assert(prefixes@.drop_last() == before);
        }
    } else {
        assert(ps.contains(dest_str@));
    }
    prefixes
}

/// A build never eats its own output: whatever the exclude list says, a path
/// that is the destination directory or lies under it is skipped by the scan.
pub proof fn lemma_output_is_never_scanned(exclude: Seq<Seq<char>>, dest: Seq<char>, rel: Seq<char>)
    requires
        trim_slashes(normalize_separators(dest)).len() > 0,
        whole_segments_at(rel, trim_slashes(normalize_separators(dest)), 0),
    ensures
        is_ignored_spec(rel, exclude_prefixes_spec(exclude, dest)),
{
    let d = normalize_separators(dest);
    let ps = exclude.map_values(|e: Seq<char>| normalize_separators(e));
    let prefixes = exclude_prefixes_spec(exclude, dest);
    let p = is_char_pred('/');
    crate::text::lemma_trim_start_head(d, p);
    crate::text::lemma_trim_end_tail(crate::text::trim_start_spec(d, p), p);
    assert(d.len() > 0);
    assert(is_segment_start(rel, 0));
    assert(is_excluded_spec(rel, d));
    if ps.contains(d) {
        let j = choose|j: int| 0 <= j < ps.len() && ps[j] == d;
        assert(prefixes[j] == d);
        assert(is_excluded_spec(rel, prefixes[j]));
    } else {
        let j = ps.len() as int;
        assert(prefixes[j] == d);
        assert(is_excluded_spec(rel, prefixes[j]));
    }
}

/// What a scan does with one file.
#[derive(Debug, Clone, Copy, PartialEq, Eq, Structural)]
pub enum FileClass {
    /// A document that becomes a page.
    Document,
    /// An index or configuration document: read by name, never published.
    Control,
    /// A media file copied alongside the pages.
    Media,
    /// Anything else, which the book ignores.
    Other,
}

pub open spec fn classify_spec(rel: Seq<char>, ext_lower: Seq<char>) -> FileClass {
    if ext_lower == "tmt"@ || ext_lower == "tm"@ {
        if is_control_spec(rel) {
            FileClass::Control
        } else {
            FileClass::Document
        }
    } else if is_media_extension_spec(ext_lower) {
        FileClass::Media
    } else {
        FileClass::Other
    }
}

/// Sort one scanned file by its vault-relative path and its (lowercased) extension.
pub fn classify_file(rel: &str, ext_lower: &str) -> (r: FileClass)
    ensures
        r == classify_spec(rel@, ext_lower@),
{
    let ec = chars_of(ext_lower);
    if is_lit(&ec, "tmt") || is_lit(&ec, "tm") {
        if is_control_document(rel) {
            FileClass::Control
        } else {
            FileClass::Document
        }
    } else if is_media_extension(ext_lower) {
        FileClass::Media
    } else {
        FileClass::Other
    }
}

} // verus!
