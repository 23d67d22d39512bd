//! Media decisions: the cached, resized copies of banners and profile
//! images, where a media URL may be found in the vault, and whether an
//! output file already mirrors its source.
//!
//! Decoding, resizing and encoding images is done by the `image` crate,
//! through the trusted wrappers below; every look at the disk is done around
//! this module.

use vstd::prelude::*;

use crate::config::without_trailing_slashes;
use crate::paths::last_index_of;
use crate::slug::{normalize_path_str, normalize_separators, string_views};
use crate::text::{
    chars_of, has_prefix, str_eq, is_char_pred, string_from_range, trim_end_char, trim_start_char, trim_start_spec,
};

verus! {

/// The sizes an image is cached at.
#[derive(Debug, Clone, Copy, PartialEq, Eq, Hash)]
pub enum ImagePreset {
    /// Banners displayed across wide screens (max width: 1600px).
    Banner,
    /// Profile / infobox images (max width: 640px for 2x Retina on ~300px display).
    Profile,
    /// Small thumbnails for hover preview cards and index popovers (max width: 240px).
    Thumb,
}

pub open spec fn max_width_spec(p: ImagePreset) -> u32 {
    match p {
        ImagePreset::Banner => 1600,
        ImagePreset::Profile => 640,
        ImagePreset::Thumb => 240,
    }
}

pub open spec fn dir_name_spec(p: ImagePreset) -> Seq<char> {
    match p {
        ImagePreset::Banner => "banners"@,
        ImagePreset::Profile => "profiles"@,
        ImagePreset::Thumb => "thumbs"@,
    }
}

impl ImagePreset {
    /// The widest an image of this kind is kept.
    pub fn max_width(&self) -> (r: u32)
        ensures
            r == max_width_spec(*self),
    {
        match self {
            ImagePreset::Banner => 1600,
            ImagePreset::Profile => 640,
            ImagePreset::Thumb => 240,
        }
    }

    /// The cache directory images of this kind go to.
    pub fn dir_name(&self) -> (r: &'static str)
        ensures
            r@ == dir_name_spec(*self),
    {
        proof {
            reveal_strlit("banners");
            reveal_strlit("profiles");
            reveal_strlit("thumbs");
        }
        match self {
            ImagePreset::Banner => "banners",
            ImagePreset::Profile => "profiles",
            ImagePreset::Thumb => "thumbs",
        }
    }
}

/// Whether an image `width` pixels wide is shrunk to fit the preset.
pub fn needs_resize(width: u32, preset: ImagePreset) -> (r: bool)
    ensures
        r == (width > max_width_spec(preset)),
{
    width > preset.max_width()
}

/// The width of the image in `bytes`, decoded as the format the extension of
/// `path` names, as `image::open` on a file at `path` holding `bytes` would
/// decode it; `None` when the extension names no format or the bytes do not
/// decode.
pub uninterp spec fn decoded_width(bytes: Seq<u8>, path: Seq<char>) -> Option<u32>;

/// The WebP file (lossless) that the `image` crate writes for the image in
/// `bytes`, decoded as for `decoded_width`; `None` when it does not decode or
/// cannot be encoded.
pub uninterp spec fn webp_encoding(bytes: Seq<u8>, path: Seq<char>) -> Option<Seq<u8>>;

/// As `webp_encoding`, after the image is resized (Lanczos3, aspect ratio
/// kept) to fit within `width` pixels across.
pub uninterp spec fn resized_webp_encoding(bytes: Seq<u8>, path: Seq<char>, width: u32) -> Option<Seq<u8>>;

/// `ImageFormat::from_path(path)`, then `ImageReader::with_format` over the
/// bytes and `decode`, then `width`: the image's width, or `None` where
/// either step fails. The format comes from the extension alone, as
/// `image::open` takes it.
#[verifier::external_body]
fn image_width(bytes: &[u8], path: &str) -> (r: Option<u32>)
    ensures
        r == decoded_width(bytes@, path@),
{
    let format = image::ImageFormat::from_path(path).ok()?;
    let img = image::ImageReader::with_format(std::io::Cursor::new(bytes), format).decode().ok()?;
    Some(img.width())
}

/// The image decoded as in `image_width`, then `write_to` with
/// `ImageFormat::WebP` into a buffer: the bytes written, or `None` where a
/// step fails.
#[verifier::external_body]
fn encode_webp(bytes: &[u8], path: &str) -> (r: Option<Vec<u8>>)
    ensures
        match r {
            Some(v) => webp_encoding(bytes@, path@) == Some(v@),
            None => webp_encoding(bytes@, path@) is None,
        },
{
    let format = image::ImageFormat::from_path(path).ok()?;
    let img = image::ImageReader::with_format(std::io::Cursor::new(bytes), format).decode().ok()?;
    let mut out = std::io::Cursor::new(Vec::new());
    img.write_to(&mut out, image::ImageFormat::WebP).ok()?;
    Some(out.into_inner())
}

/// As `encode_webp`, with `resize(width, u32::MAX, FilterType::Lanczos3)`
/// between decoding and encoding.
#[verifier::external_body]
fn encode_webp_resized(bytes: &[u8], path: &str, width: u32) -> (r: Option<Vec<u8>>)
    ensures
        match r {
            Some(v) => resized_webp_encoding(bytes@, path@, width) == Some(v@),
            None => resized_webp_encoding(bytes@, path@, width) is None,
        },
{
    let format = image::ImageFormat::from_path(path).ok()?;
    let img = image::ImageReader::with_format(std::io::Cursor::new(bytes), format).decode().ok()?;
    let small = img.resize(width, u32::MAX, image::imageops::FilterType::Lanczos3);
    let mut out = std::io::Cursor::new(Vec::new());
    small.write_to(&mut out, image::ImageFormat::WebP).ok()?;
    Some(out.into_inner())
}

/// What becomes of a vault image on its way to the cache.
#[derive(Debug)]
pub enum WebpOutcome {
    /// It does not decode as an image: the page keeps the original.
    NotAnImage,
    /// The cached WebP file.
    Encoded(Vec<u8>),
    /// It decoded but could not be written as WebP.
    EncodeFailed,
}

/// The cached copy of the image in `bytes` (found at `path` in the vault):
/// shrunk to the preset's width when it is wider, kept at its size
/// otherwise, and written as WebP. `None` inside `Some` when that encoding
/// fails; `None` when the bytes are no image.
pub open spec fn optimized_spec(bytes: Seq<u8>, path: Seq<char>, preset: ImagePreset) -> Option<Option<Seq<u8>>> {
    match decoded_width(bytes, path) {
        None => None,
        Some(w) => Some(
            if w > max_width_spec(preset) {
                resized_webp_encoding(bytes, path, max_width_spec(preset))
            } else {
                webp_encoding(bytes, path)
            },
        ),
    }
}

pub open spec fn outcome_view(r: WebpOutcome) -> Option<Option<Seq<u8>>> {
    match r {
        WebpOutcome::NotAnImage => None,
        WebpOutcome::Encoded(v) => Some(Some(v@)),
        WebpOutcome::EncodeFailed => Some(None),
    }
}

/// Optimize a vault image for the cache: decode `bytes` as the format the
/// extension of `path` names, shrink it to the preset's width when it is
/// wider (never wider than that width is asked for), and encode it as WebP.
pub fn optimize_image_bytes(bytes: &[u8], path: &str, preset: ImagePreset) -> (r: WebpOutcome)
    ensures
        outcome_view(r) == optimized_spec(bytes@, path@, preset),
{
    let width = match image_width(bytes, path) {
        Some(w) => w,
        None => return WebpOutcome::NotAnImage,
    };
    let encoded = if needs_resize(width, preset) {
        encode_webp_resized(bytes, path, preset.max_width())
    } else {
        encode_webp(bytes, path)
    };
    match encoded {
        Some(v) => WebpOutcome::Encoded(v),
        None => WebpOutcome::EncodeFailed,
    }
}

/// Where the last component of `p[..e]` ends once trailing separators and
/// `.` components are dropped, as `Path` reads its final component.
pub open spec fn name_end(p: Seq<char>, e: int) -> int
    decreases e,
{
    if e <= 0 || e > p.len() {
        if e > p.len() { p.len() as int } else { 0 }
    } else if p[e - 1] == '/' {
        name_end(p, e - 1)
    } else if e >= 2 && p[e - 1] == '.' && p[e - 2] == '/' {
        name_end(p, e - 2)
    } else {
        e
    }
}

/// The path with its file name's extension replaced by `webp` (or `.webp`
/// added when it has none), as `Path::with_extension` gives it: the path
/// is cut just after the file stem and `.webp` appended. A path without a
/// file name (empty, a root, or ending in `.` or `..`) stays as it is.
pub open spec fn with_webp(p: Seq<char>) -> Seq<char> {
    let q = p.take(name_end(p, p.len() as int));
    let name_start = match last_index_of(q, '/') {
        Some(j) => j + 1,
        None => 0,
    };
    let name = q.skip(name_start);
    if name.len() == 0 || name == "."@ || name == ".."@ {
        p
    } else {
        match last_index_of(q, '.') {
            Some(k) => if k > name_start {
                q.take(k) + ".webp"@
            } else {
                q + ".webp"@
            },
            None => q + ".webp"@,
        }
    }
}

/// Where the cached copy of a vault image is served from.
pub open spec fn cache_url_spec(preset: ImagePreset, rel_path: Seq<char>) -> Seq<char> {
    "/cache/"@ + dir_name_spec(preset) + "/"@ + normalize_separators(with_webp(rel_path))
}

fn last_index(cs: &Vec<char>, c: char) -> (r: Option<usize>)
    ensures
        match r {
            Some(k) => k < cs@.len() && last_index_of(cs@, c) == Some(k as int),
            None => last_index_of(cs@, c) is None,
        },
{
    let mut i: usize = cs.len();
    assert(cs@.take(cs@.len() as int) =~= cs@);
    while i > 0
        invariant
            i <= cs@.len(),
            last_index_of(cs@, c) == last_index_of(cs@.take(i as int), c),
        decreases i,
    {
        assert(cs@.take(i as int).last() == cs@[i - 1]);
        assert(cs@.take(i as int).drop_last() =~= cs@.take(i - 1));
        if cs[i - 1] == c {
            return Some(i - 1);
        }
        i = i - 1;
    }
    assert(cs@.take(0) =~= Seq::<char>::empty());
    None
}

/// The URL of the cached WebP copy of the image at `rel_path` in the vault.
pub fn cache_url(preset: ImagePreset, rel_path: &str) -> (r: String)
    ensures
        r@ == cache_url_spec(preset, rel_path@),
{
    let cs = chars_of(rel_path);
    let n = cs.len();
    let mut e = n;
    while e > 0 && (cs[e - 1] == '/' || (e >= 2 && cs[e - 1] == '.' && cs[e - 2] == '/'))
        invariant
            e <= n,
            n == cs@.len(),
            name_end(cs@, n as int) == name_end(cs@, e as int),
        decreases e,
    {
        if cs[e - 1] == '/' {
            e = e - 1;
        } else {
            e = e - 2;
        }
    }
    assert(name_end(cs@, e as int) == e);
    let q = string_from_range(&cs, 0, e);
    assert(q@ =~= rel_path@.take(e as int));
    let qc = chars_of(q.as_str());
    let m = qc.len();
    let name_start: usize = match last_index(&qc, '/') {
        Some(j) => j + 1,
        None => 0,
    };
    let name = string_from_range(&qc, name_start, m);
    assert(name@ =~= q@.skip(name_start as int));
    let webp = if m == name_start || str_eq(name.as_str(), ".") || str_eq(name.as_str(), "..") {
        rel_path.to_owned()
    } else {
        let mut w = match last_index(&qc, '.') {
            Some(k) => if k > name_start {
                string_from_range(&qc, 0, k)
            } else {
                q.clone()
            },
            None => q.clone(),
        };
        proof {
            let ghost k = last_index_of(qc@, '.');
            if k is Some && k.unwrap() > name_start {
                assert(qc@.subrange(0, k.unwrap()) =~= q@.take(k.unwrap()));
            }
        }
        w.push_str(".webp");
        w
    };
    let mut out = "/cache/".to_owned();
    out.push_str(preset.dir_name());
    out.push_str("/");
    out.push_str(normalize_path_str(webp.as_str()).as_str());
    out
}

/// A URL that points outside the vault: another site.
pub open spec fn is_remote(url: Seq<char>) -> bool {
    "http://"@.is_prefix_of(url) || "https://"@.is_prefix_of(url) || "//"@.is_prefix_of(url)
}

/// Where in the vault a media URL may be found, in the order to look:
/// below the media prefix, when the URL starts with it, then the URL as a
/// vault path. Nothing for another site's URL.
pub open spec fn media_candidates_spec(url: Seq<char>, asset_prefix: Seq<char>) -> Seq<Seq<char>> {
    if is_remote(url) {
        Seq::empty()
    } else {
        let prefix = without_trailing_slashes(asset_prefix);
        let direct = trim_start_spec(url, is_char_pred('/'));
        if prefix.is_prefix_of(url) {
            seq![trim_start_spec(url.skip(prefix.len() as int), is_char_pred('/')), direct]
        } else {
            seq![direct]
        }
    }
}

/// The vault paths a media URL may name, in the order to try them.
pub fn media_candidates(url: &str, asset_prefix: &str) -> (r: Vec<String>)
    ensures
        string_views(r@) == media_candidates_spec(url@, asset_prefix@),
{
    let cs = chars_of(url);
    let mut out: Vec<String> = Vec::new();
    if has_prefix(&cs, "http://") || has_prefix(&cs, "https://") || has_prefix(&cs, "//") {
        assert(string_views(out@) =~= Seq::<Seq<char>>::empty());
        return out;
    }
    let pc = chars_of(asset_prefix);
    let pe = trim_end_char(&pc, 0, pc.len(), '/');
    assert(pc@.subrange(0, pc@.len() as int) =~= asset_prefix@);
    let ghost prefix = without_trailing_slashes(asset_prefix@);
    assert(pc@.subrange(0, pe as int) == prefix);
    let mut is_prefix = pe <= cs.len();
    let mut j: usize = 0;
    while is_prefix && j < pe
        invariant
            pe <= pc@.len(),
            j <= pe,
            is_prefix ==> pe <= cs@.len(),
            is_prefix ==> forall|k: int| 0 <= k < j ==> cs@[k] == pc@[k],
            !is_prefix ==> !prefix.is_prefix_of(url@),
            pc@.subrange(0, pe as int) == prefix,
            cs@ == url@,
        decreases pe - j + (if is_prefix { 1int } else { 0int }),
    {
        if cs[j] != pc[j] {
            is_prefix = false;
            assert(prefix[j as int] == pc@[j as int]);
        } else {
            j = j + 1;
        }
    }
    if is_prefix {
        assert(prefix.is_prefix_of(url@)) by {
            assert forall|k: int| 0 <= k < prefix.len() implies prefix[k] == url@[k] by {
                assert(prefix[k] == pc@[k]);
            }
        }
        let a = trim_start_char(&cs, pe, cs.len(), '/');
        assert(cs@.subrange(pe as int, cs@.len() as int) =~= url@.skip(prefix.len() as int));
        out.push(string_from_range(&cs, a, cs.len()));
    }
    let b = trim_start_char(&cs, 0, cs.len(), '/');
    assert(cs@.subrange(0, cs@.len() as int) =~= url@);
    let ghost before = out@;
    let d = string_from_range(&cs, b, cs.len());
    out.push(d);
    assert(string_views(out@) =~= string_views(before).push(d@));
    out
}

/// What a file's metadata says: its identity on disk (device and inode,
/// where the platform has them), its length, and when it was last
/// modified, in nanoseconds from the Unix epoch.
#[derive(Debug, Clone, Copy)]
pub struct MediaStat {
    pub id: Option<(u64, u64)>,
    pub len: u64,
    pub modified: Option<i128>,
}

/// An output file mirrors its source when it is the same file (a hard
/// link), or as long and no older.
pub open spec fn same_media_spec(src: MediaStat, dest: MediaStat) -> bool {
    ||| (src.id is Some && src.id == dest.id)
    ||| (src.len == dest.len && src.modified is Some && dest.modified is Some
        && dest.modified.unwrap() >= src.modified.unwrap())
}

/// Whether the output copy of a media file is still good.
pub fn is_same_media(src: &MediaStat, dest: &MediaStat) -> (r: bool)
    ensures
        r == same_media_spec(*src, *dest),
{
    match (src.id, dest.id) {
        (Some(a), Some(b)) => {
            if a.0 == b.0 && a.1 == b.1 {
                return true;
            }
        },
        _ => {},
    }
    match (src.modified, dest.modified) {
        (Some(s), Some(d)) => src.len == dest.len && d >= s,
        _ => false,
    }
}

/// How one media file was brought up to date.
#[derive(Debug, Clone, Copy, PartialEq, Eq)]
pub enum SyncOutcome {
    Unchanged,
    Linked,
    Copied,
}

/// How the media directory was brought up to date.
///
/// Worth reporting separately: `copied` is the expensive one, and a build that
/// keeps copying the same files every time means hard links are not available
/// between the vault and the output.
#[derive(Debug, Default)]
pub struct MediaSync {
    pub unchanged: usize,
    pub linked: usize,
    pub copied: usize,
}

impl MediaSync {
    /// Every file accounted for.
    pub fn total(&self) -> (r: usize)
        requires
            self.unchanged + self.linked + self.copied <= usize::MAX,
        ensures
            r == self.unchanged + self.linked + self.copied,
    {
        self.unchanged + self.linked + self.copied
    }
}

/// How many of the outcomes are `o`.
pub open spec fn count_of(outcomes: Seq<SyncOutcome>, o: SyncOutcome) -> nat
    decreases outcomes.len(),
{
    if outcomes.len() == 0 {
        0
    } else {
        count_of(outcomes.drop_last(), o) + (if outcomes.last() == o { 1nat } else { 0nat })
    }
}

proof fn lemma_counts_bounded(outcomes: Seq<SyncOutcome>)
    ensures
        count_of(outcomes, SyncOutcome::Unchanged) + count_of(outcomes, SyncOutcome::Linked) + count_of(
            outcomes,
            SyncOutcome::Copied,
        ) == outcomes.len(),
    decreases outcomes.len(),
{
    if outcomes.len() > 0 {
        lemma_counts_bounded(outcomes.drop_last());
    }
}

/// Count the outcomes of syncing each media file.
pub fn tally(outcomes: &Vec<SyncOutcome>) -> (r: MediaSync)
    ensures
        r.unchanged == count_of(outcomes@, SyncOutcome::Unchanged),
        r.linked == count_of(outcomes@, SyncOutcome::Linked),
        r.copied == count_of(outcomes@, SyncOutcome::Copied),
{
    let mut sync = MediaSync { unchanged: 0, linked: 0, copied: 0 };
    let mut i: usize = 0;
    assert(outcomes@.take(0) =~= Seq::<SyncOutcome>::empty());
    while i < outcomes.len()
        invariant
            i <= outcomes@.len(),
            sync.unchanged == count_of(outcomes@.take(i as int), SyncOutcome::Unchanged),
            sync.linked == count_of(outcomes@.take(i as int), SyncOutcome::Linked),
            sync.copied == count_of(outcomes@.take(i as int), SyncOutcome::Copied),
        decreases outcomes@.len() - i,
    {
        assert(outcomes@.take(i + 1).drop_last() =~= outcomes@.take(i as int));
        assert(outcomes@.take(i + 1).last() == outcomes@[i as int]);
        proof {
            lemma_counts_bounded(outcomes@.take(i as int));
        }
        match outcomes[i] {
            SyncOutcome::Unchanged => sync.unchanged = sync.unchanged + 1,
            SyncOutcome::Linked => sync.linked = sync.linked + 1,
            SyncOutcome::Copied => sync.copied = sync.copied + 1,
        }
        i = i + 1;
    }
    assert(outcomes@.take(outcomes@.len() as int) =~= outcomes@);
    sync
}

} // verus!
