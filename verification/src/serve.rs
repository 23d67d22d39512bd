//! The dev server's decisions: what a batch of file-system events asks it to
//! rebuild, which paths it may serve, and what content type a file has.
//!
//! Watching, serving and rendering are the program's; these functions only
//! look at paths and settings.

use vstd::prelude::*;

use crate::catalog::{is_control_document, is_control_spec};
use crate::loader::{is_ignored_rel, is_ignored_spec, is_media_extension, is_media_extension_spec};
use crate::paths::{
    extension, extension_spec, file_name, file_name_spec, path_starts_with, path_starts_with_spec,
    last_index_of, path_strip_prefix, strip_prefix_spec,
};
use crate::slug::{normalize_path_str, normalize_separators};
use crate::text::{
    ascii_lower_seq, chars_of, contains_sub, contains_sub_spec, has_suffix, is_ascii_text, is_lit, str_eq, to_lowercase,
    unicode_lowercase,
};

verus! {

/// What the browser is told to reload.
#[derive(Debug, Clone, PartialEq, Eq)]
pub enum ReloadSignal {
    /// One page changed.
    Doc { url: String },
    /// Only stylesheets changed.
    Css,
    /// Everything may have changed.
    Full,
}

/// The content type served for a lowercased file extension.
pub open spec fn mime_for(ext: Seq<char>) -> Seq<char> {
    if ext == "png"@ {
        "image/png"@
    } else if ext == "jpg"@ || ext == "jpeg"@ {
        "image/jpeg"@
    } else if ext == "webp"@ {
        "image/webp"@
    } else if ext == "gif"@ {
        "image/gif"@
    } else if ext == "svg"@ {
        "image/svg+xml"@
    } else if ext == "mp4"@ {
        "video/mp4"@
    } else if ext == "webm"@ {
        "video/webm"@
    } else if ext == "mp3"@ {
        "audio/mpeg"@
    } else if ext == "css"@ {
        "text/css; charset=utf-8"@
    } else if ext == "js"@ {
        "application/javascript; charset=utf-8"@
    } else if ext == "json"@ {
        "application/json"@
    } else if ext == "html"@ {
        "text/html; charset=utf-8"@
    } else if ext == "woff2"@ {
        "font/woff2"@
    } else if ext == "woff"@ {
        "font/woff"@
    } else if ext == "ttf"@ {
        "font/ttf"@
    } else {
        "application/octet-stream"@
    }
}

/// Every file is served with the standard content type of its extension,
/// whatever the case of the extension; a file whose extension is not one of
/// these is served as `application/octet-stream`.
pub proof fn lemma_files_are_served_by_their_extension(path: Seq<char>)
    ensures
        lower_extension(path) == "png"@ ==> mime_for(lower_extension(path)) == "image/png"@,
        lower_extension(path) == "jpg"@ ==> mime_for(lower_extension(path)) == "image/jpeg"@,
        lower_extension(path) == "jpeg"@ ==> mime_for(lower_extension(path)) == "image/jpeg"@,
        lower_extension(path) == "webp"@ ==> mime_for(lower_extension(path)) == "image/webp"@,
        lower_extension(path) == "gif"@ ==> mime_for(lower_extension(path)) == "image/gif"@,
        lower_extension(path) == "svg"@ ==> mime_for(lower_extension(path)) == "image/svg+xml"@,
        lower_extension(path) == "mp4"@ ==> mime_for(lower_extension(path)) == "video/mp4"@,
        lower_extension(path) == "webm"@ ==> mime_for(lower_extension(path)) == "video/webm"@,
        lower_extension(path) == "mp3"@ ==> mime_for(lower_extension(path)) == "audio/mpeg"@,
        lower_extension(path) == "css"@ ==> mime_for(lower_extension(path)) == "text/css; charset=utf-8"@,
        lower_extension(path) == "js"@ ==> mime_for(lower_extension(path)) == "application/javascript; charset=utf-8"@,
        lower_extension(path) == "json"@ ==> mime_for(lower_extension(path)) == "application/json"@,
        lower_extension(path) == "html"@ ==> mime_for(lower_extension(path)) == "text/html; charset=utf-8"@,
        lower_extension(path) == "woff2"@ ==> mime_for(lower_extension(path)) == "font/woff2"@,
        lower_extension(path) == "woff"@ ==> mime_for(lower_extension(path)) == "font/woff"@,
        lower_extension(path) == "ttf"@ ==> mime_for(lower_extension(path)) == "font/ttf"@,
        (lower_extension(path) != "png"@ && lower_extension(path) != "jpg"@ && lower_extension(path) != "jpeg"@ && lower_extension(path) != "webp"@ && lower_extension(path) != "gif"@ && lower_extension(path) != "svg"@ && lower_extension(path) != "mp4"@ && lower_extension(path) != "webm"@ && lower_extension(path) != "mp3"@ && lower_extension(path) != "css"@ && lower_extension(path) != "js"@ && lower_extension(path) != "json"@ && lower_extension(path) != "html"@ && lower_extension(path) != "woff2"@ && lower_extension(path) != "woff"@ && lower_extension(path) != "ttf"@) ==> mime_for(lower_extension(path)) == "application/octet-stream"@,
{
    assert(mime_for("png"@) == "image/png"@) by {
        reveal_strlit("png");
    }
    assert(mime_for("jpg"@) == "image/jpeg"@) by {
        reveal_strlit("jpg");
        reveal_strlit("png");
        assert("jpg"@[0] != "png"@[0]);
    }
    assert(mime_for("jpeg"@) == "image/jpeg"@) by {
        reveal_strlit("jpeg");
        reveal_strlit("png");
        assert("jpeg"@.len() != "png"@.len());
        reveal_strlit("jpg");
        assert("jpeg"@.len() != "jpg"@.len());
    }
    assert(mime_for("webp"@) == "image/webp"@) by {
        reveal_strlit("webp");
        reveal_strlit("png");
        assert("webp"@.len() != "png"@.len());
        reveal_strlit("jpg");
        assert("webp"@.len() != "jpg"@.len());
        reveal_strlit("jpeg");
        assert("webp"@[0] != "jpeg"@[0]);
    }
    assert(mime_for("gif"@) == "image/gif"@) by {
        reveal_strlit("gif");
        reveal_strlit("png");
        assert("gif"@[0] != "png"@[0]);
        reveal_strlit("jpg");
        assert("gif"@[0] != "jpg"@[0]);
        reveal_strlit("jpeg");
        assert("gif"@.len() != "jpeg"@.len());
        reveal_strlit("webp");
        assert("gif"@.len() != "webp"@.len());
    }
    assert(mime_for("svg"@) == "image/svg+xml"@) by {
        reveal_strlit("svg");
        reveal_strlit("png");
        assert("svg"@[0] != "png"@[0]);
        reveal_strlit("jpg");
        assert("svg"@[0] != "jpg"@[0]);
        reveal_strlit("jpeg");
        assert("svg"@.len() != "jpeg"@.len());
        reveal_strlit("webp");
        assert("svg"@.len() != "webp"@.len());
        reveal_strlit("gif");
        assert("svg"@[0] != "gif"@[0]);
    }
    assert(mime_for("mp4"@) == "video/mp4"@) by {
        reveal_strlit("mp4");
        reveal_strlit("png");
        assert("mp4"@[0] != "png"@[0]);
        reveal_strlit("jpg");
        assert("mp4"@[0] != "jpg"@[0]);
        reveal_strlit("jpeg");
        assert("mp4"@.len() != "jpeg"@.len());
        reveal_strlit("webp");
        assert("mp4"@.len() != "webp"@.len());
        reveal_strlit("gif");
        assert("mp4"@[0] != "gif"@[0]);
        reveal_strlit("svg");
        assert("mp4"@[0] != "svg"@[0]);
    }
    assert(mime_for("webm"@) == "video/webm"@) by {
        reveal_strlit("webm");
        reveal_strlit("png");
        assert("webm"@.len() != "png"@.len());
        reveal_strlit("jpg");
        assert("webm"@.len() != "jpg"@.len());
        reveal_strlit("jpeg");
        assert("webm"@[0] != "jpeg"@[0]);
        reveal_strlit("webp");
        assert("webm"@[3] != "webp"@[3]);
        reveal_strlit("gif");
        assert("webm"@.len() != "gif"@.len());
        reveal_strlit("svg");
        assert("webm"@.len() != "svg"@.len());
        reveal_strlit("mp4");
        assert("webm"@.len() != "mp4"@.len());
    }
    assert(mime_for("mp3"@) == "audio/mpeg"@) by {
        reveal_strlit("mp3");
        reveal_strlit("png");
        assert("mp3"@[0] != "png"@[0]);
        reveal_strlit("jpg");
        assert("mp3"@[0] != "jpg"@[0]);
        reveal_strlit("jpeg");
        assert("mp3"@.len() != "jpeg"@.len());
        reveal_strlit("webp");
        assert("mp3"@.len() != "webp"@.len());
        reveal_strlit("gif");
        assert("mp3"@[0] != "gif"@[0]);
        reveal_strlit("svg");
        assert("mp3"@[0] != "svg"@[0]);
        reveal_strlit("mp4");
        assert("mp3"@[2] != "mp4"@[2]);
        reveal_strlit("webm");
        assert("mp3"@.len() != "webm"@.len());
    }
    assert(mime_for("css"@) == "text/css; charset=utf-8"@) by {
        reveal_strlit("css");
        reveal_strlit("png");
        assert("css"@[0] != "png"@[0]);
        reveal_strlit("jpg");
        assert("css"@[0] != "jpg"@[0]);
        reveal_strlit("jpeg");
        assert("css"@.len() != "jpeg"@.len());
        reveal_strlit("webp");
        assert("css"@.len() != "webp"@.len());
        reveal_strlit("gif");
        assert("css"@[0] != "gif"@[0]);
        reveal_strlit("svg");
        assert("css"@[0] != "svg"@[0]);
        reveal_strlit("mp4");
        assert("css"@[0] != "mp4"@[0]);
        reveal_strlit("webm");
        assert("css"@.len() != "webm"@.len());
        reveal_strlit("mp3");
        assert("css"@[0] != "mp3"@[0]);
    }
    assert(mime_for("js"@) == "application/javascript; charset=utf-8"@) by {
        reveal_strlit("js");
        reveal_strlit("png");
        assert("js"@.len() != "png"@.len());
        reveal_strlit("jpg");
        assert("js"@.len() != "jpg"@.len());
        reveal_strlit("jpeg");
        assert("js"@.len() != "jpeg"@.len());
        reveal_strlit("webp");
        assert("js"@.len() != "webp"@.len());
        reveal_strlit("gif");
        assert("js"@.len() != "gif"@.len());
        reveal_strlit("svg");
        assert("js"@.len() != "svg"@.len());
        reveal_strlit("mp4");
        assert("js"@.len() != "mp4"@.len());
        reveal_strlit("webm");
        assert("js"@.len() != "webm"@.len());
        reveal_strlit("mp3");
        assert("js"@.len() != "mp3"@.len());
        reveal_strlit("css");
        assert("js"@.len() != "css"@.len());
    }
    assert(mime_for("json"@) == "application/json"@) by {
        reveal_strlit("json");
        reveal_strlit("png");
        assert("json"@.len() != "png"@.len());
        reveal_strlit("jpg");
        assert("json"@.len() != "jpg"@.len());
        reveal_strlit("jpeg");
        assert("json"@[1] != "jpeg"@[1]);
        reveal_strlit("webp");
        assert("json"@[0] != "webp"@[0]);
        reveal_strlit("gif");
        assert("json"@.len() != "gif"@.len());
        reveal_strlit("svg");
        assert("json"@.len() != "svg"@.len());
        reveal_strlit("mp4");
        assert("json"@.len() != "mp4"@.len());
        reveal_strlit("webm");
        assert("json"@[0] != "webm"@[0]);
        reveal_strlit("mp3");
        assert("json"@.len() != "mp3"@.len());
        reveal_strlit("css");
        assert("json"@.len() != "css"@.len());
        reveal_strlit("js");
        assert("json"@.len() != "js"@.len());
    }
    assert(mime_for("html"@) == "text/html; charset=utf-8"@) by {
        reveal_strlit("html");
        reveal_strlit("png");
        assert("html"@.len() != "png"@.len());
        reveal_strlit("jpg");
        assert("html"@.len() != "jpg"@.len());
        reveal_strlit("jpeg");
        assert("html"@[0] != "jpeg"@[0]);
        reveal_strlit("webp");
        assert("html"@[0] != "webp"@[0]);
        reveal_strlit("gif");
        assert("html"@.len() != "gif"@.len());
        reveal_strlit("svg");
        assert("html"@.len() != "svg"@.len());
        reveal_strlit("mp4");
        assert("html"@.len() != "mp4"@.len());
        reveal_strlit("webm");
        assert("html"@[0] != "webm"@[0]);
        reveal_strlit("mp3");
        assert("html"@.len() != "mp3"@.len());
        reveal_strlit("css");
        assert("html"@.len() != "css"@.len());
        reveal_strlit("js");
        assert("html"@.len() != "js"@.len());
        reveal_strlit("json");
        assert("html"@[0] != "json"@[0]);
    }
    assert(mime_for("woff2"@) == "font/woff2"@) by {
        reveal_strlit("woff2");
        reveal_strlit("png");
        assert("woff2"@.len() != "png"@.len());
        reveal_strlit("jpg");
        assert("woff2"@.len() != "jpg"@.len());
        reveal_strlit("jpeg");
        assert("woff2"@.len() != "jpeg"@.len());
        reveal_strlit("webp");
        assert("woff2"@.len() != "webp"@.len());
        reveal_strlit("gif");
        assert("woff2"@.len() != "gif"@.len());
        reveal_strlit("svg");
        assert("woff2"@.len() != "svg"@.len());
        reveal_strlit("mp4");
        assert("woff2"@.len() != "mp4"@.len());
        reveal_strlit("webm");
        assert("woff2"@.len() != "webm"@.len());
        reveal_strlit("mp3");
        assert("woff2"@.len() != "mp3"@.len());
        reveal_strlit("css");
        assert("woff2"@.len() != "css"@.len());
        reveal_strlit("js");
        assert("woff2"@.len() != "js"@.len());
        reveal_strlit("json");
        assert("woff2"@.len() != "json"@.len());
        reveal_strlit("html");
        assert("woff2"@.len() != "html"@.len());
    }
    assert(mime_for("woff"@) == "font/woff"@) by {
        reveal_strlit("woff");
        reveal_strlit("png");
        assert("woff"@.len() != "png"@.len());
        reveal_strlit("jpg");
        assert("woff"@.len() != "jpg"@.len());
        reveal_strlit("jpeg");
        assert("woff"@[0] != "jpeg"@[0]);
        reveal_strlit("webp");
        assert("woff"@[1] != "webp"@[1]);
        reveal_strlit("gif");
        assert("woff"@.len() != "gif"@.len());
        reveal_strlit("svg");
        assert("woff"@.len() != "svg"@.len());
        reveal_strlit("mp4");
        assert("woff"@.len() != "mp4"@.len());
        reveal_strlit("webm");
        assert("woff"@[1] != "webm"@[1]);
        reveal_strlit("mp3");
        assert("woff"@.len() != "mp3"@.len());
        reveal_strlit("css");
        assert("woff"@.len() != "css"@.len());
        reveal_strlit("js");
        assert("woff"@.len() != "js"@.len());
        reveal_strlit("json");
        assert("woff"@[0] != "json"@[0]);
        reveal_strlit("html");
        assert("woff"@[0] != "html"@[0]);
        reveal_strlit("woff2");
        assert("woff"@.len() != "woff2"@.len());
    }
    assert(mime_for("ttf"@) == "font/ttf"@) by {
        reveal_strlit("ttf");
        reveal_strlit("png");
        assert("ttf"@[0] != "png"@[0]);
        reveal_strlit("jpg");
        assert("ttf"@[0] != "jpg"@[0]);
        reveal_strlit("jpeg");
        assert("ttf"@.len() != "jpeg"@.len());
        reveal_strlit("webp");
        assert("ttf"@.len() != "webp"@.len());
        reveal_strlit("gif");
        assert("ttf"@[0] != "gif"@[0]);
        reveal_strlit("svg");
        assert("ttf"@[0] != "svg"@[0]);
        reveal_strlit("mp4");
        assert("ttf"@[0] != "mp4"@[0]);
        reveal_strlit("webm");
        assert("ttf"@.len() != "webm"@.len());
        reveal_strlit("mp3");
        assert("ttf"@[0] != "mp3"@[0]);
        reveal_strlit("css");
        assert("ttf"@[0] != "css"@[0]);
        reveal_strlit("js");
        assert("ttf"@.len() != "js"@.len());
        reveal_strlit("json");
        assert("ttf"@.len() != "json"@.len());
        reveal_strlit("html");
        assert("ttf"@.len() != "html"@.len());
        reveal_strlit("woff2");
        assert("ttf"@.len() != "woff2"@.len());
        reveal_strlit("woff");
        assert("ttf"@.len() != "woff"@.len());
    }
}

/// A file named `stem.ext` has `ext`, lowercased, as its extension, when
/// `ext` is ASCII text without a dot and `stem` is not empty.
pub proof fn lemma_extension_of_a_file_name(path: Seq<char>, stem: Seq<char>, ext: Seq<char>)
    requires
        file_name_spec(path) == Some(stem + "."@ + ext),
        stem.len() > 0,
        ext.len() > 0,
        !ext.contains('.'),
        is_ascii_text(ext),
    ensures
        lower_extension(path) == ascii_lower_seq(ext),
{
    reveal_strlit(".");
    reveal_strlit("..");
    let name = stem + "."@ + ext;
    assert(name != ".."@) by {
        assert(name.len() >= 3);
    }
    lemma_last_dot(stem + "."@, ext);
    assert((stem + "."@).last() == '.');
    assert(last_index_of(stem + "."@, '.') == Some(stem.len() as int));
    assert(name.skip(stem.len() as int + 1) =~= ext);
    reveal(unicode_lowercase);
}

proof fn lemma_last_dot(head: Seq<char>, tail: Seq<char>)
    requires
        !tail.contains('.'),
    ensures
        last_index_of(head + tail, '.') == last_index_of(head, '.'),
    decreases tail.len(),
{
    if tail.len() > 0 {
        let t = tail.drop_last();
        assert(!t.contains('.')) by {
            if t.contains('.') {
                let j = choose|j: int| 0 <= j < t.len() && t[j] == '.';
                assert(tail[j] == '.');
            }
        }
        assert(tail[tail.len() - 1] != '.') by {
            if tail[tail.len() - 1] == '.' {
                assert(tail.contains('.'));
            }
        }
        lemma_last_dot(head, t);
        assert((head + tail).drop_last() =~= head + t);
    } else {
        assert(head + tail =~= head);
    }
}

/// A path's extension, lowercased, or nothing.
pub open spec fn lower_extension(path: Seq<char>) -> Seq<char> {
    let ext = match file_name_spec(path) {
        Some(name) => match extension_spec(name) {
            Some(e) => e,
            None => Seq::empty(),
        },
        None => Seq::empty(),
    };
    unicode_lowercase(ext)
}

fn lower_extension_of(path: &str) -> (r: String)
    ensures
        r@ == lower_extension(path@),
{
    let ext = match file_name(path) {
        Some(name) => match extension(name.as_str()) {
            Some(e) => e,
            None => String::new(),
        },
        None => String::new(),
    };
    to_lowercase(ext.as_str())
}

/// The content type to serve a file with, by its extension.
pub fn guess_mime(path: &str) -> (r: &'static str)
    ensures
        r@ == mime_for(lower_extension(path@)),
{
    let ext = lower_extension_of(path);
    let e = chars_of(ext.as_str());
    if is_lit(&e, "png") {
        "image/png"
    } else if is_lit(&e, "jpg") || is_lit(&e, "jpeg") {
        "image/jpeg"
    } else if is_lit(&e, "webp") {
        "image/webp"
    } else if is_lit(&e, "gif") {
        "image/gif"
    } else if is_lit(&e, "svg") {
        "image/svg+xml"
    } else if is_lit(&e, "mp4") {
        "video/mp4"
    } else if is_lit(&e, "webm") {
        "video/webm"
    } else if is_lit(&e, "mp3") {
        "audio/mpeg"
    } else if is_lit(&e, "css") {
        "text/css; charset=utf-8"
    } else if is_lit(&e, "js") {
        "application/javascript; charset=utf-8"
    } else if is_lit(&e, "json") {
        "application/json"
    } else if is_lit(&e, "html") {
        "text/html; charset=utf-8"
    } else if is_lit(&e, "woff2") {
        "font/woff2"
    } else if is_lit(&e, "woff") {
        "font/woff"
    } else if is_lit(&e, "ttf") {
        "font/ttf"
    } else {
        "application/octet-stream"
    }
}

/// The canonical form of the requested file, when it lies under the
/// canonical root; the message to answer with otherwise.
pub open spec fn resolve_within_spec(rel: Seq<char>, root: Seq<char>, candidate: Seq<char>) -> Result<Seq<char>, Seq<char>> {
    if path_starts_with_spec(candidate, root) {
        Ok(candidate)
    } else {
        Err(rel + " is outside the served directory"@)
    }
}

/// Accept `candidate` (the canonical form of `root` joined with `rel`) only
/// when it lies under the canonical `root`, so `..` segments, absolute paths
/// and symlinks cannot escape it.
pub fn resolve_within(rel: &str, root: &str, candidate: &str) -> (r: Result<String, String>)
    ensures
        match r {
            Ok(p) => resolve_within_spec(rel@, root@, candidate@) == Ok::<Seq<char>, Seq<char>>(p@),
            Err(e) => resolve_within_spec(rel@, root@, candidate@) == Err::<Seq<char>, Seq<char>>(e@),
        },
{
    if path_starts_with(candidate, root) {
        Ok(candidate.to_owned())
    } else {
        let mut msg = rel.to_owned();
        msg.push_str(" is outside the served directory");
        Err(msg)
    }
}

/// What a batch of file-system events asks the dev server to do.
#[derive(Debug)]
pub struct RebuildPlan {
    pub global: bool,
    pub css: bool,
    /// Changed documents: their path and their vault-relative path.
    pub docs: Vec<(String, String)>,
    /// Changed media files: their path and their vault-relative path.
    pub media: Vec<(String, String)>,
}

impl RebuildPlan {
    /// A plan that asks for nothing.
    pub fn new() -> (r: Self)
        ensures
            !r.global,
            !r.css,
            r.docs@.len() == 0,
            r.media@.len() == 0,
    {
        RebuildPlan { global: false, css: false, docs: Vec::new(), media: Vec::new() }
    }

    /// Nothing to rebuild.
    pub fn is_empty(&self) -> (r: bool)
        ensures
            r == (!self.global && !self.css && self.docs@.len() == 0 && self.media@.len() == 0),
    {
        !self.global && !self.css && self.docs.len() == 0 && self.media.len() == 0
    }
}

/// What kind of change an event reports.
#[derive(Debug, Clone, Copy, PartialEq, Eq, Structural)]
pub enum FsEventKind {
    /// A file was read or closed: nothing changed.
    Access,
    /// A file's contents changed where it stands.
    EditInPlace,
    /// Anything else: created, removed, renamed.
    Other,
}

/// One file-system event: its kind and the paths it touches.
#[derive(Debug, Clone)]
pub struct FsEvent {
    pub kind: FsEventKind,
    pub paths: Vec<String>,
}

/// Events under the output directory, and vault paths the scanner skips.
pub open spec fn is_ignored_event_spec(path: Seq<char>, src: Seq<char>, out: Seq<char>, excludes: Seq<Seq<char>>) -> bool {
    if path_starts_with_spec(path, out) {
        true
    } else {
        match strip_prefix_spec(path, src) {
            Some(rel) => is_ignored_spec(normalize_separators(rel), excludes),
            None => false,
        }
    }
}

/// Whether an event on `path` is no business of the dev server.
pub fn is_ignored_event_path(path: &str, src_dir: &str, out_dir: &str, excludes: &[String]) -> (r: bool)
    ensures
        r == is_ignored_event_spec(path@, src_dir@, out_dir@, excludes@.map_values(|p: String| p@)),
{
    if path_starts_with(path, out_dir) {
        return true;
    }
    match path_strip_prefix(path, src_dir) {
        Some(rel) => {
            let norm = normalize_path_str(rel.as_str());
            is_ignored_rel(norm.as_str(), excludes)
        },
        None => false,
    }
}

/// A watched path the simple watcher drops: one under the output directory,
/// or one whose text names version control, build output or a web bundle.
pub open spec fn watcher_skips_spec(path: Seq<char>, out: Seq<char>) -> bool {
    path_starts_with_spec(path, out) || contains_sub_spec(path, ".git"@) || contains_sub_spec(path, "dist"@)
        || contains_sub_spec(path, "target"@) || contains_sub_spec(path, ".web"@)
}

/// Whether the simple watcher drops an event: when any of its paths is one it skips.
pub fn should_ignore_event(paths: &[String], out_dir: &str) -> (r: bool)
    ensures
        r == exists|i: int| 0 <= i < paths@.len() && watcher_skips_spec(#[trigger] paths@[i]@, out_dir@),
{
    let mut i: usize = 0;
    while i < paths.len()
        invariant
            i <= paths@.len(),
            forall|k: int| 0 <= k < i ==> !watcher_skips_spec(#[trigger] paths@[k]@, out_dir@),
        decreases paths@.len() - i,
    {
        let p = paths[i].as_str();
        if path_starts_with(p, out_dir) || contains_sub(p, ".git") || contains_sub(p, "dist") || contains_sub(p, "target")
            || contains_sub(p, ".web") {
            return true;
        }
        i = i + 1;
    }
    false
}

/// A rebuild plan as plain values.
pub struct PlanView {
    pub global: bool,
    pub css: bool,
    pub docs: Seq<(Seq<char>, Seq<char>)>,
    pub media: Seq<(Seq<char>, Seq<char>)>,
}

pub open spec fn pair_views(v: Seq<(String, String)>) -> Seq<(Seq<char>, Seq<char>)> {
    v.map_values(|p: (String, String)| (p.0@, p.1@))
}

pub open spec fn plan_view(p: RebuildPlan) -> PlanView {
    PlanView { global: p.global, css: p.css, docs: pair_views(p.docs@), media: pair_views(p.media@) }
}

pub open spec fn listed(v: Seq<(Seq<char>, Seq<char>)>, path: Seq<char>) -> bool {
    exists|i: int| 0 <= i < v.len() && #[trigger] v[i].0 == path
}

/// Files whose change may alter every page: the configuration, control
/// documents, scripts and templates.
pub open spec fn is_global_file(name: Seq<char>) -> bool {
    name == "tmtbook.toml"@ || is_control_spec(name) || ".js"@.is_suffix_of(name) || ".html"@.is_suffix_of(name)
}

/// What one changed path adds to the plan.
pub open spec fn plan_path(
    st: PlanView,
    edit_in_place: bool,
    path: Seq<char>,
    src: Seq<char>,
    out: Seq<char>,
    excludes: Seq<Seq<char>>,
) -> PlanView {
    if is_ignored_event_spec(path, src, out, excludes) {
        st
    } else {
        let name = match file_name_spec(path) {
            Some(n) => n,
            None => Seq::empty(),
        };
        if is_global_file(name) {
            PlanView { global: true, ..st }
        } else if ".css"@.is_suffix_of(name) {
            PlanView { css: true, ..st }
        } else {
            let ext = lower_extension(path);
            let rel = strip_prefix_spec(path, src);
            if ext == "tmt"@ || ext == "tm"@ {
                if !edit_in_place {
                    PlanView { global: true, ..st }
                } else {
                    match rel {
                        Some(r) => if !listed(st.docs, path) {
                            PlanView { docs: st.docs.push((path, normalize_separators(r))), ..st }
                        } else {
                            st
                        },
                        None => st,
                    }
                }
            } else if is_media_extension_spec(ext) {
                match rel {
                    Some(r) => if !listed(st.media, path) {
                        PlanView { media: st.media.push((path, normalize_separators(r))), ..st }
                    } else {
                        st
                    },
                    None => st,
                }
            } else {
                st
            }
        }
    }
}

pub open spec fn plan_paths(
    st: PlanView,
    edit_in_place: bool,
    paths: Seq<Seq<char>>,
    src: Seq<char>,
    out: Seq<char>,
    excludes: Seq<Seq<char>>,
) -> PlanView
    decreases paths.len(),
{
    if paths.len() == 0 {
        st
    } else {
        plan_path(plan_paths(st, edit_in_place, paths.drop_last(), src, out, excludes), edit_in_place, paths.last(), src, out, excludes)
    }
}

/// The plan a batch of events makes: reads are ignored, every other event
/// contributes each of its paths in order.
pub open spec fn plan_events_spec(events: Seq<FsEvent>, src: Seq<char>, out: Seq<char>, excludes: Seq<Seq<char>>) -> PlanView
    decreases events.len(),
{
    if events.len() == 0 {
        PlanView { global: false, css: false, docs: Seq::empty(), media: Seq::empty() }
    } else {
        let st = plan_events_spec(events.drop_last(), src, out, excludes);
        let e = events.last();
        if e.kind == FsEventKind::Access {
            st
        } else {
            plan_paths(st, e.kind == FsEventKind::EditInPlace, e.paths@.map_values(|p: String| p@), src, out, excludes)
        }
    }
}

fn is_listed(v: &Vec<(String, String)>, path: &str) -> (r: bool)
    ensures
        r == listed(pair_views(v@), path@),
{
    let ghost pv = pair_views(v@);
    let mut i: usize = 0;
    while i < v.len()
        invariant
            i <= v@.len(),
            pv == pair_views(v@),
            forall|k: int| 0 <= k < i ==> pv[k].0 != path@,
        decreases v@.len() - i,
    {
        if str_eq(v[i].0.as_str(), path) {
            assert(pv[i as int].0 == path@);
            return true;
        }
        i = i + 1;
    }
    false
}

fn is_global_name(name: &str) -> (r: bool)
    ensures
        r == is_global_file(name@),
{
    let cs = chars_of(name);
    is_lit(&cs, "tmtbook.toml") || is_control_document(name) || has_suffix(&cs, ".js") || has_suffix(&cs, ".html")
}

fn push_pair(v: &mut Vec<(String, String)>, a: String, b: String)
    ensures
        pair_views(final(v)@) == pair_views(old(v)@).push((a@, b@)),
{
    v.push((a, b));
    assert(pair_views(v@) =~= pair_views(old(v)@).push((a@, b@)));
}

fn plan_one_path(plan: &mut RebuildPlan, edit_in_place: bool, path: &str, src_dir: &str, out_dir: &str, excludes: &[String])
    ensures
        plan_view(*final(plan)) == plan_path(plan_view(*old(plan)), edit_in_place, path@, src_dir@, out_dir@, excludes@.map_values(|p: String| p@)),
{
    if is_ignored_event_path(path, src_dir, out_dir, excludes) {
        return;
    }
    let name = match file_name(path) {
        Some(n) => n,
        None => String::new(),
    };
    if is_global_name(name.as_str()) {
        plan.global = true;
        return;
    }
    if has_suffix(&chars_of(name.as_str()), ".css") {
        plan.css = true;
        return;
    }
    let ext = lower_extension_of(path);
    let e = chars_of(ext.as_str());
    let rel = path_strip_prefix(path, src_dir);
    if is_lit(&e, "tmt") || is_lit(&e, "tm") {
        if !edit_in_place {
            plan.global = true;
        } else {
            match rel {
                Some(r) => {
                    if !is_listed(&plan.docs, path) {
                        let norm = normalize_path_str(r.as_str());
                        push_pair(&mut plan.docs, path.to_owned(), norm);
                    }
                },
                None => {},
            }
        }
    } else if is_media_extension(ext.as_str()) {
        match rel {
            Some(r) => {
                if !is_listed(&plan.media, path) {
                    let norm = normalize_path_str(r.as_str());
                    push_pair(&mut plan.media, path.to_owned(), norm);
                }
            },
            None => {},
        }
    }
}

/// Sort a batch of file-system events into what needs rebuilding.
///
/// Configuration, control documents, scripts and templates rebuild
/// everything; stylesheets only need a CSS reload; a document edited in
/// place is rebuilt on its own, while one created, removed or renamed
/// changes the link index and rebuilds everything; media files are copied
/// again. Each path is listed once.
pub fn plan_events(events: &[FsEvent], src_dir: &str, out_dir: &str, excludes: &[String]) -> (r: RebuildPlan)
    ensures
        plan_view(r) == plan_events_spec(events@, src_dir@, out_dir@, excludes@.map_values(|p: String| p@)),
{
    let ghost ex = excludes@.map_values(|p: String| p@);
    let mut plan = RebuildPlan::new();
    assert(pair_views(plan.docs@) =~= Seq::<(Seq<char>, Seq<char>)>::empty());
    assert(pair_views(plan.media@) =~= Seq::<(Seq<char>, Seq<char>)>::empty());
    let mut i: usize = 0;
    while i < events.len()
        invariant
            i <= events@.len(),
            ex == excludes@.map_values(|p: String| p@),
            plan_view(plan) == plan_events_spec(events@.take(i as int), src_dir@, out_dir@, ex),
        decreases events@.len() - i,
    {
        let ev = &events[i];
        proof {
            assert(events@.take(i + 1).drop_last() =~= events@.take(i as int));
        }
        match ev.kind {
            FsEventKind::Access => {},
            _ => {
                let edit = match ev.kind {
                    FsEventKind::EditInPlace => true,
                    _ => false,
                };
                let ghost start = plan_view(plan);
                let ghost ps = ev.paths@.map_values(|p: String| p@);
                let mut j: usize = 0;
                assert(ps.take(0) =~= Seq::<Seq<char>>::empty());
                while j < ev.paths.len()
                    invariant
                        j <= ev.paths@.len(),
                        ps == ev.paths@.map_values(|p: String| p@),
                        ex == excludes@.map_values(|p: String| p@),
                        plan_view(plan) == plan_paths(start, edit, ps.take(j as int), src_dir@, out_dir@, ex),
                    decreases ev.paths@.len() - j,
                {
                    assert(ps.take(j + 1).drop_last() =~= ps.take(j as int));
                    plan_one_path(&mut plan, edit, ev.paths[j].as_str(), src_dir, out_dir, excludes);
                    j = j + 1;
                }
                assert(ps.take(ps.len() as int) =~= ps);
            },
        }
        i = i + 1;
    }
    assert(events@.take(events@.len() as int) =~= events@);
    plan
}

/// Each changed document and media file is listed once, however many
/// events in the batch touch it.
pub proof fn lemma_plan_lists_each_path_once(events: Seq<FsEvent>, src: Seq<char>, out: Seq<char>, excludes: Seq<Seq<char>>)
    ensures
        ({
            let p = plan_events_spec(events, src, out, excludes);
            &&& forall|i: int, j: int| 0 <= i < j < p.docs.len() ==> p.docs[i].0 != p.docs[j].0
            &&& forall|i: int, j: int| 0 <= i < j < p.media.len() ==> p.media[i].0 != p.media[j].0
        }),
    decreases events.len(),
{
    if events.len() > 0 {
        lemma_plan_lists_each_path_once(events.drop_last(), src, out, excludes);
        let st = plan_events_spec(events.drop_last(), src, out, excludes);
        let e = events.last();
        if e.kind != FsEventKind::Access {
            lemma_plan_paths_distinct(st, e.kind == FsEventKind::EditInPlace, e.paths@.map_values(|p: String| p@), src, out, excludes);
        }
    }
}

pub open spec fn firsts_distinct(v: Seq<(Seq<char>, Seq<char>)>) -> bool {
    forall|i: int, j: int| 0 <= i < j < v.len() ==> v[i].0 != v[j].0
}

proof fn lemma_push_distinct(v: Seq<(Seq<char>, Seq<char>)>, x: (Seq<char>, Seq<char>))
    requires
        firsts_distinct(v),
        !listed(v, x.0),
    ensures
        firsts_distinct(v.push(x)),
{
    assert forall|i: int, j: int| 0 <= i < j < v.push(x).len() implies v.push(x)[i].0 != v.push(x)[j].0 by {
        if j == v.len() {
            assert(v[i].0 != x.0);
        }
    }
}

proof fn lemma_plan_paths_distinct(
    st: PlanView,
    edit_in_place: bool,
    paths: Seq<Seq<char>>,
    src: Seq<char>,
    out: Seq<char>,
    excludes: Seq<Seq<char>>,
)
    requires
        firsts_distinct(st.docs),
        firsts_distinct(st.media),
    ensures
        firsts_distinct(plan_paths(st, edit_in_place, paths, src, out, excludes).docs),
        firsts_distinct(plan_paths(st, edit_in_place, paths, src, out, excludes).media),
    decreases paths.len(),
{
    if paths.len() > 0 {
        lemma_plan_paths_distinct(st, edit_in_place, paths.drop_last(), src, out, excludes);
        let s2 = plan_paths(st, edit_in_place, paths.drop_last(), src, out, excludes);
        let path = paths.last();
        let rel = strip_prefix_spec(path, src);
        if let Some(r) = rel {
            if !listed(s2.docs, path) {
                lemma_push_distinct(s2.docs, (path, normalize_separators(r)));
            }
            if !listed(s2.media, path) {
                lemma_push_distinct(s2.media, (path, normalize_separators(r)));
            }
        }
    }
}

/// An entry of a plan: a vault file the watcher does not skip, listed with
/// its path below the vault, separators normalized.
pub open spec fn vault_entry(x: (Seq<char>, Seq<char>), src: Seq<char>, out: Seq<char>, excludes: Seq<Seq<char>>) -> bool {
    &&& !is_ignored_event_spec(x.0, src, out, excludes)
    &&& strip_prefix_spec(x.0, src) matches Some(r) && x.1 == normalize_separators(r)
}

pub open spec fn all_vault_entries(
    v: Seq<(Seq<char>, Seq<char>)>,
    src: Seq<char>,
    out: Seq<char>,
    excludes: Seq<Seq<char>>,
) -> bool {
    forall|i: int| 0 <= i < v.len() ==> vault_entry(#[trigger] v[i], src, out, excludes)
}

/// The name a path contributes to planning: its file name, or nothing.
pub open spec fn plan_name(path: Seq<char>) -> Seq<char> {
    match file_name_spec(path) {
        Some(n) => n,
        None => Seq::empty(),
    }
}

/// A document path: its extension, lowered, is `tmt` or `tm`.
pub open spec fn is_doc_path(path: Seq<char>) -> bool {
    lower_extension(path) == "tmt"@ || lower_extension(path) == "tm"@
}

/// A name ending in `.css` is no document's.
proof fn lemma_css_is_not_a_document(path: Seq<char>)
    requires
        ".css"@.is_suffix_of(plan_name(path)),
    ensures
        !is_doc_path(path),
{
    reveal_strlit(".css");
    reveal_strlit("tmt");
    reveal_strlit("tm");
    reveal(unicode_lowercase);
    let n = plan_name(path);
    let m = n.len();
    assert(m >= 4);
    let tail = n.subrange(m - 4, m as int);
    assert(tail =~= ".css"@);
    assert(n[m - 1] == tail[3] && n[m - 2] == tail[2] && n[m - 3] == tail[1] && n[m - 4] == tail[0]);
    assert(n[m - 1] == 's' && n[m - 2] == 's' && n[m - 3] == 'c' && n[m - 4] == '.');
    assert(n.drop_last().drop_last().drop_last() =~= n.take(m - 3));
    assert(last_index_of(n.take(m - 3), '.') == Some(m - 4));
    assert(last_index_of(n.drop_last().drop_last(), '.') == Some(m - 4));
    assert(last_index_of(n.drop_last(), '.') == Some(m - 4));
    assert(last_index_of(n, '.') == Some(m - 4));
    assert(n != ".."@);
    let ext = match file_name_spec(path) {
        Some(name) => match extension_spec(name) {
            Some(e) => e,
            None => Seq::empty(),
        },
        None => Seq::empty(),
    };
    assert(file_name_spec(path) == Some(n));
    reveal_strlit("css");
    if m - 4 > 0 {
        assert(ext == n.skip(m - 3));
        assert(ext =~= "css"@);
    } else {
        assert(ext =~= Seq::<char>::empty());
    }
    reveal_strlit("css");
    assert(is_ascii_text(ext));
    assert(lower_extension(path) == ascii_lower_seq(ext));
    assert(ascii_lower_seq(ext) =~= ext);
    if ext.len() > 0 {
        assert(lower_extension(path)[0] == 'c');
        assert("tmt"@[0] == 't' && "tm"@[0] == 't');
    }
}

/// One path keeps every entry a vault file and never clears `global`; a
/// document path the watcher does not skip, seen in an event that is not
/// an edit in place, sets it.
proof fn lemma_plan_path_keeps(
    st: PlanView,
    edit_in_place: bool,
    path: Seq<char>,
    src: Seq<char>,
    out: Seq<char>,
    excludes: Seq<Seq<char>>,
)
    requires
        all_vault_entries(st.docs, src, out, excludes),
        all_vault_entries(st.media, src, out, excludes),
    ensures
        ({
            let s2 = plan_path(st, edit_in_place, path, src, out, excludes);
            &&& all_vault_entries(s2.docs, src, out, excludes)
            &&& all_vault_entries(s2.media, src, out, excludes)
            &&& st.global ==> s2.global
            &&& (!edit_in_place && !is_ignored_event_spec(path, src, out, excludes) && is_doc_path(path)) ==> s2.global
        }),
{
    let s2 = plan_path(st, edit_in_place, path, src, out, excludes);
    if !is_ignored_event_spec(path, src, out, excludes) {
        if ".css"@.is_suffix_of(plan_name(path)) {
            lemma_css_is_not_a_document(path);
        }
        if let Some(r) = strip_prefix_spec(path, src) {
            let x = (path, normalize_separators(r));
            assert(vault_entry(x, src, out, excludes));
            assert forall|i: int| 0 <= i < st.docs.push(x).len() implies vault_entry(
                #[trigger] st.docs.push(x)[i],
                src,
                out,
                excludes,
            ) by {
                if i < st.docs.len() {
                    assert(st.docs.push(x)[i] == st.docs[i]);
                }
            }
            assert forall|i: int| 0 <= i < st.media.push(x).len() implies vault_entry(
                #[trigger] st.media.push(x)[i],
                src,
                out,
                excludes,
            ) by {
                if i < st.media.len() {
                    assert(st.media.push(x)[i] == st.media[i]);
                }
            }
        }
    }
}

proof fn lemma_plan_paths_keep(
    st: PlanView,
    edit_in_place: bool,
    paths: Seq<Seq<char>>,
    src: Seq<char>,
    out: Seq<char>,
    excludes: Seq<Seq<char>>,
)
    requires
        all_vault_entries(st.docs, src, out, excludes),
        all_vault_entries(st.media, src, out, excludes),
    ensures
        ({
            let s2 = plan_paths(st, edit_in_place, paths, src, out, excludes);
            &&& all_vault_entries(s2.docs, src, out, excludes)
            &&& all_vault_entries(s2.media, src, out, excludes)
            &&& st.global ==> s2.global
            &&& (!edit_in_place && exists|k: int|
                0 <= k < paths.len() && !is_ignored_event_spec(#[trigger] paths[k], src, out, excludes) && is_doc_path(
                    paths[k],
                )) ==> s2.global
        }),
    decreases paths.len(),
{
    if paths.len() > 0 {
        let front = paths.drop_last();
        lemma_plan_paths_keep(st, edit_in_place, front, src, out, excludes);
        let s1 = plan_paths(st, edit_in_place, front, src, out, excludes);
        lemma_plan_path_keeps(s1, edit_in_place, paths.last(), src, out, excludes);
        if !edit_in_place && exists|k: int|
            0 <= k < paths.len() && !is_ignored_event_spec(#[trigger] paths[k], src, out, excludes) && is_doc_path(
                paths[k],
            ) {
            let k = choose|k: int|
                0 <= k < paths.len() && !is_ignored_event_spec(#[trigger] paths[k], src, out, excludes) && is_doc_path(
                    paths[k],
                );
            if k < front.len() {
                assert(front[k] == paths[k]);
            }
        }
    }
}

/// What a batch plans is made of vault files only: each listed document
/// and media file is one the watcher does not skip, listed with its path
/// below the vault; and a document created, removed or renamed (any event
/// but a read or an edit in place) that the watcher does not skip makes
/// the whole vault rebuild.
pub proof fn lemma_plan_lists_vault_files_and_moves_rebuild(
    events: Seq<FsEvent>,
    src: Seq<char>,
    out: Seq<char>,
    excludes: Seq<Seq<char>>,
)
    ensures
        ({
            let p = plan_events_spec(events, src, out, excludes);
            &&& all_vault_entries(p.docs, src, out, excludes)
            &&& all_vault_entries(p.media, src, out, excludes)
            &&& (exists|i: int, k: int|
                0 <= i < events.len() && 0 <= k < events[i].paths@.len() && events[i].kind == FsEventKind::Other
                    && !is_ignored_event_spec(#[trigger] events[i].paths@[k]@, src, out, excludes) && is_doc_path(
                    events[i].paths@[k]@,
                )) ==> p.global
        }),
    decreases events.len(),
{
    if events.len() > 0 {
        let front = events.drop_last();
        lemma_plan_lists_vault_files_and_moves_rebuild(front, src, out, excludes);
        let st = plan_events_spec(front, src, out, excludes);
        let e = events.last();
        let ps = e.paths@.map_values(|p: String| p@);
        if e.kind != FsEventKind::Access {
            lemma_plan_paths_keep(st, e.kind == FsEventKind::EditInPlace, ps, src, out, excludes);
        }
        if exists|i: int, k: int|
            0 <= i < events.len() && 0 <= k < events[i].paths@.len() && events[i].kind == FsEventKind::Other
                && !is_ignored_event_spec(#[trigger] events[i].paths@[k]@, src, out, excludes) && is_doc_path(
                events[i].paths@[k]@,
            ) {
            let (i, k) = choose|i: int, k: int|
                0 <= i < events.len() && 0 <= k < events[i].paths@.len() && events[i].kind == FsEventKind::Other
                    && !is_ignored_event_spec(#[trigger] events[i].paths@[k]@, src, out, excludes) && is_doc_path(
                    events[i].paths@[k]@,
                );
            if i < front.len() {
                assert(front[i] == events[i]);
            } else {
                assert(events[i] == e);
                assert(ps[k] == e.paths@[k]@);
            }
        }
    }
}

/// A reload signal as plain values.
pub enum SignalView {
    Doc(Seq<char>),
    Css,
    Full,
}

pub open spec fn signal_view(s: ReloadSignal) -> SignalView {
    match s {
        ReloadSignal::Doc { url } => SignalView::Doc(url@),
        ReloadSignal::Css => SignalView::Css,
        ReloadSignal::Full => SignalView::Full,
    }
}

pub open spec fn signal_views(v: Seq<ReloadSignal>) -> Seq<SignalView> {
    v.map_values(|s: ReloadSignal| signal_view(s))
}

/// What the dev server does about a batch of changes: send these signals,
/// or first rebuild the whole vault and, when that works, send these
/// signals followed by a full reload.
#[derive(Debug)]
pub enum ReloadAction {
    Send(Vec<ReloadSignal>),
    RebuildThenSend(Vec<ReloadSignal>),
}

/// The slug a route table gives a vault-relative path.
pub open spec fn route_of(routes: Seq<(Seq<char>, Seq<char>)>, rel: Seq<char>) -> Option<Seq<char>>
    decreases routes.len(),
{
    if routes.len() == 0 {
        None
    } else if routes[0].0 == rel {
        Some(routes[0].1)
    } else {
        route_of(routes.drop_first(), rel)
    }
}

/// The changed documents' page reloads, up to the first one the route table
/// does not know; and whether there was such a one.
pub open spec fn doc_reloads(docs: Seq<(Seq<char>, Seq<char>)>, routes: Seq<(Seq<char>, Seq<char>)>, prefix: Seq<char>) -> (
    bool,
    Seq<SignalView>,
)
    decreases docs.len(),
{
    if docs.len() == 0 {
        (false, Seq::empty())
    } else {
        match route_of(routes, docs[0].1) {
            Some(slug) => {
                let (missing, rest) = doc_reloads(docs.drop_first(), routes, prefix);
                (missing, seq![SignalView::Doc(prefix + "/"@ + slug)] + rest)
            },
            None => (true, Seq::empty()),
        }
    }
}

/// What a rebuild plan leads to: nothing for an empty plan; a full rebuild
/// for a change that touches everything; else stylesheet and page reloads,
/// with a full rebuild as soon as a changed document has no known page (or
/// nothing is loaded yet), and a full reload for changed media.
pub open spec fn reload_spec(plan: PlanView, routes: Option<Seq<(Seq<char>, Seq<char>)>>, prefix: Seq<char>) -> (
    bool,
    Seq<SignalView>,
) {
    if !plan.global && !plan.css && plan.docs.len() == 0 && plan.media.len() == 0 {
        (false, Seq::empty())
    } else if plan.global {
        (true, Seq::empty())
    } else {
        let css: Seq<SignalView> = if plan.css {
            seq![SignalView::Css]
        } else {
            Seq::empty()
        };
        let (rebuild, sigs) = if plan.docs.len() > 0 {
            match routes {
                Some(rt) => {
                    let (missing, docs) = doc_reloads(plan.docs, rt, prefix);
                    (missing, css + docs)
                },
                None => (true, css),
            }
        } else {
            (false, css)
        };
        if !rebuild && plan.media.len() > 0 {
            (false, sigs.push(SignalView::Full))
        } else {
            (rebuild, sigs)
        }
    }
}

pub open spec fn action_view(a: ReloadAction) -> (bool, Seq<SignalView>) {
    match a {
        ReloadAction::Send(v) => (false, signal_views(v@)),
        ReloadAction::RebuildThenSend(v) => (true, signal_views(v@)),
    }
}

fn find_route(routes: &Vec<(String, String)>, rel: &str) -> (r: Option<String>)
    ensures
        crate::links::opt_view(r) == route_of(pair_views(routes@), rel@),
{
    let ghost rv = pair_views(routes@);
    let mut i: usize = 0;
    assert(rv.skip(0) =~= rv);
    while i < routes.len()
        invariant
            i <= routes@.len(),
            rv == pair_views(routes@),
            route_of(rv, rel@) == route_of(rv.skip(i as int), rel@),
        decreases routes@.len() - i,
    {
        assert(rv.skip(i as int)[0] == rv[i as int]);
        assert(rv.skip(i as int).drop_first() =~= rv.skip(i + 1));
        if str_eq(routes[i].0.as_str(), rel) {
            return Some(routes[i].1.as_str().to_owned());
        }
        i = i + 1;
    }
    None
}

/// Decide what a batch of changes asks of the dev server. `routes` is the
/// loaded vault's route table (vault-relative path to slug), if a vault is
/// loaded; `url_prefix` is the book's page prefix without a trailing slash.
pub fn reload_action(plan: &RebuildPlan, routes: Option<&Vec<(String, String)>>, url_prefix: &str) -> (r: ReloadAction)
    ensures
        action_view(r) == reload_spec(
            plan_view(*plan),
            match routes {
                Some(rt) => Some(pair_views(rt@)),
                None => None,
            },
            url_prefix@,
        ),
{
    let mut signals: Vec<ReloadSignal> = Vec::new();
    if plan.is_empty() {
        assert(signal_views(signals@) =~= Seq::<SignalView>::empty());
        return ReloadAction::Send(signals);
    }
    if plan.global {
        assert(signal_views(signals@) =~= Seq::<SignalView>::empty());
        return ReloadAction::RebuildThenSend(signals);
    }
    if plan.css {
        signals.push(ReloadSignal::Css);
    }
    let ghost css = signal_views(signals@);
    assert(css =~= (if plan.css { seq![SignalView::Css] } else { Seq::<SignalView>::empty() }));
    if plan.docs.len() > 0 {
        match routes {
            Some(rt) => {
                let ghost dv = pair_views(plan.docs@);
                let ghost rv = pair_views(rt@);
                let mut i: usize = 0;
                assert(dv.skip(0) =~= dv);
                assert(css + Seq::<SignalView>::empty() =~= css);
                while i < plan.docs.len()
                    invariant
                        i <= plan.docs@.len(),
                        !plan.global,
                        plan.docs@.len() > 0,
                        css == (if plan.css { seq![SignalView::Css] } else { Seq::<SignalView>::empty() }),
                        routes == Some(rt),
                        dv == pair_views(plan.docs@),
                        rv == pair_views(rt@),
                        ({
                            let (m, ds) = doc_reloads(dv, rv, url_prefix@);
                            let (m2, rest) = doc_reloads(dv.skip(i as int), rv, url_prefix@);
                            m == m2 && css + ds == signal_views(signals@) + rest
                        }),
                    decreases plan.docs@.len() - i,
                {
                    assert(dv.skip(i as int)[0] == dv[i as int]);
                    assert(dv.skip(i as int).drop_first() =~= dv.skip(i + 1));
                    match find_route(rt, plan.docs[i].1.as_str()) {
                        Some(slug) => {
                            let mut url = url_prefix.to_owned();
                            url.push_str("/");
                            url.push_str(slug.as_str());
                            let ghost before = signals@;
                            let ghost u = url@;
                            signals.push(ReloadSignal::Doc { url });
                            assert(signal_views(signals@) =~= signal_views(before).push(SignalView::Doc(u)));
                            let ghost rest = doc_reloads(dv.skip(i + 1), rv, url_prefix@).1;
                            assert(signal_views(before) + (seq![SignalView::Doc(u)] + rest) =~= signal_views(signals@)
                                + rest);
                        },
                        None => {
                            assert(route_of(rv, dv.skip(i as int)[0].1) is None);
                            assert(doc_reloads(dv.skip(i as int), rv, url_prefix@) == (true, Seq::<SignalView>::empty()));
                            assert(signal_views(signals@) + Seq::<SignalView>::empty() =~= signal_views(signals@));
                            return ReloadAction::RebuildThenSend(signals);
                        },
                    }
                    i = i + 1;
                }
                assert(dv.skip(i as int) =~= Seq::<(Seq<char>, Seq<char>)>::empty());
                assert(signal_views(signals@) + Seq::<SignalView>::empty() =~= signal_views(signals@));
            },
            None => {
                return ReloadAction::RebuildThenSend(signals);
            },
        }
    }
    if plan.media.len() > 0 {
        let ghost before = signals@;
        signals.push(ReloadSignal::Full);
        assert(signal_views(signals@) =~= signal_views(before).push(SignalView::Full));
    }
    ReloadAction::Send(signals)
}

/// A batch of reads asks for nothing: no rebuild, no reload.
pub proof fn lemma_reads_alone_do_nothing(
    events: Seq<FsEvent>,
    src: Seq<char>,
    out: Seq<char>,
    excludes: Seq<Seq<char>>,
    routes: Option<Seq<(Seq<char>, Seq<char>)>>,
    prefix: Seq<char>,
)
    requires
        forall|i: int| 0 <= i < events.len() ==> #[trigger] events[i].kind == FsEventKind::Access,
    ensures
        reload_spec(plan_events_spec(events, src, out, excludes), routes, prefix) == (false, Seq::<SignalView>::empty()),
    decreases events.len(),
{
    if events.len() > 0 {
        assert forall|i: int| 0 <= i < events.drop_last().len() implies #[trigger] events.drop_last()[i].kind
            == FsEventKind::Access by {
            assert(events.drop_last()[i] == events[i]);
        }
        lemma_reads_alone_do_nothing(events.drop_last(), src, out, excludes, routes, prefix);
        assert(events.last().kind == FsEventKind::Access);
    }
}

/// Paths that leave a plan as it is, one after another, leave it as it is.
proof fn lemma_ignored_paths_keep_plan(
    st: PlanView,
    edit_in_place: bool,
    paths: Seq<Seq<char>>,
    src: Seq<char>,
    out: Seq<char>,
    excludes: Seq<Seq<char>>,
)
    requires
        forall|k: int| 0 <= k < paths.len() ==> is_ignored_event_spec(#[trigger] paths[k], src, out, excludes),
    ensures
        plan_paths(st, edit_in_place, paths, src, out, excludes) == st,
    decreases paths.len(),
{
    if paths.len() > 0 {
        assert forall|k: int| 0 <= k < paths.drop_last().len() implies is_ignored_event_spec(
            #[trigger] paths.drop_last()[k],
            src,
            out,
            excludes,
        ) by {
            assert(paths.drop_last()[k] == paths[k]);
        }
        lemma_ignored_paths_keep_plan(st, edit_in_place, paths.drop_last(), src, out, excludes);
        assert(is_ignored_event_spec(paths[paths.len() - 1], src, out, excludes));
    }
}

/// The watcher and the scanner agree on what belongs to the book: events
/// that touch only build output and paths the scan skips ask for nothing.
pub proof fn lemma_skipped_paths_do_nothing(
    events: Seq<FsEvent>,
    src: Seq<char>,
    out: Seq<char>,
    excludes: Seq<Seq<char>>,
    routes: Option<Seq<(Seq<char>, Seq<char>)>>,
    prefix: Seq<char>,
)
    requires
        forall|i: int, k: int|
            0 <= i < events.len() && 0 <= k < events[i].paths@.len() ==> is_ignored_event_spec(
                #[trigger] events[i].paths@[k]@,
                src,
                out,
                excludes,
            ),
    ensures
        reload_spec(plan_events_spec(events, src, out, excludes), routes, prefix) == (false, Seq::<SignalView>::empty()),
{
    lemma_skipped_paths_leave_plan_empty(events, src, out, excludes);
}

proof fn lemma_skipped_paths_leave_plan_empty(events: Seq<FsEvent>, src: Seq<char>, out: Seq<char>, excludes: Seq<Seq<char>>)
    requires
        forall|i: int, k: int|
            0 <= i < events.len() && 0 <= k < events[i].paths@.len() ==> is_ignored_event_spec(
                #[trigger] events[i].paths@[k]@,
                src,
                out,
                excludes,
            ),
    ensures
        plan_events_spec(events, src, out, excludes) == (PlanView {
            global: false,
            css: false,
            docs: Seq::empty(),
            media: Seq::empty(),
        }),
    decreases events.len(),
{
    if events.len() > 0 {
        let front = events.drop_last();
        assert forall|i: int, k: int| 0 <= i < front.len() && 0 <= k < front[i].paths@.len() implies is_ignored_event_spec(
            #[trigger] front[i].paths@[k]@,
            src,
            out,
            excludes,
        ) by {
            assert(front[i] == events[i]);
        }
        lemma_skipped_paths_leave_plan_empty(front, src, out, excludes);
        let e = events.last();
        let ps = e.paths@.map_values(|p: String| p@);
        assert forall|k: int| 0 <= k < ps.len() implies is_ignored_event_spec(#[trigger] ps[k], src, out, excludes) by {
            assert(events[events.len() - 1] == e);
            assert(ps[k] == e.paths@[k]@);
            assert(is_ignored_event_spec(events[events.len() - 1].paths@[k]@, src, out, excludes));
        }
        lemma_ignored_paths_keep_plan(
            plan_events_spec(front, src, out, excludes),
            e.kind == FsEventKind::EditInPlace,
            ps,
            src,
            out,
            excludes,
        );
    }
}

/// A change that may touch every page rebuilds the whole vault before any
/// signal is sent, and then reloads everything.
pub proof fn lemma_global_changes_rebuild_everything(
    plan: PlanView,
    routes: Option<Seq<(Seq<char>, Seq<char>)>>,
    prefix: Seq<char>,
)
    requires
        plan.global,
    ensures
        reload_spec(plan, routes, prefix) == (true, Seq::<SignalView>::empty()),
{
}

/// Saving one document the loaded vault has a page for reloads just that
/// page, without a rebuild.
pub proof fn lemma_a_save_reloads_its_page(
    e: FsEvent,
    src: Seq<char>,
    out: Seq<char>,
    excludes: Seq<Seq<char>>,
    routes: Seq<(Seq<char>, Seq<char>)>,
    prefix: Seq<char>,
    rel: Seq<char>,
    slug: Seq<char>,
)
    requires
        e.kind == FsEventKind::EditInPlace,
        e.paths@.len() == 1,
        !is_ignored_event_spec(e.paths@[0]@, src, out, excludes),
        !is_global_file(file_name_or_empty(e.paths@[0]@)),
        !".css"@.is_suffix_of(file_name_or_empty(e.paths@[0]@)),
        lower_extension(e.paths@[0]@) == "tmt"@ || lower_extension(e.paths@[0]@) == "tm"@,
        strip_prefix_spec(e.paths@[0]@, src) == Some(rel),
        route_of(routes, normalize_separators(rel)) == Some(slug),
    ensures
        reload_spec(plan_events_spec(seq![e], src, out, excludes), Some(routes), prefix) == (
            false,
            seq![SignalView::Doc(prefix + "/"@ + slug)],
        ),
{
    let path = e.paths@[0]@;
    let empty = PlanView { global: false, css: false, docs: Seq::empty(), media: Seq::empty() };
    let ps = e.paths@.map_values(|p: String| p@);
    assert(ps =~= seq![path]);
    assert(seq![e].drop_last() =~= Seq::<FsEvent>::empty());
    assert(plan_events_spec(Seq::<FsEvent>::empty(), src, out, excludes) == empty);
    assert(ps.drop_last() =~= Seq::<Seq<char>>::empty());
    assert(plan_paths(empty, true, Seq::<Seq<char>>::empty(), src, out, excludes) == empty);
    let p = plan_path(empty, true, path, src, out, excludes);
    assert(!listed(empty.docs, path));
    assert(p.docs =~= seq![(path, normalize_separators(rel))]);
    assert(plan_events_spec(seq![e], src, out, excludes) == p);
    let dv = p.docs;
    assert(dv.drop_first() =~= Seq::<(Seq<char>, Seq<char>)>::empty());
    assert(dv[0].1 == normalize_separators(rel));
    assert(doc_reloads(Seq::<(Seq<char>, Seq<char>)>::empty(), routes, prefix) == (false, Seq::<SignalView>::empty()));
    assert(seq![SignalView::Doc(prefix + "/"@ + slug)] + Seq::<SignalView>::empty() =~= seq![SignalView::Doc(prefix + "/"@ + slug)]);
    assert(doc_reloads(dv, routes, prefix).1 =~= seq![SignalView::Doc(prefix + "/"@ + slug)]);
    assert(Seq::<SignalView>::empty() + seq![SignalView::Doc(prefix + "/"@ + slug)] =~= seq![SignalView::Doc(
        prefix + "/"@ + slug,
    )]);
}

/// A path's file name, or nothing.
pub open spec fn file_name_or_empty(path: Seq<char>) -> Seq<char> {
    match file_name_spec(path) {
        Some(n) => n,
        None => Seq::empty(),
    }
}

} // verus!

verus! {

/// How long the watcher waits for the file system to go quiet before
/// handling a batch, in milliseconds.
pub const DEBOUNCE_MS: u64 = 150;

/// The longest a batch keeps growing, in milliseconds, so a long stream of
/// events is still handled.
pub const MAX_BATCH_WAIT_MS: u64 = 1000;

/// What the watcher heard while it waited.
#[derive(Debug, Clone, Copy, PartialEq, Eq, Structural)]
pub enum WatchInput {
    /// A file-system event arrived.
    Event,
    /// The watcher reported an error.
    Error,
    /// Nothing arrived within the wait.
    Quiet,
    /// The event channel closed.
    Closed,
}

/// What the watcher does next.
#[derive(Debug, Clone, Copy, PartialEq, Eq, Structural)]
pub enum WatchAction {
    /// Keep waiting, for `watch_wait` milliseconds or for the next event.
    Wait,
    /// Hand the batch of waiting events over, and start afresh.
    Flush,
    /// Stop watching.
    Stop,
}

/// What the watcher does after one input: whether events are now waiting,
/// whether the new event starts a batch (so its clock starts now), and the
/// action. `elapsed_ms` is how long the current batch has been growing.
pub open spec fn watch_step_spec(pending: bool, elapsed_ms: u64, input: WatchInput) -> (bool, bool, WatchAction) {
    match input {
        WatchInput::Event => {
            let elapsed = if pending { elapsed_ms } else { 0 };
            if elapsed < MAX_BATCH_WAIT_MS {
                (true, !pending, WatchAction::Wait)
            } else {
                (false, !pending, WatchAction::Flush)
            }
        },
        WatchInput::Error => (pending, false, WatchAction::Wait),
        WatchInput::Quiet => if pending {
            (false, false, WatchAction::Flush)
        } else {
            (false, false, WatchAction::Wait)
        },
        WatchInput::Closed => (pending, false, WatchAction::Stop),
    }
}

/// How long the watcher waits for the next event: forever while no event is
/// waiting, the debounce time once one is.
pub fn watch_wait(pending: bool) -> (r: Option<u64>)
    ensures
        r == (if pending { Some(DEBOUNCE_MS) } else { None::<u64> }),
{
    if pending {
        Some(DEBOUNCE_MS)
    } else {
        None
    }
}

/// One step of the watcher: given whether events are waiting, how long the
/// batch has been growing and what was heard, whether events wait now,
/// whether a new batch starts with this event, and what to do.
pub fn watch_step(pending: bool, elapsed_ms: u64, input: WatchInput) -> (r: (bool, bool, WatchAction))
    ensures
        r == watch_step_spec(pending, elapsed_ms, input),
{
    match input {
        WatchInput::Event => {
            let elapsed = if pending {
                elapsed_ms
            } else {
                0
            };
            if elapsed < MAX_BATCH_WAIT_MS {
                (true, !pending, WatchAction::Wait)
            } else {
                (false, !pending, WatchAction::Flush)
            }
        },
        WatchInput::Error => (pending, false, WatchAction::Wait),
        WatchInput::Quiet => if pending {
            (false, false, WatchAction::Flush)
        } else {
            (false, false, WatchAction::Wait)
        },
        WatchInput::Closed => (pending, false, WatchAction::Stop),
    }
}

/// A batch is never held past the maximum wait: an event that arrives once
/// the batch has grown that long hands the batch over.
pub proof fn lemma_batches_are_bounded(elapsed_ms: u64)
    requires
        elapsed_ms >= MAX_BATCH_WAIT_MS,
    ensures
        watch_step_spec(true, elapsed_ms, WatchInput::Event).2 == WatchAction::Flush,
{
}

/// Quiet after an event always hands the waiting batch over, and errors
/// never lose it.
pub proof fn lemma_quiet_flushes_and_errors_keep(elapsed_ms: u64)
    ensures
        watch_step_spec(true, elapsed_ms, WatchInput::Quiet).2 == WatchAction::Flush,
        watch_step_spec(true, elapsed_ms, WatchInput::Error) == (true, false, WatchAction::Wait),
{
}

} // verus!
