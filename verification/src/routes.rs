//! How the dev server answers a request: which built-in asset, index,
//! page or vault file a URL path names, tried in a fixed order.

use vstd::prelude::*;
use vstd::utf8::encode_utf8;

use crate::internal_links::{hex_value, is_hex_byte, string_from_utf8};
use crate::text::{chars_of, is_char_pred, str_eq, string_from_range, trim_both_spec, trim_end_char, trim_start_char};

verus! {

/// `percent_decode_str`'s bytes: each `%` followed by two hex digits is the
/// byte they spell; every other byte, a lone `%` included, stays as it is.
pub open spec fn lenient_percent_bytes(b: Seq<u8>) -> Seq<u8>
    decreases b.len(),
{
    if b.len() == 0 {
        Seq::empty()
    } else if b[0] == 0x25 && b.len() >= 3 && is_hex_byte(b[1]) && is_hex_byte(b[2]) {
        seq![(hex_value(b[1]) * 16 + hex_value(b[2])) as u8] + lenient_percent_bytes(b.skip(3))
    } else {
        seq![b[0]] + lenient_percent_bytes(b.skip(1))
    }
}

/// `percent_encoding::percent_decode_str(s)`, collected: the contract is
/// the crate's documented rule, that any `%` followed by two hexadecimal
/// digits is decoded and every other byte passes through.
#[verifier::external_body]
fn percent_decode_bytes(s: &str) -> (r: Vec<u8>)
    ensures
        r@ == lenient_percent_bytes(encode_utf8(s@)),
{
    percent_encoding::percent_decode_str(s).collect()
}

/// A request path with its percent escapes decoded, or as it came when the
/// decoded bytes are not UTF-8.
pub open spec fn decoded_path_spec(raw: Seq<char>) -> Seq<char> {
    let bs = lenient_percent_bytes(encode_utf8(raw));
    if vstd::utf8::valid_utf8(bs) {
        vstd::utf8::decode_utf8(bs)
    } else {
        raw
    }
}

/// Decode the path of a request.
pub fn decode_request_path(raw: &str) -> (r: String)
    ensures
        r@ == decoded_path_spec(raw@),
{
    match string_from_utf8(percent_decode_bytes(raw)) {
        Some(s) => s,
        None => raw.to_owned(),
    }
}

/// The files the program carries inside itself.
#[derive(Debug, Clone, Copy, PartialEq, Eq)]
pub enum EmbeddedAsset {
    BookCss,
    BookJs,
    LucideSprite,
    SimpleSprite,
    BtnCss,
    BadgeCss,
    IconCss,
    SwatchCss,
    SwitchCss,
}

/// The built-in asset served at `path`.
pub open spec fn asset_at(path: Seq<char>) -> Option<EmbeddedAsset> {
    if path == "/tmtbook.css"@ {
        Some(EmbeddedAsset::BookCss)
    } else if path == "/tmtbook.js"@ {
        Some(EmbeddedAsset::BookJs)
    } else if path == "/icons/lucide.svg"@ {
        Some(EmbeddedAsset::LucideSprite)
    } else if path == "/icons/simple.svg"@ {
        Some(EmbeddedAsset::SimpleSprite)
    } else if path == "/components/tmt-btn.css"@ {
        Some(EmbeddedAsset::BtnCss)
    } else if path == "/components/tmt-badge.css"@ {
        Some(EmbeddedAsset::BadgeCss)
    } else if path == "/components/tmt-icon.css"@ {
        Some(EmbeddedAsset::IconCss)
    } else if path == "/components/tmt-swatch.css"@ {
        Some(EmbeddedAsset::SwatchCss)
    } else if path == "/components/tmt-switch.css"@ {
        Some(EmbeddedAsset::SwitchCss)
    } else {
        None
    }
}

pub open spec fn asset_type_spec(a: EmbeddedAsset) -> Seq<char> {
    match a {
        EmbeddedAsset::BookJs => "application/javascript; charset=utf-8"@,
        EmbeddedAsset::LucideSprite | EmbeddedAsset::SimpleSprite => "image/svg+xml"@,
        _ => "text/css; charset=utf-8"@,
    }
}

impl EmbeddedAsset {
    /// The content type the asset is served with.
    pub fn content_type(&self) -> (r: &'static str)
        ensures
            r@ == asset_type_spec(*self),
    {
        match self {
            EmbeddedAsset::BookJs => "application/javascript; charset=utf-8",
            EmbeddedAsset::LucideSprite | EmbeddedAsset::SimpleSprite => "image/svg+xml",
            _ => "text/css; charset=utf-8",
        }
    }
}

fn asset_for(path: &str) -> (r: Option<EmbeddedAsset>)
    ensures
        r == asset_at(path@),
{
    if str_eq(path, "/tmtbook.css") {
        Some(EmbeddedAsset::BookCss)
    } else if str_eq(path, "/tmtbook.js") {
        Some(EmbeddedAsset::BookJs)
    } else if str_eq(path, "/icons/lucide.svg") {
        Some(EmbeddedAsset::LucideSprite)
    } else if str_eq(path, "/icons/simple.svg") {
        Some(EmbeddedAsset::SimpleSprite)
    } else if str_eq(path, "/components/tmt-btn.css") {
        Some(EmbeddedAsset::BtnCss)
    } else if str_eq(path, "/components/tmt-badge.css") {
        Some(EmbeddedAsset::BadgeCss)
    } else if str_eq(path, "/components/tmt-icon.css") {
        Some(EmbeddedAsset::IconCss)
    } else if str_eq(path, "/components/tmt-swatch.css") {
        Some(EmbeddedAsset::SwatchCss)
    } else if str_eq(path, "/components/tmt-switch.css") {
        Some(EmbeddedAsset::SwitchCss)
    } else {
        None
    }
}

/// `s` with `pat` removed from its end as often as it ends with it.
pub open spec fn trim_end_str(s: Seq<char>, pat: Seq<char>) -> Seq<char>
    decreases s.len(),
{
    if pat.len() > 0 && s.len() >= pat.len() && s.skip(s.len() - pat.len()) == pat {
        trim_end_str(s.take(s.len() - pat.len()), pat)
    } else {
        s
    }
}

pub open spec fn trim_slashes(s: Seq<char>) -> Seq<char> {
    trim_both_spec(s, is_char_pred('/'))
}

/// The page slug below the page prefix a path names, if it names one.
pub open spec fn page_slug_spec(path: Seq<char>, url_prefix: Seq<char>) -> Option<Seq<char>> {
    let sub = if url_prefix.len() > 0 {
        if url_prefix.is_prefix_of(path) {
            Some(trim_slashes(path.skip(url_prefix.len() as int)))
        } else {
            None
        }
    } else {
        Some(trim_slashes(path))
    };
    match sub {
        Some(s) => if s.len() > 0 {
            Some(trim_slashes(trim_end_str(trim_end_str(s, "/index.html"@), ".html"@)))
        } else {
            None
        },
        None => None,
    }
}

/// The vault file a path names, below the media prefix or as it stands.
pub open spec fn media_rel_spec(path: Seq<char>, asset_prefix: Seq<char>) -> Option<Seq<char>> {
    let rel = if asset_prefix.len() > 0 && asset_prefix.is_prefix_of(path) {
        trim_slashes(path.skip(asset_prefix.len() as int))
    } else {
        trim_slashes(path)
    };
    if rel.len() > 0 {
        Some(rel)
    } else {
        None
    }
}

/// The page shown for a path nothing answers to.
pub open spec fn not_found_spec(path: Seq<char>) -> Seq<char> {
    "<!doctype html><html><head><meta charset=\"utf-8\"><title>404 Not Found</title></head><body><h1>404 Not Found</h1><p>Cannot find: <code>"@
        + path + "</code></p></body></html>"@
}

/// What a request path can be answered with, to be tried in this order:
/// a built-in asset; the search index; a redirect from the root into the
/// book, or the catalog at the root; the catalog; a page; a vault file;
/// else the not-found page.
pub struct RequestPlan {
    pub asset: Option<EmbeddedAsset>,
    pub search_index: bool,
    pub root_redirect: Option<String>,
    pub root_index: bool,
    pub catalog: bool,
    pub page_slug: Option<String>,
    pub media_rel: Option<String>,
    pub not_found: String,
}

pub open spec fn is_root(path: Seq<char>) -> bool {
    path == "/"@ || path.len() == 0
}

/// How a decoded request path is answered, given the book's page and media
/// prefixes without their trailing slashes.
pub open spec fn plan_matches(p: RequestPlan, path: Seq<char>, url_prefix: Seq<char>, asset_prefix: Seq<char>) -> bool {
    &&& p.asset == asset_at(path)
    &&& p.search_index == (path == "/search-index.json"@ || (url_prefix.len() > 0 && path == url_prefix
        + "/search-index.json"@))
    &&& crate::links::opt_view(p.root_redirect) == (if is_root(path) && url_prefix.len() > 0 {
        Some(url_prefix + "/"@)
    } else {
        None
    })
    &&& p.root_index == (is_root(path) && url_prefix.len() == 0)
    &&& p.catalog == (if url_prefix.len() > 0 {
        path == url_prefix || path == url_prefix + "/"@ || path == url_prefix + "/index.html"@
    } else {
        path == "/"@ || path == "/index.html"@
    })
    &&& crate::links::opt_view(p.page_slug) == page_slug_spec(path, url_prefix)
    &&& crate::links::opt_view(p.media_rel) == media_rel_spec(path, asset_prefix)
    &&& p.not_found@ == not_found_spec(path)
}

fn trim_slashes_exec(s: &str) -> (r: String)
    ensures
        r@ == trim_slashes(s@),
{
    let cs = chars_of(s);
    let a = trim_start_char(&cs, 0, cs.len(), '/');
    let b = trim_end_char(&cs, a, cs.len(), '/');
    assert(cs@.subrange(0, cs@.len() as int) =~= s@);
    string_from_range(&cs, a, b)
}

fn trim_end_str_exec(s: &str, pat: &str) -> (r: String)
    ensures
        r@ == trim_end_str(s@, pat@),
{
    let cs = chars_of(s);
    let pc = chars_of(pat);
    let mut end: usize = cs.len();
    assert(cs@.take(cs@.len() as int) =~= s@);
    loop
        invariant
            end <= cs@.len(),
            cs@ == s@,
            pc@ == pat@,
            trim_end_str(s@, pat@) == trim_end_str(cs@.take(end as int), pat@),
        ensures
            end <= cs@.len(),
            trim_end_str(s@, pat@) == cs@.take(end as int),
        decreases end,
    {
        if pc.len() == 0 || end < pc.len() {
            assert(trim_end_str(cs@.take(end as int), pat@) == cs@.take(end as int));
            break;
        }
        let start = end - pc.len();
        let mut k: usize = 0;
        let mut same = true;
        while k < pc.len()
            invariant
                k <= pc@.len(),
                start + pc@.len() == end,
                end <= cs@.len(),
                same == (forall|j: int| 0 <= j < k ==> cs@[start + j] == pc@[j]),
            decreases pc@.len() - k,
        {
            if cs[start + k] != pc[k] {
                same = false;
            }
            k = k + 1;
        }
        let ghost t = cs@.take(end as int);
        assert(same == (t.skip(t.len() - pc@.len()) =~= pc@)) by {
            if same {
                assert forall|j: int| 0 <= j < pc@.len() implies t.skip(t.len() - pc@.len())[j] == pc@[j] by {
                    assert(cs@[start + j] == pc@[j]);
                }
            } else {
                let j = choose|j: int| 0 <= j < pc@.len() && cs@[start + j] != pc@[j];
                assert(t.skip(t.len() - pc@.len())[j] != pc@[j]);
            }
        }
        if !same {
            assert(trim_end_str(cs@.take(end as int), pat@) == cs@.take(end as int));
            break;
        }
        assert(t.take(t.len() - pc@.len()) =~= cs@.take(start as int));
        end = start;
    }
    assert(cs@.subrange(0, end as int) =~= cs@.take(end as int));
    string_from_range(&cs, 0, end)
}

fn starts_with(s: &str, p: &str) -> (r: bool)
    ensures
        r == p@.is_prefix_of(s@),
{
    let cs = chars_of(s);
    let pc = chars_of(p);
    if pc.len() > cs.len() {
        return false;
    }
    let mut k: usize = 0;
    while k < pc.len()
        invariant
            k <= pc@.len(),
            pc@.len() <= cs@.len(),
            cs@ == s@,
            pc@ == p@,
            forall|j: int| 0 <= j < k ==> cs@[j] == pc@[j],
        decreases pc@.len() - k,
    {
        if cs[k] != pc[k] {
            return false;
        }
        k = k + 1;
    }
    true
}

fn skip_str(s: &str, n: usize) -> (r: String)
    requires
        n <= s@.len(),
    ensures
        r@ == s@.skip(n as int),
{
    let cs = chars_of(s);
    assert(cs@.subrange(n as int, cs@.len() as int) =~= s@.skip(n as int));
    string_from_range(&cs, n, cs.len())
}

fn concat(a: &str, b: &str) -> (r: String)
    ensures
        r@ == a@ + b@,
{
    let mut out = a.to_owned();
    out.push_str(b);
    out
}

/// Work out how a request for `path` is answered.
pub fn plan_request(path: &str, url_prefix: &str, asset_prefix: &str) -> (r: RequestPlan)
    ensures
        plan_matches(r, path@, url_prefix@, asset_prefix@),
{
    let up_len = chars_of(url_prefix).len();
    let ap_len = chars_of(asset_prefix).len();
    let root = str_eq(path, "/") || chars_of(path).len() == 0;
    let search_index = str_eq(path, "/search-index.json") || (up_len > 0 && str_eq(
        path,
        concat(url_prefix, "/search-index.json").as_str(),
    ));
    let root_redirect = if root && up_len > 0 {
        Some(concat(url_prefix, "/"))
    } else {
        None
    };
    let catalog = if up_len > 0 {
        str_eq(path, url_prefix) || str_eq(path, concat(url_prefix, "/").as_str()) || str_eq(
            path,
            concat(url_prefix, "/index.html").as_str(),
        )
    } else {
        str_eq(path, "/") || str_eq(path, "/index.html")
    };
    let sub = if up_len > 0 {
        if starts_with(path, url_prefix) {
            Some(trim_slashes_exec(skip_str(path, up_len).as_str()))
        } else {
            None
        }
    } else {
        Some(trim_slashes_exec(path))
    };
    let page_slug = match sub {
        Some(s) => if chars_of(s.as_str()).len() > 0 {
            let a = trim_end_str_exec(s.as_str(), "/index.html");
            let b = trim_end_str_exec(a.as_str(), ".html");
            Some(trim_slashes_exec(b.as_str()))
        } else {
            None
        },
        None => None,
    };
    let rel = if ap_len > 0 && starts_with(path, asset_prefix) {
        trim_slashes_exec(skip_str(path, ap_len).as_str())
    } else {
        trim_slashes_exec(path)
    };
    let media_rel = if chars_of(rel.as_str()).len() > 0 {
        Some(rel)
    } else {
        None
    };
    let mut not_found = "<!doctype html><html><head><meta charset=\"utf-8\"><title>404 Not Found</title></head><body><h1>404 Not Found</h1><p>Cannot find: <code>".to_owned();
    not_found.push_str(path);
    not_found.push_str("</code></p></body></html>");
    RequestPlan {
        asset: asset_for(path),
        search_index,
        root_redirect,
        root_index: root && up_len == 0,
        catalog,
        page_slug,
        media_rel,
        not_found,
    }
}

} // verus!
