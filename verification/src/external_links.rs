//! External links: a brand icon (from the Simple Icons sprite) or a favicon
//! in front of each link to another site.

use vstd::prelude::*;

use crate::config::{FaviconService, LinksConfig};
use crate::html::{escape_html, escaped};
use crate::icon::{is_simple_icon, names_of, IconSet};
use crate::pattern::{
    captures_view, group, group_text, group_views, interleave, match_pieces, regex_captures, regex_split, splice,
    string_seqs,
};
use crate::text::{ascii_lower_seq, char_ascii_lower, chars_of, contains_sub, contains_sub_spec, has_suffix, is_lit, string_from_range, trim_ws, trim_ws_range};

verus! {

/// An `<a>` whose `href` is an `http(s)://` URL: its attributes, the URL,
/// the host, and the link's content.
pub const EXTERNAL_LINK_PATTERN: &'static str = "(?s)<a\\b([^>]*\\bhref=\"(https?://([^\"/:]+)[^\"]*)\"[^>]*)>(.*?)</a>";

/// Maps common domains to known Simple Icons symbol IDs.
pub open spec fn simple_icon_for(domain: Seq<char>) -> Option<Seq<char>> {
    if domain == "github.com"@ || domain == "gist.github.com"@ {
        Some("github"@)
    } else if domain == "gitlab.com"@ {
        Some("gitlab"@)
    } else if domain == "bitbucket.org"@ {
        Some("bitbucket"@)
    } else if domain == "zenn.dev"@ {
        Some("zenn"@)
    } else if domain == "qiita.com"@ {
        Some("qiita"@)
    } else if domain == "b.hatena.ne.jp"@ || domain == "hatenablog.com"@ {
        Some("hatenabookmark"@)
    } else if domain == "x.com"@ || domain == "twitter.com"@ {
        Some("x"@)
    } else if domain == "youtube.com"@ || domain == "youtu.be"@ {
        Some("youtube"@)
    } else if domain == "discord.com"@ || domain == "discord.gg"@ {
        Some("discord"@)
    } else if domain == "reddit.com"@ {
        Some("reddit"@)
    } else if domain == "twitch.tv"@ {
        Some("twitch"@)
    } else if domain == "bsky.app"@ {
        Some("bluesky"@)
    } else if domain == "t.me"@ || domain == "telegram.org"@ {
        Some("telegram"@)
    } else if domain == "medium.com"@ {
        Some("medium"@)
    } else if domain == "substack.com"@ {
        Some("substack"@)
    } else if domain == "google.com"@ || domain == "google.co.jp"@ {
        Some("google"@)
    } else if domain == "wikipedia.org"@ {
        Some("wikipedia"@)
    } else if ".wikipedia.org"@.is_suffix_of(domain) {
        Some("wikipedia"@)
    } else if domain == "developer.mozilla.org"@ {
        Some("mdnwebdocs"@)
    } else if domain == "stackoverflow.com"@ {
        Some("stackoverflow"@)
    } else if domain == "notion.so"@ || domain == "notion.site"@ {
        Some("notion"@)
    } else if domain == "obsidian.md"@ {
        Some("obsidian"@)
    } else if domain == "rust-lang.org"@ || domain == "crates.io"@ || domain == "docs.rs"@ {
        Some("rust"@)
    } else if domain == "python.org"@ || domain == "pypi.org"@ {
        Some("python"@)
    } else if domain == "nodejs.org"@ || domain == "npmjs.com"@ || domain == "npmjs.org"@ {
        Some("npm"@)
    } else if domain == "deno.land"@ || domain == "deno.com"@ {
        Some("deno"@)
    } else if domain == "bun.sh"@ {
        Some("bun"@)
    } else if domain == "neovim.io"@ {
        Some("neovim"@)
    } else if domain == "react.dev"@ || domain == "reactjs.org"@ {
        Some("react"@)
    } else if domain == "vuejs.org"@ {
        Some("vuedotjs"@)
    } else if domain == "svelte.dev"@ {
        Some("svelte"@)
    } else if domain == "nextjs.org"@ {
        Some("nextdotjs"@)
    } else if domain == "astro.build"@ {
        Some("astro"@)
    } else if domain == "vite.dev"@ || domain == "vitejs.dev"@ {
        Some("vite"@)
    } else if domain == "tailwindcss.com"@ {
        Some("tailwindcss"@)
    } else if domain == "figma.com"@ {
        Some("figma"@)
    } else if domain == "docker.com"@ || domain == "hub.docker.com"@ {
        Some("docker"@)
    } else if domain == "kubernetes.io"@ {
        Some("kubernetes"@)
    } else if domain == "cloudflare.com"@ {
        Some("cloudflare"@)
    } else if domain == "vercel.com"@ {
        Some("vercel"@)
    } else if domain == "netlify.com"@ {
        Some("netlify"@)
    } else if domain == "supabase.com"@ {
        Some("supabase"@)
    } else if domain == "firebase.google.com"@ {
        Some("firebase"@)
    } else if domain == "stripe.com"@ {
        Some("stripe"@)
    } else if domain == "archlinux.org"@ {
        Some("archlinux"@)
    } else if domain == "ubuntu.com"@ {
        Some("ubuntu"@)
    } else if domain == "debian.org"@ {
        Some("debian"@)
    } else {
        None
    }
}

fn domain_to_simple_icon(domain: &str) -> (r: Option<&'static str>)
    ensures
        match r {
            Some(i) => simple_icon_for(domain@) == Some(i@),
            None => simple_icon_for(domain@) is None,
        },
{
    let cs = chars_of(domain);
    if is_lit(&cs, "github.com") || is_lit(&cs, "gist.github.com") {
        Some("github")
    } else if is_lit(&cs, "gitlab.com") {
        Some("gitlab")
    } else if is_lit(&cs, "bitbucket.org") {
        Some("bitbucket")
    } else if is_lit(&cs, "zenn.dev") {
        Some("zenn")
    } else if is_lit(&cs, "qiita.com") {
        Some("qiita")
    } else if is_lit(&cs, "b.hatena.ne.jp") || is_lit(&cs, "hatenablog.com") {
        Some("hatenabookmark")
    } else if is_lit(&cs, "x.com") || is_lit(&cs, "twitter.com") {
        Some("x")
    } else if is_lit(&cs, "youtube.com") || is_lit(&cs, "youtu.be") {
        Some("youtube")
    } else if is_lit(&cs, "discord.com") || is_lit(&cs, "discord.gg") {
        Some("discord")
    } else if is_lit(&cs, "reddit.com") {
        Some("reddit")
    } else if is_lit(&cs, "twitch.tv") {
        Some("twitch")
    } else if is_lit(&cs, "bsky.app") {
        Some("bluesky")
    } else if is_lit(&cs, "t.me") || is_lit(&cs, "telegram.org") {
        Some("telegram")
    } else if is_lit(&cs, "medium.com") {
        Some("medium")
    } else if is_lit(&cs, "substack.com") {
        Some("substack")
    } else if is_lit(&cs, "google.com") || is_lit(&cs, "google.co.jp") {
        Some("google")
    } else if is_lit(&cs, "wikipedia.org") {
        Some("wikipedia")
    } else if has_suffix(&cs, ".wikipedia.org") {
        Some("wikipedia")
    } else if is_lit(&cs, "developer.mozilla.org") {
        Some("mdnwebdocs")
    } else if is_lit(&cs, "stackoverflow.com") {
        Some("stackoverflow")
    } else if is_lit(&cs, "notion.so") || is_lit(&cs, "notion.site") {
        Some("notion")
    } else if is_lit(&cs, "obsidian.md") {
        Some("obsidian")
    } else if is_lit(&cs, "rust-lang.org") || is_lit(&cs, "crates.io") || is_lit(&cs, "docs.rs") {
        Some("rust")
    } else if is_lit(&cs, "python.org") || is_lit(&cs, "pypi.org") {
        Some("python")
    } else if is_lit(&cs, "nodejs.org") || is_lit(&cs, "npmjs.com") || is_lit(&cs, "npmjs.org") {
        Some("npm")
    } else if is_lit(&cs, "deno.land") || is_lit(&cs, "deno.com") {
        Some("deno")
    } else if is_lit(&cs, "bun.sh") {
        Some("bun")
    } else if is_lit(&cs, "neovim.io") {
        Some("neovim")
    } else if is_lit(&cs, "react.dev") || is_lit(&cs, "reactjs.org") {
        Some("react")
    } else if is_lit(&cs, "vuejs.org") {
        Some("vuedotjs")
    } else if is_lit(&cs, "svelte.dev") {
        Some("svelte")
    } else if is_lit(&cs, "nextjs.org") {
        Some("nextdotjs")
    } else if is_lit(&cs, "astro.build") {
        Some("astro")
    } else if is_lit(&cs, "vite.dev") || is_lit(&cs, "vitejs.dev") {
        Some("vite")
    } else if is_lit(&cs, "tailwindcss.com") {
        Some("tailwindcss")
    } else if is_lit(&cs, "figma.com") {
        Some("figma")
    } else if is_lit(&cs, "docker.com") || is_lit(&cs, "hub.docker.com") {
        Some("docker")
    } else if is_lit(&cs, "kubernetes.io") {
        Some("kubernetes")
    } else if is_lit(&cs, "cloudflare.com") {
        Some("cloudflare")
    } else if is_lit(&cs, "vercel.com") {
        Some("vercel")
    } else if is_lit(&cs, "netlify.com") {
        Some("netlify")
    } else if is_lit(&cs, "supabase.com") {
        Some("supabase")
    } else if is_lit(&cs, "firebase.google.com") {
        Some("firebase")
    } else if is_lit(&cs, "stripe.com") {
        Some("stripe")
    } else if is_lit(&cs, "archlinux.org") {
        Some("archlinux")
    } else if is_lit(&cs, "ubuntu.com") {
        Some("ubuntu")
    } else if is_lit(&cs, "debian.org") {
        Some("debian")
    } else {
        None
    }
}

/// A host lowercased, with a leading `www.` dropped.
pub open spec fn normalize_host_spec(raw: Seq<char>) -> Seq<char> {
    let lower = ascii_lower_seq(raw);
    if "www."@.is_prefix_of(lower) {
        lower.skip(4)
    } else {
        lower
    }
}

/// Normalizes a hostname by lowercasing and stripping leading `www.`.
pub fn normalize_host(raw_host: &str) -> (r: String)
    ensures
        r@ == normalize_host_spec(raw_host@),
{
    let cs = chars_of(raw_host);
    let mut lower: Vec<char> = Vec::new();
    let mut i: usize = 0;
    while i < cs.len()
        invariant
            i <= cs@.len(),
            cs@ == raw_host@,
            lower@ == ascii_lower_seq(cs@.take(i as int)),
        decreases cs@.len() - i,
    {
        lower.push(char_ascii_lower(cs[i]));
        assert(ascii_lower_seq(cs@.take(i + 1)) =~= ascii_lower_seq(cs@.take(i as int)).push(crate::text::ascii_lower(cs@[i as int])));
        i = i + 1;
    }
    assert(cs@.take(cs@.len() as int) =~= cs@);
    proof {
        reveal_strlit("www.");
    }
    if crate::text::has_prefix(&lower, "www.") {
        string_from_range(&lower, 4, lower.len())
    } else {
        string_from_range(&lower, 0, lower.len())
    }
}

/// The icon in front of a link to `host`: the site's brand when Simple Icons
/// draws it, else a favicon from the configured service, else nothing.
pub open spec fn link_icon_spec(host: Seq<char>, service: FaviconService, simple: Seq<Seq<char>>) -> Option<Seq<char>> {
    let norm = normalize_host_spec(host);
    match simple_icon_for(norm) {
        Some(name) if simple.contains(name) => Some(
            "<svg class=\"tm-link-icon\" aria-hidden=\"true\"><use href=\"/icons/simple.svg#"@ + escaped(name)
                + "\"></use></svg>"@,
        ),
        _ => match service {
            FaviconService::Google => Some(
                "<img class=\"tm-link-icon tm-link-favicon\" src=\"https://www.google.com/s2/favicons?domain="@
                    + escaped(norm)
                    + "&amp;sz=32\" alt=\"\" width=\"14\" height=\"14\" loading=\"lazy\" decoding=\"async\" />"@,
            ),
            FaviconService::DuckDuckGo => Some(
                "<img class=\"tm-link-icon tm-link-favicon\" src=\"https://icons.duckduckgo.com/ip3/"@ + escaped(norm)
                    + ".ico\" alt=\"\" width=\"14\" height=\"14\" loading=\"lazy\" decoding=\"async\" />"@,
            ),
            FaviconService::Disabled => None,
        },
    }
}

/// A link finds its site whatever the case of its host and with or without
/// a leading `www.`: a host and the same host behind `www.` get the same
/// icon, and so do a host and its lowercase.
pub proof fn lemma_link_icons_ignore_www_and_case(host: Seq<char>, service: FaviconService, simple: Seq<Seq<char>>)
    ensures
        !"www."@.is_prefix_of(ascii_lower_seq(host)) ==> link_icon_spec("www."@ + host, service, simple)
            == link_icon_spec(host, service, simple),
        link_icon_spec(ascii_lower_seq(host), service, simple) == link_icon_spec(host, service, simple),
{
    reveal_strlit("www.");
    let w = "www."@;
    assert(ascii_lower_seq(w) =~= w);
    assert(ascii_lower_seq(w + host) =~= w + ascii_lower_seq(host));
    assert(w.is_prefix_of(w + ascii_lower_seq(host))) by {
        assert((w + ascii_lower_seq(host)).take(4) =~= w);
    }
    assert((w + ascii_lower_seq(host)).skip(4) =~= ascii_lower_seq(host));
    assert(ascii_lower_seq(ascii_lower_seq(host)) =~= ascii_lower_seq(host)) by {
        assert forall|i: int| 0 <= i < host.len() implies crate::text::ascii_lower(crate::text::ascii_lower(host[i]))
            == crate::text::ascii_lower(host[i]) by {
            let c = host[i];
            if crate::text::is_ascii_upper(c) {
                assert(((c as u32) + 32) as char as u32 == (c as u32) + 32);
            }
        }
    }
}

/// Resolves the HTML string for an external link's prefix icon.
pub fn resolve_link_icon(host: &str, config: &LinksConfig, simple: &IconSet) -> (r: Option<String>)
    ensures
        r is Some <==> link_icon_spec(host@, config.favicon_service, names_of(*simple)) is Some,
        r matches Some(h) ==> link_icon_spec(host@, config.favicon_service, names_of(*simple)) == Some(h@),
{
    let norm = normalize_host(host);
    match domain_to_simple_icon(norm.as_str()) {
        Some(icon_name) => {
            if is_simple_icon(simple, icon_name) {
                let mut out = String::new();
                out.push_str("<svg class=\"tm-link-icon\" aria-hidden=\"true\"><use href=\"/icons/simple.svg#");
                out.push_str(escape_html(icon_name).as_str());
                out.push_str("\"></use></svg>");
                return Some(out);
            }
        },
        None => {},
    }
    match config.favicon_service {
        FaviconService::Google => {
            let mut out = String::new();
            out.push_str("<img class=\"tm-link-icon tm-link-favicon\" src=\"https://www.google.com/s2/favicons?domain=");
            out.push_str(escape_html(norm.as_str()).as_str());
            out.push_str("&amp;sz=32\" alt=\"\" width=\"14\" height=\"14\" loading=\"lazy\" decoding=\"async\" />");
            Some(out)
        },
        FaviconService::DuckDuckGo => {
            let mut out = String::new();
            out.push_str("<img class=\"tm-link-icon tm-link-favicon\" src=\"https://icons.duckduckgo.com/ip3/");
            out.push_str(escape_html(norm.as_str()).as_str());
            out.push_str(".ico\" alt=\"\" width=\"14\" height=\"14\" loading=\"lazy\" decoding=\"async\" />");
            Some(out)
        },
        FaviconService::Disabled => None,
    }
}

/// Link content that already carries an image or icon, or shows nothing.
pub open spec fn content_has_picture(inner: Seq<char>) -> bool {
    trim_ws(inner).len() == 0 || contains_sub_spec(inner, "<img"@) || contains_sub_spec(inner, "<svg"@)
        || contains_sub_spec(inner, "<tmt-icon"@)
}

/// One external link, from the groups of its match.
pub open spec fn external_link_rep(m: Seq<Option<Seq<char>>>, service: FaviconService, simple: Seq<Seq<char>>) -> Seq<char> {
    let inner = group(m, 4);
    if content_has_picture(inner) {
        group(m, 0)
    } else {
        match link_icon_spec(group(m, 3), service, simple) {
            Some(icon) => "<a"@ + group(m, 1) + ">"@ + icon + inner + "</a>"@,
            None => group(m, 0),
        }
    }
}

/// The body with an icon in front of every external link that wants one.
pub open spec fn enhance_external_spec(body: Seq<char>, config: LinksConfig, simple: Seq<Seq<char>>) -> Seq<char> {
    if !config.external_icons {
        body
    } else {
        match (regex_split(EXTERNAL_LINK_PATTERN@, body), regex_captures(EXTERNAL_LINK_PATTERN@, body)) {
            (Some(gaps), Some(ms)) => interleave(
                gaps,
                ms.map_values(|m: Seq<Option<Seq<char>>>| external_link_rep(m, config.favicon_service, simple)),
            ),
            _ => body,
        }
    }
}

fn has_picture(inner: &str) -> (r: bool)
    ensures
        r == content_has_picture(inner@),
{
    let cs = chars_of(inner);
    let (a, b) = trim_ws_range(&cs, 0, cs.len());
    assert(cs@.subrange(0, cs@.len() as int) =~= inner@);
    a == b || contains_sub(inner, "<img") || contains_sub(inner, "<svg") || contains_sub(inner, "<tmt-icon")
}

/// What one `<a>` match becomes, from its capture groups: the link with its
/// brand icon or favicon in front of its content, or the match as it was.
pub fn external_link(m: &Vec<Option<String>>, config: &LinksConfig, simple: &IconSet) -> (r: String)
    ensures
        r@ == external_link_rep(group_views(m@), config.favicon_service, names_of(*simple)),
{
    let inner = group_text(m, 4);
    if has_picture(inner.as_str()) {
        return group_text(m, 0);
    }
    match resolve_link_icon(group_text(m, 3).as_str(), config, simple) {
        Some(icon) => {
            let mut out = String::new();
            out.push_str("<a");
            out.push_str(group_text(m, 1).as_str());
            out.push_str(">");
            out.push_str(icon.as_str());
            out.push_str(inner.as_str());
            out.push_str("</a>");
            out
        },
        None => group_text(m, 0),
    }
}

/// Enhances external links in rendered HTML by inserting a site/brand icon prefix.
pub fn enhance_external_links(body_html: &str, config: &LinksConfig, simple: &IconSet) -> (r: String)
    ensures
        r@ == enhance_external_spec(body_html@, *config, names_of(*simple)),
{
    if !config.external_icons {
        return body_html.to_owned();
    }
    match match_pieces(EXTERNAL_LINK_PATTERN, body_html) {
        Some((gaps, ms)) => {
            let ghost cv = captures_view(ms@);
            let ghost f = |m: Seq<Option<Seq<char>>>| external_link_rep(m, config.favicon_service, names_of(*simple));
            let mut reps: Vec<String> = Vec::new();
            let mut k: usize = 0;
            while k < ms.len()
                invariant
                    k <= ms@.len(),
                    cv == captures_view(ms@),
                    f == (|m: Seq<Option<Seq<char>>>| external_link_rep(m, config.favicon_service, names_of(*simple))),
                    string_seqs(reps@) == cv.take(k as int).map_values(f),
                decreases ms@.len() - k,
            {
                let rep = external_link(&ms[k], config, simple);
                let ghost before = reps@;
                reps.push(rep);
                assert(string_seqs(reps@) =~= cv.take(k + 1).map_values(f)) by {
                    assert(string_seqs(reps@) =~= string_seqs(before).push(rep@));
                    assert(cv[k as int] == group_views(ms@[k as int]@));
                }
                k = k + 1;
            }
            assert(cv.take(ms@.len() as int) =~= cv);
            splice(&gaps, &reps)
        },
        None => body_html.to_owned(),
    }
}

} // verus!
