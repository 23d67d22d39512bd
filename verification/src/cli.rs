//! The command line: what each subcommand takes, and what `init` writes.
//!
//! Parsing the arguments is the program's; these are the values it hands on.

use vstd::prelude::*;

use crate::links::opt_view;
use crate::paths::{path_parts, split_path};
use crate::slug::string_views;
use crate::text::str_eq;

verus! {

/// The parsed command line.
#[derive(Debug)]
pub struct Cli {
    pub command: Commands,
}

/// The subcommands, with their arguments.
#[derive(Debug)]
pub enum Commands {
    /// Build the book from source documents into static HTML.
    Build {
        /// Source directory containing Tomet documents.
        dir: String,
        /// Output directory for the static site.
        dest: Option<String>,
    },
    /// Run the local development server with LiveReload.
    Serve {
        /// Source directory containing Tomet documents.
        dir: String,
        /// Output directory for the static site.
        dest: Option<String>,
        /// Port to bind the server on.
        port: u16,
    },
    /// Initialize a new tmtbook.toml configuration in the directory.
    Init {
        /// Directory to initialize in.
        dir: String,
        /// Title of the book.
        title: Option<String>,
    },
}

/// The components of a path other than `.`, which `Path` skips.
pub open spec fn named_parts(parts: Seq<Seq<char>>) -> Seq<Seq<char>>
    decreases parts.len(),
{
    if parts.len() == 0 {
        Seq::empty()
    } else if parts.last() == "."@ {
        named_parts(parts.drop_last())
    } else {
        named_parts(parts.drop_last()).push(parts.last())
    }
}

/// A directory's own name, as `Path::file_name` gives it: its last
/// component, unless it has none or ends in `..`.
pub open spec fn dir_name_spec(dir: Seq<char>) -> Option<Seq<char>> {
    let parts = named_parts(path_parts(dir));
    if parts.len() > 0 && parts.last() != ".."@ {
        Some(parts.last())
    } else {
        None
    }
}

/// The title `init` gives a new book: the one asked for, else the
/// directory's name, else `My Book`.
pub open spec fn init_title_spec(dir: Seq<char>, title: Option<Seq<char>>) -> Seq<char> {
    match title {
        Some(t) => t,
        None => match dir_name_spec(dir) {
            Some(n) => n,
            None => "My Book"@,
        },
    }
}

fn dir_name(dir: &str) -> (r: Option<String>)
    ensures
        opt_view(r) == dir_name_spec(dir@),
{
    let parts = split_path(dir);
    let ghost pv = string_views(parts@);
    let mut named: Vec<String> = Vec::new();
    let mut i: usize = 0;
    assert(pv.take(0) =~= Seq::<Seq<char>>::empty());
    assert(string_views(named@) =~= Seq::<Seq<char>>::empty());
    while i < parts.len()
        invariant
            i <= parts@.len(),
            pv == string_views(parts@),
            string_views(named@) == named_parts(pv.take(i as int)),
        decreases parts@.len() - i,
    {
        assert(pv.take(i + 1).drop_last() =~= pv.take(i as int));
        assert(pv.take(i + 1).last() == parts@[i as int]@);
        if !str_eq(parts[i].as_str(), ".") {
            let ghost before = named@;
            let p = parts[i].as_str().to_owned();
            named.push(p);
            assert(string_views(named@) =~= string_views(before).push(p@));
        }
        i = i + 1;
    }
    assert(pv.take(parts@.len() as int) =~= pv);
    let n = named.len();
    if n > 0 && !str_eq(named[n - 1].as_str(), "..") {
        Some(named[n - 1].as_str().to_owned())
    } else {
        None
    }
}

/// Work out the title of a new book.
pub fn init_title(dir: &str, title: Option<String>) -> (r: String)
    ensures
        r@ == init_title_spec(dir@, opt_view(title)),
{
    match title {
        Some(t) => t,
        None => match dir_name(dir) {
            Some(n) => n,
            None => "My Book".to_owned(),
        },
    }
}

/// The configuration `init` writes for a book titled `title`.
pub open spec fn init_template_spec(title: Seq<char>) -> Seq<char> {
    "[book]\ntitle = \""@ + title + "\"\nlang = \"ja\"\nsrc = \".\"\ndest = \"dist\"\n\n[ui]\nrail_title = \""@ + title
        + "\"\ndefault_view = \"book\"\n\n[[ui.hero_chips]]\nkey = \"parent\"\nlabel = \"所属\"\n\n[[ui.hero_chips]]\nkey = \"type.list-a\"\nlabel = \"ファン\"\n\n[[ui.hero_chips]]\nkey = \"type.element-a\"\n\n[[ui.hero_chips]]\nkey = \"birth\"\nformat = \"birthday\"\n\n[build]\nexclude = [\n  \"00-09 System/01 Apps\"\n]\n"@
}

/// Render the starting configuration of a new book.
pub fn init_template(title: &str) -> (r: String)
    ensures
        r@ == init_template_spec(title@),
{
    let mut out = "[book]\ntitle = \"".to_owned();
    out.push_str(title);
    out.push_str("\"\nlang = \"ja\"\nsrc = \".\"\ndest = \"dist\"\n\n[ui]\nrail_title = \"");
    out.push_str(title);
    out.push_str(
        "\"\ndefault_view = \"book\"\n\n[[ui.hero_chips]]\nkey = \"parent\"\nlabel = \"所属\"\n\n[[ui.hero_chips]]\nkey = \"type.list-a\"\nlabel = \"ファン\"\n\n[[ui.hero_chips]]\nkey = \"type.element-a\"\n\n[[ui.hero_chips]]\nkey = \"birth\"\nformat = \"birthday\"\n\n[build]\nexclude = [\n  \"00-09 System/01 Apps\"\n]\n",
    );
    out
}

} // verus!
