//! The client-side search index, and the plain text it searches.

use vstd::prelude::*;

use crate::document::ProcessedDoc;
use crate::links::opt_view;
use crate::meta::{row_views, InfoboxRowItem};
use crate::slug::{join_spec, lemma_push_new_keeps_no_repeats, no_repeats, string_views};
use crate::text::{str_eq, to_lowercase, unicode_lowercase};
use crate::toc::TocItem;

use crate::text::{
    ascii_lower, ascii_lower_seq, chars_of, char_ascii_lower, is_char_pred, string_from_range,
    trim_start_spec, trim_ws, trim_ws_range, unicode_alphanumeric, unicode_whitespace, ws_pred,
};

verus! {

/// A single searchable document in the index.
#[derive(Debug, Clone)]
pub struct SearchDocument {
    pub id: u32,
    pub slug: String,
    pub title: String,
    pub url: String,
    pub path: String,
    pub aliases: Vec<String>,
    pub kind: Option<String>,
    pub section: Option<String>,
    pub image: Option<String>,
    pub headings: Vec<String>,
    pub text: String,
}

/// The collection of all searchable documents.
#[derive(Debug, Clone)]
pub struct SearchIndex {
    pub docs: Vec<SearchDocument>,
}

impl SearchIndex {
    /// An index over exactly these documents, in this order.
    pub fn new(docs: Vec<SearchDocument>) -> (r: Self)
        ensures
            r.docs == docs,
    {
        SearchIndex { docs }
    }
}

/// How many bytes UTF-8 spends on `c`.
pub open spec fn utf8_width(c: char) -> int {
    if (c as u32) < 0x80 {
        1
    } else if (c as u32) < 0x800 {
        2
    } else if (c as u32) < 0x10000 {
        3
    } else {
        4
    }
}

/// The first whitespace-separated word of `s`, or nothing.
pub open spec fn first_word(s: Seq<char>) -> Seq<char> {
    let t = trim_start_spec(s, ws_pred());
    t.take(word_end(t, 0))
}

/// The first index at or after `k` holding whitespace, or the length.
pub open spec fn word_end(t: Seq<char>, k: int) -> int
    decreases t.len() - k,
{
    if k < 0 || k >= t.len() {
        t.len() as int
    } else if unicode_whitespace(t[k]) {
        k
    } else {
        word_end(t, k + 1)
    }
}

/// The element name an open or close tag's inside names, lowercased.
pub open spec fn tag_name(tag: Seq<char>) -> Seq<char> {
    trim_start_spec(first_word(ascii_lower_seq(tag)), is_char_pred('/'))
}

/// Elements whose boundary separates words.
pub open spec fn breaks_words(name: Seq<char>) -> bool {
    ||| name == "p"@ || name == "div"@ || name == "li"@ || name == "tr"@ || name == "br"@
    ||| name == "h1"@ || name == "h2"@ || name == "h3"@ || name == "h4"@ || name == "h5"@ || name == "h6"@
    ||| name == "blockquote"@
}

/// Reading an entity's name after `&`, starting at `i`: the name, whether a
/// `;` closed it, and where reading stopped. A name is cut off once it is
/// longer than ten bytes.
pub open spec fn entity_scan(s: Seq<char>, i: int, acc: Seq<char>, bytes: int) -> (Seq<char>, bool, int)
    decreases s.len() - i,
{
    if i < 0 || i >= s.len() {
        (acc, false, i)
    } else if s[i] == ';' {
        (acc, true, i + 1)
    } else if unicode_alphanumeric(s[i]) || s[i] == '#' {
        let acc2 = acc.push(s[i]);
        let b2 = bytes + utf8_width(s[i]);
        if b2 > 10 {
            (acc2, false, i + 1)
        } else {
            entity_scan(s, i + 1, acc2, b2)
        }
    } else {
        (acc, false, i)
    }
}

pub proof fn lemma_entity_scan_advances(s: Seq<char>, i: int, acc: Seq<char>, bytes: int)
    requires
        0 <= i,
    ensures
        i <= entity_scan(s, i, acc, bytes).2,
        entity_scan(s, i, acc, bytes).2 <= s.len() || i > s.len(),
    decreases s.len() - i,
{
    if 0 <= i < s.len() && s[i] != ';' && (unicode_alphanumeric(s[i]) || s[i] == '#') && bytes + utf8_width(s[i]) <= 10 {
        lemma_entity_scan_advances(s, i + 1, acc.push(s[i]), bytes + utf8_width(s[i]));
    }
}

/// What an entity stands for in the text.
pub open spec fn entity_text(name: Seq<char>, closed: bool) -> Seq<char> {
    if closed {
        if name == "amp"@ {
            seq!['&']
        } else if name == "lt"@ {
            seq!['<']
        } else if name == "gt"@ {
            seq!['>']
        } else if name == "quot"@ {
            seq!['"']
        } else if name == "apos"@ || name == "#39"@ {
            seq!['\'']
        } else if name == "nbsp"@ {
            seq![' ']
        } else {
            seq!['&'] + name + seq![';']
        }
    } else {
        seq!['&'] + name
    }
}

/// The text of `s` from `i` on, given whether reading is inside a tag,
/// inside a script or style element, and the tag read so far: tags
/// dropped, script and style bodies dropped, entities decoded, and a space
/// where a block element begins or ends.
pub open spec fn raw_text(s: Seq<char>, i: int, in_tag: bool, in_skip: bool, tag: Seq<char>) -> Seq<char>
    decreases s.len() - i,
{
    if i < 0 || i >= s.len() {
        Seq::empty()
    } else {
        let ch = s[i];
        if ch == '<' {
            raw_text(s, i + 1, true, in_skip, Seq::empty())
        } else if in_tag {
            if ch == '>' {
                let name = tag_name(tag);
                if name == "script"@ || name == "style"@ {
                    raw_text(s, i + 1, false, !(tag.len() > 0 && tag[0] == '/'), tag)
                } else if breaks_words(name) {
                    seq![' '] + raw_text(s, i + 1, false, in_skip, tag)
                } else {
                    raw_text(s, i + 1, false, in_skip, tag)
                }
            } else {
                raw_text(s, i + 1, true, in_skip, tag.push(ch))
            }
        } else if in_skip {
            raw_text(s, i + 1, false, true, tag)
        } else if ch == '&' {
            let scan = entity_scan(s, i + 1, Seq::empty(), 0);
            proof {
                lemma_entity_scan_advances(s, i + 1, Seq::empty(), 0);
            }
            entity_text(scan.0, scan.1) + raw_text(s, scan.2, false, false, tag)
        } else {
            seq![ch] + raw_text(s, i + 1, false, false, tag)
        }
    }
}

/// Every run of whitespace from `i` on as a single space.
pub open spec fn collapse_ws(s: Seq<char>, i: int, last_ws: bool) -> Seq<char>
    decreases s.len() - i,
{
    if i < 0 || i >= s.len() {
        Seq::empty()
    } else if unicode_whitespace(s[i]) {
        if last_ws {
            collapse_ws(s, i + 1, true)
        } else {
            seq![' '] + collapse_ws(s, i + 1, true)
        }
    } else {
        seq![s[i]] + collapse_ws(s, i + 1, false)
    }
}

/// The plain prose an HTML fragment reads as.
pub open spec fn plain_text_spec(html: Seq<char>) -> Seq<char> {
    trim_ws(collapse_ws(raw_text(html, 0, false, false, Seq::empty()), 0, false))
}

fn utf8_width_of(c: char) -> (r: usize)
    ensures
        r == utf8_width(c),
{
    let v = c as u32;
    if v < 0x80 {
        1
    } else if v < 0x800 {
        2
    } else if v < 0x10000 {
        3
    } else {
        4
    }
}

fn tag_name_of(tag: &[char]) -> (r: Vec<char>)
    ensures
        r@ == tag_name(tag@),
{
    let mut lower: Vec<char> = Vec::new();
    let mut i: usize = 0;
    while i < tag.len()
        invariant
            i <= tag@.len(),
            lower@ == ascii_lower_seq(tag@.take(i as int)),
        decreases tag@.len() - i,
    {
        lower.push(char_ascii_lower(tag[i]));
        assert(ascii_lower_seq(tag@.take(i + 1)) =~= ascii_lower_seq(tag@.take(i as int)).push(ascii_lower(tag@[i as int])));
        i = i + 1;
    }
    assert(tag@.take(tag@.len() as int) =~= tag@);
    let n = lower.len();
    let a = crate::text::trim_start_ws(&lower, 0, n);
    assert(lower@.subrange(0, n as int) =~= lower@);
    let ghost t = lower@.subrange(a as int, n as int);
    let mut e = a;
    while e < n && !lower[e].is_whitespace()
        invariant
            a <= e <= n,
            n == lower@.len(),
            t == lower@.subrange(a as int, n as int),
            word_end(t, 0) == word_end(t, e - a),
        decreases n - e,
    {
        e = e + 1;
    }
    assert(word_end(t, 0) == e - a);
    let b = crate::text::trim_start_char(&lower, a, e, '/');
    assert(t.take(e - a) =~= lower@.subrange(a as int, e as int));
    let mut out: Vec<char> = Vec::new();
    let mut k = b;
    while k < e
        invariant
            b <= k <= e <= n,
            n == lower@.len(),
            out@ == lower@.subrange(b as int, k as int),
        decreases e - k,
    {
        out.push(lower[k]);
        assert(lower@.subrange(b as int, k + 1) =~= lower@.subrange(b as int, k as int).push(lower@[k as int]));
        k = k + 1;
    }
    out
}

fn is_lit_chars(cs: &[char], lit: &str) -> (r: bool)
    ensures
        r == (cs@ == lit@),
{
    crate::text::is_lit(cs, lit)
}

fn breaks_words_exec(name: &[char]) -> (r: bool)
    ensures
        r == breaks_words(name@),
{
    is_lit_chars(name, "p") || is_lit_chars(name, "div") || is_lit_chars(name, "li") || is_lit_chars(name, "tr")
        || is_lit_chars(name, "br") || is_lit_chars(name, "h1") || is_lit_chars(name, "h2") || is_lit_chars(name, "h3")
        || is_lit_chars(name, "h4") || is_lit_chars(name, "h5") || is_lit_chars(name, "h6")
        || is_lit_chars(name, "blockquote")
}

fn push_all(out: &mut Vec<char>, s: &[char])
    ensures
        final(out)@ == old(out)@ + s@,
{
    let mut i: usize = 0;
    let ghost start = out@;
    while i < s.len()
        invariant
            i <= s@.len(),
            out@ == start + s@.take(i as int),
        decreases s@.len() - i,
    {
        out.push(s[i]);
        assert(start + s@.take(i + 1) =~= (start + s@.take(i as int)).push(s@[i as int]));
        i = i + 1;
    }
    assert(s@.take(s@.len() as int) =~= s@);
}

/// Append what the entity `name` stands for.
fn push_entity(out: &mut Vec<char>, name: &[char], closed: bool)
    ensures
        final(out)@ == old(out)@ + entity_text(name@, closed),
{
    if closed {
        if is_lit_chars(name, "amp") {
            out.push('&');
        } else if is_lit_chars(name, "lt") {
            out.push('<');
        } else if is_lit_chars(name, "gt") {
            out.push('>');
        } else if is_lit_chars(name, "quot") {
            out.push('"');
        } else if is_lit_chars(name, "apos") || is_lit_chars(name, "#39") {
            out.push('\'');
        } else if is_lit_chars(name, "nbsp") {
            out.push(' ');
        } else {
            let ghost before = out@;
            out.push('&');
            push_all(out, name);
            out.push(';');
            assert(out@ =~= before + (seq!['&'] + name@ + seq![';']));
            return;
        }
        assert(out@ =~= old(out)@ + entity_text(name@, closed));
    } else {
        let ghost before = out@;
        out.push('&');
        push_all(out, name);
        assert(out@ =~= before + (seq!['&'] + name@));
    }
}

/// Strips HTML tags and unescapes basic entities to produce clean plain prose text.
pub fn strip_html_to_plain_text(html: &str) -> (r: String)
    ensures
        r@ == plain_text_spec(html@),
{
    let cs = chars_of(html);
    let n = cs.len();
    let ghost s = cs@;
    let mut result: Vec<char> = Vec::new();
    let mut in_tag = false;
    let mut in_skip = false;
    let mut tag: Vec<char> = Vec::new();
    let mut i: usize = 0;
    while i < n
        invariant
            i <= n,
            n == s.len(),
            s == cs@,
            s == html@,
            result@ + raw_text(s, i as int, in_tag, in_skip, tag@) == raw_text(s, 0, false, false, Seq::empty()),
        decreases n - i,
    {
        let ch = cs[i];
        if ch == '<' {
            in_tag = true;
            tag = Vec::new();
            i = i + 1;
        } else if in_tag {
            if ch == '>' {
                in_tag = false;
                let name = tag_name_of(&tag);
                if is_lit_chars(&name, "script") || is_lit_chars(&name, "style") {
                    in_skip = !(tag.len() > 0 && tag[0] == '/');
                } else if breaks_words_exec(&name) {
                    let ghost before = result@;
                    result.push(' ');
                    assert(result@ =~= before + seq![' ']);
                }
            } else {
                tag.push(ch);
            }
            i = i + 1;
        } else if in_skip {
            i = i + 1;
        } else if ch == '&' {
            let mut entity: Vec<char> = Vec::new();
            let mut bytes: usize = 0;
            let mut closed = false;
            let mut j = i + 1;
            proof {
                lemma_entity_scan_advances(s, i + 1, Seq::empty(), 0);
            }
            loop
                invariant_except_break
                    i + 1 <= j <= n,
                    n == s.len(),
                    s == cs@,
                    !closed,
                    bytes <= 10,
                    entity_scan(s, i + 1, Seq::empty(), 0) == entity_scan(s, j as int, entity@, bytes as int),
                ensures
                    i + 1 <= j <= n,
                    entity_scan(s, i + 1, Seq::empty(), 0) == (entity@, closed, j as int),
                decreases n - j,
            {
                if j >= n {
                    break;
                }
                let next = cs[j];
                if next == ';' {
                    j = j + 1;
                    closed = true;
                    break;
                } else if next.is_alphanumeric() || next == '#' {
                    entity.push(next);
                    bytes = bytes + utf8_width_of(next);
                    j = j + 1;
                    if bytes > 10 {
                        break;
                    }
                } else {
                    break;
                }
            }
            let ghost before = result@;
            push_entity(&mut result, &entity, closed);
            assert(result@ + raw_text(s, j as int, false, false, tag@) =~= before + (entity_text(entity@, closed) + raw_text(s, j as int, false, false, tag@)));
            i = j;
        } else {
            let ghost before = result@;
            result.push(ch);
            assert(result@ + raw_text(s, i + 1, false, false, tag@) =~= before + (seq![ch] + raw_text(s, i + 1, false, false, tag@)));
            i = i + 1;
        }
    }
    assert(result@ + Seq::<char>::empty() =~= result@);
    let ghost raw = result@;
    let mut collapsed: Vec<char> = Vec::new();
    let mut last_ws = false;
    let mut k: usize = 0;
    while k < result.len()
        invariant
            k <= result@.len(),
            raw == result@,
            collapsed@ + collapse_ws(raw, k as int, last_ws) == collapse_ws(raw, 0, false),
        decreases result@.len() - k,
    {
        let ch = result[k];
        if ch.is_whitespace() {
            if !last_ws {
                let ghost before = collapsed@;
                collapsed.push(' ');
                assert(collapsed@ + collapse_ws(raw, k + 1, true) =~= before + (seq![' '] + collapse_ws(raw, k + 1, true)));
                last_ws = true;
            }
        } else {
            let ghost before = collapsed@;
            collapsed.push(ch);
            assert(collapsed@ + collapse_ws(raw, k + 1, false) =~= before + (seq![ch] + collapse_ws(raw, k + 1, false)));
            last_ws = false;
        }
        k = k + 1;
    }
    assert(collapsed@ + Seq::<char>::empty() =~= collapsed@);
    let (a, b) = trim_ws_range(&collapsed, 0, collapsed.len());
    assert(collapsed@.subrange(0, collapsed@.len() as int) =~= collapsed@);
    string_from_range(&collapsed, a, b)
}

/// The shape of text whose whitespace has been tidied: every whitespace
/// character is a plain space and no two of them are adjacent.
pub open spec fn spaced_singly(r: Seq<char>) -> bool {
    &&& forall|i: int| 0 <= i < r.len() && #[trigger] unicode_whitespace(r[i]) ==> r[i] == ' '
    &&& forall|i: int| 0 <= i < r.len() - 1 ==> !(#[trigger] unicode_whitespace(r[i]) && unicode_whitespace(r[i + 1]))
}

proof fn lemma_collapse_ws(s: Seq<char>, i: int, last_ws: bool)
    requires
        0 <= i,
    ensures
        spaced_singly(collapse_ws(s, i, last_ws)),
        last_ws && collapse_ws(s, i, last_ws).len() > 0 ==> !unicode_whitespace(collapse_ws(s, i, last_ws)[0]),
    decreases s.len() - i,
{
    if i < s.len() {
        let out = collapse_ws(s, i, last_ws);
        if unicode_whitespace(s[i]) {
            lemma_collapse_ws(s, i + 1, true);
            let rest = collapse_ws(s, i + 1, true);
            if !last_ws {
                assert(out =~= seq![' '] + rest);
                assert forall|k: int| 0 <= k < out.len() - 1 implies !(#[trigger] unicode_whitespace(out[k]) && unicode_whitespace(out[k + 1])) by {
                    if k > 0 {
                        assert(out[k] == rest[k - 1] && out[k + 1] == rest[k]);
                    }
                }
                assert forall|k: int| 0 <= k < out.len() && #[trigger] unicode_whitespace(out[k]) implies out[k] == ' ' by {
                    if k > 0 {
                        assert(out[k] == rest[k - 1]);
                    }
                }
            }
        } else {
            lemma_collapse_ws(s, i + 1, false);
            let rest = collapse_ws(s, i + 1, false);
            assert(out =~= seq![s[i]] + rest);
            assert forall|k: int| 0 <= k < out.len() - 1 implies !(#[trigger] unicode_whitespace(out[k]) && unicode_whitespace(out[k + 1])) by {
                if k > 0 {
                    assert(out[k] == rest[k - 1] && out[k + 1] == rest[k]);
                }
            }
            assert forall|k: int| 0 <= k < out.len() && #[trigger] unicode_whitespace(out[k]) implies out[k] == ' ' by {
                if k > 0 {
                    assert(out[k] == rest[k - 1]);
                }
            }
        }
    }
}

/// The plain text of any fragment is tidy: no whitespace at either end,
/// every whitespace character a plain space, and never two in a row.
pub proof fn lemma_plain_text_is_tidy(html: Seq<char>)
    ensures
        spaced_singly(plain_text_spec(html)),
        plain_text_spec(html).len() > 0 ==> !unicode_whitespace(plain_text_spec(html)[0]) && !unicode_whitespace(
            plain_text_spec(html).last(),
        ),
{
    let c = collapse_ws(raw_text(html, 0, false, false, Seq::empty()), 0, false);
    lemma_collapse_ws(raw_text(html, 0, false, false, Seq::empty()), 0, false);
    let p = ws_pred();
    let t0 = trim_start_spec(c, p);
    crate::text::lemma_trim_start_head(c, p);
    crate::text::lemma_trim_end_tail(t0, p);
    let r = plain_text_spec(html);
    let off = c.len() - t0.len();
    assert forall|k: int| 0 <= k < r.len() implies #[trigger] r[k] == c[k + off] by {
        assert(r[k] == t0[k]);
    }
    assert forall|k: int| 0 <= k < r.len() && #[trigger] unicode_whitespace(r[k]) implies r[k] == ' ' by {
        assert(r[k] == c[k + off]);
    }
    assert forall|k: int| 0 <= k < r.len() - 1 implies !(#[trigger] unicode_whitespace(r[k]) && unicode_whitespace(r[k + 1])) by {
        assert(r[k] == c[k + off] && r[k + 1] == c[k + 1 + off]);
    }
    if r.len() > 0 {
        assert(r[0] == t0[0]);
    }
}

/// Plain text never starts or ends with a space and never holds two spaces
/// in a row; every whitespace character in it is a plain space.
pub proof fn lemma_plain_text_spaces(html: Seq<char>)
    ensures
        ({
            let r = plain_text_spec(html);
            &&& r.len() > 0 ==> r[0] != ' ' && r.last() != ' '
            &&& forall|i: int| 0 <= i < r.len() - 1 ==> !(#[trigger] r[i] == ' ' && r[i + 1] == ' ')
            &&& forall|i: int| 0 <= i < r.len() && #[trigger] unicode_whitespace(r[i]) ==> r[i] == ' '
        }),
{
    reveal(unicode_whitespace);
    lemma_plain_text_is_tidy(html);
    let r = plain_text_spec(html);
    assert forall|i: int| 0 <= i < r.len() - 1 implies !(#[trigger] r[i] == ' ' && r[i + 1] == ' ') by {
        if r[i] == ' ' && r[i + 1] == ' ' {
            assert(unicode_whitespace(r[i]) && unicode_whitespace(r[i + 1]));
        }
    }
}

/// `str::split_whitespace`: the maximal runs of non-whitespace, in order.
pub open spec fn words(s: Seq<char>) -> Seq<Seq<char>>
    decreases s.len(),
{
    if s.len() == 0 {
        Seq::empty()
    } else {
        let w = words(s.drop_last());
        let c = s.last();
        if unicode_whitespace(c) {
            w
        } else if s.len() >= 2 && !unicode_whitespace(s[s.len() - 2]) && w.len() > 0 {
            w.update(w.len() - 1, w.last().push(c))
        } else {
            w.push(seq![c])
        }
    }
}

/// Every word is non-empty and free of whitespace; text ending in a
/// non-whitespace character has a word.
proof fn lemma_words_shape(s: Seq<char>)
    ensures
        forall|k: int| 0 <= k < words(s).len() ==> (#[trigger] words(s)[k]).len() > 0,
        forall|k: int, j: int|
            0 <= k < words(s).len() && 0 <= j < words(s)[k].len() ==> !unicode_whitespace(#[trigger] words(s)[k][j]),
        s.len() > 0 && !unicode_whitespace(s.last()) ==> words(s).len() > 0,
    decreases s.len(),
{
    if s.len() > 0 {
        lemma_words_shape(s.drop_last());
        let w = words(s.drop_last());
        let c = s.last();
        let r = words(s);
        if !unicode_whitespace(c) {
            if s.len() >= 2 && !unicode_whitespace(s[s.len() - 2]) && w.len() > 0 {
                assert forall|k: int, j: int| 0 <= k < r.len() && 0 <= j < r[k].len() implies !unicode_whitespace(
                    #[trigger] r[k][j],
                ) by {
                    if k == w.len() - 1 {
                        if j < w.last().len() {
                            assert(r[k][j] == w.last()[j]);
                        }
                    } else {
                        assert(r[k] == w[k]);
                    }
                }
            } else {
                assert forall|k: int, j: int| 0 <= k < r.len() && 0 <= j < r[k].len() implies !unicode_whitespace(
                    #[trigger] r[k][j],
                ) by {
                    if k < w.len() {
                        assert(r[k] == w[k]);
                    }
                }
            }
        }
    }
}

/// Collapsing text with one more character appends what that character becomes.
proof fn lemma_collapse_push(s: Seq<char>, c: char, i: int, lw: bool)
    requires
        0 <= i <= s.len(),
    ensures
        collapse_ws(s.push(c), i, lw) == collapse_ws(s, i, lw) + (if unicode_whitespace(c) {
            if (if i < s.len() { unicode_whitespace(s.last()) } else { lw }) {
                Seq::<char>::empty()
            } else {
                seq![' ']
            }
        } else {
            seq![c]
        }),
    decreases s.len() - i,
{
    let t = s.push(c);
    if i == s.len() {
        assert(t[i] == c);
        assert(collapse_ws(s, i, lw) == Seq::<char>::empty());
        assert(collapse_ws(t, i + 1, unicode_whitespace(c)) == Seq::<char>::empty());
    } else {
        assert(t[i] == s[i]);
        let lw2 = unicode_whitespace(s[i]);
        lemma_collapse_push(s, c, i + 1, lw2);
        if i + 1 == s.len() {
            assert(s.last() == s[i]);
        }
    }
}

/// The collapsed form of any text: a space for leading whitespace, the
/// words joined by single spaces, and a space for trailing whitespace after
/// a word.
proof fn lemma_collapse_is_joined_words(s: Seq<char>)
    ensures
        collapse_ws(s, 0, false) == (if s.len() > 0 && unicode_whitespace(s[0]) {
            seq![' ']
        } else {
            Seq::<char>::empty()
        }) + join_spec(words(s), " "@) + (if words(s).len() > 0 && s.len() > 0 && unicode_whitespace(s.last()) {
            seq![' ']
        } else {
            Seq::<char>::empty()
        }),
    decreases s.len(),
{
    reveal_strlit(" ");
    if s.len() == 0 {
        assert(join_spec(Seq::<Seq<char>>::empty(), " "@) == Seq::<char>::empty());
        assert(collapse_ws(s, 0, false) == Seq::<char>::empty());
    } else {
        let f = s.drop_last();
        let c = s.last();
        lemma_collapse_is_joined_words(f);
        lemma_words_shape(f);
        assert(f.push(c) =~= s);
        lemma_collapse_push(f, c, 0, false);
        let w = words(f);
        let jf = join_spec(w, " "@);
        let lead = if s.len() > 0 && unicode_whitespace(s[0]) { seq![' '] } else { Seq::<char>::empty() };
        if f.len() > 0 {
            assert(f[0] == s[0]);
        }
        if unicode_whitespace(c) {
            assert(words(s) == w);
            if f.len() > 0 && !unicode_whitespace(f.last()) {
                assert(w.len() > 0);
            }
            if f.len() == 0 {
                assert(w == Seq::<Seq<char>>::empty());
                assert(s[0] == c);
            }
            assert(collapse_ws(s, 0, false) =~= lead + join_spec(words(s), " "@) + (if words(s).len() > 0
                && unicode_whitespace(s.last()) {
                seq![' ']
            } else {
                Seq::<char>::empty()
            }));
        } else if s.len() >= 2 && !unicode_whitespace(s[s.len() - 2]) && w.len() > 0 {
            assert(f.last() == s[s.len() - 2]);
            let w2 = w.update(w.len() - 1, w.last().push(c));
            assert(words(s) == w2);
            lemma_join_extends_last(w, c);
            assert(collapse_ws(s, 0, false) =~= lead + join_spec(w2, " "@));
        } else {
            let w2 = w.push(seq![c]);
            assert(words(s) == w2);
            if f.len() > 0 {
                assert(f.last() == s[s.len() - 2]);
            }
            if w.len() == 0 {
                assert(w2 =~= seq![seq![c]]);
                assert(join_spec(w2, " "@) == seq![c]);
                if f.len() == 0 {
                    assert(s[0] == c);
                }
            } else {
                assert(w2.drop_last() =~= w);
                assert(join_spec(w2, " "@) == jf + " "@ + seq![c]);
            }
            assert(collapse_ws(s, 0, false) =~= lead + join_spec(w2, " "@));
        }
    }
}

/// Adding a character to the last word adds it to the end of the joined text.
proof fn lemma_join_extends_last(w: Seq<Seq<char>>, c: char)
    requires
        w.len() > 0,
    ensures
        join_spec(w.update(w.len() - 1, w.last().push(c)), " "@) == join_spec(w, " "@).push(c),
{
    let w2 = w.update(w.len() - 1, w.last().push(c));
    assert(w2.drop_last() =~= w.drop_last());
    assert(w2.last() == w.last().push(c));
    if w.len() == 1 {
        assert(join_spec(w2, " "@) == w2[0]);
    } else {
        assert(join_spec(w2, " "@) == join_spec(w.drop_last(), " "@) + " "@ + w.last().push(c));
        assert(join_spec(w2, " "@) =~= join_spec(w, " "@).push(c));
    }
}

/// Words joined by spaces neither start nor end with whitespace.
proof fn lemma_joined_words_edges(w: Seq<Seq<char>>)
    requires
        forall|k: int| 0 <= k < w.len() ==> (#[trigger] w[k]).len() > 0,
        forall|k: int, j: int| 0 <= k < w.len() && 0 <= j < w[k].len() ==> !unicode_whitespace(#[trigger] w[k][j]),
    ensures
        w.len() > 0 ==> join_spec(w, " "@).len() > 0 && !unicode_whitespace(join_spec(w, " "@)[0])
            && !unicode_whitespace(join_spec(w, " "@).last()),
    decreases w.len(),
{
    if w.len() > 1 {
        let d = w.drop_last();
        assert forall|k: int| 0 <= k < d.len() implies (#[trigger] d[k]).len() > 0 by {
            assert(d[k] == w[k]);
        }
        assert forall|k: int, j: int| 0 <= k < d.len() && 0 <= j < d[k].len() implies !unicode_whitespace(
            #[trigger] d[k][j],
        ) by {
            assert(d[k] == w[k]);
        }
        lemma_joined_words_edges(d);
        let j = join_spec(w, " "@);
        assert(j == join_spec(d, " "@) + " "@ + w.last());
        assert(j[0] == join_spec(d, " "@)[0]);
        assert(w.last() == w[w.len() - 1]);
        assert(j.last() == w.last().last());
        assert(w.last().last() == w[w.len() - 1][w[w.len() - 1].len() - 1]);
    } else if w.len() == 1 {
        assert(join_spec(w, " "@) == w[0]);
        assert(w[0].last() == w[0][w[0].len() - 1]);
    }
}

/// Text with no tag and no entity reads as itself.
proof fn lemma_raw_text_of_plain(s: Seq<char>, i: int, tag: Seq<char>)
    requires
        0 <= i <= s.len(),
        !s.contains('<'),
        !s.contains('&'),
    ensures
        raw_text(s, i, false, false, tag) == s.skip(i),
    decreases s.len() - i,
{
    if i < s.len() {
        assert(s[i] != '<' && s[i] != '&') by {
            if s[i] == '<' || s[i] == '&' {
                assert(s.contains(s[i]));
            }
        }
        lemma_raw_text_of_plain(s, i + 1, tag);
        assert(s.skip(i) =~= seq![s[i]] + s.skip(i + 1));
    } else {
        assert(s.skip(i) =~= Seq::<char>::empty());
    }
}

/// Text with no tag and no entity comes back as its words joined by single
/// spaces (`split_whitespace`, then `join(" ")`).
pub proof fn lemma_plain_text_of_tag_free_text(html: Seq<char>)
    requires
        !html.contains('<'),
        !html.contains('&'),
    ensures
        plain_text_spec(html) == join_spec(words(html), " "@),
{
    reveal(unicode_whitespace);
    reveal_strlit(" ");
    lemma_raw_text_of_plain(html, 0, Seq::empty());
    assert(html.skip(0) =~= html);
    lemma_collapse_is_joined_words(html);
    lemma_words_shape(html);
    let w = words(html);
    lemma_joined_words_edges(w);
    let j = join_spec(w, " "@);
    let lead = if html.len() > 0 && unicode_whitespace(html[0]) { seq![' '] } else { Seq::<char>::empty() };
    let trail = if w.len() > 0 && html.len() > 0 && unicode_whitespace(html.last()) {
        seq![' ']
    } else {
        Seq::<char>::empty()
    };
    let c = lead + j + trail;
    let p = ws_pred();
    if w.len() == 0 {
        assert(j == Seq::<char>::empty());
        assert(trim_start_spec(Seq::<char>::empty(), p) == Seq::<char>::empty());
        if lead.len() > 0 {
            assert(c =~= seq![' ']);
            assert(c.drop_first() =~= Seq::<char>::empty());
            assert(trim_start_spec(c, p) == Seq::<char>::empty());
        } else {
            assert(c =~= Seq::<char>::empty());
        }
    } else {
        let t1 = j + trail;
        if lead.len() > 0 {
            assert(c.drop_first() =~= t1);
            assert(p(c[0]));
        } else {
            assert(c =~= t1);
        }
        assert(t1[0] == j[0]);
        assert(trim_start_spec(t1, p) == t1);
        assert(trim_start_spec(c, p) == t1);
        if trail.len() > 0 {
            assert(t1.drop_last() =~= j);
            assert(p(t1.last()));
        } else {
            assert(t1 =~= j);
        }
        assert(crate::text::trim_end_spec(j, p) == j);
        assert(crate::text::trim_end_spec(t1, p) == j);
    }
}

/// Whether `c` separates the aliases written in one cell.
pub open spec fn is_alias_sep(c: char) -> bool {
    c == ',' || c == '、' || c == ';'
}

/// `str::split` on the alias separators: the pieces between them, empty
/// ones included.
pub open spec fn alias_pieces(s: Seq<char>) -> Seq<Seq<char>>
    decreases s.len(),
{
    if s.len() == 0 {
        seq![Seq::empty()]
    } else {
        let prev = alias_pieces(s.drop_last());
        if is_alias_sep(s.last()) {
            prev.push(Seq::empty())
        } else {
            prev.update(prev.len() - 1, prev.last().push(s.last()))
        }
    }
}

proof fn lemma_alias_pieces_nonempty(s: Seq<char>)
    ensures
        alias_pieces(s).len() >= 1,
    decreases s.len(),
{
    if s.len() > 0 {
        lemma_alias_pieces_nonempty(s.drop_last());
    }
}

/// Whether an infobox label, lowercased, is one that lists aliases.
pub open spec fn is_alias_label(label: Seq<char>) -> bool {
    let l = unicode_lowercase(label);
    l == "aliases"@ || l == "別名"@ || l == "愛称"@ || l == "別名 / 愛称"@ || l == "aliases / nicknames"@
}

/// `acc` with each piece, trimmed, added unless blank or already there.
pub open spec fn add_aliases(acc: Seq<Seq<char>>, pieces: Seq<Seq<char>>) -> Seq<Seq<char>>
    decreases pieces.len(),
{
    if pieces.len() == 0 {
        acc
    } else {
        let prev = add_aliases(acc, pieces.drop_last());
        let t = trim_ws(pieces.last());
        if t.len() > 0 && !prev.contains(t) {
            prev.push(t)
        } else {
            prev
        }
    }
}

/// The aliases a page's infobox lists, each once, in the order written.
pub open spec fn aliases_spec(rows: Seq<(Seq<char>, Seq<char>)>) -> Seq<Seq<char>>
    decreases rows.len(),
{
    if rows.len() == 0 {
        Seq::empty()
    } else {
        let prev = aliases_spec(rows.drop_last());
        if is_alias_label(rows.last().0) {
            add_aliases(prev, alias_pieces(rows.last().1))
        } else {
            prev
        }
    }
}

fn split_aliases(s: &str) -> (r: Vec<String>)
    ensures
        string_views(r@) == alias_pieces(s@),
{
    let cs = chars_of(s);
    let mut done: Vec<String> = Vec::new();
    let mut cur: Vec<char> = Vec::new();
    let mut i: usize = 0;
    assert(cs@.take(0) =~= Seq::<char>::empty());
    assert(string_views(done@).push(cur@) =~= seq![Seq::<char>::empty()]);
    while i < cs.len()
        invariant
            i <= cs@.len(),
            cs@ == s@,
            alias_pieces(cs@.take(i as int)) == string_views(done@).push(cur@),
        decreases cs@.len() - i,
    {
        let ghost prev = cs@.take(i as int);
        assert(cs@.take(i + 1).drop_last() =~= prev);
        assert(cs@.take(i + 1).last() == cs@[i as int]);
        let c = cs[i];
        if c == ',' || c == '、' || c == ';' {
            let piece = string_from_range(&cur, 0, cur.len());
            assert(cur@.subrange(0, cur@.len() as int) =~= cur@);
            let ghost before = done@;
            done.push(piece);
            assert(string_views(done@) =~= string_views(before).push(piece@));
            cur = Vec::new();
            assert(string_views(done@).push(cur@) =~= string_views(before).push(piece@).push(Seq::<char>::empty()));
        } else {
            let ghost pieces = string_views(done@).push(cur@);
            cur.push(c);
            assert(string_views(done@).push(cur@) =~= pieces.update(pieces.len() - 1, pieces.last().push(c)));
        }
        i = i + 1;
    }
    assert(cs@.take(cs@.len() as int) =~= cs@);
    let last = string_from_range(&cur, 0, cur.len());
    assert(cur@.subrange(0, cur@.len() as int) =~= cur@);
    let ghost before = done@;
    done.push(last);
    assert(string_views(done@) =~= string_views(before).push(last@));
    done
}

fn contains_string(v: &Vec<String>, s: &str) -> (r: bool)
    ensures
        r == string_views(v@).contains(s@),
{
    let ghost vs = string_views(v@);
    let mut i: usize = 0;
    while i < v.len()
        invariant
            i <= v@.len(),
            vs == string_views(v@),
            forall|k: int| 0 <= k < i ==> vs[k] != s@,
        decreases v@.len() - i,
    {
        if str_eq(v[i].as_str(), s) {
            assert(vs[i as int] == s@);
            return true;
        }
        i = i + 1;
    }
    false
}

fn is_alias_label_exec(label: &str) -> (r: bool)
    ensures
        r == is_alias_label(label@),
{
    let l = to_lowercase(label);
    let ls = l.as_str();
    str_eq(ls, "aliases") || str_eq(ls, "別名") || str_eq(ls, "愛称") || str_eq(ls, "別名 / 愛称") || str_eq(
        ls,
        "aliases / nicknames",
    )
}

fn collect_aliases(rows: &Vec<InfoboxRowItem>) -> (r: Vec<String>)
    ensures
        string_views(r@) == aliases_spec(row_views(rows@)),
{
    let mut aliases: Vec<String> = Vec::new();
    let mut i: usize = 0;
    assert(row_views(rows@.take(0)) =~= Seq::<(Seq<char>, Seq<char>)>::empty());
    assert(string_views(aliases@) =~= Seq::<Seq<char>>::empty());
    while i < rows.len()
        invariant
            i <= rows@.len(),
            string_views(aliases@) == aliases_spec(row_views(rows@.take(i as int))),
        decreases rows@.len() - i,
    {
        let ghost rv = row_views(rows@.take(i + 1));
        assert(rv.drop_last() =~= row_views(rows@.take(i as int)));
        assert(rv.last() == (rows@[i as int].label@, rows@[i as int].value@));
        if is_alias_label_exec(rows[i].label.as_str()) {
            let pieces = split_aliases(rows[i].value.as_str());
            let ghost start = string_views(aliases@);
            let mut j: usize = 0;
            assert(string_views(pieces@.take(0)) =~= Seq::<Seq<char>>::empty());
            while j < pieces.len()
                invariant
                    j <= pieces@.len(),
                    string_views(aliases@) == add_aliases(start, string_views(pieces@.take(j as int))),
                decreases pieces@.len() - j,
            {
                let ghost pv = string_views(pieces@.take(j + 1));
                assert(pv.drop_last() =~= string_views(pieces@.take(j as int)));
                assert(pv.last() == pieces@[j as int]@);
                let cs = chars_of(pieces[j].as_str());
                let (a, b) = trim_ws_range(&cs, 0, cs.len());
                assert(cs@.subrange(0, cs@.len() as int) =~= pieces@[j as int]@);
                let t = string_from_range(&cs, a, b);
                if b > a && !contains_string(&aliases, t.as_str()) {
                    let ghost before = aliases@;
                    aliases.push(t);
                    assert(string_views(aliases@) =~= string_views(before).push(t@));
                }
                j = j + 1;
            }
            assert(pieces@.take(pieces@.len() as int) =~= pieces@);
        }
        i = i + 1;
    }
    assert(rows@.take(rows@.len() as int) =~= rows@);
    aliases
}

/// The search entry a page gives: where it is, what it is called and
/// nicknamed, its headings and its plain text.
pub open spec fn search_entry_matches(e: SearchDocument, d: ProcessedDoc, id: int, prefix: Seq<char>) -> bool {
    &&& e.id == id
    &&& e.slug@ == d.slug@
    &&& e.title@ == d.title@
    &&& e.url@ == prefix + "/"@ + d.slug@
    &&& e.path@ == d.rel_path@
    &&& string_views(e.aliases@) == aliases_spec(row_views(d.infobox_rows@))
    &&& opt_view(e.kind) == opt_view(d.kind)
    &&& opt_view(e.section) == opt_view(d.section)
    &&& opt_view(e.image) == (match d.icon_image_url {
        Some(u) => Some(u@),
        None => opt_view(d.banner_url),
    })
    &&& string_views(e.headings@) == d.toc@.map_values(|t: TocItem| t.text@)
    &&& e.text@ == plain_text_spec(d.body_html@)
}

fn clone_opt(o: &Option<String>) -> (r: Option<String>)
    ensures
        opt_view(r) == opt_view(*o),
{
    match o {
        Some(s) => Some(s.as_str().to_owned()),
        None => None,
    }
}

fn headings_of(toc: &Vec<TocItem>) -> (r: Vec<String>)
    ensures
        string_views(r@) == toc@.map_values(|t: TocItem| t.text@),
{
    let mut out: Vec<String> = Vec::new();
    let mut i: usize = 0;
    while i < toc.len()
        invariant
            i <= toc@.len(),
            string_views(out@) == toc@.take(i as int).map_values(|t: TocItem| t.text@),
        decreases toc@.len() - i,
    {
        let ghost before = out@;
        let h = toc[i].text.as_str().to_owned();
        out.push(h);
        assert(string_views(out@) =~= string_views(before).push(h@));
        assert(toc@.take(i + 1).map_values(|t: TocItem| t.text@) =~= toc@.take(i as int).map_values(|t: TocItem| t.text@).push(
            toc@[i as int].text@,
        ));
        i = i + 1;
    }
    assert(toc@.take(toc@.len() as int) =~= toc@);
    out
}

/// Build the search index over the published pages, in order.
pub fn build_search_index(docs: &Vec<ProcessedDoc>, clean_url_prefix: &str) -> (r: SearchIndex)
    requires
        docs@.len() <= u32::MAX,
    ensures
        r.docs@.len() == docs@.len(),
        forall|i: int| 0 <= i < docs@.len() ==> #[trigger] search_entry_matches(r.docs@[i], docs@[i], i, clean_url_prefix@),
{
    let mut entries: Vec<SearchDocument> = Vec::new();
    let mut i: usize = 0;
    while i < docs.len()
        invariant
            i <= docs@.len(),
            docs@.len() <= u32::MAX,
            entries@.len() == i,
            forall|k: int| 0 <= k < i ==> #[trigger] search_entry_matches(entries@[k], docs@[k], k, clean_url_prefix@),
        decreases docs@.len() - i,
    {
        let d = &docs[i];
        let mut url = clean_url_prefix.to_owned();
        url.push_str("/");
        url.push_str(d.slug.as_str());
        let image = match &d.icon_image_url {
            Some(u) => Some(u.as_str().to_owned()),
            None => clone_opt(&d.banner_url),
        };
        let e = SearchDocument {
            id: i as u32,
            slug: d.slug.as_str().to_owned(),
            title: d.title.as_str().to_owned(),
            url,
            path: d.rel_path.as_str().to_owned(),
            aliases: collect_aliases(&d.infobox_rows),
            kind: clone_opt(&d.kind),
            section: clone_opt(&d.section),
            image,
            headings: headings_of(&d.toc),
            text: strip_html_to_plain_text(d.body_html.as_str()),
        };
        assert(search_entry_matches(e, docs@[i as int], i as int, clean_url_prefix@));
        entries.push(e);
        i = i + 1;
    }
    SearchIndex::new(entries)
}

proof fn lemma_add_aliases_tidy(acc: Seq<Seq<char>>, pieces: Seq<Seq<char>>)
    requires
        no_repeats(acc),
        forall|i: int| 0 <= i < acc.len() ==> #[trigger] acc[i].len() > 0 && acc[i] == trim_ws(acc[i]),
    ensures
        no_repeats(add_aliases(acc, pieces)),
        forall|i: int|
            0 <= i < add_aliases(acc, pieces).len() ==> #[trigger] add_aliases(acc, pieces)[i].len() > 0
                && add_aliases(acc, pieces)[i] == trim_ws(add_aliases(acc, pieces)[i]),
    decreases pieces.len(),
{
    if pieces.len() > 0 {
        lemma_add_aliases_tidy(acc, pieces.drop_last());
        let prev = add_aliases(acc, pieces.drop_last());
        let t = trim_ws(pieces.last());
        if t.len() > 0 && !prev.contains(t) {
            lemma_push_new_keeps_no_repeats(prev, t);
            crate::text::lemma_trim_ws_idempotent(pieces.last());
            let r = prev.push(t);
            assert forall|i: int| 0 <= i < r.len() implies #[trigger] r[i].len() > 0 && r[i] == trim_ws(r[i]) by {
                if i < prev.len() {
                    assert(r[i] == prev[i]);
                }
            }
        }
    }
}

proof fn lemma_add_aliases_members(acc: Seq<Seq<char>>, pieces: Seq<Seq<char>>)
    ensures
        forall|x: Seq<char>| #[trigger] acc.contains(x) ==> add_aliases(acc, pieces).contains(x),
        forall|p: int|
            0 <= p < pieces.len() && trim_ws(#[trigger] pieces[p]).len() > 0 ==> add_aliases(acc, pieces).contains(
                trim_ws(pieces[p]),
            ),
        forall|x: Seq<char>|
            #[trigger] add_aliases(acc, pieces).contains(x) ==> acc.contains(x) || exists|p: int|
                0 <= p < pieces.len() && trim_ws(#[trigger] pieces[p]) == x,
    decreases pieces.len(),
{
    if pieces.len() > 0 {
        let d = pieces.drop_last();
        lemma_add_aliases_members(acc, d);
        let prev = add_aliases(acc, d);
        let r = add_aliases(acc, pieces);
        let t = trim_ws(pieces.last());
        assert forall|x: Seq<char>| #[trigger] prev.contains(x) implies r.contains(x) by {
            if r != prev {
                let m = choose|m: int| 0 <= m < prev.len() && prev[m] == x;
                assert(r[m] == x);
            }
        }
        assert(t.len() > 0 ==> r.contains(t)) by {
            if t.len() > 0 && !prev.contains(t) {
                assert(r[r.len() - 1] == t);
            }
        }
        assert forall|p: int| 0 <= p < pieces.len() && trim_ws(#[trigger] pieces[p]).len() > 0 implies r.contains(
            trim_ws(pieces[p]),
        ) by {
            if p < d.len() {
                assert(d[p] == pieces[p]);
                assert(prev.contains(trim_ws(d[p])));
            }
        }
        assert forall|x: Seq<char>| #[trigger] r.contains(x) implies acc.contains(x) || exists|p: int|
            0 <= p < pieces.len() && trim_ws(#[trigger] pieces[p]) == x by {
            let m = choose|m: int| 0 <= m < r.len() && r[m] == x;
            if m < prev.len() && r == prev || (r != prev && m < prev.len()) {
                assert(prev[m] == x);
                assert(prev.contains(x));
                if !acc.contains(x) {
                    let q = choose|q: int| 0 <= q < d.len() && trim_ws(#[trigger] d[q]) == x;
                    assert(pieces[q] == d[q]);
                }
            } else {
                assert(x == t);
                assert(trim_ws(pieces[pieces.len() - 1]) == x);
            }
        }
    }
}

/// A row whose label, lowercased, lists aliases (`aliases`, the English
/// default `aliases / nicknames`, `別名`, `愛称`, `別名 / 愛称`) adds every
/// non-blank piece of its value, trimmed, to the page's aliases.
pub proof fn lemma_alias_rows_feed_the_aliases(rows: Seq<(Seq<char>, Seq<char>)>, k: int, p: int)
    requires
        0 <= k < rows.len(),
        ({
            let l = unicode_lowercase(rows[k].0);
            l == "aliases"@ || l == "aliases / nicknames"@ || l == "別名"@ || l == "愛称"@ || l == "別名 / 愛称"@
        }),
        0 <= p < alias_pieces(rows[k].1).len(),
        trim_ws(alias_pieces(rows[k].1)[p]).len() > 0,
    ensures
        aliases_spec(rows).contains(trim_ws(alias_pieces(rows[k].1)[p])),
    decreases rows.len(),
{
    let d = rows.drop_last();
    let prev = aliases_spec(d);
    if k == rows.len() - 1 {
        assert(is_alias_label(rows.last().0));
        lemma_add_aliases_members(prev, alias_pieces(rows.last().1));
    } else {
        assert(d[k] == rows[k]);
        lemma_alias_rows_feed_the_aliases(d, k, p);
        if is_alias_label(rows.last().0) {
            lemma_add_aliases_members(prev, alias_pieces(rows.last().1));
        }
    }
}

/// A page's aliases come only from rows whose label, lowercased, lists
/// aliases: each is a trimmed piece of such a row's value.
pub proof fn lemma_aliases_come_from_alias_rows(rows: Seq<(Seq<char>, Seq<char>)>)
    ensures
        forall|x: Seq<char>|
            #[trigger] aliases_spec(rows).contains(x) ==> exists|k: int, p: int|
                0 <= k < rows.len() && ({
                    let l = unicode_lowercase(rows[k].0);
                    l == "aliases"@ || l == "aliases / nicknames"@ || l == "別名"@ || l == "愛称"@ || l
                        == "別名 / 愛称"@
                }) && 0 <= p < alias_pieces(rows[k].1).len() && trim_ws(#[trigger] alias_pieces(rows[k].1)[p]) == x,
    decreases rows.len(),
{
    if rows.len() > 0 {
        let d = rows.drop_last();
        let prev = aliases_spec(d);
        lemma_aliases_come_from_alias_rows(d);
        assert forall|x: Seq<char>| #[trigger] aliases_spec(rows).contains(x) implies exists|k: int, p: int|
            0 <= k < rows.len() && ({
                let l = unicode_lowercase(rows[k].0);
                l == "aliases"@ || l == "aliases / nicknames"@ || l == "別名"@ || l == "愛称"@ || l == "別名 / 愛称"@
            }) && 0 <= p < alias_pieces(rows[k].1).len() && trim_ws(#[trigger] alias_pieces(rows[k].1)[p]) == x by {
            let last = rows.len() - 1;
            if is_alias_label(rows.last().0) {
                lemma_add_aliases_members(prev, alias_pieces(rows.last().1));
            }
            if prev.contains(x) {
                let (k, p) = choose|k: int, p: int|
                    0 <= k < d.len() && ({
                        let l = unicode_lowercase(d[k].0);
                        l == "aliases"@ || l == "aliases / nicknames"@ || l == "別名"@ || l == "愛称"@ || l
                            == "別名 / 愛称"@
                    }) && 0 <= p < alias_pieces(d[k].1).len() && trim_ws(#[trigger] alias_pieces(d[k].1)[p]) == x;
                assert(rows[k] == d[k]);
            } else {
                assert(is_alias_label(rows.last().0));
                let p = choose|p: int|
                    0 <= p < alias_pieces(rows.last().1).len() && trim_ws(
                        #[trigger] alias_pieces(rows.last().1)[p],
                    ) == x;
                assert(rows[last] == rows.last());
                assert(trim_ws(alias_pieces(rows[last].1)[p]) == x);
            }
        }
    }
}

/// The aliases a page is found by are each listed once, none blank and
/// none with surrounding whitespace.
pub proof fn lemma_aliases_are_tidy(rows: Seq<(Seq<char>, Seq<char>)>)
    ensures
        no_repeats(aliases_spec(rows)),
        forall|i: int|
            0 <= i < aliases_spec(rows).len() ==> #[trigger] aliases_spec(rows)[i].len() > 0 && aliases_spec(rows)[i]
                == trim_ws(aliases_spec(rows)[i]),
    decreases rows.len(),
{
    if rows.len() > 0 {
        lemma_aliases_are_tidy(rows.drop_last());
        if is_alias_label(rows.last().0) {
            lemma_add_aliases_tidy(aliases_spec(rows.drop_last()), alias_pieces(rows.last().1));
        }
    }
}

} // verus!
