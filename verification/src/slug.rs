//! Clean slug generation for URLs and page paths.
//!
//! A vault path becomes a web slug segment by segment: letters, digits and
//! underscores stay (Japanese included), every run of anything else becomes
//! one `-`, and leading/trailing `-`/`_` go. A segment left with nothing gets
//! a deterministic `doc-xxxxxxxx` name from a hash of the segment as written.

use vstd::prelude::*;

use crate::links::{strip_doc_extension, strip_doc_extension_spec};
use vstd::string::StringSliceAdditionalSpecFns;
use vstd::utf8::encode_utf8;
use crate::text::{lemma_trim_end_tail, lemma_trim_start_head, chars_of, find_char, find_from, lemma_find_from_bounds, string_from_range};

verus! {

pub open spec fn fnv_step(h: u32, b: u8) -> u32 {
    (((h ^ (b as u32)) as nat * 0x01000193nat) % 0x1_0000_0000nat) as u32
}

/// FNV-1a (32 bit) of a byte string.
pub open spec fn fnv1a_spec(bytes: Seq<u8>) -> u32
    decreases bytes.len(),
{
    if bytes.len() == 0 {
        0x811c9dc5u32
    } else {
        fnv_step(fnv1a_spec(bytes.drop_last()), bytes.last())
    }
}

/// FNV-1a 32-bit hash of the UTF-8 bytes of `s`, for deterministic fallback slugs.
pub fn fnv1a_hash(s: &str) -> (h: u32)
    ensures
        h == fnv1a_spec(encode_utf8(s@)),
{
    let bytes = s.as_bytes();
    let mut hash: u32 = 0x811c9dc5u32;
    let mut i: usize = 0;
    while i < bytes.len()
        invariant
            i <= bytes@.len(),
            bytes@ == s.spec_bytes(),
            hash == fnv1a_spec(bytes@.take(i as int)),
        decreases bytes@.len() - i,
    {
        assert(bytes@.take(i + 1).drop_last() =~= bytes@.take(i as int));
        hash = hash ^ (bytes[i] as u32);
        hash = hash.wrapping_mul(0x01000193u32);
        i = i + 1;
    }
    assert(bytes@.take(bytes@.len() as int) =~= bytes@);
    hash
}

pub open spec fn hex_digit_char(d: int) -> char {
    if d < 10 {
        (('0' as int) + d) as char
    } else {
        (('a' as int) + d - 10) as char
    }
}

pub open spec fn pow16(e: nat) -> nat
    decreases e,
{
    if e == 0 {
        1
    } else {
        16 * pow16((e - 1) as nat)
    }
}

/// The eight lowercase hex digits of `h`, most significant first (`{h:08x}`).
pub open spec fn hex8(h: u32) -> Seq<char> {
    Seq::new(8, |k: int| hex_digit_char(((h as nat) / pow16((7 - k) as nat)) as int % 16))
}

fn divisor(k: usize) -> (d: u32)
    requires
        k < 8,
    ensures
        d as nat == pow16((7 - k) as nat),
        d > 0,
{
    proof {
        reveal_with_fuel(pow16, 8);
    }
    if k == 0 {
        0x1000_0000
    } else if k == 1 {
        0x100_0000
    } else if k == 2 {
        0x10_0000
    } else if k == 3 {
        0x1_0000
    } else if k == 4 {
        0x1000
    } else if k == 5 {
        0x100
    } else if k == 6 {
        0x10
    } else {
        1
    }
}

/// `doc-` and the eight hex digits of `h`.
fn push_hex8(out: &mut String, h: u32)
    ensures
        final(out)@ == old(out)@ + hex8(h),
{
    let mut k: usize = 0;
    while k < 8
        invariant
            k <= 8,
            out@ == old(out)@ + hex8(h).take(k as int),
        decreases 8 - k,
    {
        let d = divisor(k);
        let nib = (h / d) % 16;
        let c = if nib < 10 {
            ((nib as u8) + ('0' as u8)) as char
        } else {
            ((nib as u8) - 10 + ('a' as u8)) as char
        };
        assert(c == hex_digit_char(((h as nat) / pow16((7 - k) as nat)) as int % 16));
        out.push(c);
        assert(hex8(h).take(k + 1) =~= hex8(h).take(k as int).push(c));
        k = k + 1;
    }
    assert(hex8(h).take(8) =~= hex8(h));
}

pub open spec fn keeps_in_slug(c: char) -> bool {
    crate::text::unicode_alphanumeric(c) || c == '_'
}

/// Segment cleaning before trimming: kept characters copied, every run of
/// anything else after the first kept character turned into one `-`.
/// The flag says whether the output currently ends in such a `-`.
pub open spec fn clean_fold(s: Seq<char>) -> (Seq<char>, bool)
    decreases s.len(),
{
    if s.len() == 0 {
        (Seq::empty(), false)
    } else {
        let (out, dash) = clean_fold(s.drop_last());
        let c = s.last();
        if keeps_in_slug(c) {
            (out.push(c), false)
        } else if !dash && out.len() > 0 {
            (out.push('-'), true)
        } else {
            (out, dash)
        }
    }
}

pub open spec fn is_dash_or_underscore() -> spec_fn(char) -> bool {
    |c: char| c == '-' || c == '_'
}

/// The clean form of one path segment.
pub open spec fn clean_segment_spec(seg: Seq<char>) -> Seq<char> {
    let t = crate::text::trim_both_spec(clean_fold(seg).0, is_dash_or_underscore());
    if t.len() == 0 {
        "doc-"@ + hex8(fnv1a_spec(encode_utf8(seg)))
    } else {
        t
    }
}

/// Index of the first character of `cs[from..to]` that is neither `-` nor `_`.
fn trim_start_du(cs: &[char], from: usize, to: usize) -> (r: usize)
    requires
        from <= to <= cs@.len(),
    ensures
        from <= r <= to,
        cs@.subrange(r as int, to as int) == crate::text::trim_start_spec(
            cs@.subrange(from as int, to as int),
            is_dash_or_underscore(),
        ),
{
    let mut i = from;
    while i < to && (cs[i] == '-' || cs[i] == '_')
        invariant
            from <= i <= to <= cs@.len(),
            crate::text::trim_start_spec(cs@.subrange(from as int, to as int), is_dash_or_underscore())
                == crate::text::trim_start_spec(cs@.subrange(i as int, to as int), is_dash_or_underscore()),
        decreases to - i,
    {
        assert(cs@.subrange(i as int, to as int).drop_first() =~= cs@.subrange(i + 1, to as int));
        i = i + 1;
    }
    i
}

/// Index just past the last character of `cs[from..to]` that is neither `-` nor `_`.
fn trim_end_du(cs: &[char], from: usize, to: usize) -> (r: usize)
    requires
        from <= to <= cs@.len(),
    ensures
        from <= r <= to,
        cs@.subrange(from as int, r as int) == crate::text::trim_end_spec(
            cs@.subrange(from as int, to as int),
            is_dash_or_underscore(),
        ),
{
    let mut j = to;
    while j > from && (cs[j - 1] == '-' || cs[j - 1] == '_')
        invariant
            from <= j <= to <= cs@.len(),
            crate::text::trim_end_spec(cs@.subrange(from as int, to as int), is_dash_or_underscore())
                == crate::text::trim_end_spec(cs@.subrange(from as int, j as int), is_dash_or_underscore()),
        decreases j - from,
    {
        assert(cs@.subrange(from as int, j as int).drop_last() =~= cs@.subrange(from as int, j - 1));
        j = j - 1;
    }
    j
}

/// Sanitizes a single path segment (a directory name or file stem).
///
/// The result never holds two hyphens in a row, and it is made of
/// alphanumerics, `_` and `-` (the `doc-` hash fallback included).
pub fn clean_segment(segment: &str) -> (r: String)
    ensures
        r@ == clean_segment_spec(segment@),
        no_double_dash(r@),
        kept_or_dash(r@),
{
    let cs = chars_of(segment);
    let mut out: Vec<char> = Vec::new();
    let mut last_was_dash = false;
    let mut i: usize = 0;
    while i < cs.len()
        invariant
            i <= cs@.len(),
            cs@ == segment@,
            (out@, last_was_dash) == clean_fold(cs@.take(i as int)),
        decreases cs@.len() - i,
    {
        let c = cs[i];
        assert(cs@.take(i + 1).drop_last() =~= cs@.take(i as int));
        if c.is_alphanumeric() || c == '_' {
            out.push(c);
            last_was_dash = false;
        } else if !last_was_dash && out.len() > 0 {
            out.push('-');
            last_was_dash = true;
        }
        i = i + 1;
    }
    assert(cs@.take(cs@.len() as int) =~= cs@);
    proof {
        lemma_clean_segment_shape_all(segment@);
    }
    let n = out.len();
    let a = trim_start_du(&out, 0, n);
    let b = trim_end_du(&out, a, n);
    assert(out@.subrange(0, n as int) =~= out@);
    if a == b {
        let mut r = String::new();
        r.push_str("doc-");
        let h = fnv1a_hash(segment);
        push_hex8(&mut r, h);
        r
    } else {
        string_from_range(&out, a, b)
    }
}

/// A clean segment is never empty and never starts or ends with `-` or `_`.
pub proof fn lemma_clean_segment_edges(seg: Seq<char>)
    ensures
        ({
            let r = clean_segment_spec(seg);
            r.len() > 0 && r[0] != '-' && r[0] != '_' && r.last() != '-' && r.last() != '_'
        }),
{
    reveal_strlit("doc-");
    let t0 = clean_fold(seg).0;
    let p = is_dash_or_underscore();
    let t1 = crate::text::trim_start_spec(t0, p);
    lemma_trim_start_head(t0, p);
    lemma_trim_end_tail(t1, p);
    let t = crate::text::trim_end_spec(t1, p);
    if t.len() > 0 {
        lemma_trim_end_keeps_head(t1, p);
    } else {
        let h = hex8(fnv1a_spec(encode_utf8(seg)));
        let r = "doc-"@ + h;
        assert(r[0] == 'd');
        let d = ((fnv1a_spec(encode_utf8(seg)) as nat) / pow16(0)) as int % 16;
        assert(r.last() == hex_digit_char(d));
        assert(0 <= d < 16);
    }
}

/// No two hyphens stand side by side.
pub open spec fn no_double_dash(r: Seq<char>) -> bool {
    forall|i: int| 0 <= i < r.len() - 1 ==> !(#[trigger] r[i] == '-' && r[i + 1] == '-')
}

/// Every character is one a slug keeps (alphanumeric or `_`) or a hyphen.
pub open spec fn kept_or_dash(r: Seq<char>) -> bool {
    forall|i: int| 0 <= i < r.len() ==> keeps_in_slug(#[trigger] r[i]) || r[i] == '-'
}

/// The fallback of a segment that cleans away to nothing: `doc-` and eight lowercase hex digits.
pub open spec fn is_hash_fallback(r: Seq<char>) -> bool {
    &&& r.len() == 12
    &&& r.take(4) == "doc-"@
    &&& forall|i: int| 4 <= i < 12 ==> ('0' <= #[trigger] r[i] <= '9' || 'a' <= r[i] <= 'f')
}

/// No hyphen in `s` counts as a character a slug keeps.
pub open spec fn hyphens_not_kept(s: Seq<char>) -> bool {
    forall|i: int| 0 <= i < s.len() && #[trigger] s[i] == '-' ==> !keeps_in_slug(s[i])
}

/// The shape the fold keeps: kept characters and hyphens, no two hyphens
/// together, and the flag telling whether the output ends in a hyphen.
proof fn lemma_clean_fold_shape(s: Seq<char>)
    requires
        hyphens_not_kept(s),
    ensures
        kept_or_dash(clean_fold(s).0),
        no_double_dash(clean_fold(s).0),
        clean_fold(s).1 <==> (clean_fold(s).0.len() > 0 && clean_fold(s).0.last() == '-'),
    decreases s.len(),
{
    if s.len() > 0 {
        assert(hyphens_not_kept(s.drop_last())) by {
            assert forall|i: int| 0 <= i < s.len() - 1 && #[trigger] s.drop_last()[i] == '-' implies !keeps_in_slug(
                s.drop_last()[i],
            ) by {
                assert(s.drop_last()[i] == s[i]);
            }
        }
        assert(s.last() == s[s.len() - 1]);
        lemma_clean_fold_shape(s.drop_last());
        let (out, dash) = clean_fold(s.drop_last());
        let r = clean_fold(s).0;
        if keeps_in_slug(s.last()) {
            assert(r == out.push(s.last()));
            assert forall|i: int| 0 <= i < r.len() implies keeps_in_slug(#[trigger] r[i]) || r[i] == '-' by {
                if i < out.len() {
                    assert(r[i] == out[i]);
                }
            }
            assert forall|i: int| 0 <= i < r.len() - 1 implies !(#[trigger] r[i] == '-' && r[i + 1] == '-') by {
                assert(r[i] == out[i]);
                if i + 1 < out.len() {
                    assert(r[i + 1] == out[i + 1]);
                }
            }
        } else if !dash && out.len() > 0 {
            assert(r == out.push('-'));
            assert forall|i: int| 0 <= i < r.len() implies keeps_in_slug(#[trigger] r[i]) || r[i] == '-' by {
                if i < out.len() {
                    assert(r[i] == out[i]);
                }
            }
            assert forall|i: int| 0 <= i < r.len() - 1 implies !(#[trigger] r[i] == '-' && r[i + 1] == '-') by {
                assert(r[i] == out[i]);
                if i + 1 < out.len() {
                    assert(r[i + 1] == out[i + 1]);
                } else {
                    assert(out.last() != '-');
                }
            }
        }
    }
}

/// A piece cut out of a sequence keeps both shape properties.
proof fn lemma_shape_of_piece(s: Seq<char>, a: int, b: int)
    requires
        0 <= a <= b <= s.len(),
        kept_or_dash(s),
        no_double_dash(s),
    ensures
        kept_or_dash(s.subrange(a, b)),
        no_double_dash(s.subrange(a, b)),
{
    let t = s.subrange(a, b);
    assert forall|i: int| 0 <= i < t.len() implies keeps_in_slug(#[trigger] t[i]) || t[i] == '-' by {
        assert(t[i] == s[a + i]);
    }
    assert forall|i: int| 0 <= i < t.len() - 1 implies !(#[trigger] t[i] == '-' && t[i + 1] == '-') by {
        assert(t[i] == s[a + i]);
        assert(t[i + 1] == s[a + i + 1]);
    }
}

/// The shape of a clean segment, for a segment whose hyphens are not kept characters.
proof fn lemma_clean_segment_shape(seg: Seq<char>)
    requires
        hyphens_not_kept(seg),
    ensures
        no_double_dash(clean_segment_spec(seg)),
        kept_or_dash(clean_segment_spec(seg)) || is_hash_fallback(clean_segment_spec(seg)),
{
    reveal_strlit("doc-");
    let t0 = clean_fold(seg).0;
    let p = is_dash_or_underscore();
    lemma_clean_fold_shape(seg);
    let t1 = crate::text::trim_start_spec(t0, p);
    lemma_trim_start_head(t0, p);
    assert(t1 == t0.subrange(t0.len() - t1.len(), t0.len() as int));
    lemma_shape_of_piece(t0, t0.len() - t1.len(), t0.len() as int);
    lemma_trim_end_tail(t1, p);
    let t = crate::text::trim_end_spec(t1, p);
    assert(t == t1.subrange(0, t.len() as int));
    lemma_shape_of_piece(t1, 0, t.len() as int);
    if t.len() == 0 {
        let h = hex8(fnv1a_spec(encode_utf8(seg)));
        let r = "doc-"@ + h;
        assert(r.take(4) =~= "doc-"@);
        assert forall|i: int| 4 <= i < 12 implies ('0' <= #[trigger] r[i] <= '9' || 'a' <= r[i] <= 'f') by {
            assert(r[i] == h[i - 4]);
            let d = ((fnv1a_spec(encode_utf8(seg)) as nat) / pow16((7 - (i - 4)) as nat)) as int % 16;
            assert(0 <= d < 16);
            assert(h[i - 4] == hex_digit_char(d));
        }
        assert forall|i: int| 0 <= i < r.len() - 1 implies !(#[trigger] r[i] == '-' && r[i + 1] == '-') by {
            if i < 3 {
                assert(r[i] == "doc-"@[i]);
            } else {
                assert(r[i + 1] == h[i - 3]);
                let d = ((fnv1a_spec(encode_utf8(seg)) as nat) / pow16((7 - (i - 3)) as nat)) as int % 16;
                assert(0 <= d < 16);
                assert(h[i - 3] == hex_digit_char(d));
            }
        }
    }
}

/// A hyphen is never a character a slug keeps.
proof fn lemma_hyphens_never_kept(s: Seq<char>)
    ensures
        hyphens_not_kept(s),
{
}

/// A text already in clean shape folds to itself.
proof fn lemma_fold_of_clean_text(s: Seq<char>)
    requires
        kept_or_dash(s),
        no_double_dash(s),
        s.len() > 0 ==> s[0] != '-',
    ensures
        clean_fold(s) == (s, s.len() > 0 && s.last() == '-'),
    decreases s.len(),
{
    if s.len() > 0 {
        let t = s.drop_last();
        assert forall|i: int| 0 <= i < t.len() implies keeps_in_slug(#[trigger] t[i]) || t[i] == '-' by {
            assert(t[i] == s[i]);
        }
        assert forall|i: int| 0 <= i < t.len() - 1 implies !(#[trigger] t[i] == '-' && t[i + 1] == '-') by {
            assert(t[i] == s[i]);
            assert(t[i + 1] == s[i + 1]);
        }
        if t.len() > 0 {
            assert(t[0] == s[0]);
        }
        lemma_fold_of_clean_text(t);
        let c = s.last();
        assert(c == s[s.len() - 1]);
        if keeps_in_slug(c) {
            assert(t.push(c) =~= s);
        } else {
            assert(c == '-');
            if t.len() > 0 {
                assert(t.last() == s[s.len() - 2]);
            }
            assert(t.push('-') =~= s);
        }
    }
}

/// A clean segment never holds two hyphens in a row, and every character
/// of it is alphanumeric, `_` or `-` (the `doc-` hash fallback included).
pub proof fn lemma_clean_segment_shape_all(seg: Seq<char>)
    ensures
        no_double_dash(clean_segment_spec(seg)),
        kept_or_dash(clean_segment_spec(seg)),
{
    reveal_strlit("doc-");
    let r = clean_segment_spec(seg);
    lemma_hyphens_never_kept(seg);
    lemma_clean_segment_shape(seg);
    if is_hash_fallback(r) {
        assert forall|i: int| 0 <= i < r.len() implies keeps_in_slug(#[trigger] r[i]) || r[i] == '-' by {
            if i < 4 {
                assert(r.take(4)[i] == r[i]);
                assert(r[i] == "doc-"@[i]);
            }
        }
    }
}

/// Cleaning a clean segment changes nothing.
pub proof fn lemma_clean_segment_idempotent(seg: Seq<char>)
    ensures
        clean_segment_spec(clean_segment_spec(seg)) == clean_segment_spec(seg),
{
    let r = clean_segment_spec(seg);
    lemma_clean_segment_shape_all(seg);
    lemma_clean_segment_edges(seg);
    lemma_fold_of_clean_text(r);
    let p = is_dash_or_underscore();
    assert(!p(r[0]));
    assert(crate::text::trim_start_spec(r, p) == r);
    assert(!p(r.last()));
    assert(crate::text::trim_end_spec(r, p) == r);
}

proof fn lemma_trim_end_keeps_head(s: Seq<char>, p: spec_fn(char) -> bool)
    requires
        s.len() > 0 ==> !p(s[0]),
    ensures
        crate::text::trim_end_spec(s, p).len() > 0 ==> !p(crate::text::trim_end_spec(s, p)[0]),
{
    lemma_trim_end_tail(s, p);
    let t = crate::text::trim_end_spec(s, p);
    if t.len() > 0 {
        assert(t[0] == s.take(t.len() as int)[0]);
    }
}

/// `str::split(c)`: the pieces between occurrences of `c`, empty ones included.
pub open spec fn split_spec(s: Seq<char>, c: char) -> Seq<Seq<char>>
    decreases s.len(),
{
    match find_from(s, c, 0) {
        Some(k) => if 0 <= k < s.len() {
            seq![s.take(k)] + split_spec(s.skip(k + 1), c)
        } else {
            seq![s]
        },
        None => seq![s],
    }
}

/// The non-empty pieces, in order.
pub open spec fn keep_nonempty(parts: Seq<Seq<char>>) -> Seq<Seq<char>>
    decreases parts.len(),
{
    if parts.len() == 0 {
        parts
    } else if parts[0].len() > 0 {
        seq![parts[0]] + keep_nonempty(parts.drop_first())
    } else {
        keep_nonempty(parts.drop_first())
    }
}

/// The pieces joined with `sep` between each pair.
pub open spec fn join_spec(parts: Seq<Seq<char>>, sep: Seq<char>) -> Seq<char>
    decreases parts.len(),
{
    if parts.len() == 0 {
        Seq::empty()
    } else if parts.len() == 1 {
        parts[0]
    } else {
        join_spec(parts.drop_last(), sep) + sep + parts.last()
    }
}

/// No text occurs twice.
pub open spec fn no_repeats(s: Seq<Seq<char>>) -> bool {
    forall|i: int, j: int| 0 <= i < j < s.len() ==> s[i] != s[j]
}

/// Pushing what is not there yet keeps a list free of repeats.
pub proof fn lemma_push_new_keeps_no_repeats(s: Seq<Seq<char>>, x: Seq<char>)
    requires
        no_repeats(s),
        !s.contains(x),
    ensures
        no_repeats(s.push(x)),
{
    let r = s.push(x);
    assert forall|i: int, j: int| 0 <= i < j < r.len() implies r[i] != r[j] by {
        if j == r.len() - 1 {
            assert(r[i] == s[i]);
            assert(s.contains(s[i]));
        }
    }
}

pub open spec fn string_views(v: Seq<String>) -> Seq<Seq<char>> {
    v.map_values(|s: String| s@)
}

/// The pieces of `parts` joined with `/`.
pub fn join_with_slash(parts: &Vec<String>) -> (r: String)
    ensures
        r@ == join_spec(string_views(parts@), "/"@),
{
    let mut out = String::new();
    let mut i: usize = 0;
    while i < parts.len()
        invariant
            i <= parts@.len(),
            out@ == join_spec(string_views(parts@.take(i as int)), "/"@),
        decreases parts@.len() - i,
    {
        let ghost before = string_views(parts@.take(i as int));
        let ghost after = string_views(parts@.take(i + 1));
        assert(after.drop_last() =~= before);
        assert(after.last() == parts@[i as int]@);
        if i > 0 {
            out.push_str("/");
        } else {
            assert(before.len() == 0);
        }
        out.push_str(parts[i].as_str());
        i = i + 1;
    }
    assert(parts@.take(parts@.len() as int) =~= parts@);
    out
}

pub open spec fn normalize_separators(s: Seq<char>) -> Seq<char> {
    s.map_values(|c: char| if c == '\\' { '/' } else { c })
}

/// A path with every `\\` turned into `/`.
pub fn normalize_path_str(s: &str) -> (r: String)
    ensures
        r@ == normalize_separators(s@),
{
    let raw = chars_of(s);
    let mut norm: Vec<char> = Vec::new();
    let mut j: usize = 0;
    while j < raw.len()
        invariant
            j <= raw@.len(),
            raw@ == s@,
            norm@ == normalize_separators(raw@.take(j as int)),
        decreases raw@.len() - j,
    {
        let c = raw[j];
        norm.push(if c == '\\' { '/' } else { c });
        assert(normalize_separators(raw@.take(j + 1)) =~= normalize_separators(raw@.take(j as int)).push(
            if c == '\\' { '/' } else { c },
        ));
        j = j + 1;
    }
    assert(raw@.take(raw@.len() as int) =~= raw@);
    crate::text::string_from(&norm)
}

pub open spec fn cleaned_parts(s: Seq<char>) -> Seq<Seq<char>> {
    keep_nonempty(split_spec(s, '/')).map_values(|p: Seq<char>| clean_segment_spec(p))
}

/// The clean URL slug of a vault-relative document path.
pub open spec fn clean_doc_slug_spec(rel: Seq<char>) -> Seq<char> {
    join_spec(cleaned_parts(strip_doc_extension_spec(normalize_separators(rel))), "/"@)
}

proof fn lemma_cleaned_parts_step(s: Seq<char>, k: int)
    requires
        find_from(s, '/', 0) == Some(k),
        0 <= k < s.len(),
    ensures
        cleaned_parts(s) == (if k > 0 { seq![clean_segment_spec(s.take(k))] } else { Seq::empty() })
            + cleaned_parts(s.skip(k + 1)),
{
    let parts = split_spec(s, '/');
    assert(parts == seq![s.take(k)] + split_spec(s.skip(k + 1), '/'));
    assert(parts.drop_first() =~= split_spec(s.skip(k + 1), '/'));
    assert(parts[0] == s.take(k));
    let f = |p: Seq<char>| clean_segment_spec(p);
    if k > 0 {
        assert(keep_nonempty(parts) == seq![s.take(k)] + keep_nonempty(parts.drop_first()));
        assert((seq![s.take(k)] + keep_nonempty(parts.drop_first())).map_values(f)
            =~= seq![clean_segment_spec(s.take(k))] + keep_nonempty(parts.drop_first()).map_values(f));
    } else {
        assert(keep_nonempty(parts) == keep_nonempty(parts.drop_first()));
        assert(Seq::<Seq<char>>::empty() + cleaned_parts(s.skip(k + 1)) =~= cleaned_parts(s.skip(k + 1)));
    }
}

proof fn lemma_cleaned_parts_last(s: Seq<char>)
    requires
        find_from(s, '/', 0) is None,
    ensures
        cleaned_parts(s) == (if s.len() > 0 { seq![clean_segment_spec(s)] } else { Seq::empty() }),
{
    let parts = split_spec(s, '/');
    assert(parts == seq![s]);
    assert(parts.drop_first() =~= Seq::<Seq<char>>::empty());
    assert(keep_nonempty(Seq::<Seq<char>>::empty()) =~= Seq::<Seq<char>>::empty());
    let f = |p: Seq<char>| clean_segment_spec(p);
    if s.len() > 0 {
        assert(keep_nonempty(parts) =~= seq![s]);
        assert(seq![s].map_values(f) =~= seq![clean_segment_spec(s)]);
    } else {
        assert(keep_nonempty(parts) =~= Seq::<Seq<char>>::empty());
        assert(Seq::<Seq<char>>::empty().map_values(f) =~= Seq::<Seq<char>>::empty());
    }
}

/// Generates a clean URL slug from a vault-relative document path.
///
/// Strips document extensions (`.tmt`, `.tm`), normalizes path separators to `/`,
/// and sanitizes each path segment independently.
pub fn clean_doc_slug(rel_path: &str) -> (r: String)
    ensures
        r@ == clean_doc_slug_spec(rel_path@),
{
    let norm_s = normalize_path_str(rel_path);
    let stripped = strip_doc_extension(norm_s.as_str());
    let cs = chars_of(stripped.as_str());
    let n = cs.len();
    let ghost total = cleaned_parts(cs@);
    let mut parts: Vec<String> = Vec::new();
    let mut i: usize = 0;
    assert(cs@.skip(0) =~= cs@);
    loop
        invariant_except_break
            i <= n,
            n == cs@.len(),
            total == cleaned_parts(cs@),
            string_views(parts@) + cleaned_parts(cs@.skip(i as int)) == total,
        ensures
            string_views(parts@) == total,
        decreases n - i,
    {
        let ghost rest = cs@.skip(i as int);
        assert(cs@.subrange(i as int, n as int) =~= rest);
        match find_char(&cs, i, n, '/') {
            Some(k) => {
                proof {
                    lemma_find_from_bounds(rest, '/', 0);
                    lemma_cleaned_parts_step(rest, k - i);
                    assert(rest.skip(k - i + 1) =~= cs@.skip(k + 1));
                    assert(rest.take(k - i) =~= cs@.subrange(i as int, k as int));
                }
                if k > i {
                    let seg = string_from_range(&cs, i, k);
                    let cleaned = clean_segment(seg.as_str());
                    let ghost old_parts = parts@;
                    parts.push(cleaned);
                    assert(string_views(parts@) =~= string_views(old_parts) + seq![cleaned@]);
                } else {
                    assert(Seq::<Seq<char>>::empty() + cleaned_parts(cs@.skip(k + 1)) =~= cleaned_parts(cs@.skip(k + 1)));
                }
                i = k + 1;
            },
            None => {
                proof {
                    lemma_cleaned_parts_last(rest);
                }
                if i < n {
                    let seg = string_from_range(&cs, i, n);
                    let cleaned = clean_segment(seg.as_str());
                    let ghost old_parts = parts@;
                    parts.push(cleaned);
                    assert(string_views(parts@) =~= string_views(old_parts) + seq![cleaned@]);
                } else {
                    assert(string_views(parts@) + Seq::<Seq<char>>::empty() =~= string_views(parts@));
                }
                break;
            },
        }
    }
    join_with_slash(&parts)
}

/// Joining pieces with `/` puts the first piece in front.
proof fn lemma_join_front(ps: Seq<Seq<char>>)
    requires
        ps.len() > 1,
    ensures
        join_spec(ps, "/"@) == ps[0] + "/"@ + join_spec(ps.drop_first(), "/"@),
    decreases ps.len(),
{
    let sep = "/"@;
    if ps.len() == 2 {
        assert(ps.drop_last() =~= seq![ps[0]]);
        assert(ps.drop_first() =~= seq![ps[1]]);
        assert(join_spec(seq![ps[0]], sep) == ps[0]);
        assert(join_spec(seq![ps[1]], sep) == ps[1]);
        assert(join_spec(ps, sep) == join_spec(ps.drop_last(), sep) + sep + ps.last());
    } else {
        lemma_join_front(ps.drop_last());
        let mid = ps.drop_last().drop_first();
        assert(mid =~= ps.drop_first().drop_last());
        assert(ps.drop_first().last() == ps.last());
        assert(ps.drop_last()[0] == ps[0]);
        assert(join_spec(ps, sep) == join_spec(ps.drop_last(), sep) + sep + ps.last());
        assert(join_spec(ps.drop_first(), sep) == join_spec(mid, sep) + sep + ps.last());
        assert(join_spec(ps.drop_last(), sep) == ps[0] + sep + join_spec(mid, sep));
        assert(ps[0] + sep + join_spec(mid, sep) + sep + ps.last() =~= ps[0] + sep + (join_spec(mid, sep) + sep
            + ps.last()));
    }
}

/// Splitting at `/` what was joined with `/` gives the pieces back, when no
/// piece holds a `/` of its own.
proof fn lemma_split_join(ps: Seq<Seq<char>>)
    requires
        ps.len() > 0,
        forall|i: int| 0 <= i < ps.len() ==> !(#[trigger] ps[i]).contains('/'),
    ensures
        split_spec(join_spec(ps, "/"@), '/') == ps,
    decreases ps.len(),
{
    reveal_strlit("/");
    if ps.len() == 1 {
        let s = ps[0];
        lemma_find_from_bounds(s, '/', 0);
        if let Some(k) = find_from(s, '/', 0) {
            assert(s.contains('/'));
        }
        assert(seq![s] =~= ps);
    } else {
        let a = ps[0];
        let rest = ps.drop_first();
        assert forall|i: int| 0 <= i < rest.len() implies !(#[trigger] rest[i]).contains('/') by {
            assert(rest[i] == ps[i + 1]);
        }
        lemma_split_join(rest);
        lemma_join_front(ps);
        let b = join_spec(rest, "/"@);
        let s = a + "/"@ + b;
        let k = a.len() as int;
        assert(s[k] == '/');
        lemma_find_from_bounds(s, '/', 0);
        match find_from(s, '/', 0) {
            Some(j) => {
                if j < k {
                    assert(s[j] == a[j]);
                    assert(a.contains('/'));
                }
            },
            None => {},
        }
        assert(find_from(s, '/', 0) == Some(k));
        assert(s.take(k) =~= a);
        assert(s.skip(k + 1) =~= b);
        assert(seq![a] + rest =~= ps);
    }
}

/// A clean segment holds no `/`.
proof fn lemma_clean_segment_has_no_slash(seg: Seq<char>)
    ensures
        !clean_segment_spec(seg).contains('/'),
{
    lemma_clean_segment_shape_all(seg);
    let r = clean_segment_spec(seg);
    if r.contains('/') {
        let i = choose|i: int| 0 <= i < r.len() && r[i] == '/';
        assert(keeps_in_slug(r[i]) || r[i] == '-');
    }
}

/// A slug, split at `/`, gives one clean segment for each non-empty piece
/// of the path (once separators are normalized and the document extension
/// is cut): never an empty segment, none that starts or ends with `-` or
/// `_`, none with two hyphens in a row, and each made of alphanumerics,
/// `_` and `-`.
pub proof fn lemma_clean_doc_slug_segments(rel: Seq<char>)
    requires
        keep_nonempty(split_spec(strip_doc_extension_spec(normalize_separators(rel)), '/')).len() > 0,
    ensures
        ({
            let pieces = keep_nonempty(split_spec(strip_doc_extension_spec(normalize_separators(rel)), '/'));
            let segs = split_spec(clean_doc_slug_spec(rel), '/');
            &&& segs.len() == pieces.len()
            &&& forall|i: int| 0 <= i < segs.len() ==> #[trigger] segs[i] == clean_segment_spec(pieces[i])
            &&& forall|i: int|
                0 <= i < segs.len() ==> {
                    let g = #[trigger] segs[i];
                    &&& g.len() > 0
                    &&& g[0] != '-' && g[0] != '_' && g.last() != '-' && g.last() != '_'
                    &&& no_double_dash(g)
                    &&& kept_or_dash(g)
                }
        }),
{
    let pieces = keep_nonempty(split_spec(strip_doc_extension_spec(normalize_separators(rel)), '/'));
    let parts = pieces.map_values(|p: Seq<char>| clean_segment_spec(p));
    assert forall|i: int| 0 <= i < parts.len() implies !(#[trigger] parts[i]).contains('/') by {
        lemma_clean_segment_has_no_slash(pieces[i]);
    }
    lemma_split_join(parts);
    assert forall|i: int| 0 <= i < parts.len() implies {
        let g = #[trigger] parts[i];
        &&& g.len() > 0
        &&& g[0] != '-' && g[0] != '_' && g.last() != '-' && g.last() != '_'
        &&& no_double_dash(g)
        &&& kept_or_dash(g)
    } by {
        lemma_clean_segment_edges(pieces[i]);
        lemma_clean_segment_shape_all(pieces[i]);
    }
}

} // verus!
