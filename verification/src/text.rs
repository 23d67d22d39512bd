//! Character-level helpers shared by every module that builds HTML or paths.

use vstd::prelude::*;

verus! {

/// Appending one character to a `String` extends its view by that character.
pub assume_specification[ String::push ](string: &mut String, ch: char)
    ensures
        final(string)@ == old(string)@.push(ch),
;

/// Appending a string slice extends the view by the slice's characters.
pub assume_specification[ String::push_str ](string: &mut String, s: &str)
    ensures
        final(string)@ == old(string)@ + s@,
;

/// The characters of a string slice, in order.
pub fn chars_of(s: &str) -> (v: Vec<char>)
    ensures
        v@ == s@,
{
    let mut v: Vec<char> = Vec::new();
    for c in it: s.chars()
        invariant
            v@ == it.seq().take(it.index() as int),
    {
        v.push(c);
    }
    v
}

/// A `String` holding exactly the characters of `cs`.
pub fn string_from(cs: &[char]) -> (s: String)
    ensures
        s@ == cs@,
{
    let mut s = String::new();
    let mut i: usize = 0;
    while i < cs.len()
        invariant
            i <= cs@.len(),
            s@ == cs@.take(i as int),
        decreases cs@.len() - i,
    {
        s.push(cs[i]);
        assert(cs@.take(i + 1) =~= cs@.take(i as int).push(cs@[i as int]));
        i = i + 1;
    }
    assert(cs@.take(cs@.len() as int) =~= cs@);
    s
}

} // verus!

verus! {

/// The Unicode `White_Space` property, as `PropList.txt` lists it and
/// `char::is_whitespace` reports it: tab through carriage return, space,
/// next line, no-break space, ogham space mark, en quad through hair space,
/// the line and paragraph separators, narrow no-break space, medium
/// mathematical space and ideographic space.
#[verifier::opaque]
pub open spec fn unicode_whitespace(c: char) -> bool {
    ||| ('\u{9}' <= c && c <= '\u{d}')
    ||| c == ' '
    ||| c == '\u{85}'
    ||| c == '\u{a0}'
    ||| c == '\u{1680}'
    ||| ('\u{2000}' <= c && c <= '\u{200a}')
    ||| c == '\u{2028}'
    ||| c == '\u{2029}'
    ||| c == '\u{202f}'
    ||| c == '\u{205f}'
    ||| c == '\u{3000}'
}

/// An ASCII letter or digit.
pub open spec fn is_ascii_alnum(c: char) -> bool {
    ('a' <= c && c <= 'z') || ('A' <= c && c <= 'Z') || is_ascii_digit(c)
}

/// Whether a character outside ASCII is alphabetic or numeric, as
/// `char::is_alphanumeric` reports it.
pub uninterp spec fn non_ascii_alphanumeric(c: char) -> bool;

/// The Unicode alphabetic-or-numeric test, as `char::is_alphanumeric`
/// reports it: within ASCII, exactly the letters and digits.
pub open spec fn unicode_alphanumeric(c: char) -> bool {
    if c <= '\u{7f}' {
        is_ascii_alnum(c)
    } else {
        non_ascii_alphanumeric(c)
    }
}

/// `char::is_whitespace` answers by the `White_Space` property of its argument alone.
pub assume_specification[ char::is_whitespace ](c: char) -> (r: bool)
    ensures
        r == unicode_whitespace(c),
;

/// `char::is_alphanumeric` answers by the `Alphabetic` and numeric
/// properties of its argument alone; within ASCII those hold of the letters
/// and digits and of nothing else.
pub assume_specification[ char::is_alphanumeric ](c: char) -> (r: bool)
    ensures
        r == (if c <= '\u{7f}' {
            is_ascii_alnum(c)
        } else {
            non_ascii_alphanumeric(c)
        }),
;

/// Text made of ASCII characters only.
pub open spec fn is_ascii_text(s: Seq<char>) -> bool {
    forall|i: int| 0 <= i < s.len() ==> #[trigger] s[i] <= '\u{7f}'
}

/// What `str::to_lowercase` gives for text with a character beyond ASCII.
pub uninterp spec fn non_ascii_lowercase(s: Seq<char>) -> Seq<char>;

/// What `str::to_lowercase` gives: the Unicode lowercase mapping of each
/// character, which depends on the string alone; on ASCII text, the ASCII
/// letters lowered and everything else kept.
#[verifier::opaque]
pub open spec fn unicode_lowercase(s: Seq<char>) -> Seq<char> {
    if is_ascii_text(s) {
        ascii_lower_seq(s)
    } else {
        non_ascii_lowercase(s)
    }
}

/// `str::to_lowercase`. Within ASCII, Unicode's lowercase mapping is the
/// ASCII one: `A` to `Z` become `a` to `z`, and nothing else changes.
#[verifier::external_body]
pub(crate) fn to_lowercase(s: &str) -> (r: String)
    ensures
        r@ == unicode_lowercase(s@),
        is_ascii_text(s@) ==> r@ == ascii_lower_seq(s@),
        !is_ascii_text(s@) ==> r@ == non_ascii_lowercase(s@),
{
    s.to_lowercase()
}

/// `s` with every leading character that satisfies `p` removed.
pub open spec fn trim_start_spec(s: Seq<char>, p: spec_fn(char) -> bool) -> Seq<char>
    decreases s.len(),
{
    if s.len() > 0 && p(s[0]) {
        trim_start_spec(s.drop_first(), p)
    } else {
        s
    }
}

/// `s` with every trailing character that satisfies `p` removed.
pub open spec fn trim_end_spec(s: Seq<char>, p: spec_fn(char) -> bool) -> Seq<char>
    decreases s.len(),
{
    if s.len() > 0 && p(s.last()) {
        trim_end_spec(s.drop_last(), p)
    } else {
        s
    }
}

/// `s` with `p`-characters removed from both ends.
pub open spec fn trim_both_spec(s: Seq<char>, p: spec_fn(char) -> bool) -> Seq<char> {
    trim_end_spec(trim_start_spec(s, p), p)
}

/// What trimming the front leaves: a suffix of `s` that does not start with a `p` character.
pub proof fn lemma_trim_start_head(s: Seq<char>, p: spec_fn(char) -> bool)
    ensures
        trim_start_spec(s, p).len() > 0 ==> !p(trim_start_spec(s, p)[0]),
        trim_start_spec(s, p).len() <= s.len(),
        trim_start_spec(s, p) == s.skip(s.len() - trim_start_spec(s, p).len()),
    decreases s.len(),
{
    if s.len() > 0 && p(s[0]) {
        lemma_trim_start_head(s.drop_first(), p);
        assert(s.drop_first().skip(s.drop_first().len() - trim_start_spec(s, p).len())
            =~= s.skip(s.len() - trim_start_spec(s, p).len()));
    } else {
        assert(s.skip(0) =~= s);
    }
}

/// What trimming the back leaves: a prefix of `s` that does not end with a `p` character.
pub proof fn lemma_trim_end_tail(s: Seq<char>, p: spec_fn(char) -> bool)
    ensures
        trim_end_spec(s, p).len() > 0 ==> !p(trim_end_spec(s, p).last()),
        trim_end_spec(s, p).len() <= s.len(),
        trim_end_spec(s, p) == s.take(trim_end_spec(s, p).len() as int),
    decreases s.len(),
{
    if s.len() > 0 && p(s.last()) {
        lemma_trim_end_tail(s.drop_last(), p);
        assert(s.drop_last().take(trim_end_spec(s, p).len() as int)
            =~= s.take(trim_end_spec(s, p).len() as int));
    } else {
        assert(s.take(s.len() as int) =~= s);
    }
}

/// Trimming twice trims no more than trimming once.
pub proof fn lemma_trim_ws_idempotent(s: Seq<char>)
    ensures
        trim_ws(trim_ws(s)) == trim_ws(s),
{
    let p = ws_pred();
    let t0 = trim_start_spec(s, p);
    lemma_trim_start_head(s, p);
    lemma_trim_end_tail(t0, p);
    let t = trim_end_spec(t0, p);
    if t.len() > 0 {
        assert(t[0] == t0[0]);
        assert(trim_start_spec(t, p) == t);
        assert(trim_end_spec(t, p) == t);
    } else {
        assert(trim_start_spec(t, p) == t);
        assert(trim_end_spec(t, p) == t);
    }
}

pub open spec fn ws_pred() -> spec_fn(char) -> bool {
    |c: char| unicode_whitespace(c)
}

/// `str::trim`: surrounding whitespace removed.
pub open spec fn trim_ws(s: Seq<char>) -> Seq<char> {
    trim_both_spec(s, ws_pred())
}

pub open spec fn is_char_pred(x: char) -> spec_fn(char) -> bool {
    |c: char| c == x
}

pub open spec fn is_ascii_upper(c: char) -> bool {
    'A' <= c && c <= 'Z'
}

pub open spec fn is_ascii_digit(c: char) -> bool {
    '0' <= c && c <= '9'
}

pub open spec fn is_hex_digit(c: char) -> bool {
    is_ascii_digit(c) || ('a' <= c && c <= 'f') || ('A' <= c && c <= 'F')
}

/// ASCII lowercasing of one character; everything else is left alone.
pub open spec fn ascii_lower(c: char) -> char {
    if is_ascii_upper(c) {
        ((c as u32) + 32) as char
    } else {
        c
    }
}

pub open spec fn ascii_lower_seq(s: Seq<char>) -> Seq<char> {
    s.map_values(|c: char| ascii_lower(c))
}

pub fn char_ascii_lower(c: char) -> (r: char)
    ensures
        r == ascii_lower(c),
{
    if c >= 'A' && c <= 'Z' {
        ((c as u8) + 32) as char
    } else {
        c
    }
}

/// Index where `cs[from..to]` starts once leading whitespace is skipped.
pub fn trim_start_ws(cs: &[char], from: usize, to: usize) -> (r: usize)
    requires
        from <= to <= cs@.len(),
    ensures
        from <= r <= to,
        cs@.subrange(r as int, to as int) == trim_start_spec(cs@.subrange(from as int, to as int), ws_pred()),
{
    let mut i = from;
    while i < to && cs[i].is_whitespace()
        invariant
            from <= i <= to <= cs@.len(),
            trim_start_spec(cs@.subrange(from as int, to as int), ws_pred())
                == trim_start_spec(cs@.subrange(i as int, to as int), ws_pred()),
        decreases to - i,
    {
        assert(cs@.subrange(i as int, to as int).drop_first() =~= cs@.subrange(i + 1, to as int));
        i = i + 1;
    }
    i
}

/// Index where `cs[from..to]` ends once trailing whitespace is dropped.
pub fn trim_end_ws(cs: &[char], from: usize, to: usize) -> (r: usize)
    requires
        from <= to <= cs@.len(),
    ensures
        from <= r <= to,
        cs@.subrange(from as int, r as int) == trim_end_spec(cs@.subrange(from as int, to as int), ws_pred()),
{
    let mut j = to;
    while j > from && cs[j - 1].is_whitespace()
        invariant
            from <= j <= to <= cs@.len(),
            trim_end_spec(cs@.subrange(from as int, to as int), ws_pred())
                == trim_end_spec(cs@.subrange(from as int, j as int), ws_pred()),
        decreases j - from,
    {
        assert(cs@.subrange(from as int, j as int).drop_last() =~= cs@.subrange(from as int, j - 1));
        j = j - 1;
    }
    j
}

/// Index where `cs[from..to]` starts once leading copies of `x` are skipped.
pub fn trim_start_char(cs: &[char], from: usize, to: usize, x: char) -> (r: usize)
    requires
        from <= to <= cs@.len(),
    ensures
        from <= r <= to,
        cs@.subrange(r as int, to as int) == trim_start_spec(cs@.subrange(from as int, to as int), is_char_pred(x)),
{
    let mut i = from;
    while i < to && cs[i] == x
        invariant
            from <= i <= to <= cs@.len(),
            trim_start_spec(cs@.subrange(from as int, to as int), is_char_pred(x))
                == trim_start_spec(cs@.subrange(i as int, to as int), is_char_pred(x)),
        decreases to - i,
    {
        assert(cs@.subrange(i as int, to as int).drop_first() =~= cs@.subrange(i + 1, to as int));
        i = i + 1;
    }
    i
}

/// Index where `cs[from..to]` ends once trailing copies of `x` are dropped.
pub fn trim_end_char(cs: &[char], from: usize, to: usize, x: char) -> (r: usize)
    requires
        from <= to <= cs@.len(),
    ensures
        from <= r <= to,
        cs@.subrange(from as int, r as int) == trim_end_spec(cs@.subrange(from as int, to as int), is_char_pred(x)),
{
    let mut j = to;
    while j > from && cs[j - 1] == x
        invariant
            from <= j <= to <= cs@.len(),
            trim_end_spec(cs@.subrange(from as int, to as int), is_char_pred(x))
                == trim_end_spec(cs@.subrange(from as int, j as int), is_char_pred(x)),
        decreases j - from,
    {
        assert(cs@.subrange(from as int, j as int).drop_last() =~= cs@.subrange(from as int, j - 1));
        j = j - 1;
    }
    j
}

/// A `String` holding `cs[from..to]`.
pub fn string_from_range(cs: &[char], from: usize, to: usize) -> (s: String)
    requires
        from <= to <= cs@.len(),
    ensures
        s@ == cs@.subrange(from as int, to as int),
{
    let mut s = String::new();
    let mut i: usize = from;
    while i < to
        invariant
            from <= i <= to <= cs@.len(),
            s@ == cs@.subrange(from as int, i as int),
        decreases to - i,
    {
        s.push(cs[i]);
        assert(cs@.subrange(from as int, i + 1) =~= cs@.subrange(from as int, i as int).push(cs@[i as int]));
        i = i + 1;
    }
    s
}

/// Whether `cs[at..]` begins with the characters of `lit`.
pub fn starts_with_at(cs: &[char], at: usize, lit: &[char]) -> (r: bool)
    requires
        at <= cs@.len(),
    ensures
        r == (at + lit@.len() <= cs@.len() && cs@.subrange(at as int, at + lit@.len()) == lit@),
{
    if lit.len() > cs.len() - at {
        return false;
    }
    let mut k: usize = 0;
    while k < lit.len()
        invariant
            at + lit@.len() <= cs@.len(),
            cs@.len() == cs.len(),
            k <= lit@.len(),
            forall|m: int| 0 <= m < k ==> cs@[at + m] == lit@[m],
        decreases lit@.len() - k,
    {
        if cs[at + k] != lit[k] {
            assert(cs@.subrange(at as int, at + lit@.len())[k as int] != lit@[k as int]);
            return false;
        }
        k = k + 1;
    }
    assert(cs@.subrange(at as int, at + lit@.len()) =~= lit@);
    true
}

/// Whether `cs` begins with the characters of `p`.
pub fn has_prefix(cs: &[char], p: &str) -> (r: bool)
    ensures
        r == p@.is_prefix_of(cs@),
{
    let pc = chars_of(p);
    let r = starts_with_at(cs, 0, &pc);
    assert(cs@.subrange(0, 0 + pc@.len() as int) =~= cs@.subrange(0, pc@.len() as int));
    r
}

/// Whether `cs` ends with the characters of `p`.
pub fn has_suffix(cs: &[char], p: &str) -> (r: bool)
    ensures
        r == p@.is_suffix_of(cs@),
{
    let pc = chars_of(p);
    if pc.len() > cs.len() {
        return false;
    }
    let at = cs.len() - pc.len();
    let r = starts_with_at(cs, at, &pc);
    assert(at + pc@.len() == cs@.len());
    r
}

/// `String` equality by characters.
pub fn chars_eq(a: &[char], b: &[char]) -> (r: bool)
    ensures
        r == (a@ == b@),
{
    if a.len() != b.len() {
        return false;
    }
    let r = starts_with_at(a, 0, b);
    assert(a@.subrange(0, 0 + b@.len() as int) =~= a@);
    r
}

/// Whether the characters of `cs` spell out `lit`.
pub fn is_lit(cs: &[char], lit: &str) -> (r: bool)
    ensures
        r == (cs@ == lit@),
{
    let lc = chars_of(lit);
    chars_eq(cs, &lc)
}

/// Whether `cs`, lowercased in ASCII, spells out `lower`.
pub fn eq_ascii_lower(cs: &[char], lower: &str) -> (r: bool)
    ensures
        r == (ascii_lower_seq(cs@) == lower@),
{
    let lc = chars_of(lower);
    if cs.len() != lc.len() {
        return false;
    }
    let mut i: usize = 0;
    while i < cs.len()
        invariant
            i <= cs@.len(),
            cs@.len() == lc@.len(),
            lc@ == lower@,
            forall|k: int| 0 <= k < i ==> ascii_lower(cs@[k]) == lc@[k],
        decreases cs@.len() - i,
    {
        if char_ascii_lower(cs[i]) != lc[i] {
            assert(ascii_lower_seq(cs@)[i as int] != lower@[i as int]);
            return false;
        }
        i = i + 1;
    }
    assert(ascii_lower_seq(cs@) =~= lower@);
    true
}

/// Lexicographic order on characters, a proper prefix coming first.
///
/// Characters compare by scalar value, which is also the order of their
/// UTF-8 bytes, so this is the order `str` comparison gives.
pub open spec fn lex_lt(a: Seq<char>, b: Seq<char>) -> bool
    decreases a.len(),
{
    if a.len() == 0 {
        b.len() > 0
    } else if b.len() == 0 {
        false
    } else if a[0] != b[0] {
        a[0] < b[0]
    } else {
        lex_lt(a.drop_first(), b.drop_first())
    }
}

pub proof fn lemma_lex_lt_irreflexive(a: Seq<char>)
    ensures
        !lex_lt(a, a),
    decreases a.len(),
{
    if a.len() > 0 {
        lemma_lex_lt_irreflexive(a.drop_first());
    }
}

pub proof fn lemma_lex_lt_total(a: Seq<char>, b: Seq<char>)
    ensures
        a == b || lex_lt(a, b) || lex_lt(b, a),
        !(lex_lt(a, b) && lex_lt(b, a)),
    decreases a.len(),
{
    if a.len() > 0 && b.len() > 0 && a[0] == b[0] {
        lemma_lex_lt_total(a.drop_first(), b.drop_first());
        if a.drop_first() == b.drop_first() {
            assert(a =~= seq![a[0]] + a.drop_first());
            assert(b =~= seq![b[0]] + b.drop_first());
        }
    } else if a.len() == 0 && b.len() == 0 {
        assert(a =~= b);
    }
}

pub proof fn lemma_lex_lt_transitive(a: Seq<char>, b: Seq<char>, c: Seq<char>)
    requires
        lex_lt(a, b),
        lex_lt(b, c),
    ensures
        lex_lt(a, c),
    decreases a.len(),
{
    if a.len() > 0 && b.len() > 0 && c.len() > 0 && a[0] == b[0] && b[0] == c[0] {
        lemma_lex_lt_transitive(a.drop_first(), b.drop_first(), c.drop_first());
    }
}

/// Whether `a` sorts strictly before `b`.
pub fn str_lt(a: &str, b: &str) -> (r: bool)
    ensures
        r == lex_lt(a@, b@),
{
    let ac = chars_of(a);
    let bc = chars_of(b);
    let mut i: usize = 0;
    assert(ac@.skip(0) =~= ac@);
    assert(bc@.skip(0) =~= bc@);
    while i < ac.len() && i < bc.len() && ac[i] == bc[i]
        invariant
            i <= ac@.len(),
            i <= bc@.len(),
            lex_lt(a@, b@) == lex_lt(ac@.skip(i as int), bc@.skip(i as int)),
            ac@ == a@,
            bc@ == b@,
        decreases ac@.len() - i,
    {
        assert(ac@.skip(i as int).drop_first() =~= ac@.skip(i + 1));
        assert(bc@.skip(i as int).drop_first() =~= bc@.skip(i + 1));
        i = i + 1;
    }
    if i == ac.len() {
        i < bc.len()
    } else if i == bc.len() {
        false
    } else {
        assert(ac@.skip(i as int)[0] == ac@[i as int]);
        assert(bc@.skip(i as int)[0] == bc@[i as int]);
        ac[i] < bc[i]
    }
}

/// `sub` appears somewhere in `s`.
pub open spec fn contains_sub_spec(s: Seq<char>, sub: Seq<char>) -> bool {
    exists|k: int| 0 <= k && k + sub.len() <= s.len() && #[trigger] s.subrange(k, k + sub.len()) == sub
}

/// Whether `sub` appears somewhere in `s` (`str::contains`).
pub fn contains_sub(s: &str, sub: &str) -> (r: bool)
    ensures
        r == contains_sub_spec(s@, sub@),
{
    let cs = chars_of(s);
    let ss = chars_of(sub);
    if ss.len() > cs.len() {
        return false;
    }
    let last = cs.len() - ss.len();
    let mut k: usize = 0;
    while k <= last
        invariant
            last == cs@.len() - ss@.len(),
            ss@.len() <= cs@.len(),
            cs@ == s@,
            ss@ == sub@,
            forall|x: int| 0 <= x < k ==> #[trigger] cs@.subrange(x, x + ss@.len()) != ss@,
        decreases last + 1 - k,
    {
        if starts_with_at(&cs, k, &ss) {
            return true;
        }
        if k == last {
            assert forall|x: int| 0 <= x && x + sub@.len() <= s@.len() implies #[trigger] s@.subrange(x, x + sub@.len()) != sub@ by {
                assert(x <= last);
            }
            return false;
        }
        k = k + 1;
    }
    false
}

/// String-slice equality by characters.
pub fn str_eq(a: &str, b: &str) -> (r: bool)
    ensures
        r == (a@ == b@),
{
    let ac = chars_of(a);
    let bc = chars_of(b);
    chars_eq(&ac, &bc)
}

/// Whether `x` occurs in `cs[from..to]`.
pub fn contains_char(cs: &[char], from: usize, to: usize, x: char) -> (r: bool)
    requires
        from <= to <= cs@.len(),
    ensures
        r == cs@.subrange(from as int, to as int).contains(x),
{
    let mut i = from;
    while i < to
        invariant
            from <= i <= to <= cs@.len(),
            forall|k: int| from <= k < i ==> cs@[k] != x,
        decreases to - i,
    {
        if cs[i] == x {
            assert(cs@.subrange(from as int, to as int)[i - from] == x);
            return true;
        }
        i = i + 1;
    }
    assert forall|k: int| 0 <= k < to - from implies cs@.subrange(from as int, to as int)[k] != x by {
        assert(cs@[from + k] != x);
    }
    false
}

/// First index at or after `i` where `c` occurs in `s`.
pub open spec fn find_from(s: Seq<char>, c: char, i: int) -> Option<int>
    decreases s.len() - i,
{
    if i < 0 || i >= s.len() {
        None
    } else if s[i] == c {
        Some(i)
    } else {
        find_from(s, c, i + 1)
    }
}

pub proof fn lemma_find_from_bounds(s: Seq<char>, c: char, i: int)
    requires
        0 <= i,
    ensures
        find_from(s, c, i) matches Some(k) ==> i <= k < s.len() && s[k] == c && forall|m: int|
            i <= m < k ==> s[m] != c,
        find_from(s, c, i) is None ==> forall|m: int| i <= m < s.len() ==> s[m] != c,
    decreases s.len() - i,
{
    if i < s.len() && s[i] != c {
        lemma_find_from_bounds(s, c, i + 1);
    }
}

/// `str::split_once(c)`: the text before and after the first `c`.
pub open spec fn split_once_spec(s: Seq<char>, c: char) -> Option<(Seq<char>, Seq<char>)> {
    match find_from(s, c, 0) {
        Some(k) => Some((s.take(k), s.skip(k + 1))),
        None => None,
    }
}

/// First index in `cs[from..to]` holding `x`, relative to the whole slice.
pub fn find_char(cs: &[char], from: usize, to: usize, x: char) -> (r: Option<usize>)
    requires
        from <= to <= cs@.len(),
    ensures
        r matches Some(k) ==> from <= k < to,
        (match r {
            Some(k) => find_from(cs@.subrange(from as int, to as int), x, 0) == Some(k - from),
            None => find_from(cs@.subrange(from as int, to as int), x, 0) is None,
        }),
{
    let ghost sub = cs@.subrange(from as int, to as int);
    let mut i = from;
    while i < to
        invariant
            from <= i <= to <= cs@.len(),
            sub == cs@.subrange(from as int, to as int),
            find_from(sub, x, 0) == find_from(sub, x, i - from),
        decreases to - i,
    {
        if cs[i] == x {
            assert(sub[i - from] == x);
            return Some(i);
        }
        i = i + 1;
    }
    None
}

/// `(a, b)` such that `cs[a..b]` is `cs[from..to]` with surrounding whitespace trimmed.
pub fn trim_ws_range(cs: &[char], from: usize, to: usize) -> (r: (usize, usize))
    requires
        from <= to <= cs@.len(),
    ensures
        from <= r.0 <= r.1 <= to,
        cs@.subrange(r.0 as int, r.1 as int) == trim_ws(cs@.subrange(from as int, to as int)),
{
    let a = trim_start_ws(cs, from, to);
    let b = trim_end_ws(cs, a, to);
    (a, b)
}

/// Whether `cs[from..to]` begins with `p`.
pub fn range_has_prefix(cs: &[char], from: usize, to: usize, p: &str) -> (r: bool)
    requires
        from <= to <= cs@.len(),
    ensures
        r == p@.is_prefix_of(cs@.subrange(from as int, to as int)),
{
    let pc = chars_of(p);
    if pc.len() > to - from {
        return false;
    }
    let r = starts_with_at(cs, from, &pc);
    assert(cs@.subrange(from as int, to as int).subrange(0, pc@.len() as int)
        =~= cs@.subrange(from as int, from + pc@.len()));
    r
}

/// Whether `cs[from..to]` ends with `p`.
pub fn range_has_suffix(cs: &[char], from: usize, to: usize, p: &str) -> (r: bool)
    requires
        from <= to <= cs@.len(),
    ensures
        r == p@.is_suffix_of(cs@.subrange(from as int, to as int)),
{
    let pc = chars_of(p);
    if pc.len() > to - from {
        return false;
    }
    let at = to - pc.len();
    let r = starts_with_at(cs, at, &pc);
    assert(cs@.subrange(from as int, to as int).subrange((to - from - pc@.len()) as int, (to - from) as int)
        =~= cs@.subrange(at as int, at + pc@.len()));
    r
}

} // verus!
