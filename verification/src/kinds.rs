//! Which `@kind`s the book publishes.
//!
//! One ordered list of patterns does both an allow list and a deny list, the
//! way `.gitignore` does: `["*", "!config", "!index"]` is everything but those
//! two, `["page", "unit"]` is only those. Kinds are a flat set of names, so the
//! last rule that matches simply wins.

use vstd::prelude::*;

use crate::slug::split_spec;
use crate::text::{chars_of, find_char, find_from, lemma_find_from_bounds};

verus! {

/// First index at or after `k` where `m` occurs in `r`.
pub open spec fn occ_from(r: Seq<char>, m: Seq<char>, k: int) -> Option<int>
    decreases r.len() + 1 - k,
{
    if k < 0 || k + m.len() > r.len() {
        None
    } else if r.subrange(k, k + m.len()) == m {
        Some(k)
    } else {
        occ_from(r, m, k + 1)
    }
}

pub open spec fn occurs_at(r: Seq<char>, m: Seq<char>, k: int) -> bool {
    0 <= k && k + m.len() <= r.len() && r.subrange(k, k + m.len()) == m
}

/// What `occ_from` finds: the first occurrence at or after `k`, if any.
pub proof fn lemma_occ_from(r: Seq<char>, m: Seq<char>, k: int)
    requires
        0 <= k,
    ensures
        occ_from(r, m, k) matches Some(j) ==> k <= j && occurs_at(r, m, j) && forall|x: int|
            k <= x < j ==> !occurs_at(r, m, x),
        occ_from(r, m, k) is None ==> forall|x: int| k <= x ==> !occurs_at(r, m, x),
    decreases r.len() + 1 - k,
{
    if k + m.len() <= r.len() && r.subrange(k, k + m.len()) != m {
        lemma_occ_from(r, m, k + 1);
    }
}

/// Does `r` match the pieces `parts[i..]` when a `*` stands just before them?
/// Each piece must occur somewhere after the previous one, and the last must
/// end the name.
pub open spec fn rest_matches(parts: Seq<Seq<char>>, i: int, r: Seq<char>) -> bool
    decreases parts.len() - i, 
{
    if i < 1 || i >= parts.len() {
        false
    } else if i == parts.len() - 1 {
        parts[i].is_suffix_of(r)
    } else {
        exists|k: int| #[trigger] occurs_at(r, parts[i], k) && rest_matches(parts, i + 1, r.skip(k + parts[i].len()))
    }
}

/// Glob matching where `*` stands for any run of characters, including none:
/// the pieces between the stars must appear in order, the first at the start
/// of the name and the last at its end.
pub open spec fn glob_matches_spec(pattern: Seq<char>, name: Seq<char>) -> bool {
    let parts = split_spec(pattern, '*');
    &&& parts.len() >= 1
    &&& parts[0].is_prefix_of(name)
    &&& if parts.len() == 1 {
        name.len() == parts[0].len()
    } else {
        rest_matches(parts, 1, name.skip(parts[0].len() as int))
    }
}

/// A match that works from some point on works from any earlier point too:
/// the star in front absorbs the extra characters.
proof fn lemma_rest_matches_earlier(parts: Seq<Seq<char>>, i: int, r: Seq<char>, j: int, jj: int)
    requires
        1 <= i < parts.len(),
        0 <= jj <= j <= r.len(),
        rest_matches(parts, i, r.skip(j)),
    ensures
        rest_matches(parts, i, r.skip(jj)),
    decreases parts.len() - i,
{
    if i == parts.len() - 1 {
        assert(r.skip(jj).subrange(r.skip(jj).len() - parts[i].len(), r.skip(jj).len() as int)
            =~= r.skip(j).subrange(r.skip(j).len() - parts[i].len(), r.skip(j).len() as int));
    } else {
        let k = choose|k: int| #[trigger] occurs_at(r.skip(j), parts[i], k) && rest_matches(parts, i + 1, r.skip(j).skip(k + parts[i].len()));
        let k2 = k + (j - jj);
        assert(r.skip(jj).subrange(k2, k2 + parts[i].len()) =~= r.skip(j).subrange(k, k + parts[i].len()));
        assert(occurs_at(r.skip(jj), parts[i], k2));
        assert(r.skip(jj).skip(k2 + parts[i].len()) =~= r.skip(j).skip(k + parts[i].len()));
    }
}

/// Picking the leftmost occurrence of a middle piece loses nothing.
proof fn lemma_leftmost_suffices(parts: Seq<Seq<char>>, i: int, r: Seq<char>)
    requires
        1 <= i < parts.len() - 1,
    ensures
        rest_matches(parts, i, r) <==> match occ_from(r, parts[i], 0) {
            Some(k) => rest_matches(parts, i + 1, r.skip(k + parts[i].len())),
            None => false,
        },
{
    lemma_occ_from(r, parts[i], 0);
    if rest_matches(parts, i, r) {
        let k = choose|k: int| #[trigger] occurs_at(r, parts[i], k) && rest_matches(parts, i + 1, r.skip(k + parts[i].len()));
        let k0 = occ_from(r, parts[i], 0).unwrap();
        assert(k0 <= k);
        assert(r.skip(k + parts[i].len()) =~= r.skip(k0 + parts[i].len()).skip(k - k0));
        lemma_rest_matches_earlier(parts, i + 1, r.skip(k0 + parts[i].len()), k - k0, 0);
        assert(r.skip(k0 + parts[i].len()).skip(0) =~= r.skip(k0 + parts[i].len()));
    } else {
        if let Some(k0) = occ_from(r, parts[i], 0) {
            assert(occurs_at(r, parts[i], k0));
        }
    }
}

/// The pieces of `cs` between `*`s, as `split_spec` gives them.
fn split_stars(cs: &[char]) -> (parts: Vec<Vec<char>>)
    ensures
        parts@.map_values(|v: Vec<char>| v@) == split_spec(cs@, '*'),
{
    let n = cs.len();
    let mut parts: Vec<Vec<char>> = Vec::new();
    let mut i: usize = 0;
    assert(cs@.skip(0) =~= cs@);
    loop
        invariant_except_break
            i <= n,
            n == cs@.len(),
            parts@.map_values(|v: Vec<char>| v@) + split_spec(cs@.skip(i as int), '*') == split_spec(cs@, '*'),
        ensures
            parts@.map_values(|v: Vec<char>| v@) == split_spec(cs@, '*'),
        decreases n - i,
    {
        let ghost rest = cs@.skip(i as int);
        assert(cs@.subrange(i as int, n as int) =~= rest);
        let ghost old_parts = parts@;
        match find_char(cs, i, n, '*') {
            Some(k) => {
                proof {
                    lemma_find_from_bounds(rest, '*', 0);
                }
                let mut piece: Vec<char> = Vec::new();
                let mut t = i;
                while t < k
                    invariant
                        i <= t <= k <= n,
                        n == cs@.len(),
                        piece@ == cs@.subrange(i as int, t as int),
                    decreases k - t,
                {
                    piece.push(cs[t]);
                    assert(cs@.subrange(i as int, t + 1) =~= cs@.subrange(i as int, t as int).push(cs@[t as int]));
                    t = t + 1;
                }
                parts.push(piece);
                assert(split_spec(rest, '*') == seq![rest.take(k - i)] + split_spec(rest.skip(k - i + 1), '*'));
                assert(rest.take(k - i) =~= cs@.subrange(i as int, k as int));
                assert(rest.skip(k - i + 1) =~= cs@.skip(k + 1));
                assert(parts@.map_values(|v: Vec<char>| v@) =~= old_parts.map_values(|v: Vec<char>| v@) + seq![cs@.subrange(i as int, k as int)]);
                i = k + 1;
            },
            None => {
                let mut piece: Vec<char> = Vec::new();
                let mut t = i;
                while t < n
                    invariant
                        i <= t <= n,
                        n == cs@.len(),
                        piece@ == cs@.subrange(i as int, t as int),
                    decreases n - t,
                {
                    piece.push(cs[t]);
                    assert(cs@.subrange(i as int, t + 1) =~= cs@.subrange(i as int, t as int).push(cs@[t as int]));
                    t = t + 1;
                }
                parts.push(piece);
                assert(split_spec(rest, '*') == seq![rest]);
                assert(parts@.map_values(|v: Vec<char>| v@) =~= old_parts.map_values(|v: Vec<char>| v@) + seq![rest]);
                break;
            },
        }
    }
    parts
}

/// Leftmost index in `hay[from..]` where `m` occurs, relative to the whole of `hay`.
pub(crate) fn find_sub(hay: &[char], from: usize, m: &[char]) -> (r: Option<usize>)
    requires
        from <= hay@.len(),
    ensures
        match r {
            Some(k) => from <= k && occ_from(hay@.skip(from as int), m@, 0) == Some(k - from),
            None => occ_from(hay@.skip(from as int), m@, 0) is None,
        },
{
    let ghost r0 = hay@.skip(from as int);
    if m.len() > hay.len() {
        return None;
    }
    let last = hay.len() - m.len();
    let mut k = from;
    while k <= last
        invariant
            from <= k,
            last == hay@.len() - m@.len(),
            m@.len() <= hay@.len(),
            hay@.len() == hay.len(),
            occ_from(r0, m@, 0) == occ_from(r0, m@, k - from),
            r0 == hay@.skip(from as int),
        decreases hay@.len() + 1 - k,
    {
        if crate::text::starts_with_at(hay, k, m) {
            assert(r0.subrange(k - from, k - from + m@.len()) =~= hay@.subrange(k as int, k + m@.len()));
            return Some(k);
        }
        assert(r0.subrange(k - from, k - from + m@.len()) =~= hay@.subrange(k as int, k + m@.len()));
        assert(occ_from(r0, m@, k - from) == occ_from(r0, m@, k - from + 1));
        if k == last {
            assert(occ_from(r0, m@, k - from + 1) is None);
            return None;
        }
        k = k + 1;
    }
    None
}

/// `*` stands for any run of characters, including none.
pub fn glob_matches(pattern: &str, name: &str) -> (r: bool)
    ensures
        r == glob_matches_spec(pattern@, name@),
{
    let pc = chars_of(pattern);
    let nc = chars_of(name);
    let parts = split_stars(&pc);
    let ghost ps = parts@.map_values(|v: Vec<char>| v@);
    assert(ps.len() >= 1) by {
        assert(split_spec(pattern@, '*').len() >= 1);
    }
    let first = &parts[0];
    if !crate::text::starts_with_at(&nc, 0, first) {
        assert(!ps[0].is_prefix_of(name@)) by {
            if ps[0].is_prefix_of(name@) {
                assert(nc@.subrange(0, 0 + first@.len() as int) =~= nc@.subrange(0, ps[0].len() as int));
            }
        }
        return false;
    }
    assert(ps[0].is_prefix_of(name@)) by {
        assert(nc@.subrange(0, 0 + first@.len() as int) =~= nc@.subrange(0, ps[0].len() as int));
    }
    let nlen = nc.len();
    let mut pos = first.len();
    if parts.len() == 1 {
        return pos == nc.len();
    }
    let mut i: usize = 1;
    while i < parts.len() - 1
        invariant
            1 <= i < parts@.len(),
            ps == parts@.map_values(|v: Vec<char>| v@),
            ps == split_spec(pattern@, '*'),
            pos <= nc@.len(),
            nlen == nc@.len(),
            nc@ == name@,
            rest_matches(ps, 1, name@.skip(ps[0].len() as int)) == rest_matches(ps, i as int, nc@.skip(pos as int)),
        decreases parts@.len() - i,
    {
        proof {
            lemma_leftmost_suffices(ps, i as int, nc@.skip(pos as int));
        }
        proof {
            lemma_occ_from(nc@.skip(pos as int), ps[i as int], 0);
            assert(ps[i as int] == parts@[i as int]@);
        }
        match find_sub(&nc, pos, &parts[i]) {
            Some(k) => {
                assert(occurs_at(nc@.skip(pos as int), ps[i as int], k - pos));
                let plen = parts[i].len();
                assert(k + plen <= nlen);
                assert(nc@.skip(pos as int).skip(k - pos + ps[i as int].len()) =~= nc@.skip(k + parts[i as int]@.len()));
                pos = k + plen;
            },
            None => {
                return false;
            },
        }
        i = i + 1;
    }
    let tail = &parts[i];
    if tail.len() > nc.len() - pos {
        return false;
    }
    let at = nc.len() - tail.len();
    let r = crate::text::starts_with_at(&nc, at, tail);
    assert(nc@.skip(pos as int).subrange(nc@.skip(pos as int).len() - ps[i as int].len(), nc@.skip(pos as int).len() as int)
        =~= nc@.subrange(at as int, at + tail@.len()));
    r
}

/// The verdict the patterns give a kind name: that of the last pattern that
/// matches it (`!` negates), or `false` when none does.
pub open spec fn verdict_spec(name: Seq<char>, patterns: Seq<Seq<char>>) -> bool
    decreases patterns.len(),
{
    if patterns.len() == 0 {
        false
    } else {
        let p = patterns.last();
        let negated = p.len() > 0 && p[0] == '!';
        let glob = if negated { p.skip(1) } else { p };
        if glob_matches_spec(glob, name) {
            !negated
        } else {
            verdict_spec(name, patterns.drop_last())
        }
    }
}

pub open spec fn kind_name(kind: Option<Seq<char>>) -> Seq<char> {
    match kind {
        Some(k) => k,
        None => Seq::empty(),
    }
}

pub open spec fn publishes_spec(kind: Option<Seq<char>>, patterns: Seq<Seq<char>>) -> bool {
    verdict_spec(kind_name(kind), patterns)
}

/// True when a document of this kind belongs in the book.
///
/// `kind` is `None` for a document that never declared one; it is matched as
/// the empty name, so only patterns like `*` reach it. A document no pattern
/// matches is left out.
pub fn publishes(kind: Option<&str>, patterns: &[String]) -> (r: bool)
    ensures
        r == publishes_spec(
            match kind {
                Some(k) => Some(k@),
                None => None,
            },
            patterns@.map_values(|p: String| p@),
        ),
{
    let name: &str = match kind {
        Some(k) => k,
        None => "",
    };
    proof {
        reveal_strlit("");
    }
    let ghost ps = patterns@.map_values(|p: String| p@);
    let mut verdict = false;
    let mut i: usize = 0;
    while i < patterns.len()
        invariant
            i <= patterns@.len(),
            ps == patterns@.map_values(|p: String| p@),
            verdict == verdict_spec(name@, ps.take(i as int)),
        decreases patterns@.len() - i,
    {
        assert(ps.take(i + 1).drop_last() =~= ps.take(i as int));
        let pc = chars_of(patterns[i].as_str());
        let n = pc.len();
        let negated = n > 0 && pc[0] == '!';
        let start: usize = if negated { 1 } else { 0 };
        let glob = crate::text::string_from_range(&pc, start, n);
        assert(pc@.subrange(start as int, n as int) =~= (if negated { ps[i as int].skip(1) } else { ps[i as int] }));
        if glob_matches(glob.as_str(), name) {
            verdict = !negated;
        }
        i = i + 1;
    }
    assert(ps.take(patterns@.len() as int) =~= ps);
    assert(name@ =~= kind_name(
        match kind {
            Some(k) => Some(k@),
            None => None,
        },
    ));
    verdict
}

/// The last matching rule wins: when pattern `j` matches and no later one
/// does, the verdict is pattern `j`'s own.
pub proof fn lemma_last_matching_rule_wins(name: Seq<char>, patterns: Seq<Seq<char>>, j: int)
    requires
        0 <= j < patterns.len(),
        ({
            let p = patterns[j];
            let negated = p.len() > 0 && p[0] == '!';
            glob_matches_spec(if negated { p.skip(1) } else { p }, name)
        }),
        forall|x: int| j < x < patterns.len() ==> {
            let p = #[trigger] patterns[x];
            let negated = p.len() > 0 && p[0] == '!';
            !glob_matches_spec(if negated { p.skip(1) } else { p }, name)
        },
    ensures
        verdict_spec(name, patterns) == !(patterns[j].len() > 0 && patterns[j][0] == '!'),
    decreases patterns.len(),
{
    if j < patterns.len() - 1 {
        let q = patterns.drop_last();
        assert(patterns[patterns.len() - 1] == patterns.last());
        assert forall|x: int| j < x < q.len() implies {
            let p = #[trigger] q[x];
            let negated = p.len() > 0 && p[0] == '!';
            !glob_matches_spec(if negated { p.skip(1) } else { p }, name)
        } by {
            assert(q[x] == patterns[x]);
        }
        lemma_last_matching_rule_wins(name, q, j);
    }
}

/// A kind no pattern matches is left out.
pub proof fn lemma_unmatched_is_left_out(name: Seq<char>, patterns: Seq<Seq<char>>)
    requires
        forall|x: int| 0 <= x < patterns.len() ==> {
            let p = #[trigger] patterns[x];
            let negated = p.len() > 0 && p[0] == '!';
            !glob_matches_spec(if negated { p.skip(1) } else { p }, name)
        },
    ensures
        !verdict_spec(name, patterns),
    decreases patterns.len(),
{
    if patterns.len() > 0 {
        let q = patterns.drop_last();
        assert(patterns[patterns.len() - 1] == patterns.last());
        assert forall|x: int| 0 <= x < q.len() implies {
            let p = #[trigger] q[x];
            let negated = p.len() > 0 && p[0] == '!';
            !glob_matches_spec(if negated { p.skip(1) } else { p }, name)
        } by {
            assert(q[x] == patterns[x]);
        }
        lemma_unmatched_is_left_out(name, q);
    }
}

} // verus!
