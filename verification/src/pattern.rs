//! Regular-expression matching over rendered HTML, done by the `regex`
//! crate, and the splicing of replacements back into the text.
//!
//! A pattern is matched left to right, non-overlapping; the text between
//! matches is kept as it is and each match is replaced by what the caller
//! renders from its capture groups.

use vstd::prelude::*;

verus! {

/// What `Regex::new(pattern)` and `captures_iter(text)` find: for every
/// match, left to right, the text of each capture group (group 0 being the
/// whole match); `None` when the pattern does not compile.
pub uninterp spec fn regex_captures(pattern: Seq<char>, text: Seq<char>) -> Option<Seq<Seq<Option<Seq<char>>>>>;

/// What `Regex::new(pattern)` and `split(text)` give: the pieces of `text`
/// between successive matches; `None` when the pattern does not compile.
pub uninterp spec fn regex_split(pattern: Seq<char>, text: Seq<char>) -> Option<Seq<Seq<char>>>;

pub open spec fn group_views(m: Seq<Option<String>>) -> Seq<Option<Seq<char>>> {
    m.map_values(|g: Option<String>| match g {
        Some(s) => Some(s@),
        None => None,
    })
}

pub open spec fn captures_view(ms: Seq<Vec<Option<String>>>) -> Seq<Seq<Option<Seq<char>>>> {
    ms.map_values(|m: Vec<Option<String>>| group_views(m@))
}

pub open spec fn string_seqs(v: Seq<String>) -> Seq<Seq<char>> {
    v.map_values(|s: String| s@)
}

/// A capture group's text, empty when the group took no part in the match.
pub open spec fn group(m: Seq<Option<Seq<char>>>, i: int) -> Seq<char> {
    if 0 <= i < m.len() {
        match m[i] {
            Some(s) => s,
            None => Seq::empty(),
        }
    } else {
        Seq::empty()
    }
}

/// The pieces between matches and the pieces standing for them, alternated:
/// `gaps[0] + mids[0] + gaps[1] + ... + gaps[n]`.
pub open spec fn interleave(gaps: Seq<Seq<char>>, mids: Seq<Seq<char>>) -> Seq<char>
    decreases mids.len(),
{
    if mids.len() == 0 {
        if gaps.len() > 0 {
            gaps[0]
        } else {
            Seq::empty()
        }
    } else {
        interleave(gaps.drop_last(), mids.drop_last()) + mids.last() + gaps.last()
    }
}

/// The whole match of each set of captures.
pub open spec fn wholes(ms: Seq<Seq<Option<Seq<char>>>>) -> Seq<Seq<char>> {
    ms.map_values(|m: Seq<Option<Seq<char>>>| group(m, 0))
}

/// `Regex::new(pattern)`, then `captures_iter(text)`, each group's text copied out.
#[verifier::external_body]
fn captures_all(pattern: &str, text: &str) -> (r: Option<Vec<Vec<Option<String>>>>)
    ensures
        match r {
            Some(ms) => regex_captures(pattern@, text@) == Some(captures_view(ms@)),
            None => regex_captures(pattern@, text@) is None,
        },
{
    let re = regex::Regex::new(pattern).ok()?;
    Some(
        re.captures_iter(text)
            .map(|c| c.iter().map(|g| g.map(|m| m.as_str().to_string())).collect())
            .collect(),
    )
}

/// `Regex::new(pattern)`, then `split(text)`, each piece copied out. The
/// pieces are what lies between the matches `captures_iter` reports, so
/// there is one more piece than matches and, alternated with the whole
/// matches, they spell out `text`.
#[verifier::external_body]
fn split_all(pattern: &str, text: &str) -> (r: Option<Vec<String>>)
    ensures
        match r {
            Some(gaps) => {
                &&& regex_split(pattern@, text@) == Some(string_seqs(gaps@))
                &&& regex_captures(pattern@, text@) matches Some(ms) && gaps@.len() == ms.len() + 1
                    && interleave(string_seqs(gaps@), wholes(ms)) == text@
            },
            None => regex_split(pattern@, text@) is None && regex_captures(pattern@, text@) is None,
        },
{
    let re = regex::Regex::new(pattern).ok()?;
    Some(re.split(text).map(|s| s.to_string()).collect())
}

/// The matches of `pattern` in `text` and the text around them; `None`
/// when the pattern does not compile.
pub fn match_pieces(pattern: &str, text: &str) -> (r: Option<(Vec<String>, Vec<Vec<Option<String>>>)>)
    ensures
        match r {
            Some((gaps, ms)) => {
                &&& regex_split(pattern@, text@) == Some(string_seqs(gaps@))
                &&& regex_captures(pattern@, text@) == Some(captures_view(ms@))
                &&& gaps@.len() == ms@.len() + 1
            },
            None => regex_split(pattern@, text@) is None && regex_captures(pattern@, text@) is None,
        },
{
    let gaps = match split_all(pattern, text) {
        Some(g) => g,
        None => return None,
    };
    let ms = match captures_all(pattern, text) {
        Some(m) => m,
        None => return None,
    };
    Some((gaps, ms))
}

/// The text of group `i` of the first match, when there is a match and
/// that group took part in it.
pub open spec fn first_group_spec(ms: Option<Seq<Seq<Option<Seq<char>>>>>, i: int) -> Option<Seq<char>> {
    match ms {
        Some(ms) => if ms.len() > 0 && 0 <= i < ms[0].len() {
            ms[0][i]
        } else {
            None
        },
        None => None,
    }
}

/// The captures of a search as plain values, `None` when the pattern did not compile.
pub open spec fn opt_captures_view(ms: Option<Vec<Vec<Option<String>>>>) -> Option<Seq<Seq<Option<Seq<char>>>>> {
    match ms {
        Some(v) => Some(captures_view(v@)),
        None => None,
    }
}

/// Group `i` of the first match, from what a search found.
pub fn first_group(ms: &Option<Vec<Vec<Option<String>>>>, i: usize) -> (r: Option<String>)
    ensures
        match r {
            Some(g) => first_group_spec(opt_captures_view(*ms), i as int) == Some(g@),
            None => first_group_spec(opt_captures_view(*ms), i as int) is None,
        },
{
    match ms {
        Some(v) => {
            if v.len() > 0 && i < v[0].len() {
                proof {
                    assert(captures_view(v@)[0] == group_views(v@[0]@));
                }
                match &v[0][i] {
                    Some(g) => Some(g.clone()),
                    None => None,
                }
            } else {
                None
            }
        },
        None => None,
    }
}

/// What `Regex::new(pattern)` and `captures_iter(text)` find, as plain values.
pub fn find_captures(pattern: &str, text: &str) -> (r: Option<Vec<Vec<Option<String>>>>)
    ensures
        opt_captures_view(r) == regex_captures(pattern@, text@),
{
    captures_all(pattern, text)
}

/// The text of capture group `i`, empty when it took no part.
pub fn group_text(m: &Vec<Option<String>>, i: usize) -> (r: String)
    ensures
        r@ == group(group_views(m@), i as int),
{
    if i < m.len() {
        match &m[i] {
            Some(s) => s.clone(),
            None => String::new(),
        }
    } else {
        String::new()
    }
}

/// Alternate the pieces between matches with the replacements for them.
pub fn splice(gaps: &Vec<String>, reps: &Vec<String>) -> (r: String)
    requires
        gaps@.len() == reps@.len() + 1,
    ensures
        r@ == interleave(string_seqs(gaps@), string_seqs(reps@)),
{
    let mut out = gaps[0].clone();
    let mut k: usize = 0;
    assert(interleave(string_seqs(gaps@.take(1)), string_seqs(reps@.take(0))) == string_seqs(gaps@.take(1))[0]);
    while k < reps.len()
        invariant
            k <= reps@.len(),
            gaps@.len() == reps@.len() + 1,
            out@ == interleave(string_seqs(gaps@.take(k + 1)), string_seqs(reps@.take(k as int))),
        decreases reps@.len() - k,
    {
        proof {
            let g2 = string_seqs(gaps@.take(k + 2));
            let r2 = string_seqs(reps@.take(k + 1));
            assert(g2.drop_last() =~= string_seqs(gaps@.take(k + 1)));
            assert(r2.drop_last() =~= string_seqs(reps@.take(k as int)));
            assert(g2.last() == gaps@[k + 1]@);
            assert(r2.last() == reps@[k as int]@);
        }
        out.push_str(reps[k].as_str());
        out.push_str(gaps[k + 1].as_str());
        k = k + 1;
    }
    assert(gaps@.take(reps@.len() as int + 1) =~= gaps@);
    assert(reps@.take(reps@.len() as int) =~= reps@);
    out
}

} // verus!
