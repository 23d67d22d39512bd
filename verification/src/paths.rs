//! File-system paths as `/`-separated strings: their components, prefixes,
//! names and extensions.
//!
//! Empty components (from `//` or a trailing `/`) are ignored, as `Path`
//! ignores them; `.` and `..` get no special treatment, which is exact for
//! the canonical paths the program hands over.

use vstd::prelude::*;

use crate::slug::{join_spec, join_with_slash, keep_nonempty, split_spec, string_views};
use crate::text::{chars_of, find_char, lemma_find_from_bounds, str_eq, string_from_range};

verus! {

/// The components of a path, empty ones dropped.
pub open spec fn path_parts(p: Seq<char>) -> Seq<Seq<char>> {
    keep_nonempty(split_spec(p, '/'))
}

pub open spec fn is_absolute(p: Seq<char>) -> bool {
    p.len() > 0 && p[0] == '/'
}

/// `base` is `p` itself or one of its ancestors, whole components at a time.
pub open spec fn path_starts_with_spec(p: Seq<char>, base: Seq<char>) -> bool {
    is_absolute(p) == is_absolute(base) && path_parts(base).is_prefix_of(path_parts(p))
}

/// What is left of `p` below `base`, when `base` is an ancestor of it.
pub open spec fn strip_prefix_spec(p: Seq<char>, base: Seq<char>) -> Option<Seq<char>> {
    if path_starts_with_spec(p, base) {
        Some(join_spec(path_parts(p).skip(path_parts(base).len() as int), "/"@))
    } else {
        None
    }
}

/// The last component, unless the path ends in `..` or has none.
pub open spec fn file_name_spec(p: Seq<char>) -> Option<Seq<char>> {
    let parts = path_parts(p);
    if parts.len() > 0 && parts.last() != ".."@ {
        Some(parts.last())
    } else {
        None
    }
}

/// The last index of `c` in `s`, if any.
pub open spec fn last_index_of(s: Seq<char>, c: char) -> Option<int>
    decreases s.len(),
{
    if s.len() == 0 {
        None
    } else if s.last() == c {
        Some(s.len() - 1)
    } else {
        last_index_of(s.drop_last(), c)
    }
}

/// The text after a file name's last `.`, unless that dot starts the name
/// (`.bashrc` has no extension) or the name is `..`.
pub open spec fn extension_spec(name: Seq<char>) -> Option<Seq<char>> {
    if name == ".."@ {
        None
    } else {
        match last_index_of(name, '.') {
            Some(k) => if k > 0 {
                Some(name.skip(k + 1))
            } else {
                None
            },
            None => None,
        }
    }
}

/// A file name without its extension (`Path::file_stem`).
pub open spec fn file_stem_spec(p: Seq<char>) -> Option<Seq<char>> {
    match file_name_spec(p) {
        Some(n) => match last_index_of(n, '.') {
            Some(k) => if k > 0 {
                Some(n.take(k))
            } else {
                Some(n)
            },
            None => Some(n),
        },
        None => None,
    }
}

proof fn lemma_parts_step(s: Seq<char>, k: int)
    requires
        crate::text::find_from(s, '/', 0) == Some(k),
        0 <= k < s.len(),
    ensures
        path_parts(s) == (if k > 0 { seq![s.take(k)] } else { Seq::empty() }) + path_parts(s.skip(k + 1)),
{
    let parts = split_spec(s, '/');
    assert(parts == seq![s.take(k)] + split_spec(s.skip(k + 1), '/'));
    assert(parts.drop_first() =~= split_spec(s.skip(k + 1), '/'));
    assert(parts[0] == s.take(k));
    if k == 0 {
        assert(Seq::<Seq<char>>::empty() + path_parts(s.skip(k + 1)) =~= path_parts(s.skip(k + 1)));
    }
}

proof fn lemma_parts_last(s: Seq<char>)
    requires
        crate::text::find_from(s, '/', 0) is None,
    ensures
        path_parts(s) == (if s.len() > 0 { seq![s] } else { Seq::empty() }),
{
    let parts = split_spec(s, '/');
    assert(parts == seq![s]);
    assert(parts.drop_first() =~= Seq::<Seq<char>>::empty());
    assert(keep_nonempty(Seq::<Seq<char>>::empty()) =~= Seq::<Seq<char>>::empty());
    if s.len() > 0 {
        assert(keep_nonempty(parts) =~= seq![s]);
    } else {
        assert(keep_nonempty(parts) =~= Seq::<Seq<char>>::empty());
    }
}

/// The components of `p`.
pub fn split_path(p: &str) -> (r: Vec<String>)
    ensures
        string_views(r@) == path_parts(p@),
{
    let cs = chars_of(p);
    let n = cs.len();
    let mut parts: Vec<String> = Vec::new();
    let mut i: usize = 0;
    assert(cs@.skip(0) =~= cs@);
    loop
        invariant_except_break
            i <= n,
            n == cs@.len(),
            cs@ == p@,
            string_views(parts@) + path_parts(cs@.skip(i as int)) == path_parts(p@),
        ensures
            string_views(parts@) == path_parts(p@),
        decreases n - i,
    {
        let ghost rest = cs@.skip(i as int);
        assert(cs@.subrange(i as int, n as int) =~= rest);
        let ghost old_parts = parts@;
        match find_char(&cs, i, n, '/') {
            Some(k) => {
                proof {
                    lemma_find_from_bounds(rest, '/', 0);
                    lemma_parts_step(rest, k - i);
                    assert(rest.skip(k - i + 1) =~= cs@.skip(k + 1));
                    assert(rest.take(k - i) =~= cs@.subrange(i as int, k as int));
                }
                if k > i {
                    let seg = string_from_range(&cs, i, k);
                    parts.push(seg);
                    assert(string_views(parts@) =~= string_views(old_parts) + seq![seg@]);
                } else {
                    assert(Seq::<Seq<char>>::empty() + path_parts(cs@.skip(k + 1)) =~= path_parts(cs@.skip(k + 1)));
                }
                i = k + 1;
            },
            None => {
                proof {
                    lemma_parts_last(rest);
                }
                if i < n {
                    let seg = string_from_range(&cs, i, n);
                    parts.push(seg);
                    assert(string_views(parts@) =~= string_views(old_parts) + seq![seg@]);
                } else {
                    assert(string_views(parts@) + Seq::<Seq<char>>::empty() =~= string_views(parts@));
                }
                break;
            },
        }
    }
    parts
}

fn starts_with_slash(p: &str) -> (r: bool)
    ensures
        r == is_absolute(p@),
{
    let cs = chars_of(p);
    cs.len() > 0 && cs[0] == '/'
}

/// Whether the components of `base` begin those of `parts`.
fn parts_prefix(base: &Vec<String>, parts: &Vec<String>) -> (r: bool)
    ensures
        r == string_views(base@).is_prefix_of(string_views(parts@)),
{
    let ghost bv = string_views(base@);
    let ghost pv = string_views(parts@);
    if base.len() > parts.len() {
        return false;
    }
    let mut i: usize = 0;
    while i < base.len()
        invariant
            i <= base@.len() <= parts@.len(),
            bv == string_views(base@),
            pv == string_views(parts@),
            forall|k: int| 0 <= k < i ==> bv[k] == pv[k],
        decreases base@.len() - i,
    {
        if !str_eq(base[i].as_str(), parts[i].as_str()) {
            assert(bv[i as int] != pv[i as int]);
            return false;
        }
        i = i + 1;
    }
    assert(bv =~= pv.take(bv.len() as int));
    true
}

/// Whether `base` is `p` or an ancestor of it (`Path::starts_with`).
pub fn path_starts_with(p: &str, base: &str) -> (r: bool)
    ensures
        r == path_starts_with_spec(p@, base@),
{
    if starts_with_slash(p) != starts_with_slash(base) {
        return false;
    }
    let pp = split_path(p);
    let bp = split_path(base);
    parts_prefix(&bp, &pp)
}

/// What is left of `p` below `base` (`Path::strip_prefix`), joined with `/`.
pub fn path_strip_prefix(p: &str, base: &str) -> (r: Option<String>)
    ensures
        r is Some <==> strip_prefix_spec(p@, base@) is Some,
        r matches Some(s) ==> strip_prefix_spec(p@, base@) == Some(s@),
{
    if !path_starts_with(p, base) {
        return None;
    }
    let pp = split_path(p);
    let bp = split_path(base);
    let mut rest: Vec<String> = Vec::new();
    let mut i = bp.len();
    proof {
        assert(string_views(bp@).is_prefix_of(string_views(pp@)));
    }
    while i < pp.len()
        invariant
            bp@.len() <= i <= pp@.len(),
            string_views(rest@) == string_views(pp@).subrange(bp@.len() as int, i as int),
        decreases pp@.len() - i,
    {
        let ghost before = rest@;
        let c = pp[i].clone();
        rest.push(c);
        assert(string_views(rest@) =~= string_views(before).push(c@));
        assert(string_views(pp@).subrange(bp@.len() as int, i + 1) =~= string_views(pp@).subrange(bp@.len() as int, i as int).push(string_views(pp@)[i as int]));
        i = i + 1;
    }
    assert(string_views(pp@).subrange(bp@.len() as int, pp@.len() as int) =~= string_views(pp@).skip(bp@.len() as int));
    Some(join_with_slash(&rest))
}

/// The last component of `p` (`Path::file_name`).
pub fn file_name(p: &str) -> (r: Option<String>)
    ensures
        r is Some <==> file_name_spec(p@) is Some,
        r matches Some(s) ==> file_name_spec(p@) == Some(s@),
{
    let parts = split_path(p);
    if parts.len() == 0 {
        return None;
    }
    let last = &parts[parts.len() - 1];
    if str_eq(last.as_str(), "..") {
        None
    } else {
        Some(last.clone())
    }
}

fn last_dot(cs: &Vec<char>) -> (r: Option<usize>)
    ensures
        match r {
            Some(k) => last_index_of(cs@, '.') == Some(k as int) && k < cs@.len(),
            None => last_index_of(cs@, '.') is None,
        },
{
    let mut k = cs.len();
    assert(cs@.take(k as int) =~= cs@);
    while k > 0 && cs[k - 1] != '.'
        invariant
            k <= cs@.len(),
            last_index_of(cs@, '.') == last_index_of(cs@.take(k as int), '.'),
        decreases k,
    {
        assert(cs@.take(k as int).drop_last() =~= cs@.take(k - 1));
        k = k - 1;
    }
    if k == 0 {
        assert(last_index_of(cs@.take(0), '.') is None);
        None
    } else {
        assert(cs@.take(k as int).last() == '.');
        Some(k - 1)
    }
}

/// The file name of `p` without its extension (`Path::file_stem`).
pub fn file_stem(p: &str) -> (r: Option<String>)
    ensures
        r is Some <==> file_stem_spec(p@) is Some,
        r matches Some(s) ==> file_stem_spec(p@) == Some(s@),
{
    match file_name(p) {
        Some(n) => {
            let cs = chars_of(n.as_str());
            match last_dot(&cs) {
                Some(k) => {
                    if k > 0 {
                        assert(cs@.subrange(0, k as int) =~= n@.take(k as int));
                        Some(string_from_range(&cs, 0, k))
                    } else {
                        Some(n)
                    }
                },
                None => Some(n),
            }
        },
        None => None,
    }
}

/// The extension of a file name (`Path::extension`).
pub fn extension(name: &str) -> (r: Option<String>)
    ensures
        r is Some <==> extension_spec(name@) is Some,
        r matches Some(s) ==> extension_spec(name@) == Some(s@),
{
    if str_eq(name, "..") {
        return None;
    }
    let cs = chars_of(name);
    let mut k = cs.len();
    assert(cs@.take(k as int) =~= cs@);
    while k > 0 && cs[k - 1] != '.'
        invariant
            k <= cs@.len(),
            cs@ == name@,
            last_index_of(name@, '.') == last_index_of(cs@.take(k as int), '.'),
        decreases k,
    {
        assert(cs@.take(k as int).drop_last() =~= cs@.take(k - 1));
        k = k - 1;
    }
    if k == 0 {
        assert(last_index_of(cs@.take(0), '.') is None);
        return None;
    }
    assert(cs@.take(k as int).last() == '.');
    if k - 1 == 0 {
        return None;
    }
    assert(cs@.subrange(k as int, cs@.len() as int) =~= name@.skip(k as int));
    Some(string_from_range(&cs, k, cs.len()))
}

} // verus!
