//! The link targets a page's `@meta` may name, which the vault is asked to
//! resolve before the metadata is read.

use vstd::prelude::*;

use crate::links::{link_ref_ok, link_ref_parses};
use crate::meta::value::{lookup_targets, lookup_targets_spec, MetaValue};
use crate::slug::string_views;
use crate::text::str_eq;

verus! {

/// Every text in a value, depth first, in the order written.
pub open spec fn texts_of(v: MetaValue) -> Seq<Seq<char>>
    decreases v, 1nat,
{
    match v {
        MetaValue::Text(s) => seq![s@],
        MetaValue::Array(items) => texts_of_values(items@),
        MetaValue::Object(entries) => texts_of_entries(entries@),
        _ => Seq::empty(),
    }
}

/// Every text in a list of values, in order.
pub open spec fn texts_of_values(items: Seq<MetaValue>) -> Seq<Seq<char>>
    decreases items, 0nat,
{
    if items.len() == 0 {
        Seq::empty()
    } else {
        texts_of_values(items.drop_last()) + texts_of(items.last())
    }
}

/// Every text in the values of an object's entries, in order.
pub open spec fn texts_of_entries(entries: Seq<(String, MetaValue)>) -> Seq<Seq<char>>
    decreases entries, 0nat,
{
    if entries.len() == 0 {
        Seq::empty()
    } else {
        texts_of_entries(entries.drop_last()) + texts_of(entries.last().1)
    }
}

/// The targets one text may need: those link parsing reads out of it, when
/// it can, then the text itself.
pub open spec fn targets_of_text(t: Seq<char>) -> Seq<Seq<char>> {
    if link_ref_parses(t) {
        lookup_targets_spec(t).push(t)
    } else {
        seq![t]
    }
}

/// The targets of each text in turn.
pub open spec fn targets_of_texts(ts: Seq<Seq<char>>) -> Seq<Seq<char>>
    decreases ts.len(),
{
    if ts.len() == 0 {
        Seq::empty()
    } else {
        targets_of_texts(ts.drop_last()) + targets_of_text(ts.last())
    }
}

/// `s` with every repeat after the first dropped.
pub open spec fn first_occurrences(s: Seq<Seq<char>>) -> Seq<Seq<char>>
    decreases s.len(),
{
    if s.len() == 0 {
        Seq::empty()
    } else {
        let d = first_occurrences(s.drop_last());
        if d.contains(s.last()) {
            d
        } else {
            d.push(s.last())
        }
    }
}

/// The targets a page's metadata may name, each once, in the order first met.
pub open spec fn meta_targets_spec(meta: Option<MetaValue>) -> Seq<Seq<char>> {
    match meta {
        Some(v) => first_occurrences(targets_of_texts(texts_of(v))),
        None => Seq::empty(),
    }
}

fn collect_texts(v: &MetaValue, out: &mut Vec<String>)
    ensures
        string_views(final(out)@) == string_views(old(out)@) + texts_of(*v),
    decreases *v,
{
    match v {
        MetaValue::Text(s) => {
            let ghost before = string_views(out@);
            out.push(s.clone());
            assert(string_views(out@) =~= before + seq![s@]);
        },
        MetaValue::Array(items) => {
            let ghost start = string_views(out@);
            let mut i: usize = 0;
            assert(items@.take(0) =~= Seq::<MetaValue>::empty());
            while i < items.len()
                invariant
                    i <= items@.len(),
                    *v == MetaValue::Array(*items),
                    string_views(out@) == start + texts_of_values(items@.take(i as int)),
                decreases items@.len() - i,
            {
                assert(items@.take(i + 1).drop_last() =~= items@.take(i as int));
                assert(decreases_to!(*v => (*v)->Array_0));
                assert((*v)->Array_0 == *items);
                assert(decreases_to!(*items => items@));
                assert(decreases_to!(items@ => items@[i as int]));
                assert(decreases_to!(*v => items@[i as int]));
                collect_texts(&items[i], out);
                assert(start + texts_of_values(items@.take(i as int)) + texts_of(items@[i as int]) =~= start
                    + texts_of_values(items@.take(i + 1)));
                i = i + 1;
            }
            assert(items@.take(items@.len() as int) =~= items@);
        },
        MetaValue::Object(entries) => {
            let ghost start = string_views(out@);
            let mut i: usize = 0;
            assert(entries@.take(0) =~= Seq::<(String, MetaValue)>::empty());
            while i < entries.len()
                invariant
                    i <= entries@.len(),
                    *v == MetaValue::Object(*entries),
                    string_views(out@) == start + texts_of_entries(entries@.take(i as int)),
                decreases entries@.len() - i,
            {
                assert(entries@.take(i + 1).drop_last() =~= entries@.take(i as int));
                assert(decreases_to!(*v => (*v)->Object_0));
                assert((*v)->Object_0 == *entries);
                assert(decreases_to!(*entries => entries@));
                assert(decreases_to!(entries@ => entries@[i as int]));
                assert(decreases_to!(entries@[i as int] => entries@[i as int].1));
                assert(decreases_to!(*v => entries@[i as int].1));
                collect_texts(&entries[i].1, out);
                assert(start + texts_of_entries(entries@.take(i as int)) + texts_of(entries@[i as int].1) =~= start
                    + texts_of_entries(entries@.take(i + 1)));
                i = i + 1;
            }
            assert(entries@.take(entries@.len() as int) =~= entries@);
        },
        _ => {
            assert(string_views(out@) =~= string_views(out@) + Seq::<Seq<char>>::empty());
        },
    }
}

fn contains_text(v: &Vec<String>, s: &str) -> (r: bool)
    ensures
        r == string_views(v@).contains(s@),
{
    let ghost vs = string_views(v@);
    let mut i: usize = 0;
    while i < v.len()
        invariant
            i <= v@.len(),
            vs == string_views(v@),
            forall|k: int| 0 <= k < i ==> vs[k] != s@,
        decreases v@.len() - i,
    {
        if str_eq(v[i].as_str(), s) {
            assert(vs[i as int] == s@);
            return true;
        }
        i = i + 1;
    }
    false
}

/// The link targets a page's metadata may name, each once, in the order
/// first met: for each text, the targets link parsing reads out of it, then
/// the text itself. The vault is asked to resolve each of them.
pub fn meta_targets(meta: Option<&MetaValue>) -> (r: Vec<String>)
    ensures
        string_views(r@) == meta_targets_spec(match meta {
            Some(v) => Some(*v),
            None => None,
        }),
{
    let mut texts: Vec<String> = Vec::new();
    match meta {
        Some(v) => collect_texts(v, &mut texts),
        None => {},
    }
    assert(string_views(Seq::<String>::empty()) =~= Seq::<Seq<char>>::empty());
    let ghost tv = string_views(texts@);
    let mut all: Vec<String> = Vec::new();
    let mut i: usize = 0;
    assert(tv.take(0) =~= Seq::<Seq<char>>::empty());
    assert(string_views(all@) =~= Seq::<Seq<char>>::empty());
    while i < texts.len()
        invariant
            i <= texts@.len(),
            tv == string_views(texts@),
            string_views(all@) == targets_of_texts(tv.take(i as int)),
        decreases texts@.len() - i,
    {
        let t = texts[i].as_str();
        let ghost before = string_views(all@);
        let ghost add: Seq<Seq<char>> = Seq::empty();
        if link_ref_ok(t) {
            let found = lookup_targets(t);
            let mut j: usize = 0;
            while j < found.len()
                invariant
                    j <= found@.len(),
                    string_views(all@) == before + found@.map_values(|s: String| s@).take(j as int),
                decreases found@.len() - j,
            {
                let ghost b2 = string_views(all@);
                all.push(found[j].clone());
                assert(string_views(all@) =~= b2.push(found@[j as int]@));
                assert(found@.map_values(|s: String| s@).take(j + 1) =~= found@.map_values(|s: String| s@).take(
                    j as int,
                ).push(found@[j as int]@));
                j = j + 1;
            }
            assert(found@.map_values(|s: String| s@).take(found@.len() as int) =~= lookup_targets_spec(t@));
        }
        let ghost mid = string_views(all@);
        all.push(texts[i].clone());
        assert(string_views(all@) =~= mid.push(t@));
        proof {
            assert(tv.take(i + 1).drop_last() =~= tv.take(i as int));
            assert(tv.take(i + 1).last() == t@);
            assert(string_views(all@) =~= before + targets_of_text(t@));
        }
        i = i + 1;
    }
    assert(tv.take(texts@.len() as int) =~= tv);
    let ghost av = string_views(all@);
    let mut out: Vec<String> = Vec::new();
    let mut k: usize = 0;
    assert(av.take(0) =~= Seq::<Seq<char>>::empty());
    assert(string_views(out@) =~= Seq::<Seq<char>>::empty());
    while k < all.len()
        invariant
            k <= all@.len(),
            av == string_views(all@),
            string_views(out@) == first_occurrences(av.take(k as int)),
        decreases all@.len() - k,
    {
        assert(av.take(k + 1).drop_last() =~= av.take(k as int));
        assert(av.take(k + 1).last() == all@[k as int]@);
        if !contains_text(&out, all[k].as_str()) {
            let ghost b3 = string_views(out@);
            out.push(all[k].clone());
            assert(string_views(out@) =~= b3.push(all@[k as int]@));
        }
        k = k + 1;
    }
    assert(av.take(all@.len() as int) =~= av);
    out
}

} // verus!
