//! The table of contents and the sticky-tab tree built from it.

use vstd::prelude::*;

use crate::text::{ascii_lower_seq, chars_of, eq_ascii_lower, is_lit, string_from_range, trim_ws, trim_ws_range};

verus! {

/// One entry of a page's table of contents.
#[derive(Debug, Clone, PartialEq, Eq)]
pub struct TocItem {
    pub id: String,
    pub level: u32,
    pub text: String,
}

/// One tab of the sticky-tab header, with the tabs nested under it.
#[derive(Debug)]
pub struct TocNode {
    pub id: String,
    pub text: String,
    pub level: u32,
    pub children: Vec<TocNode>,
    /// Heading levels this node's own children slot can show a collapsed
    /// peek for: its direct children's level, plus one level deeper if any
    /// of them has children of its own. Capped at two levels because
    /// that's as deep as the sticky-tabs template ever renders a slot.
    pub peek_levels: Vec<u32>,
}

/// What a tab tree says, as a mathematical tree.
pub struct TocTree {
    pub id: Seq<char>,
    pub text: Seq<char>,
    pub level: u32,
    pub peek: Seq<u32>,
    pub children: Seq<TocTree>,
}

pub open spec fn tree_of(n: TocNode) -> TocTree
    decreases n,
{
    TocTree { id: n.id@, text: n.text@, level: n.level, peek: n.peek_levels@, children: trees_of(n.children@) }
}

pub open spec fn trees_of(s: Seq<TocNode>) -> Seq<TocTree>
    decreases s,
{
    if s.len() == 0 {
        Seq::empty()
    } else {
        trees_of(s.drop_last()).push(tree_of(s.last()))
    }
}

pub proof fn lemma_trees_of(s: Seq<TocNode>)
    ensures
        trees_of(s).len() == s.len(),
        forall|i: int| 0 <= i < s.len() ==> #[trigger] trees_of(s)[i] == tree_of(s[i]),
    decreases s.len(),
{
    if s.len() > 0 {
        lemma_trees_of(s.drop_last());
        assert forall|i: int| 0 <= i < s.len() implies #[trigger] trees_of(s)[i] == tree_of(s[i]) by {
            if i < s.len() - 1 {
                assert(s.drop_last()[i] == s[i]);
            }
        }
    }
}

proof fn lemma_trees_of_push(s: Seq<TocNode>, x: TocNode)
    ensures
        trees_of(s.push(x)) == trees_of(s).push(tree_of(x)),
{
    assert(s.push(x).drop_last() =~= s);
}

proof fn lemma_trees_of_update_last(s: Seq<TocNode>, x: TocNode)
    requires
        s.len() > 0,
    ensures
        trees_of(s.update(s.len() - 1, x)) == trees_of(s).update(s.len() - 1, tree_of(x)),
{
    let t = s.update(s.len() - 1, x);
    assert(t.drop_last() =~= s.drop_last());
    lemma_trees_of(s.drop_last());
    lemma_trees_of(s);
    assert(trees_of(t) =~= trees_of(s).update(s.len() - 1, tree_of(x)));
}

/// A tab with nothing under it yet.
pub open spec fn leaf(id: Seq<char>, text: Seq<char>, level: u32) -> TocTree {
    TocTree { id, text, level, peek: Seq::empty(), children: Seq::empty() }
}

/// `node` goes under the last child when it is deeper than it, recursively;
/// otherwise it becomes the last child of `parent`.
pub open spec fn insert_spec(parent: TocTree, node: TocTree) -> TocTree
    decreases parent,
{
    if parent.children.len() > 0 && node.level > parent.children.last().level {
        TocTree {
            id: parent.id,
            text: parent.text,
            level: parent.level,
            peek: parent.peek,
            children: parent.children.update(
                parent.children.len() - 1,
                insert_spec(parent.children.last(), node),
            ),
        }
    } else {
        TocTree {
            id: parent.id,
            text: parent.text,
            level: parent.level,
            peek: parent.peek,
            children: parent.children.push(node),
        }
    }
}

fn insert_node_into(parent: &mut TocNode, node: TocNode)
    ensures
        tree_of(*final(parent)) == insert_spec(tree_of(*old(parent)), tree_of(node)),
    decreases tree_of(*old(parent)),
{
    let n = parent.children.len();
    let ghost old_tree = tree_of(*parent);
    let ghost old_children = parent.children@;
    proof {
        lemma_trees_of(old_children);
    }
    if n > 0 && node.level > parent.children[n - 1].level {
        let mut last = parent.children.pop().unwrap();
        proof {
            assert(old_children.drop_last() =~= parent.children@);
            assert(tree_of(last) == old_tree.children.last());
            assert(decreases_to!(old_tree => old_tree.children));
            assert(decreases_to!(old_tree.children => old_tree.children[n - 1]));
        }
        insert_node_into(&mut last, node);
        parent.children.push(last);
        proof {
            assert(parent.children@ =~= old_children.update(n - 1, last));
            lemma_trees_of_update_last(old_children, last);
        }
    } else {
        parent.children.push(node);
        proof {
            lemma_trees_of_push(old_children, node);
        }
    }
}

/// The TOC entry as a tab with nothing under it.
pub open spec fn item_leaf(it: TocItem) -> TocTree {
    leaf(it.id@, it.text@, it.level)
}

pub open spec fn has_h1(items: Seq<TocItem>) -> bool {
    exists|i: int| 0 <= i < items.len() && #[trigger] items[i].level == 1
}

/// The shallowest level among `items`, 1 when there are none.
pub open spec fn min_level(items: Seq<TocItem>) -> u32
    decreases items.len(),
{
    if items.len() == 0 {
        1
    } else if items.len() == 1 {
        items[0].level
    } else {
        let m = min_level(items.drop_last());
        if items.last().level < m {
            items.last().level
        } else {
            m
        }
    }
}

/// The level the tab tree's roots sit at: H1 when the document has any,
/// its shallowest level otherwise.
pub open spec fn top_level_spec(items: Seq<TocItem>) -> u32 {
    if has_h1(items) {
        1
    } else {
        min_level(items)
    }
}

/// The tab tree's roots sit at H1 when the document has an H1, and at the
/// shallowest level it has otherwise: no entry is shallower than the roots,
/// and some entry sits at that level.
pub proof fn lemma_roots_sit_at_the_shallowest_level(items: Seq<TocItem>)
    ensures
        (exists|i: int| 0 <= i < items.len() && #[trigger] items[i].level == 1) ==> top_level_spec(items) == 1,
        !(exists|i: int| 0 <= i < items.len() && #[trigger] items[i].level == 1) && items.len() > 0 ==> {
            &&& forall|i: int| 0 <= i < items.len() ==> top_level_spec(items) <= #[trigger] items[i].level
            &&& exists|i: int| 0 <= i < items.len() && #[trigger] items[i].level == top_level_spec(items)
        },
        items.len() == 0 ==> top_level_spec(items) == 1,
{
    lemma_min_level_is_least(items);
}

proof fn lemma_min_level_is_least(items: Seq<TocItem>)
    ensures
        items.len() > 0 ==> {
            &&& forall|i: int| 0 <= i < items.len() ==> min_level(items) <= #[trigger] items[i].level
            &&& exists|i: int| 0 <= i < items.len() && #[trigger] items[i].level == min_level(items)
        },
    decreases items.len(),
{
    if items.len() > 1 {
        let d = items.drop_last();
        lemma_min_level_is_least(d);
        assert forall|i: int| 0 <= i < items.len() implies min_level(items) <= #[trigger] items[i].level by {
            if i < d.len() {
                assert(d[i] == items[i]);
            }
        }
        if items.last().level < min_level(d) {
            assert(items[items.len() - 1].level == min_level(items));
        } else {
            let j = choose|j: int| 0 <= j < d.len() && #[trigger] d[j].level == min_level(d);
            assert(items[j].level == min_level(items));
        }
    } else if items.len() == 1 {
        assert(items[0].level == min_level(items));
    }
}

/// Where one more entry lands in the forest of tabs.
pub open spec fn place_spec(forest: Seq<TocTree>, node: TocTree, top: u32) -> Seq<TocTree> {
    if forest.len() == 0 || node.level <= top {
        forest.push(node)
    } else if node.level > forest.last().level {
        forest.update(forest.len() - 1, insert_spec(forest.last(), node))
    } else {
        forest.push(node)
    }
}

/// The tab forest the first `items` fold into, before peeks are filled in.
pub open spec fn forest_spec(items: Seq<TocItem>, top: u32) -> Seq<TocTree>
    decreases items.len(),
{
    if items.len() == 0 {
        Seq::empty()
    } else {
        place_spec(forest_spec(items.drop_last(), top), item_leaf(items.last()), top)
    }
}

fn top_level(toc: &[TocItem]) -> (r: u32)
    ensures
        r == top_level_spec(toc@),
{
    let mut i: usize = 0;
    while i < toc.len()
        invariant
            i <= toc@.len(),
            forall|x: int| 0 <= x < i ==> toc@[x].level != 1,
        decreases toc@.len() - i,
    {
        if toc[i].level == 1 {
            assert(has_h1(toc@));
            return 1;
        }
        i = i + 1;
    }
    assert(!has_h1(toc@));
    if toc.len() == 0 {
        return 1;
    }
    let mut m = toc[0].level;
    let mut j: usize = 1;
    assert(toc@.take(1).drop_last() =~= toc@.take(0));
    while j < toc.len()
        invariant
            1 <= j <= toc@.len(),
            m == min_level(toc@.take(j as int)),
        decreases toc@.len() - j,
    {
        assert(toc@.take(j + 1).drop_last() =~= toc@.take(j as int));
        if toc[j].level < m {
            m = toc[j].level;
        }
        j = j + 1;
    }
    assert(toc@.take(toc@.len() as int) =~= toc@);
    m
}

pub open spec fn strictly_increasing(s: Seq<u32>) -> bool {
    forall|i: int, j: int| 0 <= i < j < s.len() ==> s[i] < s[j]
}

/// The levels of a node's children and of their children: what its
/// collapsed slot can hint at.
pub open spec fn levels_below(children: Seq<TocTree>) -> Set<u32> {
    Set::new(
        |l: u32|
            exists|i: int|
                0 <= i < children.len() && (children[i].level == l || exists|j: int|
                    0 <= j < children[i].children.len() && #[trigger] children[i].children[j].level == l),
    )
}

/// The peek a node ends up with: the levels below it, once each and in
/// increasing order, when it has children; left alone when it has none.
pub open spec fn peek_for(old: TocTree, peek: Seq<u32>) -> bool {
    if old.children.len() > 0 {
        strictly_increasing(peek) && peek.to_set() == levels_below(old.children)
    } else {
        peek == old.peek
    }
}

/// `new` is `old` with every peek filled in, and nothing else changed.
pub open spec fn annotated(old: TocTree, new: TocTree) -> bool
    decreases old,
{
    &&& new.id == old.id
    &&& new.text == old.text
    &&& new.level == old.level
    &&& peek_for(old, new.peek)
    &&& annotated_all(old.children, new.children)
}

pub open spec fn annotated_all(old: Seq<TocTree>, new: Seq<TocTree>) -> bool
    decreases old,
{
    &&& old.len() == new.len()
    &&& old.len() > 0 ==> annotated_all(old.drop_last(), new.drop_last()) && annotated(old.last(), new.last())
}

pub proof fn lemma_annotated_all(old: Seq<TocTree>, new: Seq<TocTree>)
    ensures
        annotated_all(old, new) <==> (old.len() == new.len() && forall|i: int|
            0 <= i < old.len() ==> #[trigger] annotated(old[i], new[i])),
    decreases old.len(),
{
    if old.len() > 0 && old.len() == new.len() {
        let a = old.drop_last();
        let b = new.drop_last();
        lemma_annotated_all(a, b);
        if forall|i: int| 0 <= i < old.len() ==> #[trigger] annotated(old[i], new[i]) {
            assert forall|i: int| 0 <= i < a.len() implies #[trigger] annotated(a[i], b[i]) by {
                assert(annotated(old[i], new[i]));
            }
            assert(annotated(old[old.len() - 1], new[new.len() - 1]));
            assert(annotated_all(old, new));
        }
        if annotated_all(old, new) {
            assert forall|i: int| 0 <= i < old.len() implies #[trigger] annotated(old[i], new[i]) by {
                if i < old.len() - 1 {
                    assert(annotated(a[i], b[i]));
                }
            }
        }
    }
}

proof fn lemma_annotated_all_push(a: Seq<TocTree>, b: Seq<TocTree>, x: TocTree, y: TocTree)
    requires
        annotated_all(a, b),
        annotated(x, y),
    ensures
        annotated_all(a.push(x), b.push(y)),
{
    assert(a.push(x).drop_last() =~= a);
    assert(b.push(y).drop_last() =~= b);
}

/// Add `x` to a strictly increasing list, keeping it so.
fn insert_sorted(v: &mut Vec<u32>, x: u32)
    requires
        strictly_increasing(old(v)@),
    ensures
        strictly_increasing(final(v)@),
        final(v)@.to_set() == old(v)@.to_set().insert(x),
{
    let mut p: usize = 0;
    while p < v.len() && v[p] < x
        invariant
            p <= v@.len(),
            strictly_increasing(v@),
            forall|i: int| 0 <= i < p ==> v@[i] < x,
        decreases v@.len() - p,
    {
        p = p + 1;
    }
    if p < v.len() && v[p] == x {
        assert(v@.to_set() =~= v@.to_set().insert(x)) by {
            assert(v@.contains(x));
        }
        return;
    }
    let ghost before = v@;
    v.insert(p, x);
    assert(strictly_increasing(v@)) by {
        assert forall|i: int, j: int| 0 <= i < j < v@.len() implies v@[i] < v@[j] by {
            if j < p {
                assert(v@[i] == before[i] && v@[j] == before[j]);
            } else if j == p {
                assert(v@[i] == before[i]);
            } else if i < p {
                assert(v@[i] == before[i] && v@[j] == before[j - 1]);
                assert(before[j - 1] >= x);
            } else if i == p {
                assert(v@[j] == before[j - 1]);
                assert(before[p as int] >= x);
                if j - 1 > p {
                    assert(before[p as int] < before[j - 1]);
                }
            } else {
                assert(v@[i] == before[i - 1] && v@[j] == before[j - 1]);
            }
        }
    }
    assert(v@.to_set() =~= before.to_set().insert(x)) by {
        assert forall|y: u32| v@.to_set().contains(y) <==> before.to_set().insert(x).contains(y) by {
            if v@.contains(y) {
                let k = choose|k: int| 0 <= k < v@.len() && v@[k] == y;
                if k < p {
                    assert(before[k] == y);
                } else if k > p {
                    assert(before[k - 1] == y);
                }
            }
            if before.contains(y) {
                let k = choose|k: int| 0 <= k < before.len() && before[k] == y;
                if k < p {
                    assert(v@[k] == y);
                } else {
                    assert(v@[k + 1] == y);
                }
            }
            if y == x {
                assert(v@[p as int] == x);
            }
        }
    }
}

/// The peek levels of a node with these children.
fn peek_levels_of(children: &Vec<TocNode>) -> (r: Vec<u32>)
    ensures
        strictly_increasing(r@),
        r@.to_set() == levels_below(trees_of(children@)),
{
    let ghost cs = trees_of(children@);
    proof {
        lemma_trees_of(children@);
    }
    let mut levels: Vec<u32> = Vec::new();
    let mut i: usize = 0;
    while i < children.len()
        invariant
            i <= children@.len(),
            cs == trees_of(children@),
            cs.len() == children@.len(),
            forall|x: int| 0 <= x < children@.len() ==> #[trigger] cs[x] == tree_of(children@[x]),
            strictly_increasing(levels@),
            levels@.to_set() == levels_below(cs.take(i as int)),
        decreases children@.len() - i,
    {
        let c = &children[i];
        let ghost before = levels@.to_set();
        insert_sorted(&mut levels, c.level);
        let mut j: usize = 0;
        proof {
            lemma_trees_of(c.children@);
        }
        while j < c.children.len()
            invariant
                j <= c.children@.len(),
                trees_of(c.children@).len() == c.children@.len(),
                forall|x: int| 0 <= x < c.children@.len() ==> #[trigger] trees_of(c.children@)[x] == tree_of(c.children@[x]),
                strictly_increasing(levels@),
                levels@.to_set() == before.insert(c.level).union(
                    Set::new(|l: u32| exists|y: int| 0 <= y < j && #[trigger] c.children@[y].level == l),
                ),
            decreases c.children@.len() - j,
        {
            let ghost b2 = levels@.to_set();
            insert_sorted(&mut levels, c.children[j].level);
            proof {
                assert(levels@.to_set() =~= before.insert(c.level).union(
                    Set::new(|l: u32| exists|y: int| 0 <= y < j + 1 && #[trigger] c.children@[y].level == l),
                )) by {
                    assert forall|l: u32| #[trigger] levels@.to_set().contains(l) <==> before.insert(c.level).union(
                        Set::new(|l: u32| exists|y: int| 0 <= y < j + 1 && #[trigger] c.children@[y].level == l),
                    ).contains(l) by {
                        if l == c.children@[j as int].level {
                            assert(exists|y: int| 0 <= y < j + 1 && #[trigger] c.children@[y].level == l);
                        }
                        if exists|y: int| 0 <= y < j + 1 && #[trigger] c.children@[y].level == l {
                            let y = choose|y: int| 0 <= y < j + 1 && #[trigger] c.children@[y].level == l;
                            if y < j {
                                assert(b2.contains(l));
                            }
                        }
                    }
                }
            }
            j = j + 1;
        }
        proof {
            let t = cs.take(i + 1);
            assert(levels@.to_set() =~= levels_below(t)) by {
                assert(t[i as int] == tree_of(children@[i as int]));
                assert forall|l: u32| #[trigger] levels@.to_set().contains(l) <==> levels_below(t).contains(l) by {
                    if levels_below(cs.take(i as int)).contains(l) {
                        let a = choose|a: int| 0 <= a < i && (cs.take(i as int)[a].level == l || exists|b: int|
                            0 <= b < cs.take(i as int)[a].children.len() && #[trigger] cs.take(i as int)[a].children[b].level == l);
                        assert(t[a] == cs.take(i as int)[a]);
                    }
                    if levels_below(t).contains(l) {
                        let a = choose|a: int| 0 <= a < i + 1 && (t[a].level == l || exists|b: int|
                            0 <= b < t[a].children.len() && #[trigger] t[a].children[b].level == l);
                        if a < i {
                            assert(cs.take(i as int)[a] == t[a]);
                            assert(levels_below(cs.take(i as int)).contains(l));
                        } else if t[a].level != l {
                            let b = choose|b: int| 0 <= b < t[a].children.len() && #[trigger] t[a].children[b].level == l;
                            assert(c.children@[b].level == l);
                        }
                    }
                    if exists|y: int| 0 <= y < c.children@.len() && #[trigger] c.children@[y].level == l {
                        let y = choose|y: int| 0 <= y < c.children@.len() && #[trigger] c.children@[y].level == l;
                        assert(t[i as int].children[y].level == l);
                    }
                }
            }
        }
        i = i + 1;
    }
    assert(cs.take(i as int) =~= cs);
    levels
}

fn annotate_node(node: TocNode) -> (r: TocNode)
    ensures
        annotated(tree_of(node), tree_of(r)),
    decreases tree_of(node),
{
    let ghost t = tree_of(node);
    let TocNode { id, text, level, children, peek_levels } = node;
    let new_peek = if children.len() > 0 {
        peek_levels_of(&children)
    } else {
        peek_levels
    };
    proof {
        lemma_trees_of(children@);
        assert(decreases_to!(t => t.children));
    }
    let new_children = annotate_all(children);
    TocNode { id, text, level, children: new_children, peek_levels: new_peek }
}

fn annotate_all(nodes: Vec<TocNode>) -> (r: Vec<TocNode>)
    ensures
        annotated_all(trees_of(nodes@), trees_of(r@)),
    decreases trees_of(nodes@),
{
    let ghost all = nodes@;
    let ghost ts = trees_of(all);
    proof {
        lemma_trees_of(all);
    }
    let mut rest = nodes;
    let mut out: Vec<TocNode> = Vec::new();
    let ghost mut k: int = 0;
    assert(all.skip(0) =~= all);
    assert(all.take(0) =~= Seq::<TocNode>::empty());
    while rest.len() > 0
        invariant
            0 <= k <= all.len(),
            all == nodes@,
            rest@ == all.skip(k),
            ts == trees_of(all),
            ts.len() == all.len(),
            forall|x: int| 0 <= x < all.len() ==> #[trigger] ts[x] == tree_of(all[x]),
            annotated_all(trees_of(all.take(k)), trees_of(out@)),
        decreases rest@.len(),
    {
        let n = rest.remove(0);
        proof {
            assert(n == all[k]);
            assert(tree_of(n) == ts[k]);
            assert(decreases_to!(ts => ts[k]));
        }
        let a = annotate_node(n);
        let ghost before = out@;
        out.push(a);
        proof {
            assert(all.take(k + 1) =~= all.take(k).push(n));
            lemma_trees_of_push(all.take(k), n);
            lemma_trees_of_push(before, a);
            lemma_annotated_all_push(trees_of(all.take(k)), trees_of(before), tree_of(n), tree_of(a));
            assert(rest@ =~= all.skip(k + 1));
            k = k + 1;
        }
    }
    assert(all.take(k) =~= all);
    out
}

/// Fill in `peek_levels` for every node and everything under it.
///
/// A heading sequence that skips a level can leave one node's children
/// mixing levels, so this collects every distinct level actually present
/// among the children, plus every distinct level one step deeper, rather
/// than assuming the first child speaks for all of them. Deeper than that
/// is never included: a level nested past a grandchild has no slot of its
/// own in the sticky-tabs template to peek out of.
fn annotate_peek_levels(nodes: &mut Vec<TocNode>)
    ensures
        annotated_all(trees_of(old(nodes)@), trees_of(final(nodes)@)),
{
    let mut taken: Vec<TocNode> = Vec::new();
    std::mem::swap(&mut taken, nodes);
    *nodes = annotate_all(taken);
}

/// Fold a flat TOC into the tree the sticky-tab header renders.
///
/// Roots are the shallowest level present (H1 when the document has any),
/// and every deeper heading nests under the most recent shallower one. Read
/// in order, the tabs are the TOC; every child is deeper than its parent;
/// and each tab's `peek_levels` are the levels of its children and
/// grandchildren, ascending and once each.
pub fn build_section_tabs(toc: &[TocItem]) -> (r: Vec<TocNode>)
    ensures
        annotated_all(forest_spec(toc@, top_level_spec(toc@)), trees_of(r@)),
        flatten_all(trees_of(r@)) == toc@.map_values(|it: TocItem| item_view(it)),
        nested_all(trees_of(r@)),
{
    let top = top_level(toc);
    let mut tabs: Vec<TocNode> = Vec::new();
    let mut i: usize = 0;
    while i < toc.len()
        invariant
            i <= toc@.len(),
            top == top_level_spec(toc@),
            trees_of(tabs@) == forest_spec(toc@.take(i as int), top),
        decreases toc@.len() - i,
    {
        let item = &toc[i];
        let node = TocNode {
            id: item.id.clone(),
            text: item.text.clone(),
            level: item.level,
            children: Vec::new(),
            peek_levels: Vec::new(),
        };
        let ghost before = tabs@;
        proof {
            assert(toc@.take(i + 1).drop_last() =~= toc@.take(i as int));
            assert(trees_of(node.children@) =~= Seq::<TocTree>::empty());
            assert(tree_of(node) == item_leaf(toc@[i as int]));
            lemma_trees_of(before);
        }
        let n = tabs.len();
        if n == 0 || item.level <= top {
            tabs.push(node);
            proof {
                lemma_trees_of_push(before, node);
            }
        } else if item.level > tabs[n - 1].level {
            let mut last = tabs.pop().unwrap();
            proof {
                assert(before.drop_last() =~= tabs@);
            }
            insert_node_into(&mut last, node);
            tabs.push(last);
            proof {
                assert(tabs@ =~= before.update(n - 1, last));
                lemma_trees_of_update_last(before, last);
            }
        } else {
            tabs.push(node);
            proof {
                lemma_trees_of_push(before, node);
            }
        }
        i = i + 1;
    }
    assert(toc@.take(toc@.len() as int) =~= toc@);
    annotate_peek_levels(&mut tabs);
    proof {
        lemma_tabs_keep_every_heading(toc@, trees_of(tabs@));
        lemma_tabs_nest_deeper(toc@, trees_of(tabs@));
    }
    tabs
}

/// A heading as the renderer's outline reports it.
#[derive(Debug, Clone)]
pub struct HeadingInfo {
    pub level: u8,
    pub id: Option<String>,
    pub text: String,
    pub number: Option<String>,
}

/// Headings the book treats as page furniture rather than content.
pub open spec fn is_boilerplate_spec(text: Seq<char>) -> bool {
    ||| ascii_lower_seq(text) == "related"@
    ||| ascii_lower_seq(text) == "footnotes"@
    ||| ascii_lower_seq(text) == "references"@
    ||| text == "関連"@
    ||| text == "参考文献"@
    ||| text == "脚注"@
}

/// Headings the book treats as page furniture rather than content, so a
/// document opening with one still gets its real title from the next heading.
fn is_boilerplate_heading(text: &str) -> (r: bool)
    ensures
        r == is_boilerplate_spec(text@),
{
    let cs = chars_of(text);
    eq_ascii_lower(&cs, "related") || eq_ascii_lower(&cs, "footnotes") || eq_ascii_lower(&cs, "references")
        || is_lit(&cs, "関連") || is_lit(&cs, "参考文献") || is_lit(&cs, "脚注")
}

pub open spec fn heading_id(h: HeadingInfo) -> Seq<char> {
    match h.id {
        Some(id) => id@,
        None => Seq::empty(),
    }
}

/// The TOC entries an outline yields: non-blank headings of levels 1-4,
/// with their text trimmed.
pub open spec fn toc_spec(outline: Seq<HeadingInfo>) -> Seq<(Seq<char>, u32, Seq<char>)>
    decreases outline.len(),
{
    if outline.len() == 0 {
        Seq::empty()
    } else {
        let prev = toc_spec(outline.drop_last());
        let h = outline.last();
        let t = trim_ws(h.text@);
        if t.len() > 0 && 1 <= h.level <= 4 {
            prev.push((heading_id(h), h.level as u32, t))
        } else {
            prev
        }
    }
}

/// The trimmed text of the first non-blank H1 that is not boilerplate.
pub open spec fn first_h1_spec(outline: Seq<HeadingInfo>) -> Option<Seq<char>>
    decreases outline.len(),
{
    if outline.len() == 0 {
        None
    } else {
        let h = outline[0];
        let t = trim_ws(h.text@);
        if t.len() > 0 && h.level == 1 && !is_boilerplate_spec(t) {
            Some(t)
        } else {
            first_h1_spec(outline.drop_first())
        }
    }
}

pub open spec fn item_view(it: TocItem) -> (Seq<char>, u32, Seq<char>) {
    (it.id@, it.level, it.text@)
}

/// Turn the renderer's heading outline into the page TOC, alongside the first
/// content H1 (used as a title fallback).
///
/// Only levels 1-4 make it into the TOC; deeper headings are structure the
/// sticky tabs have no room for.
pub fn toc_from_outline(outline: &[HeadingInfo]) -> (r: (Option<String>, Vec<TocItem>))
    ensures
        r.0 is Some <==> first_h1_spec(outline@) is Some,
        r.0 matches Some(t) ==> first_h1_spec(outline@) == Some(t@),
        r.1@.map_values(|it: TocItem| item_view(it)) == toc_spec(outline@),
{
    let mut first_h1: Option<String> = None;
    let mut toc: Vec<TocItem> = Vec::new();
    let mut i: usize = 0;
    assert(outline@.skip(0) =~= outline@);
    while i < outline.len()
        invariant
            i <= outline@.len(),
            toc@.map_values(|it: TocItem| item_view(it)) == toc_spec(outline@.take(i as int)),
            first_h1 is None ==> first_h1_spec(outline@) == first_h1_spec(outline@.skip(i as int)),
            first_h1 matches Some(t) ==> first_h1_spec(outline@) == Some(t@),
        decreases outline@.len() - i,
    {
        let heading = &outline[i];
        let cs = chars_of(heading.text.as_str());
        let (a, b) = trim_ws_range(&cs, 0, cs.len());
        assert(cs@.subrange(0, cs@.len() as int) =~= heading.text@);
        let ghost t = trim_ws(heading.text@);
        proof {
            assert(outline@.take(i + 1).drop_last() =~= outline@.take(i as int));
            assert(outline@.skip(i as int).drop_first() =~= outline@.skip(i + 1));
            assert(outline@.skip(i as int)[0] == outline@[i as int]);
        }
        if a < b {
            let text = string_from_range(&cs, a, b);
            if heading.level == 1 && first_h1.is_none() && !is_boilerplate_heading(text.as_str()) {
                first_h1 = Some(string_from_range(&cs, a, b));
            }
            if 1 <= heading.level && heading.level <= 4 {
                let id = match &heading.id {
                    Some(id) => id.clone(),
                    None => String::new(),
                };
                let ghost before = toc@;
                toc.push(TocItem { id, level: heading.level as u32, text });
                proof {
                    assert(toc@.map_values(|it: TocItem| item_view(it)) =~= before.map_values(|it: TocItem| item_view(it)).push(
                        (heading_id(outline@[i as int]), outline@[i as int].level as u32, t),
                    ));
                }
            }
        }
        i = i + 1;
    }
    assert(outline@.take(outline@.len() as int) =~= outline@);
    assert(outline@.skip(outline@.len() as int) =~= Seq::<HeadingInfo>::empty());
    (first_h1, toc)
}

/// A heading that makes a TOC entry: not blank, of level 1 to 4.
pub open spec fn keeps_heading(h: HeadingInfo) -> bool {
    trim_ws(h.text@).len() > 0 && 1 <= h.level <= 4
}

/// The TOC entry of a heading: its id, its level, its trimmed text.
pub open spec fn toc_entry(h: HeadingInfo) -> (Seq<char>, u32, Seq<char>) {
    (heading_id(h), h.level as u32, trim_ws(h.text@))
}

/// A heading that can give the page its title: a non-blank H1 that is not boilerplate.
pub open spec fn titles_page(h: HeadingInfo) -> bool {
    trim_ws(h.text@).len() > 0 && h.level == 1 && !is_boilerplate_spec(trim_ws(h.text@))
}

/// The TOC is the outline filtered to the headings it keeps, each made an
/// entry; the title candidate is the trimmed text of the first heading that
/// can title the page, and there is none when no heading can.
pub proof fn lemma_toc_is_filter_and_find(outline: Seq<HeadingInfo>)
    ensures
        toc_spec(outline) == outline.filter(|h: HeadingInfo| keeps_heading(h)).map_values(
            |h: HeadingInfo| toc_entry(h),
        ),
        match first_h1_spec(outline) {
            Some(t) => exists|i: int|
                0 <= i < outline.len() && #[trigger] titles_page(outline[i]) && trim_ws(outline[i].text@) == t
                    && forall|j: int| 0 <= j < i ==> !titles_page(#[trigger] outline[j]),
            None => forall|i: int| 0 <= i < outline.len() ==> !titles_page(#[trigger] outline[i]),
        },
    decreases outline.len(),
{
    if outline.len() > 0 {
        lemma_toc_filter(outline);
        let rest = outline.drop_first();
        lemma_toc_is_filter_and_find(rest);
        if !titles_page(outline[0]) {
            match first_h1_spec(rest) {
                Some(t) => {
                    let i = choose|i: int|
                        0 <= i < rest.len() && #[trigger] titles_page(rest[i]) && trim_ws(rest[i].text@) == t
                            && forall|j: int| 0 <= j < i ==> !titles_page(#[trigger] rest[j]);
                    assert(outline[i + 1] == rest[i]);
                    assert forall|j: int| 0 <= j < i + 1 implies !titles_page(#[trigger] outline[j]) by {
                        if j > 0 {
                            assert(outline[j] == rest[j - 1]);
                        }
                    }
                },
                None => {
                    assert forall|i: int| 0 <= i < outline.len() implies !titles_page(#[trigger] outline[i]) by {
                        if i > 0 {
                            assert(outline[i] == rest[i - 1]);
                        }
                    }
                },
            }
        }
    }
}

proof fn lemma_toc_filter(outline: Seq<HeadingInfo>)
    ensures
        toc_spec(outline) == outline.filter(|h: HeadingInfo| keeps_heading(h)).map_values(
            |h: HeadingInfo| toc_entry(h),
        ),
    decreases outline.len(),
{
    let p = |h: HeadingInfo| keeps_heading(h);
    let f = |h: HeadingInfo| toc_entry(h);
    reveal(Seq::filter);
    if outline.len() == 0 {
        assert(outline.filter(p) =~= Seq::<HeadingInfo>::empty());
        assert(outline.filter(p).map_values(f) =~= Seq::<(Seq<char>, u32, Seq<char>)>::empty());
    } else {
        lemma_toc_filter(outline.drop_last());
        let sub = outline.drop_last().filter(p);
        if p(outline.last()) {
            assert(outline.filter(p) == sub.push(outline.last()));
            assert(sub.push(outline.last()).map_values(f) =~= sub.map_values(f).push(f(outline.last())));
        } else {
            assert(outline.filter(p) == sub);
        }
    }
}

/// The entries of a tab tree in reading order: each tab, then what is under it.
pub open spec fn flatten(t: TocTree) -> Seq<(Seq<char>, u32, Seq<char>)>
    decreases t,
{
    seq![(t.id, t.level, t.text)] + flatten_all(t.children)
}

pub open spec fn flatten_all(s: Seq<TocTree>) -> Seq<(Seq<char>, u32, Seq<char>)>
    decreases s,
{
    if s.len() == 0 {
        Seq::empty()
    } else {
        flatten_all(s.drop_last()) + flatten(s.last())
    }
}

proof fn lemma_flatten_all_push(s: Seq<TocTree>, x: TocTree)
    ensures
        flatten_all(s.push(x)) == flatten_all(s) + flatten(x),
{
    assert(s.push(x).drop_last() =~= s);
}

proof fn lemma_flatten_all_update_last(s: Seq<TocTree>, x: TocTree)
    requires
        s.len() > 0,
    ensures
        flatten_all(s.update(s.len() - 1, x)) == flatten_all(s.drop_last()) + flatten(x),
{
    assert(s.update(s.len() - 1, x).drop_last() =~= s.drop_last());
}

proof fn lemma_flatten_insert(p: TocTree, n: TocTree)
    ensures
        flatten(insert_spec(p, n)) == flatten(p) + flatten(n),
    decreases p,
{
    if p.children.len() > 0 && n.level > p.children.last().level {
        let last = p.children.last();
        assert(decreases_to!(p => p.children));
        lemma_flatten_insert(last, n);
        lemma_flatten_all_update_last(p.children, insert_spec(last, n));
        assert(p.children.drop_last().push(last) =~= p.children);
        lemma_flatten_all_push(p.children.drop_last(), last);
        assert(flatten(insert_spec(p, n)) =~= flatten(p) + flatten(n));
    } else {
        lemma_flatten_all_push(p.children, n);
        assert(flatten(insert_spec(p, n)) =~= flatten(p) + flatten(n));
    }
}

proof fn lemma_flatten_forest(items: Seq<TocItem>, top: u32)
    ensures
        flatten_all(forest_spec(items, top)) == items.map_values(|it: TocItem| item_view(it)),
    decreases items.len(),
{
    if items.len() > 0 {
        let prev = forest_spec(items.drop_last(), top);
        let node = item_leaf(items.last());
        lemma_flatten_forest(items.drop_last(), top);
        assert(flatten_all(node.children) =~= Seq::empty());
        assert(flatten(node) =~= seq![item_view(items.last())]);
        if prev.len() == 0 || node.level <= top {
            lemma_flatten_all_push(prev, node);
        } else if node.level > prev.last().level {
            lemma_flatten_insert(prev.last(), node);
            lemma_flatten_all_update_last(prev, insert_spec(prev.last(), node));
            assert(prev.drop_last().push(prev.last()) =~= prev);
            lemma_flatten_all_push(prev.drop_last(), prev.last());
        } else {
            lemma_flatten_all_push(prev, node);
        }
        assert(items.map_values(|it: TocItem| item_view(it)) =~= items.drop_last().map_values(|it: TocItem| item_view(it)).push(
            item_view(items.last()),
        ));
    }
}

proof fn lemma_annotated_flatten(old: TocTree, new: TocTree)
    requires
        annotated(old, new),
    ensures
        flatten(new) == flatten(old),
    decreases old,
{
    assert(decreases_to!(old => old.children));
    lemma_annotated_all_flatten(old.children, new.children);
}

proof fn lemma_annotated_all_flatten(old: Seq<TocTree>, new: Seq<TocTree>)
    requires
        annotated_all(old, new),
    ensures
        flatten_all(new) == flatten_all(old),
    decreases old,
{
    if old.len() > 0 {
        lemma_annotated_all_flatten(old.drop_last(), new.drop_last());
        lemma_annotated_flatten(old.last(), new.last());
    }
}

/// The tab tree keeps every TOC entry exactly once and in document order:
/// read in order, the tabs are the TOC.
pub proof fn lemma_tabs_keep_every_heading(items: Seq<TocItem>, tabs: Seq<TocTree>)
    requires
        annotated_all(forest_spec(items, top_level_spec(items)), tabs),
    ensures
        flatten_all(tabs) == items.map_values(|it: TocItem| item_view(it)),
{
    lemma_flatten_forest(items, top_level_spec(items));
    lemma_annotated_all_flatten(forest_spec(items, top_level_spec(items)), tabs);
}

/// Every tab nested under another is deeper than it, all the way down.
pub open spec fn nested(t: TocTree) -> bool
    decreases t,
{
    &&& forall|i: int| 0 <= i < t.children.len() ==> #[trigger] t.children[i].level > t.level
    &&& nested_all(t.children)
}

pub open spec fn nested_all(s: Seq<TocTree>) -> bool
    decreases s,
{
    s.len() > 0 ==> nested_all(s.drop_last()) && nested(s.last())
}

proof fn lemma_nested_all_push(s: Seq<TocTree>, x: TocTree)
    requires
        nested_all(s),
        nested(x),
    ensures
        nested_all(s.push(x)),
{
    assert(s.push(x).drop_last() =~= s);
}

proof fn lemma_nested_all_update_last(s: Seq<TocTree>, x: TocTree)
    requires
        s.len() > 0,
        nested_all(s.drop_last()),
        nested(x),
    ensures
        nested_all(s.update(s.len() - 1, x)),
{
    assert(s.update(s.len() - 1, x).drop_last() =~= s.drop_last());
}

proof fn lemma_nested_insert(p: TocTree, n: TocTree)
    requires
        nested(p),
        nested(n),
        n.level > p.level,
    ensures
        nested(insert_spec(p, n)),
        insert_spec(p, n).level == p.level,
    decreases p,
{
    if p.children.len() > 0 && n.level > p.children.last().level {
        let last = p.children.last();
        assert(decreases_to!(p => p.children));
        assert(p.children[p.children.len() - 1].level > p.level);
        lemma_nested_insert(last, n);
        lemma_nested_all_update_last(p.children, insert_spec(last, n));
        let r = insert_spec(p, n);
        assert forall|i: int| 0 <= i < r.children.len() implies #[trigger] r.children[i].level > r.level by {
            if i < p.children.len() - 1 {
                assert(r.children[i] == p.children[i]);
            }
        }
    } else {
        lemma_nested_all_push(p.children, n);
        let r = insert_spec(p, n);
        assert forall|i: int| 0 <= i < r.children.len() implies #[trigger] r.children[i].level > r.level by {
            if i < p.children.len() {
                assert(r.children[i] == p.children[i]);
            }
        }
    }
}

proof fn lemma_nested_forest(items: Seq<TocItem>, top: u32)
    ensures
        nested_all(forest_spec(items, top)),
    decreases items.len(),
{
    if items.len() > 0 {
        let prev = forest_spec(items.drop_last(), top);
        let node = item_leaf(items.last());
        lemma_nested_forest(items.drop_last(), top);
        assert(nested_all(node.children));
        assert(nested(node));
        if prev.len() == 0 || node.level <= top {
            lemma_nested_all_push(prev, node);
        } else if node.level > prev.last().level {
            lemma_nested_insert(prev.last(), node);
            lemma_nested_all_update_last(prev, insert_spec(prev.last(), node));
        } else {
            lemma_nested_all_push(prev, node);
        }
    }
}

proof fn lemma_annotated_nested(old: TocTree, new: TocTree)
    requires
        annotated(old, new),
        nested(old),
    ensures
        nested(new),
    decreases old,
{
    assert(decreases_to!(old => old.children));
    lemma_annotated_all(old.children, new.children);
    lemma_annotated_all_nested(old.children, new.children);
    assert forall|i: int| 0 <= i < new.children.len() implies #[trigger] new.children[i].level > new.level by {
        assert(annotated(old.children[i], new.children[i]));
        assert(old.children[i].level > old.level);
    }
}

proof fn lemma_annotated_all_nested(old: Seq<TocTree>, new: Seq<TocTree>)
    requires
        annotated_all(old, new),
        nested_all(old),
    ensures
        nested_all(new),
    decreases old,
{
    if old.len() > 0 {
        lemma_annotated_all_nested(old.drop_last(), new.drop_last());
        lemma_annotated_nested(old.last(), new.last());
    }
}

/// Every heading nests only under a shallower one.
pub proof fn lemma_tabs_nest_deeper(items: Seq<TocItem>, tabs: Seq<TocTree>)
    requires
        annotated_all(forest_spec(items, top_level_spec(items)), tabs),
    ensures
        nested_all(tabs),
{
    lemma_nested_forest(items, top_level_spec(items));
    lemma_annotated_all_nested(forest_spec(items, top_level_spec(items)), tabs);
}

} // verus!
