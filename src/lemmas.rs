//! Facts about reconciliation and commit, proved from the contracts.
use vstd::prelude::*;
use crate::element::{Element, TagView};
use crate::fiber::{Fiber, FiberEffect};
use crate::commit::{commit_ops, deletion_ops, fiber_commit_ops, later_link, link_measure, tree_ops};
use crate::context::{ancestor_sibling, links_ok, next_unit};
use crate::host::HostOpView;
use crate::reconcile::{
    child_fiber_ok, first_old_child, kept_or_deleted, lemma_chain_bounded, matched, max_len,
    old_children_of, reconciled, removed,
};

verus! {

/// An old child that lost its position is among those taken out.
pub proof fn lemma_removed_contains(s: Seq<Fiber>, olds: Seq<usize>, kids: Seq<Element>, big: int, k: int)
    requires
        0 <= k < big,
        k < olds.len(),
        !matched(s, olds, kids, k),
    ensures
        removed(s, olds, kids, big).contains(olds[k]),
    decreases big,
{
    let r = removed(s, olds, kids, big);
    if k == big - 1 {
        assert(r[r.len() - 1] == olds[k]);
    } else {
        lemma_removed_contains(s, olds, kids, big - 1, k);
        let r0 = removed(s, olds, kids, big - 1);
        let idx = choose|idx: int| 0 <= idx < r0.len() && r0[idx] == olds[k];
        assert(r[idx] == olds[k]);
    }
}

/// An old child whose position is gone from the new list, or holds a new
/// child of another tag, is marked `Deletion` and joins the pending
/// deletions.
pub proof fn lemma_unmatched_old_child_deleted(
    s0: Seq<Fiber>,
    d0: Seq<usize>,
    ws: int,
    f: int,
    s: Seq<Fiber>,
    d: Seq<usize>,
    k: int,
)
    requires
        links_ok(s0, ws),
        0 <= ws <= f < s0.len(),
        reconciled(s0, d0, f, s, d),
        0 <= k < old_children_of(s0, f).len(),
        !matched(s0, old_children_of(s0, f), s0[f].element_children@, k),
    ensures
        d.contains(old_children_of(s0, f)[k]),
        s[old_children_of(s0, f)[k] as int].effect_tag == Some(FiberEffect::Deletion),
{
    let olds = old_children_of(s0, f);
    let kids = s0[f].element_children@;
    let big = max_len(kids.len() as int, olds.len() as int);
    let gone = removed(s0, olds, kids, big);
    assert(s0[f].alternate matches Some(a) ==> a < ws);
    if let Some(a) = s0[f].alternate {
        assert(s0[a as int].child matches Some(c) ==> c < ws);
    }
    lemma_chain_bounded(s0, ws, first_old_child(s0, f));
    lemma_removed_contains(s0, olds, kids, big, k);
    let o = olds[k] as int;
    assert(kept_or_deleted(s0, gone, o, s[o]));
    let idx = choose|idx: int| 0 <= idx < gone.len() && gone[idx] == olds[k];
    assert(d[d0.len() + idx] == olds[k]);
}

/// Where the new child's tag differs from the old child's at the same
/// position, the old fiber is unmounted and the new one mounted, never
/// updated.
pub proof fn lemma_type_change_remounts(
    s0: Seq<Fiber>,
    d0: Seq<usize>,
    ws: int,
    f: int,
    s: Seq<Fiber>,
    d: Seq<usize>,
    k: int,
)
    requires
        links_ok(s0, ws),
        0 <= ws <= f < s0.len(),
        reconciled(s0, d0, f, s, d),
        0 <= k < old_children_of(s0, f).len(),
        k < s0[f].element_children@.len(),
        s0[old_children_of(s0, f)[k] as int].tag@ != s0[f].element_children@[k].tag@,
    ensures
        s[s0.len() + k].effect_tag == Some(FiberEffect::Placement),
        s[s0.len() + k].alternate.is_none(),
        s[old_children_of(s0, f)[k] as int].effect_tag == Some(FiberEffect::Deletion),
        d.contains(old_children_of(s0, f)[k]),
{
    let olds = old_children_of(s0, f);
    let kids = s0[f].element_children@;
    lemma_unmatched_old_child_deleted(s0, d0, ws, f, s, d, k);
    assert(child_fiber_ok(s0, f, olds, kids, k, s[s0.len() + k]));
}

/// Old children beyond the end of a shorter new list are all unmounted,
/// and no fiber is made for their positions.
pub proof fn lemma_shrinking_unmounts(
    s0: Seq<Fiber>,
    d0: Seq<usize>,
    ws: int,
    f: int,
    s: Seq<Fiber>,
    d: Seq<usize>,
    k: int,
)
    requires
        links_ok(s0, ws),
        0 <= ws <= f < s0.len(),
        reconciled(s0, d0, f, s, d),
        s0[f].element_children@.len() <= k < old_children_of(s0, f).len(),
    ensures
        s.len() == s0.len() + s0[f].element_children@.len(),
        s[old_children_of(s0, f)[k] as int].effect_tag == Some(FiberEffect::Deletion),
        d.contains(old_children_of(s0, f)[k]),
{
    lemma_unmatched_old_child_deleted(s0, d0, ws, f, s, d, k);
}

/// A fiber with no alternate mounts every new child and unmounts nothing.
pub proof fn lemma_fresh_children_mount(s0: Seq<Fiber>, d0: Seq<usize>, f: int, s: Seq<Fiber>, d: Seq<usize>)
    requires
        0 <= f < s0.len(),
        s0[f].alternate.is_none(),
        reconciled(s0, d0, f, s, d),
    ensures
        forall|k: int|
            0 <= k < s0[f].element_children@.len() ==> #[trigger] s[s0.len() + k].effect_tag == Some(
                FiberEffect::Placement,
            ),
        d == d0,
{
    let olds = old_children_of(s0, f);
    let kids = s0[f].element_children@;
    assert(olds.len() == 0);
    assert forall|k: int| 0 <= k < kids.len() implies #[trigger] s[s0.len() + k].effect_tag == Some(
        FiberEffect::Placement,
    ) by {
        assert(child_fiber_ok(s0, f, olds, kids, k, s[s0.len() + k]));
    }
    lemma_nothing_removed(s0, olds, kids, max_len(kids.len() as int, 0));
    assert(d0.add(Seq::empty()) =~= d0);
}

/// With no old children, nothing is taken out.
pub proof fn lemma_nothing_removed(s: Seq<Fiber>, olds: Seq<usize>, kids: Seq<Element>, k: int)
    requires
        olds.len() == 0,
    ensures
        removed(s, olds, kids, k) == Seq::<usize>::empty(),
    decreases k,
{
    if k > 0 {
        lemma_nothing_removed(s, olds, kids, k - 1);
        assert(removed(s, olds, kids, k) =~= Seq::<usize>::empty());
    }
}

/// An updated fiber whose attributes equal its alternate's commits no host
/// operation.
pub proof fn lemma_unchanged_update_is_silent(s: Seq<Fiber>, i: int)
    requires
        0 <= i < s.len(),
        s[i].effect_tag == Some(FiberEffect::Update),
        s[i].alternate matches Some(a) && a < s.len() && s[a as int].props@ == s[i].props@,
    ensures
        fiber_commit_ops(s, i) == Seq::<HostOpView>::empty(),
{
}

/// An updated text fiber whose value went from one string to another
/// commits exactly one host operation: setting the new value.
pub proof fn lemma_text_change_sets_value(s: Seq<Fiber>, i: int, a: usize, node: usize)
    requires
        0 <= i < s.len(),
        a < s.len(),
        s[i].effect_tag == Some(FiberEffect::Update),
        s[i].tag@ == TagView::Text,
        s[i].alternate == Some(a),
        s[i].dom_node == Some(node),
        s[a as int].props@.node_value is Some,
        s[i].props@.node_value is Some,
        s[a as int].props@.node_value != s[i].props@.node_value,
    ensures
        fiber_commit_ops(s, i) == seq![
            HostOpView::SetTextValue { node, value: s[i].props@.node_value.unwrap() },
        ],
{
}

/// A fiber tree in the arena: children and siblings come after, each child
/// has its parent as parent, and siblings share a parent.
pub open spec fn tree_shaped(s: Seq<Fiber>) -> bool {
    forall|i: int|
        #![trigger s[i]]
        0 <= i < s.len() ==> {
            &&& (s[i].child matches Some(c) ==> i < c < s.len() && s[c as int].parent == Some(i as usize))
            &&& (s[i].sibling matches Some(y) ==> i < y < s.len() && s[y as int].parent == s[i].parent)
            &&& (s[i].parent matches Some(p) ==> p < i)
        }
}

/// The pre-order of the fibers reached from `start`: the fiber, its
/// children's subtrees, then its next siblings' subtrees.
pub open spec fn pre_order(s: Seq<Fiber>, start: Option<usize>) -> Seq<usize>
    decreases link_measure(s, start),
{
    match start {
        Some(i) => if i < s.len() {
            seq![i].add(pre_order(s, later_link(i, s[i as int].child))).add(
                pre_order(s, later_link(i, s[i as int].sibling)),
            )
        } else {
            Seq::empty()
        },
        None => Seq::empty(),
    }
}

/// The first `n` units of work visited from `x`.
pub open spec fn walk(s: Seq<Fiber>, x: Option<usize>, n: nat) -> Seq<usize>
    decreases n,
{
    match x {
        Some(i) => if n == 0 || i >= s.len() {
            Seq::empty()
        } else {
            seq![i].add(walk(s, next_unit(s, i as int), (n - 1) as nat))
        },
        None => Seq::empty(),
    }
}

/// The unit of work reached from `x` after `n` units.
pub open spec fn land(s: Seq<Fiber>, x: Option<usize>, n: nat) -> Option<usize>
    decreases n,
{
    match x {
        Some(i) => if n == 0 {
            x
        } else if i >= s.len() {
            None
        } else {
            land(s, next_unit(s, i as int), (n - 1) as nat)
        },
        None => None,
    }
}

/// Walking `a + b` units is walking `a`, then `b` from where that ended.
pub proof fn lemma_walk_split(s: Seq<Fiber>, x: Option<usize>, a: nat, b: nat)
    requires
        land(s, x, a) is Some ==> land(s, x, a).unwrap() < s.len() || b == 0,
    ensures
        walk(s, x, a + b) == walk(s, x, a).add(walk(s, land(s, x, a), b)),
        land(s, x, a + b) == land(s, land(s, x, a), b),
    decreases a,
{
    match x {
        Some(i) => {
            if a == 0 {
                assert(walk(s, x, 0) == Seq::<usize>::empty());
                assert(Seq::<usize>::empty().add(walk(s, x, b)) =~= walk(s, x, b));
            } else if i >= s.len() {
                assert(land(s, x, a) is None);
                assert(walk(s, x, a).add(walk(s, None, b)) =~= walk(s, x, a + b));
            } else {
                lemma_walk_split(s, next_unit(s, i as int), (a - 1) as nat, b);
                assert((a + b - 1) as nat == (a - 1) as nat + b);
                assert(walk(s, x, a + b) =~= walk(s, x, a).add(walk(s, land(s, x, a), b)));
            }
        },
        None => {
            assert(Seq::<usize>::empty().add(Seq::<usize>::empty()) =~= Seq::<usize>::empty());
        },
    }
}

/// Siblings have the same ancestor's sibling.
pub proof fn lemma_sibling_same_continuation(s: Seq<Fiber>, i: int)
    requires
        tree_shaped(s),
        0 <= i < s.len(),
        s[i].sibling is Some,
    ensures
        ancestor_sibling(s, s[i].sibling.unwrap() as int) == ancestor_sibling(s, i),
{
    let y = s[i].sibling.unwrap() as int;
    assert(s[y] == s[y]);
}

/// From any fiber of a tree, the units of work visit its pre-order (its
/// subtree, then its next siblings' subtrees) and then go on to its nearest
/// ancestor's sibling.
pub proof fn lemma_walk_pre_order(s: Seq<Fiber>, i: usize)
    requires
        tree_shaped(s),
        0 <= i < s.len(),
    ensures
        walk(s, Some(i), pre_order(s, Some(i)).len()) == pre_order(s, Some(i)),
        land(s, Some(i), pre_order(s, Some(i)).len()) == ancestor_sibling(s, i as int),
    decreases s.len() - i,
{
    assert(s[i as int] == s[i as int]);
    let x = Some(i);
    let cs = pre_order(s, s[i as int].child);
    let ys = pre_order(s, s[i as int].sibling);
    assert(later_link(i, s[i as int].child) == s[i as int].child);
    assert(later_link(i, s[i as int].sibling) == s[i as int].sibling);
    assert(pre_order(s, x) == seq![i].add(cs).add(ys));
    let n = pre_order(s, x).len();
    // After the subtree of the children: the sibling, or the ancestor's sibling.
    let after_children = match s[i as int].sibling {
        Some(y) => Some(y),
        None => ancestor_sibling(s, i as int),
    };
    assert(walk(s, x, 1) =~= seq![i]) by {
        assert(walk(s, next_unit(s, i as int), 0) == Seq::<usize>::empty());
    }
    assert(land(s, next_unit(s, i as int), 0) == next_unit(s, i as int));
    assert(land(s, x, 1) == next_unit(s, i as int));
    if let Some(c) = s[i as int].child {
        lemma_walk_pre_order(s, c);
        assert(s[c as int].parent == Some(i));
        assert(ancestor_sibling(s, c as int) == after_children);
    }
    let mid = land(s, x, 1 + cs.len());
    assert(walk(s, x, 1 + cs.len()) == seq![i].add(cs) && mid == after_children) by {
        lemma_walk_split(s, x, 1, cs.len());
        if s[i as int].child.is_none() {
            assert(cs.len() == 0);
            assert(walk(s, next_unit(s, i as int), 0) == Seq::<usize>::empty());
            assert(seq![i].add(Seq::<usize>::empty()) =~= seq![i]);
        }
    }
    if let Some(y) = s[i as int].sibling {
        lemma_walk_pre_order(s, y);
        lemma_sibling_same_continuation(s, i as int);
        lemma_walk_split(s, x, 1 + cs.len(), ys.len());
        assert(walk(s, x, n) =~= pre_order(s, x));
    } else {
        assert(ys.len() == 0);
        assert(walk(s, x, n) =~= pre_order(s, x)) by {
            lemma_walk_split(s, x, 1 + cs.len(), 0);
        }
        lemma_walk_split(s, x, 1 + cs.len(), 0);
    }
}

/// `w` is `z` or one of its ancestors.
pub open spec fn reaches(s: Seq<Fiber>, z: int, w: int) -> bool
    decreases z,
{
    z == w || (0 <= z < s.len() && match s[z].parent {
        Some(p) => p < z && reaches(s, p as int, w),
        None => false,
    })
}

proof fn lemma_reaches_below(s: Seq<Fiber>, z: int, w: int)
    requires
        reaches(s, z, w),
    ensures
        w <= z,
    decreases z,
{
    if z != w {
        lemma_reaches_below(s, s[z].parent.unwrap() as int, w);
    }
}

proof fn lemma_reaches_parent(s: Seq<Fiber>, z: int, w: int)
    requires
        tree_shaped(s),
        0 <= w < s.len(),
        reaches(s, z, w),
        s[w].parent is Some,
    ensures
        reaches(s, z, s[w].parent.unwrap() as int),
    decreases z,
{
    assert(s[w] == s[w]);
    let p = s[w].parent.unwrap() as int;
    assert(reaches(s, p, p));
    if z != w {
        lemma_reaches_parent(s, s[z].parent.unwrap() as int, w);
    }
    assert(reaches(s, z, p));
}

/// On one line of ancestors, only one fiber has a given parent.
proof fn lemma_one_child_of_parent_on_line(s: Seq<Fiber>, z: int, w1: int, w2: int)
    requires
        tree_shaped(s),
        0 <= w1 < s.len(),
        0 <= w2 < s.len(),
        reaches(s, z, w1),
        reaches(s, z, w2),
        s[w1].parent == s[w2].parent,
    ensures
        w1 == w2,
    decreases z,
{
    if z == w1 && z != w2 {
        let p = s[z].parent.unwrap() as int;
        lemma_reaches_below(s, p, w2);
        assert(s[w2] == s[w2]);
    } else if z == w2 && z != w1 {
        let p = s[z].parent.unwrap() as int;
        lemma_reaches_below(s, p, w1);
        assert(s[w1] == s[w1]);
    } else if z != w1 && z != w2 {
        lemma_one_child_of_parent_on_line(s, s[z].parent.unwrap() as int, w1, w2);
    }
}

/// Every fiber in the pre-order from `c` is at or after `c`, and lies
/// under `c` or one of its next siblings.
proof fn lemma_pre_order_members(s: Seq<Fiber>, c: usize, k: int)
    requires
        tree_shaped(s),
        c < s.len(),
        0 <= k < pre_order(s, Some(c)).len(),
    ensures
        c <= pre_order(s, Some(c))[k] < s.len(),
        exists|w: int|
            c <= w < s.len() && #[trigger] reaches(s, pre_order(s, Some(c))[k] as int, w)
                && s[w].parent == s[c as int].parent,
    decreases s.len() - c, k,
{
    assert(s[c as int] == s[c as int]);
    let cs = pre_order(s, s[c as int].child);
    let ys = pre_order(s, s[c as int].sibling);
    assert(later_link(c, s[c as int].child) == s[c as int].child);
    assert(later_link(c, s[c as int].sibling) == s[c as int].sibling);
    let all = pre_order(s, Some(c));
    assert(all == seq![c].add(cs).add(ys));
    let z = all[k];
    if k == 0 {
        assert(reaches(s, z as int, c as int));
    } else if k < 1 + cs.len() {
        let ch = s[c as int].child.unwrap();
        assert(z == cs[k - 1]);
        lemma_pre_order_members(s, ch, k - 1);
        let w = choose|w: int| ch <= w < s.len() && #[trigger] reaches(s, z as int, w) && s[w].parent == s[ch as int].parent;
        assert(s[ch as int].parent == Some(c));
        lemma_reaches_parent(s, z as int, w);
        assert(reaches(s, z as int, c as int));
    } else {
        let y = s[c as int].sibling.unwrap();
        assert(z == ys[k - 1 - cs.len()]);
        lemma_pre_order_members(s, y, k - 1 - cs.len());
        let w = choose|w: int| y <= w < s.len() && #[trigger] reaches(s, z as int, w) && s[w].parent == s[y as int].parent;
        assert(s[y as int].parent == s[c as int].parent);
    }
}

/// The pre-order from a fiber of a tree lists no fiber twice.
pub proof fn lemma_pre_order_no_duplicates(s: Seq<Fiber>, c: usize)
    requires
        tree_shaped(s),
        c < s.len(),
    ensures
        pre_order(s, Some(c)).no_duplicates(),
    decreases s.len() - c,
{
    assert(s[c as int] == s[c as int]);
    let cs = pre_order(s, s[c as int].child);
    let ys = pre_order(s, s[c as int].sibling);
    assert(later_link(c, s[c as int].child) == s[c as int].child);
    assert(later_link(c, s[c as int].sibling) == s[c as int].sibling);
    assert(pre_order(s, Some(c)) == seq![c].add(cs).add(ys));
    if let Some(ch) = s[c as int].child {
        lemma_pre_order_no_duplicates(s, ch);
        assert forall|k: int| 0 <= k < cs.len() implies cs[k] > c by {
            lemma_pre_order_members(s, ch, k);
        }
    }
    if let Some(y) = s[c as int].sibling {
        lemma_pre_order_no_duplicates(s, y);
        assert forall|k: int| 0 <= k < ys.len() implies ys[k] > c by {
            lemma_pre_order_members(s, y, k);
        }
    }
    assert forall|a: int, b: int| 0 <= a < cs.len() && 0 <= b < ys.len() implies cs[a] != ys[b] by {
        let ch = s[c as int].child.unwrap();
        let y = s[c as int].sibling.unwrap();
        lemma_pre_order_members(s, ch, a);
        lemma_pre_order_members(s, y, b);
        if cs[a] == ys[b] {
            let z = cs[a] as int;
            let w1 = choose|w: int| ch <= w < s.len() && #[trigger] reaches(s, z, w) && s[w].parent == s[ch as int].parent;
            let w2 = choose|w: int| y <= w < s.len() && #[trigger] reaches(s, z, w) && s[w].parent == s[y as int].parent;
            lemma_reaches_parent(s, z, w1);
            assert(s[c as int].parent == s[y as int].parent);
            lemma_one_child_of_parent_on_line(s, z, c as int, w2);
        }
    }
    vstd::seq_lib::lemma_no_dup_in_concat(seq![c], cs);
    assert forall|a: int, b: int| 0 <= a < seq![c].add(cs).len() && 0 <= b < ys.len() implies seq![c].add(cs)[a] != ys[b] by {
        if a > 0 {
            assert(seq![c].add(cs)[a] == cs[a - 1]);
        }
    }
    vstd::seq_lib::lemma_no_dup_in_concat(seq![c].add(cs), ys);
}

/// From the root of a tree, the units of work visit every fiber of the
/// tree in pre-order, then report the pass complete.
pub proof fn lemma_traversal_total(s: Seq<Fiber>, r: usize)
    requires
        tree_shaped(s),
        r < s.len(),
        s[r as int].parent.is_none(),
        s[r as int].sibling.is_none(),
    ensures
        walk(s, Some(r), pre_order(s, Some(r)).len()) == pre_order(s, Some(r)),
        land(s, Some(r), pre_order(s, Some(r)).len()).is_none(),
        pre_order(s, Some(r)).no_duplicates(),
{
    lemma_pre_order_no_duplicates(s, r);
    lemma_walk_pre_order(s, r);
    assert(ancestor_sibling(s, r as int).is_none());
}

/// A fiber whose commit has nothing to do.
pub open spec fn silent(s: Seq<Fiber>, i: int) -> bool {
    &&& s[i].effect_tag == Some(FiberEffect::Update)
    &&& s[i].alternate matches Some(a) && a < s.len() && s[a as int].props@ == s[i].props@
}

/// Where every fiber reached from `start` is silent, committing them
/// records no host operation.
pub proof fn lemma_silent_tree(s: Seq<Fiber>, start: Option<usize>)
    requires
        forall|k: int| 0 <= k < pre_order(s, start).len() ==> silent(s, #[trigger] pre_order(s, start)[k] as int),
    ensures
        tree_ops(s, start) == Seq::<HostOpView>::empty(),
    decreases link_measure(s, start),
{
    if let Some(i) = start {
        if i < s.len() {
            let c = later_link(i, s[i as int].child);
            let y = later_link(i, s[i as int].sibling);
            let cs = pre_order(s, c);
            let ys = pre_order(s, y);
            let all = pre_order(s, start);
            assert(all == seq![i].add(cs).add(ys));
            assert(all[0] == i);
            lemma_unchanged_update_is_silent(s, i as int);
            assert forall|k: int| 0 <= k < cs.len() implies silent(s, #[trigger] cs[k] as int) by {
                assert(cs[k] == all[k + 1]);
            }
            assert forall|k: int| 0 <= k < ys.len() implies silent(s, #[trigger] ys[k] as int) by {
                assert(ys[k] == all[k + 1 + cs.len()]);
            }
            lemma_silent_tree(s, c);
            lemma_silent_tree(s, y);
            assert(tree_ops(s, start) =~= Seq::<HostOpView>::empty());
        }
    }
}

/// A commit with no pending deletions in which every fiber under the root
/// kept its tag and attributes records no host operation.
pub proof fn lemma_unchanged_render_commits_nothing(s: Seq<Fiber>, r: usize)
    requires
        r < s.len(),
        forall|k: int|
            0 <= k < pre_order(s, s[r as int].child).len() ==> silent(
                s,
                #[trigger] pre_order(s, s[r as int].child)[k] as int,
            ),
    ensures
        commit_ops(s, Seq::empty(), r as int) == Seq::<HostOpView>::empty(),
{
    lemma_silent_tree(s, s[r as int].child);
    assert(deletion_ops(s, Seq::empty()) == Seq::<HostOpView>::empty());
    assert(commit_ops(s, Seq::empty(), r as int) =~= Seq::<HostOpView>::empty());
}

/// Where every fiber reached from `start` but `t` is silent, and `t` is
/// reached once, the commit records exactly the operations of `t`.
pub proof fn lemma_one_loud_fiber(s: Seq<Fiber>, start: Option<usize>, t: usize)
    requires
        pre_order(s, start).contains(t),
        pre_order(s, start).no_duplicates(),
        forall|k: int|
            0 <= k < pre_order(s, start).len() && pre_order(s, start)[k] != t ==> silent(
                s,
                #[trigger] pre_order(s, start)[k] as int,
            ),
    ensures
        tree_ops(s, start) == fiber_commit_ops(s, t as int),
    decreases link_measure(s, start),
{
    let i = start.unwrap();
    let c = later_link(i, s[i as int].child);
    let y = later_link(i, s[i as int].sibling);
    let cs = pre_order(s, c);
    let ys = pre_order(s, y);
    let all = pre_order(s, start);
    assert(i < s.len());
    assert(all == seq![i].add(cs).add(ys));
    assert(all[0] == i);
    assert forall|k: int| 0 <= k < cs.len() implies #[trigger] cs[k] == all[k + 1] by {}
    assert forall|k: int| 0 <= k < ys.len() implies #[trigger] ys[k] == all[k + 1 + cs.len()] by {}
    let in_cs = cs.contains(t);
    let in_ys = ys.contains(t);
    if i == t {
        assert forall|k: int| 0 <= k < cs.len() implies silent(s, #[trigger] cs[k] as int) by {
            assert(all[k + 1] != all[0]);
        }
        assert forall|k: int| 0 <= k < ys.len() implies silent(s, #[trigger] ys[k] as int) by {
            assert(all[k + 1 + cs.len()] != all[0]);
        }
        lemma_silent_tree(s, c);
        lemma_silent_tree(s, y);
        assert(tree_ops(s, start) =~= fiber_commit_ops(s, t as int));
    } else {
        lemma_unchanged_update_is_silent(s, i as int);
        let idx = choose|idx: int| 0 <= idx < all.len() && all[idx] == t;
        if idx < 1 + cs.len() {
            assert(cs[idx - 1] == t);
            assert forall|k: int| 0 <= k < ys.len() implies silent(s, #[trigger] ys[k] as int) by {
                assert(all[k + 1 + cs.len()] != all[idx]);
            }
            assert forall|k: int| 0 <= k < cs.len() && cs[k] != t implies silent(s, #[trigger] cs[k] as int) by {}
            assert(cs.no_duplicates()) by {
                assert forall|a: int, b: int| 0 <= a < cs.len() && 0 <= b < cs.len() && a != b implies cs[a] != cs[b] by {
                    assert(all[a + 1] != all[b + 1]);
                }
            }
            lemma_one_loud_fiber(s, c, t);
            lemma_silent_tree(s, y);
        } else {
            assert(ys[idx - 1 - cs.len()] == t);
            assert forall|k: int| 0 <= k < cs.len() implies silent(s, #[trigger] cs[k] as int) by {
                assert(all[k + 1] != all[idx]);
            }
            assert forall|k: int| 0 <= k < ys.len() && ys[k] != t implies silent(s, #[trigger] ys[k] as int) by {}
            assert(ys.no_duplicates()) by {
                assert forall|a: int, b: int| 0 <= a < ys.len() && 0 <= b < ys.len() && a != b implies ys[a] != ys[b] by {
                    assert(all[a + 1 + cs.len()] != all[b + 1 + cs.len()]);
                }
            }
            lemma_silent_tree(s, c);
            lemma_one_loud_fiber(s, y, t);
        }
        assert(tree_ops(s, start) =~= fiber_commit_ops(s, t as int));
    }
}

/// In a tree where, below the root, only the text fiber `t` changed its
/// value and everything else kept tag and attributes, with no pending
/// deletions, the commit records exactly one host operation: setting the
/// new value on `t`'s host node.
pub proof fn lemma_text_change_commits_one_patch(s: Seq<Fiber>, r: usize, t: usize)
    requires
        tree_shaped(s),
        r < s.len(),
        pre_order(s, s[r as int].child).contains(t),
        forall|k: int|
            0 <= k < pre_order(s, s[r as int].child).len() && pre_order(s, s[r as int].child)[k] != t
                ==> silent(s, #[trigger] pre_order(s, s[r as int].child)[k] as int),
        s[t as int].effect_tag == Some(FiberEffect::Update),
        s[t as int].tag@ == TagView::Text,
        s[t as int].dom_node is Some,
        s[t as int].alternate matches Some(a) && a < s.len() && s[a as int].props@.node_value is Some
            && s[a as int].props@.node_value != s[t as int].props@.node_value,
        s[t as int].props@.node_value is Some,
    ensures
        commit_ops(s, Seq::empty(), r as int) == seq![
            HostOpView::SetTextValue {
                node: s[t as int].dom_node.unwrap(),
                value: s[t as int].props@.node_value.unwrap(),
            },
        ],
{
    assert(s[r as int] == s[r as int]);
    let c = s[r as int].child.unwrap();
    let idx = choose|idx: int| 0 <= idx < pre_order(s, s[r as int].child).len() && pre_order(s, s[r as int].child)[idx] == t;
    lemma_pre_order_members(s, c, idx);
    lemma_pre_order_no_duplicates(s, c);
    lemma_one_loud_fiber(s, s[r as int].child, t);
    lemma_text_change_sets_value(s, t as int, s[t as int].alternate.unwrap(), s[t as int].dom_node.unwrap());
    assert(deletion_ops(s, Seq::empty()) == Seq::<HostOpView>::empty());
    assert(commit_ops(s, Seq::empty(), r as int) =~= fiber_commit_ops(s, t as int));
}

} // verus!
