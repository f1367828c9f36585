//! The reconciler: positional diff of a fiber's new children against the
//! children of its alternate.
use vstd::prelude::*;
use crate::context::{links_ok, Context};
use crate::element::Element;
use crate::fiber::{Fiber, FiberEffect};

verus! {

/// The chain of fibers reached from `start` by sibling links.
pub open spec fn chain_from(s: Seq<Fiber>, start: Option<usize>) -> Seq<usize>
    decreases
            (match start {
                Some(x) => s.len() - x,
                None => 0,
            }),
{
    match start {
        Some(x) => if x < s.len() {
            match s[x as int].sibling {
                Some(y) => if x < y && y < s.len() {
                    seq![x].add(chain_from(s, Some(y)))
                } else {
                    seq![x]
                },
                None => seq![x],
            }
        } else {
            Seq::empty()
        },
        None => Seq::empty(),
    }
}

/// The first child of the fiber's alternate: where the old children start.
pub open spec fn first_old_child(s: Seq<Fiber>, f: int) -> Option<usize> {
    match s[f].alternate {
        Some(a) => s[a as int].child,
        None => None,
    }
}

/// The old children of fiber `f`, in order.
pub open spec fn old_children_of(s: Seq<Fiber>, f: int) -> Seq<usize> {
    chain_from(s, first_old_child(s, f))
}

/// Position `k` is reused: an old child stands there with the same tag.
pub open spec fn matched(s: Seq<Fiber>, olds: Seq<usize>, kids: Seq<Element>, k: int) -> bool {
    &&& k < olds.len()
    &&& k < kids.len()
    &&& s[olds[k] as int].tag@ == kids[k].tag@
}

/// The old children among the first `k` positions that get no successor.
pub open spec fn removed(s: Seq<Fiber>, olds: Seq<usize>, kids: Seq<Element>, k: int) -> Seq<usize>
    decreases k,
{
    if k <= 0 {
        Seq::empty()
    } else {
        removed(s, olds, kids, k - 1).add(
            if k - 1 < olds.len() && !matched(s, olds, kids, k - 1) {
                seq![olds[k - 1]]
            } else {
                Seq::empty()
            },
        )
    }
}

pub open spec fn max_len(a: int, b: int) -> int {
    if a < b {
        b
    } else {
        a
    }
}

/// The fiber made for the `k`-th new child of `f`, links to siblings aside.
pub open spec fn child_fiber_ok(
    s: Seq<Fiber>,
    f: int,
    olds: Seq<usize>,
    kids: Seq<Element>,
    k: int,
    c: Fiber,
) -> bool {
    &&& c.tag == kids[k].tag
    &&& c.props == kids[k].props
    &&& c.element_children == kids[k].children
    &&& c.parent == Some(f as usize)
    &&& c.child.is_none()
    &&& if matched(s, olds, kids, k) {
        &&& c.alternate == Some(olds[k])
        &&& c.dom_node == s[olds[k] as int].dom_node
        &&& c.effect_tag == Some(FiberEffect::Update)
    } else {
        &&& c.alternate.is_none()
        &&& c.dom_node.is_none()
        &&& c.effect_tag == Some(FiberEffect::Placement)
    }
}

/// An old fiber after reconciliation: marked for deletion when it lost its
/// position, untouched otherwise.
pub open spec fn kept_or_deleted(s0: Seq<Fiber>, gone: Seq<usize>, j: int, c: Fiber) -> bool {
    if gone.contains(j as usize) {
        c == (Fiber { effect_tag: Some(FiberEffect::Deletion), ..s0[j] })
    } else {
        c == s0[j]
    }
}

/// What `reconcile_children` does to fiber `f`: arena `s0` and deletion list
/// `d0` before, `s` and `d` after.
pub open spec fn reconciled(
    s0: Seq<Fiber>,
    d0: Seq<usize>,
    f: int,
    s: Seq<Fiber>,
    d: Seq<usize>,
) -> bool {
    let olds = old_children_of(s0, f);
    let kids = s0[f].element_children@;
    let n = kids.len() as int;
    let len0 = s0.len() as int;
    let gone = removed(s0, olds, kids, max_len(n, olds.len() as int));
    &&& s.len() == len0 + n
    &&& s[f] == (Fiber {
        element_children: s[f].element_children,
        child: if n > 0 {
            Some(len0 as usize)
        } else {
            s0[f].child
        },
        ..s0[f]
    })
    &&& s[f].element_children@.len() == 0
    &&& forall|j: int| 0 <= j < len0 && j != f ==> kept_or_deleted(s0, gone, j, #[trigger] s[j])
    &&& forall|k: int|
        0 <= k < n ==> {
            &&& child_fiber_ok(s0, f, olds, kids, k, #[trigger] s[len0 + k])
            &&& s[len0 + k].sibling == if k + 1 < n {
                Some((len0 + k + 1) as usize)
            } else {
                None
            }
        }
    &&& d == d0.add(gone)
}

/// Every fiber of a chain that starts in an older pass is in an older pass.
pub proof fn lemma_chain_bounded(s: Seq<Fiber>, ws: int, start: Option<usize>)
    requires
        links_ok(s, ws),
        start matches Some(x) ==> x < ws,
        ws <= s.len(),
    ensures
        forall|k: int| 0 <= k < chain_from(s, start).len() ==> #[trigger] chain_from(s, start)[k] < ws,
    decreases
            (match start {
                Some(x) => s.len() - x,
                None => 0,
            }),
{
    match start {
        Some(x) => {
            if x < s.len() {
                match s[x as int].sibling {
                    Some(y) => {
                        if x < y && y < s.len() {
                            lemma_chain_bounded(s, ws, Some(y));
                            let tail = chain_from(s, Some(y));
                            assert forall|k: int| 0 <= k < chain_from(s, start).len() implies #[trigger] chain_from(s, start)[k] < ws by {
                                if k > 0 {
                                    assert(chain_from(s, start)[k] == tail[k - 1]);
                                }
                            }
                        }
                    },
                    None => {},
                }
            }
        },
        None => {},
    }
}

/// Every fiber taken out of position comes from the old children.
pub proof fn lemma_removed_from(s: Seq<Fiber>, olds: Seq<usize>, kids: Seq<Element>, k: int)
    ensures
        forall|g: int| 0 <= g < removed(s, olds, kids, k).len() ==> olds.contains(
            #[trigger] removed(s, olds, kids, k)[g],
        ),
    decreases k,
{
    if k > 0 {
        lemma_removed_from(s, olds, kids, k - 1);
        let r0 = removed(s, olds, kids, k - 1);
        let r1 = removed(s, olds, kids, k);
        assert forall|g: int| 0 <= g < r1.len() implies olds.contains(#[trigger] r1[g]) by {
            if g < r0.len() {
                assert(r1[g] == r0[g]);
            } else {
                assert(r1[g] == olds[k - 1]);
            }
        }
    }
}

impl Context {
    /// The fibers reached from `start` by sibling links, in order.
    fn sibling_chain(&self, start: Option<usize>) -> (r: Vec<usize>)
        requires
            self.wf(),
        ensures
            r@ == chain_from(self.fibers@, start),
    {
        let ghost s = self.fibers@;
        let mut r: Vec<usize> = Vec::new();
        let mut cur = start;
        while cur.is_some()
            invariant
                s == self.fibers@,
                r@.add(chain_from(s, cur)) == chain_from(s, start),
            decreases
                    (match cur {
                        Some(x) => if x < s.len() {
                            s.len() - x + 1
                        } else {
                            1
                        },
                        None => 0,
                    }),
        {
            let x = cur.unwrap();
            if x >= self.fibers.len() {
                assert(chain_from(s, cur) == Seq::<usize>::empty());
                assert(r@.add(Seq::<usize>::empty()) == r@);
                cur = None;
            } else {
                let next = self.fibers[x].sibling;
                let ghost r0 = r@;
                r.push(x);
                match next {
                    Some(y) => {
                        if x < y && y < self.fibers.len() {
                            assert(r@.add(chain_from(s, Some(y))) == r0.add(
                                seq![x].add(chain_from(s, Some(y))),
                            ));
                            cur = Some(y);
                        } else {
                            assert(r@.add(Seq::<usize>::empty()) == r@);
                            cur = None;
                        }
                    },
                    None => {
                        assert(r@.add(Seq::<usize>::empty()) == r@);
                        cur = None;
                    },
                }
            }
        }
        assert(r@.add(Seq::<usize>::empty()) == r@);
        r
    }

    /// Builds the next generation of `f`'s children from its pending virtual
    /// children, pairing them by position with the children of `f`'s
    /// alternate. A position whose tag is kept reuses the old child's host
    /// node (`Update`); any other new child is mounted (`Placement`); an old
    /// child whose position is replaced or gone is marked `Deletion` and
    /// added to the pending deletions.
    pub fn reconcile_children(&mut self, f: usize)
        requires
            old(self).wf(),
            old(self).wip_start <= f < old(self).fibers.len(),
            old(self).fibers.len() + old(self).fibers@[f as int].element_children@.len() <= usize::MAX,
        ensures
            final(self).wf(),
            reconciled(old(self).fibers@, old(self).deletions@, f as int, final(self).fibers@, final(self).deletions@),
            final(self).wip_start == old(self).wip_start,
            final(self).wip_root == old(self).wip_root,
            final(self).current_root == old(self).current_root,
            final(self).next_unit_of_work == old(self).next_unit_of_work,
            final(self).ops == old(self).ops,
    {
        let ghost s0 = self.fibers@;
        let ghost d0 = self.deletions@;
        let ghost ws = self.wip_start as int;
        let old_first = match self.fibers[f].alternate {
            Some(a) => self.fibers[a].child,
            None => None,
        };
        let olds = self.sibling_chain(old_first);
        proof {
            lemma_chain_bounded(s0, ws, old_first);
        }
        let mut kids: Vec<Element> = Vec::new();
        std::mem::swap(&mut self.fibers[f].element_children, &mut kids);
        let ghost kids0 = kids@;
        let n = kids.len();
        let m = olds.len();
        let len0 = self.fibers.len();
        let mut k: usize = 0;
        while k < n || k < m
            invariant
                self.wip_start == ws,
                0 <= ws <= f < len0,
                s0.len() == len0,
                len0 + n <= usize::MAX,
                n == kids0.len(),
                m == olds@.len(),
                olds@ == old_children_of(s0, f as int),
                forall|j: int| 0 <= j < m ==> #[trigger] olds@[j] < ws,
                k <= max_len(n as int, m as int),
                kids@ == kids0.subrange(if k < n { k as int } else { n as int }, n as int),
                kids0 == s0[f as int].element_children@,
                links_ok(s0, ws),
                self.fibers@.len() == len0 + if k < n { k as int } else { n as int },
                self.fibers@[f as int] == (Fiber { element_children: self.fibers@[f as int].element_children, ..s0[f as int] }),
                self.fibers@[f as int].element_children@.len() == 0,
                forall|j: int| 0 <= j < len0 && j != f ==> kept_or_deleted(s0, removed(s0, olds@, kids0, k as int), j, #[trigger] self.fibers@[j]),
                forall|j: int|
                    0 <= j < n && j < k ==> {
                        &&& child_fiber_ok(s0, f as int, olds@, kids0, j, #[trigger] self.fibers@[len0 + j])
                        &&& self.fibers@[len0 + j].sibling == if j + 1 < n && j + 1 < k {
                            Some((len0 + j + 1) as usize)
                        } else {
                            None
                        }
                    },
                self.deletions@ == d0.add(removed(s0, olds@, kids0, k as int)),
                self.wip_root == old(self).wip_root,
                self.current_root == old(self).current_root,
                self.next_unit_of_work == old(self).next_unit_of_work,
                self.ops == old(self).ops,
            decreases max_len(n as int, m as int) - k,
        {
            let ghost pre = self.fibers@;
            let mut same = false;
            if k < n {
                let el = kids.remove(0);
                assert(el == kids0[k as int]);
                if k < m {
                    same = self.fibers[olds[k]].tag.same_as(&el.tag);
                }
                let Element { tag, props, children } = el;
                let child_fiber = if same {
                    Fiber {
                        tag,
                        props,
                        element_children: children,
                        dom_node: self.fibers[olds[k]].dom_node,
                        alternate: Some(olds[k]),
                        parent: Some(f),
                        sibling: None,
                        child: None,
                        effect_tag: Some(FiberEffect::Update),
                    }
                } else {
                    Fiber {
                        tag,
                        props,
                        element_children: children,
                        dom_node: None,
                        alternate: None,
                        parent: Some(f),
                        sibling: None,
                        child: None,
                        effect_tag: Some(FiberEffect::Placement),
                    }
                };
                self.fibers.push(child_fiber);
                if k > 0 {
                    self.fibers[len0 + k - 1].sibling = Some(len0 + k);
                }
            }
            if k < m && !same {
                let o = olds[k];
                self.fibers[o].effect_tag = Some(FiberEffect::Deletion);
                self.deletions.push(o);
            }
            proof {
                assert(same == matched(s0, olds@, kids0, k as int));
                let gone0 = removed(s0, olds@, kids0, k as int);
                let gone1 = removed(s0, olds@, kids0, k as int + 1);
                let added = k < m && !same;
                assert(gone1 == gone0.add(
                    if added {
                        seq![olds@[k as int]]
                    } else {
                        Seq::empty()
                    },
                ));
                assert forall|j: int| 0 <= j < len0 && j != f implies kept_or_deleted(
                    s0,
                    gone1,
                    j,
                    #[trigger] self.fibers@[j],
                ) by {
                    assert(kept_or_deleted(s0, gone0, j, pre[j]));
                    if added && j == olds@[k as int] {
                        assert(gone1[gone1.len() - 1] == olds@[k as int]);
                        assert(gone1.contains(j as usize));
                    } else {
                        if gone1.contains(j as usize) {
                            let idx = choose|idx: int| 0 <= idx < gone1.len() && gone1[idx] == j as usize;
                            assert(idx < gone0.len());
                            assert(gone0[idx] == j as usize);
                        }
                        if gone0.contains(j as usize) {
                            let idx = choose|idx: int| 0 <= idx < gone0.len() && gone0[idx] == j as usize;
                            assert(gone1[idx] == j as usize);
                        }
                    }
                }
            }
            k = k + 1;
        }
        let ghost pre = self.fibers@;
        if n > 0 {
            self.fibers[f].child = Some(len0);
        }
        proof {
            let s = self.fibers@;
            let gone = removed(s0, olds@, kids0, max_len(n as int, m as int));
            assert(k as int == max_len(n as int, m as int));
            assert forall|j: int| 0 <= j < len0 && j != f implies kept_or_deleted(s0, gone, j, #[trigger] s[j]) by {
                assert(s[j] == pre[j]);
            }
            assert forall|i: int| #![trigger s[i]] 0 <= i < s.len() implies {
                &&& (s[i].child matches Some(c) ==> i < c < s.len() && (i < ws ==> c < ws))
                &&& (s[i].sibling matches Some(c) ==> i < c < s.len() && (i < ws ==> c < ws))
                &&& (s[i].parent matches Some(p) ==> p < i && (i >= ws ==> p >= ws))
                &&& (s[i].alternate matches Some(a) ==> a < i && (i >= ws ==> a < ws))
            } by {
                if i < len0 && i != f {
                    assert(kept_or_deleted(s0, gone, i, s[i]));
                    assert(s0[i] == s0[i]);
                } else if i >= len0 {
                    assert(child_fiber_ok(s0, f as int, olds@, kids0, i - len0, s[len0 + (i - len0)]));
                    if matched(s0, olds@, kids0, i - len0) {
                        assert(olds@[i - len0] < ws);
                    }
                } else {
                    assert(s0[i] == s0[i]);
                }
            }
            assert forall|x: int| 0 <= x < self.deletions@.len() implies #[trigger] self.deletions@[x] < s.len() by {
                if x >= d0.len() {
                    let g = x - d0.len();
                    assert(self.deletions@[x] == gone[g]);
                    lemma_removed_from(s0, olds@, kids0, max_len(n as int, m as int));
                    assert(olds@.contains(gone[g]));
                }
            }
            if let Some(r) = self.wip_root {
                if r != f {
                    assert(kept_or_deleted(s0, gone, r as int, s[r as int]));
                }
            }
        }
    }
}

} // verus!
