//! The committer: one uninterrupted pass that records the host operations
//! of a finished render pass.
use vstd::prelude::*;
use crate::context::{Context, FiberParentsIter};
use crate::element::TagView;
use crate::fiber::{Fiber, FiberEffect};
use crate::host::{class_patch, ops_view, text_patch, HostOp, HostOpView};

verus! {

/// The nearest ancestor of `i` that holds a host node.
pub open spec fn host_parent(s: Seq<Fiber>, i: int) -> Option<usize>
    decreases i,
{
    if 0 <= i < s.len() {
        match s[i].parent {
            Some(p) => if p < i {
                if s[p as int].dom_node.is_some() {
                    Some(p)
                } else {
                    host_parent(s, p as int)
                }
            } else {
                None
            },
            None => None,
        }
    } else {
        None
    }
}

/// Attaching the host node of `i` under its nearest host ancestor, when
/// both exist and the ancestor is not a text node.
pub open spec fn placement_ops(s: Seq<Fiber>, i: int) -> Seq<HostOpView> {
    match (s[i].dom_node, host_parent(s, i)) {
        (Some(d), Some(p)) => match s[p as int].dom_node {
            Some(pd) => if s[p as int].tag@ != TagView::Text {
                seq![HostOpView::AppendChild { parent: pd, child: d }]
            } else {
                Seq::empty()
            },
            None => Seq::empty(),
        },
        _ => Seq::empty(),
    }
}

/// Patching the host node of `i` with what changed since its alternate.
pub open spec fn update_ops(s: Seq<Fiber>, i: int) -> Seq<HostOpView> {
    match (s[i].dom_node, s[i].alternate) {
        (Some(d), Some(a)) => if a < s.len() {
            if s[i].tag@ == TagView::Text {
                text_patch(d, Some(s[a as int].props@), s[i].props@)
            } else {
                class_patch(d, Some(s[a as int].props@), s[i].props@)
            }
        } else {
            Seq::empty()
        },
        _ => Seq::empty(),
    }
}

/// The host operations that commit the effect of fiber `i`.
pub open spec fn fiber_commit_ops(s: Seq<Fiber>, i: int) -> Seq<HostOpView> {
    match s[i].effect_tag {
        Some(FiberEffect::Placement) => placement_ops(s, i),
        Some(FiberEffect::Update) => update_ops(s, i),
        _ => Seq::empty(),
    }
}

pub open spec fn later_link(i: usize, l: Option<usize>) -> Option<usize> {
    match l {
        Some(c) => if i < c {
            Some(c)
        } else {
            None
        },
        None => None,
    }
}

pub open spec fn link_measure(s: Seq<Fiber>, start: Option<usize>) -> int {
    match start {
        Some(x) => if x < s.len() {
            s.len() - x
        } else {
            0
        },
        None => 0,
    }
}

/// The commit operations of the fibers reached from `start`, in pre-order:
/// the fiber itself, then its children, then its next siblings.
pub open spec fn tree_ops(s: Seq<Fiber>, start: Option<usize>) -> Seq<HostOpView>
    decreases link_measure(s, start),
{
    match start {
        Some(i) => if i < s.len() {
            fiber_commit_ops(s, i as int).add(tree_ops(s, later_link(i, s[i as int].child))).add(
                tree_ops(s, later_link(i, s[i as int].sibling)),
            )
        } else {
            Seq::empty()
        },
        None => Seq::empty(),
    }
}

/// Detaching the host node of the deleted fiber `d` from its host parent.
pub open spec fn removal_ops(s: Seq<Fiber>, d: int) -> Seq<HostOpView> {
    if 0 <= d < s.len() {
        match (s[d].dom_node, host_parent(s, d)) {
            (Some(x), Some(p)) => match s[p as int].dom_node {
                Some(pd) => seq![HostOpView::RemoveChild { parent: pd, child: x }],
                None => Seq::empty(),
            },
            _ => Seq::empty(),
        }
    } else {
        Seq::empty()
    }
}

/// The removal operations of a list of deleted fibers, in order.
pub open spec fn deletion_ops(s: Seq<Fiber>, dels: Seq<usize>) -> Seq<HostOpView>
    decreases dels.len(),
{
    if dels.len() == 0 {
        Seq::empty()
    } else {
        deletion_ops(s, dels.drop_last()).add(removal_ops(s, dels.last() as int))
    }
}

/// The operations of a whole commit of the pass rooted at `r`.
pub open spec fn commit_ops(s: Seq<Fiber>, dels: Seq<usize>, r: int) -> Seq<HostOpView> {
    deletion_ops(s, dels).add(tree_ops(s, s[r].child))
}

impl Context {
    /// The nearest ancestor of `f` that holds a host node.
    fn find_host_parent(&self, f: usize) -> (r: Option<usize>)
        requires
            self.wf(),
            f < self.fibers.len(),
        ensures
            r == host_parent(self.fibers@, f as int),
            r matches Some(p) ==> p < self.fibers.len(),
    {
        let ghost s = self.fibers@;
        let mut walk = FiberParentsIter::parents(f);
        let mut cur = f;
        loop
            invariant
                self.wf(),
                s == self.fibers@,
                cur < s.len(),
                walk.next == Some(cur),
                host_parent(s, f as int) == host_parent(s, cur as int),
            decreases cur,
        {
            assert(s[cur as int].parent matches Some(q) ==> q < cur);
            match walk.next(&self.fibers) {
                Some(p) => {
                    if self.fibers[p].dom_node.is_some() {
                        return Some(p);
                    }
                    cur = p;
                },
                None => {
                    return None;
                },
            }
        }
    }

    /// Records the attachment of fiber `f`'s host node under the host node
    /// of fiber `parent`.
    pub fn commit_node_append(&mut self, f: usize, parent: Option<usize>)
        requires
            old(self).wf(),
            f < old(self).fibers.len(),
            parent matches Some(p) ==> p < old(self).fibers.len(),
        ensures
            ops_view(final(self).ops@) == ops_view(old(self).ops@).add(
                match (old(self).fibers@[f as int].dom_node, parent) {
                    (Some(d), Some(p)) => match old(self).fibers@[p as int].dom_node {
                        Some(pd) => if old(self).fibers@[p as int].tag@ != TagView::Text {
                            seq![HostOpView::AppendChild { parent: pd, child: d }]
                        } else {
                            Seq::empty()
                        },
                        None => Seq::empty(),
                    },
                    _ => Seq::empty(),
                },
            ),
            final(self).fibers == old(self).fibers,
            final(self).deletions == old(self).deletions,
            final(self).wip_start == old(self).wip_start,
            final(self).wip_root == old(self).wip_root,
            final(self).current_root == old(self).current_root,
            final(self).next_unit_of_work == old(self).next_unit_of_work,
    {
        let ghost o = ops_view(self.ops@);
        if let (Some(d), Some(p)) = (self.fibers[f].dom_node, parent) {
            if let Some(pd) = self.fibers[p].dom_node {
                if !self.fibers[p].tag.is_text() {
                    self.ops.push(HostOp::AppendChild { parent: pd, child: d });
                    assert(ops_view(self.ops@) =~= o.add(
                        seq![HostOpView::AppendChild { parent: pd, child: d }],
                    ));
                    return;
                }
            }
        }
        assert(ops_view(self.ops@) =~= o.add(Seq::empty()));
    }

    /// Records the commit of every fiber reached from `fiber`, in pre-order.
    pub fn commit_work(&mut self, fiber: Option<usize>)
        requires
            old(self).wf(),
        ensures
            ops_view(final(self).ops@) == ops_view(old(self).ops@).add(tree_ops(old(self).fibers@, fiber)),
            final(self).fibers == old(self).fibers,
            final(self).deletions == old(self).deletions,
            final(self).wip_start == old(self).wip_start,
            final(self).wip_root == old(self).wip_root,
            final(self).current_root == old(self).current_root,
            final(self).next_unit_of_work == old(self).next_unit_of_work,
        decreases link_measure(old(self).fibers@, fiber),
    {
        let ghost s = self.fibers@;
        let ghost o = ops_view(self.ops@);
        let i = match fiber {
            Some(i) => i,
            None => {
                assert(o.add(Seq::empty()) =~= o);
                return;
            },
        };
        if i >= self.fibers.len() {
            assert(o.add(Seq::empty()) =~= o);
            return;
        }
        match self.fibers[i].effect_tag {
            Some(FiberEffect::Placement) => {
                let parent = self.find_host_parent(i);
                self.commit_node_append(i, parent);
            },
            Some(FiberEffect::Update) => {
                match (self.fibers[i].dom_node, self.fibers[i].alternate) {
                    (Some(d), Some(a)) => {
                        if a < self.fibers.len() {
                            let prev = self.fibers[a].props.duplicate();
                            let next = self.fibers[i].props.duplicate();
                            if self.fibers[i].tag.is_text() {
                                self.update_dom_text(d, Some(prev), next);
                            } else {
                                self.update_dom_node(d, Some(prev), next);
                            }
                        } else {
                            assert(o.add(Seq::empty()) =~= o);
                        }
                    },
                    _ => {
                        assert(o.add(Seq::empty()) =~= o);
                    },
                }
            },
            _ => {
                assert(o.add(Seq::empty()) =~= o);
            },
        }
        let ghost o1 = ops_view(self.ops@);
        assert(o1 == o.add(fiber_commit_ops(s, i as int)));
        let child = match self.fibers[i].child {
            Some(c) => if i < c {
                Some(c)
            } else {
                None
            },
            None => None,
        };
        let sibling = match self.fibers[i].sibling {
            Some(c) => if i < c {
                Some(c)
            } else {
                None
            },
            None => None,
        };
        self.commit_work(child);
        self.commit_work(sibling);
        assert(ops_view(self.ops@) =~= o.add(tree_ops(s, fiber)));
    }

    /// Records the removal of the host nodes of the pending deletions.
    fn commit_deletions(&mut self)
        requires
            old(self).wf(),
        ensures
            ops_view(final(self).ops@) == ops_view(old(self).ops@).add(
                deletion_ops(old(self).fibers@, old(self).deletions@),
            ),
            final(self).fibers == old(self).fibers,
            final(self).deletions == old(self).deletions,
            final(self).wip_start == old(self).wip_start,
            final(self).wip_root == old(self).wip_root,
            final(self).current_root == old(self).current_root,
            final(self).next_unit_of_work == old(self).next_unit_of_work,
    {
        let ghost s = self.fibers@;
        let ghost o = ops_view(self.ops@);
        let ghost dels = self.deletions@;
        let mut k: usize = 0;
        assert(dels.subrange(0, 0) =~= Seq::<usize>::empty());
        assert(o.add(Seq::empty()) =~= o);
        while k < self.deletions.len()
            invariant
                self.wf(),
                s == self.fibers@,
                dels == self.deletions@,
                self.fibers == old(self).fibers,
                self.deletions == old(self).deletions,
                k <= dels.len(),
                ops_view(self.ops@) == o.add(deletion_ops(s, dels.subrange(0, k as int))),
                self.wip_start == old(self).wip_start,
                self.wip_root == old(self).wip_root,
                self.current_root == old(self).current_root,
                self.next_unit_of_work == old(self).next_unit_of_work,
            decreases dels.len() - k,
        {
            let d = self.deletions[k];
            let ghost before = ops_view(self.ops@);
            assert(dels.subrange(0, k as int + 1).drop_last() =~= dels.subrange(0, k as int));
            let parent = self.find_host_parent(d);
            if let (Some(x), Some(p)) = (self.fibers[d].dom_node, parent) {
                if let Some(pd) = self.fibers[p].dom_node {
                    self.ops.push(HostOp::RemoveChild { parent: pd, child: x });
                    assert(ops_view(self.ops@) =~= before.add(seq![HostOpView::RemoveChild { parent: pd, child: x }]));
                } else {
                    assert(before.add(Seq::empty()) =~= before);
                }
            } else {
                assert(before.add(Seq::empty()) =~= before);
            }
            assert(ops_view(self.ops@) =~= o.add(deletion_ops(s, dels.subrange(0, k as int + 1))));
            k = k + 1;
        }
        assert(dels.subrange(0, dels.len() as int) =~= dels);
    }

    /// Applies the finished pass: removes the host nodes of the pending
    /// deletions, then commits the tree under the work-in-progress root in
    /// pre-order, and makes that root the current one.
    pub fn commit_root(&mut self)
        requires
            old(self).wf(),
            old(self).next_unit_of_work.is_none(),
        ensures
            final(self).wf(),
            final(self).fibers == old(self).fibers,
            final(self).wip_root.is_none(),
            final(self).next_unit_of_work.is_none(),
            final(self).wip_start == old(self).wip_start,
            match old(self).wip_root {
                Some(r) => {
                    &&& ops_view(final(self).ops@) == ops_view(old(self).ops@).add(
                        commit_ops(old(self).fibers@, old(self).deletions@, r as int),
                    )
                    &&& final(self).current_root == Some(r)
                    &&& final(self).deletions@.len() == 0
                },
                None => {
                    &&& final(self).ops == old(self).ops
                    &&& final(self).current_root == old(self).current_root
                    &&& final(self).deletions == old(self).deletions
                },
            },
    {
        if let Some(r) = self.wip_root {
            let ghost o = ops_view(self.ops@);
            let ghost s = self.fibers@;
            self.commit_deletions();
            let ghost o1 = ops_view(self.ops@);
            let child = self.fibers[r].child;
            self.commit_work(child);
            assert(ops_view(self.ops@) =~= o.add(commit_ops(s, old(self).deletions@, r as int)));
            self.current_root = Some(r);
            self.wip_root = None;
            self.deletions = Vec::new();
        }
    }
}

} // verus!
