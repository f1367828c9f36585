//! The engine's state and the work-loop scheduler.
use vstd::prelude::*;
use crate::element::{Element, Props, Tag, TagView};
use crate::fiber::Fiber;
use crate::host::{class_patch, create_ops, ops_view, text_patch, HostOp, HostOpView};
use crate::commit::commit_ops;
use crate::reconcile::reconciled;

verus! {

/// The arena's link discipline. Fibers from `ws` on belong to the pass in
/// progress; links never lead from an older fiber into that pass, parents
/// come before children, children and siblings after, and an alternate
/// always lies in an older pass.
pub open spec fn links_ok(s: Seq<Fiber>, ws: int) -> bool {
    forall|i: int|
        #![trigger s[i]]
        0 <= i < s.len() ==> {
            &&& (s[i].child matches Some(c) ==> i < c < s.len() && (i < ws ==> c < ws))
            &&& (s[i].sibling matches Some(c) ==> i < c < s.len() && (i < ws ==> c < ws))
            &&& (s[i].parent matches Some(p) ==> p < i && (i >= ws ==> p >= ws))
            &&& (s[i].alternate matches Some(a) ==> a < i && (i >= ws ==> a < ws))
        }
}

/// The nearest ancestor's sibling, walking parent links upward from `i`.
pub open spec fn ancestor_sibling(s: Seq<Fiber>, i: int) -> Option<usize>
    decreases i,
{
    if 0 <= i < s.len() {
        match s[i].parent {
            Some(p) => if p < i {
                match s[p as int].sibling {
                    Some(x) => Some(x),
                    None => ancestor_sibling(s, p as int),
                }
            } else {
                None
            },
            None => None,
        }
    } else {
        None
    }
}

/// The unit of work after `i` in pre-order: its child, else its sibling,
/// else the nearest ancestor's sibling.
pub open spec fn next_unit(s: Seq<Fiber>, i: int) -> Option<usize> {
    match s[i].child {
        Some(c) => Some(c),
        None => match s[i].sibling {
            Some(x) => Some(x),
            None => ancestor_sibling(s, i),
        },
    }
}

/// The arena after the unit of work on `f` gave it a host node, if needed.
pub open spec fn with_host_node(s: Seq<Fiber>, f: int) -> Seq<Fiber> {
    if s[f].dom_node.is_none() {
        s.update(f, Fiber { dom_node: Some(f as usize), ..s[f] })
    } else {
        s
    }
}

/// The host operations of the unit of work on `f`.
pub open spec fn unit_ops(s: Seq<Fiber>, f: int) -> Seq<HostOpView> {
    if s[f].dom_node.is_none() {
        create_ops(s[f].tag@, s[f].props@, f as usize)
    } else {
        Seq::empty()
    }
}

/// An ancestor's sibling of a fiber of the pass in progress is in that pass.
pub proof fn lemma_ancestor_sibling_bounded(s: Seq<Fiber>, ws: int, i: int)
    requires
        links_ok(s, ws),
        0 <= ws <= i < s.len(),
    ensures
        ancestor_sibling(s, i) matches Some(x) ==> ws <= x < s.len(),
    decreases i,
{
    if let Some(p) = s[i].parent {
        assert(s[i].parent matches Some(q) ==> q < i && (i >= ws ==> q >= ws));
        assert(s[p as int].sibling matches Some(c) ==> p < c < s.len());
        if s[p as int].sibling.is_none() {
            lemma_ancestor_sibling_bounded(s, ws, p as int);
        }
    }
}

/// A walk up the parent links of a fiber.
pub struct FiberParentsIter {
    pub next: Option<usize>,
}

impl FiberParentsIter {
    /// A walk that starts at fiber `f`.
    pub fn parents(f: usize) -> (r: FiberParentsIter)
        ensures
            r.next == Some(f),
    {
        FiberParentsIter { next: Some(f) }
    }

    /// Moves to the parent of the fiber the walk stands on and returns it.
    pub fn next(&mut self, fibers: &Vec<Fiber>) -> (r: Option<usize>)
        ensures
            r == match old(self).next {
                Some(i) => if i < fibers@.len() {
                    fibers@[i as int].parent
                } else {
                    None
                },
                None => None,
            },
            final(self).next == r,
    {
        let r = match self.next {
            Some(i) => if i < fibers.len() {
                fibers[i].parent
            } else {
                None
            },
            None => None,
        };
        self.next = r;
        r
    }
}

/// One unit of work on `c0`'s next fiber `f`, with the result taken as the
/// next unit of work.
pub open spec fn unit_step(c0: Context, c1: Context) -> bool {
    &&& c0.next_unit_of_work is Some
    &&& {
        let f = c0.next_unit_of_work.unwrap() as int;
        &&& ops_view(c1.ops@) == ops_view(c0.ops@).add(unit_ops(c0.fibers@, f))
        &&& reconciled(with_host_node(c0.fibers@, f), c0.deletions@, f, c1.fibers@, c1.deletions@)
        &&& c1.next_unit_of_work == next_unit(c1.fibers@, f)
    }
    &&& c1.wip_start == c0.wip_start
    &&& c1.wip_root == c0.wip_root
    &&& c1.current_root == c0.current_root
}

/// The commit of `c0`'s finished pass.
pub open spec fn commit_step(c0: Context, c1: Context) -> bool {
    &&& c0.wip_root is Some
    &&& ops_view(c1.ops@) == ops_view(c0.ops@).add(
        commit_ops(c0.fibers@, c0.deletions@, c0.wip_root.unwrap() as int),
    )
    &&& c1.fibers == c0.fibers
    &&& c1.wip_start == c0.wip_start
    &&& c1.wip_root is None
    &&& c1.next_unit_of_work is None
    &&& c1.current_root == c0.wip_root
    &&& c1.deletions@.len() == 0
}

/// No room in the arena for the children of the next unit of work.
pub open spec fn arena_full(c: Context) -> bool {
    c.next_unit_of_work matches Some(f) && c.fibers.len() + c.fibers@[f as int].element_children@.len()
        > usize::MAX
}

/// `c1` comes from `c0` by the units of work of `trace`, at most `budget` of
/// them, as many as the budget, the pass and the arena allow, then the
/// commit if the pass is complete.
pub open spec fn advanced(c0: Context, c1: Context, budget: nat, trace: Seq<Context>) -> bool {
    let last = trace.last();
    &&& 1 <= trace.len() <= budget + 1
    &&& trace[0] == c0
    &&& forall|i: int| 0 <= i < trace.len() - 1 ==> unit_step(#[trigger] trace[i], trace[i + 1])
    &&& trace.len() < budget + 1 ==> last.next_unit_of_work is None || arena_full(last)
    &&& if last.next_unit_of_work is None && last.wip_root is Some {
        commit_step(last, c1)
    } else {
        c1 == last
    }
}

/// The units of work that one run of the work loop may perform.
pub open spec fn timeout_budget(did_timeout: bool) -> nat {
    if did_timeout {
        0
    } else {
        u64::MAX as nat
    }
}

/// The engine's state: the fiber arena, the roots, the resumption point,
/// the pending deletions and the host operations not yet handed out.
pub struct Context {
    pub fibers: Vec<Fiber>,
    /// Index of the first fiber of the pass in progress.
    pub wip_start: usize,
    pub wip_root: Option<usize>,
    pub current_root: Option<usize>,
    pub next_unit_of_work: Option<usize>,
    pub deletions: Vec<usize>,
    pub ops: Vec<HostOp>,
}

impl Context {
    pub open spec fn wf(&self) -> bool {
        let s = self.fibers@;
        let ws = self.wip_start as int;
        &&& ws <= s.len()
        &&& links_ok(s, ws)
        &&& (self.wip_root matches Some(r) ==> r == ws && r < s.len() && s[r as int].parent.is_none())
        &&& (self.next_unit_of_work matches Some(n) ==> self.wip_root.is_some() && ws <= n < s.len())
        &&& (self.current_root matches Some(c) ==> c < s.len())
        &&& forall|k: int| 0 <= k < self.deletions@.len() ==> #[trigger] self.deletions@[k] < s.len()
    }
}

impl Context {
    /// Records the class patch of element node `node` from `prev` to `next`.
    pub fn update_dom_node(&mut self, node: usize, prev: Option<Props>, next: Props)
        ensures
            ops_view(final(self).ops@) == ops_view(old(self).ops@).add(
                class_patch(node, match prev { Some(p) => Some(p@), None => None }, next@),
            ),
            final(self).fibers == old(self).fibers,
            final(self).deletions == old(self).deletions,
            final(self).wip_start == old(self).wip_start,
            final(self).wip_root == old(self).wip_root,
            final(self).current_root == old(self).current_root,
            final(self).next_unit_of_work == old(self).next_unit_of_work,
    {
        let ghost o = ops_view(self.ops@);
        let prev_class = match prev {
            Some(p) => p.class_name,
            None => None,
        };
        match (prev_class, next.class_name) {
            (Some(a), Some(b)) => {
                if !a.eq(&b) {
                    self.ops.push(HostOp::SetClassName { node, value: b });
                }
            },
            (None, Some(b)) => {
                self.ops.push(HostOp::SetClassName { node, value: b });
            },
            _ => {},
        }
        assert(ops_view(self.ops@) =~= o.add(
            class_patch(node, match prev { Some(p) => Some(p@), None => None }, next@),
        ));
    }

    /// Records the value patch of text node `node` from `prev` to `next`.
    pub fn update_dom_text(&mut self, node: usize, prev: Option<Props>, next: Props)
        ensures
            ops_view(final(self).ops@) == ops_view(old(self).ops@).add(
                text_patch(node, match prev { Some(p) => Some(p@), None => None }, next@),
            ),
            final(self).fibers == old(self).fibers,
            final(self).deletions == old(self).deletions,
            final(self).wip_start == old(self).wip_start,
            final(self).wip_root == old(self).wip_root,
            final(self).current_root == old(self).current_root,
            final(self).next_unit_of_work == old(self).next_unit_of_work,
    {
        let ghost o = ops_view(self.ops@);
        let prev_value = match prev {
            Some(p) => p.node_value,
            None => None,
        };
        match (prev_value, next.node_value) {
            (Some(a), Some(b)) => {
                if !a.eq(&b) {
                    self.ops.push(HostOp::SetTextValue { node, value: b });
                }
            },
            (None, Some(b)) => {
                self.ops.push(HostOp::SetTextValue { node, value: b });
            },
            _ => {},
        }
        assert(ops_view(self.ops@) =~= o.add(
            text_patch(node, match prev { Some(p) => Some(p@), None => None }, next@),
        ));
    }

    /// Records the creation of the host node of fiber `f`, with handle `f`.
    pub fn create_dom_node(&mut self, f: usize)
        requires
            f < old(self).fibers.len(),
        ensures
            ops_view(final(self).ops@) == ops_view(old(self).ops@).add(
                create_ops(old(self).fibers@[f as int].tag@, old(self).fibers@[f as int].props@, f),
            ),
            final(self).fibers == old(self).fibers,
            final(self).deletions == old(self).deletions,
            final(self).wip_start == old(self).wip_start,
            final(self).wip_root == old(self).wip_root,
            final(self).current_root == old(self).current_root,
            final(self).next_unit_of_work == old(self).next_unit_of_work,
    {
        let ghost o = ops_view(self.ops@);
        let tag = self.fibers[f].tag.duplicate();
        let props = self.fibers[f].props.duplicate();
        match tag {
            Tag::Text => {
                let value = match props.node_value {
                    Some(v) => v,
                    None => String::new(),
                };
                self.ops.push(HostOp::CreateText { node: f, value });
                assert(ops_view(self.ops@) =~= o.add(
                    create_ops(self.fibers@[f as int].tag@, self.fibers@[f as int].props@, f),
                ));
            },
            Tag::Named(name) => {
                self.ops.push(HostOp::CreateElement { node: f, name });
                assert(ops_view(self.ops@) =~= o.add(seq![self.ops@.last()@]));
                self.update_dom_node(f, None, props);
                assert(ops_view(self.ops@) =~= o.add(
                    create_ops(self.fibers@[f as int].tag@, self.fibers@[f as int].props@, f),
                ));
            },
            Tag::Root => {
                assert(ops_view(self.ops@) =~= o.add(Seq::empty()));
            },
        }
    }

    /// The nearest ancestor's sibling of fiber `f`.
    fn ancestor_sibling_of(&self, f: usize) -> (r: Option<usize>)
        requires
            self.wf(),
            f < self.fibers.len(),
        ensures
            r == ancestor_sibling(self.fibers@, f as int),
    {
        let ghost s = self.fibers@;
        let mut walk = FiberParentsIter::parents(f);
        let mut cur = f;
        loop
            invariant
                self.wf(),
                s == self.fibers@,
                cur < s.len(),
                walk.next == Some(cur),
                ancestor_sibling(s, f as int) == ancestor_sibling(s, cur as int),
            decreases cur,
        {
            assert(s[cur as int] == s[cur as int]);
            match walk.next(&self.fibers) {
                Some(p) => {
                    match self.fibers[p].sibling {
                        Some(x) => {
                            return Some(x);
                        },
                        None => {
                            cur = p;
                        },
                    }
                },
                None => {
                    return None;
                },
            }
        }
    }

    /// One unit of work on the fiber `next_unit_of_work`: creates its host
    /// node if it has none, reconciles its children, and returns the fiber
    /// that comes next in pre-order, or `None` when the pass is complete.
    pub fn perform_unit_of_work(&mut self) -> (r: Option<usize>)
        requires
            old(self).wf(),
            old(self).next_unit_of_work matches Some(f) && old(self).fibers.len()
                + old(self).fibers@[f as int].element_children@.len() <= usize::MAX,
        ensures
            final(self).wf(),
            ({
                let f = old(self).next_unit_of_work.unwrap() as int;
                &&& ops_view(final(self).ops@) == ops_view(old(self).ops@).add(unit_ops(old(self).fibers@, f))
                &&& reconciled(with_host_node(old(self).fibers@, f), old(self).deletions@, f, final(self).fibers@, final(self).deletions@)
                &&& r == next_unit(final(self).fibers@, f)
            }),
            r matches Some(x) ==> final(self).wip_start <= x < final(self).fibers.len(),
            final(self).wip_start == old(self).wip_start,
            final(self).wip_root == old(self).wip_root,
            final(self).current_root == old(self).current_root,
            final(self).next_unit_of_work == old(self).next_unit_of_work,
    {
        let f = self.next_unit_of_work.unwrap();
        let ghost o = ops_view(self.ops@);
        if self.fibers[f].dom_node.is_none() {
            self.create_dom_node(f);
            self.fibers[f].dom_node = Some(f);
        } else {
            assert(o.add(Seq::empty()) =~= o);
        }
        assert(self.fibers@ =~= with_host_node(old(self).fibers@, f as int));
        self.reconcile_children(f);
        let ghost s = self.fibers@;
        assert(s[f as int] == s[f as int]);
        if let Some(c) = self.fibers[f].child {
            return Some(c);
        }
        if let Some(x) = self.fibers[f].sibling {
            return Some(x);
        }
        proof {
            lemma_ancestor_sibling_bounded(s, self.wip_start as int, f as int);
        }
        self.ancestor_sibling_of(f)
    }
}

impl Context {
    /// Performs at most `budget` units of work, and commits when the pass
    /// is complete. Stops early, with the work left pending, should the
    /// arena have no room for a fiber's children.
    pub fn advance(&mut self, budget: u64)
        requires
            old(self).wf(),
        ensures
            final(self).wf(),
            final(self).next_unit_of_work.is_none() ==> final(self).wip_root.is_none(),
            old(self).wip_root is Some ==> exists|trace: Seq<Context>| #[trigger] advanced(*old(self), *final(self), budget as nat, trace),
            old(self).wip_root.is_none() ==> *final(self) == *old(self),
    {
        if self.wip_root.is_none() {
            return;
        }
        let ghost mut trace: Seq<Context> = seq![*self];
        let mut left = budget;
        while left > 0 && self.next_unit_of_work.is_some()
            invariant
                self.wf(),
                self.wip_root.is_some(),
                old(self).wip_root.is_some(),
                left <= budget,
                trace.len() == budget - left + 1,
                trace[0] == *old(self),
                trace.last() == *self,
                forall|i: int| 0 <= i < trace.len() - 1 ==> unit_step(#[trigger] trace[i], trace[i + 1]),
            decreases left,
        {
            let f = self.next_unit_of_work.unwrap();
            if self.fibers.len() > usize::MAX - self.fibers[f].element_children.len() {
                assert(advanced(*old(self), *self, budget as nat, trace));
                return;
            }
            let ghost before = *self;
            let next = self.perform_unit_of_work();
            self.next_unit_of_work = next;
            left = left - 1;
            proof {
                let t0 = trace;
                trace = trace.push(*self);
                assert(unit_step(before, *self));
                assert forall|i: int| 0 <= i < trace.len() - 1 implies unit_step(#[trigger] trace[i], trace[i + 1]) by {
                    if i < t0.len() - 1 {
                        assert(trace[i] == t0[i] && trace[i + 1] == t0[i + 1]);
                    }
                }
            }
        }
        let ghost last = *self;
        if self.next_unit_of_work.is_none() {
            self.commit_root();
        }
        assert(advanced(*old(self), *self, budget as nat, trace));
    }

    /// Runs the pass to completion unless `did_timeout`, then commits.
    pub fn work_loop(&mut self, did_timeout: bool)
        requires
            old(self).wf(),
        ensures
            final(self).wf(),
            final(self).next_unit_of_work.is_none() ==> final(self).wip_root.is_none(),
            old(self).wip_root is Some ==> exists|trace: Seq<Context>| #[trigger] advanced(
                *old(self),
                *final(self),
                timeout_budget(did_timeout),
                trace,
            ),
            old(self).wip_root.is_none() ==> *final(self) == *old(self),
    {
        let budget: u64 = if did_timeout {
            0
        } else {
            u64::MAX
        };
        self.advance(budget);
        assert(budget as nat == timeout_budget(did_timeout));
    }

    /// A context with no tree, no pass in progress and no pending operations.
    pub fn new() -> (r: Context)
        ensures
            r.wf(),
            r.fibers@.len() == 0,
            r.wip_root.is_none(),
            r.current_root.is_none(),
            r.next_unit_of_work.is_none(),
            r.deletions@.len() == 0,
            r.ops@.len() == 0,
    {
        Context {
            fibers: Vec::new(),
            wip_start: 0,
            wip_root: None,
            current_root: None,
            next_unit_of_work: None,
            deletions: Vec::new(),
            ops: Vec::new(),
        }
    }

    /// Hands out the recorded host operations, oldest first.
    pub fn take_ops(&mut self) -> (r: Vec<HostOp>)
        ensures
            r@ == old(self).ops@,
            final(self).ops@.len() == 0,
            final(self).fibers == old(self).fibers,
            final(self).deletions == old(self).deletions,
            final(self).wip_start == old(self).wip_start,
            final(self).wip_root == old(self).wip_root,
            final(self).current_root == old(self).current_root,
            final(self).next_unit_of_work == old(self).next_unit_of_work,
    {
        let mut r: Vec<HostOp> = Vec::new();
        std::mem::swap(&mut self.ops, &mut r);
        r
    }
}

/// A fresh context.
pub fn get_context() -> (r: Context)
    ensures
        r.wf(),
        r.fibers@.len() == 0,
        r.wip_root.is_none(),
        r.current_root.is_none(),
        r.next_unit_of_work.is_none(),
        r.ops@.len() == 0,
{
    Context::new()
}

/// Starts a render pass of `element` into the container: a root fiber whose
/// one pending child is `element`, whose host node is the container and
/// whose alternate is the current root. Unfinished work of an earlier pass
/// is discarded.
pub fn render(context: Context, element: Element) -> (r: Context)
    requires
        context.wf(),
        context.fibers.len() < usize::MAX,
    ensures
        r.wf(),
        ({
            let root = context.fibers@.len();
            &&& r.fibers@ == context.fibers@.push(r.fibers@[root as int])
            &&& r.fibers@[root as int].tag@ == TagView::Root
            &&& r.fibers@[root as int].element_children@ == seq![element]
            &&& r.fibers@[root as int].dom_node == Some(root as usize)
            &&& r.fibers@[root as int].alternate == context.current_root
            &&& r.fibers@[root as int].parent.is_none()
            &&& r.fibers@[root as int].child.is_none()
            &&& r.fibers@[root as int].sibling.is_none()
            &&& r.fibers@[root as int].effect_tag.is_none()
            &&& r.wip_start == root
            &&& r.wip_root == Some(root as usize)
            &&& r.next_unit_of_work == Some(root as usize)
            &&& r.current_root == context.current_root
            &&& r.deletions@.len() == 0
            &&& ops_view(r.ops@) == ops_view(context.ops@).push(HostOpView::Container { node: root as usize })
        }),
{
    let ghost s_in = context.fibers@;
    let mut context = context;
    let root_idx = context.fibers.len();
    let mut root = Fiber::new_root();
    root.element_children = vec![element];
    root.dom_node = Some(root_idx);
    root.alternate = context.current_root;
    let ghost o = ops_view(context.ops@);
    context.fibers.push(root);
    context.ops.push(HostOp::Container { node: root_idx });
    assert(ops_view(context.ops@) =~= o.push(HostOpView::Container { node: root_idx }));
    context.wip_start = root_idx;
    context.wip_root = Some(root_idx);
    context.next_unit_of_work = Some(root_idx);
    context.deletions = Vec::new();
    let ghost s = context.fibers@;
    assert forall|i: int| #![trigger s[i]] 0 <= i < s.len() implies {
        &&& (s[i].child matches Some(c) ==> i < c < s.len() && (i < root_idx ==> c < root_idx))
        &&& (s[i].sibling matches Some(c) ==> i < c < s.len() && (i < root_idx ==> c < root_idx))
        &&& (s[i].parent matches Some(p) ==> p < i && (i >= root_idx ==> p >= root_idx))
        &&& (s[i].alternate matches Some(a) ==> a < i && (i >= root_idx ==> a < root_idx))
    } by {
        if i < root_idx {
            assert(s[i] == s_in[i]);
        }
    }
    context
}

/// Runs the work loop of `context` (see `Context::work_loop`).
pub fn work_loop(context: Context, did_timeout: bool) -> (r: Context)
    requires
        context.wf(),
    ensures
        r.wf(),
        r.next_unit_of_work.is_none() ==> r.wip_root.is_none(),
        did_timeout && context.next_unit_of_work.is_some() ==> r == context,
        context.wip_root is Some ==> exists|trace: Seq<Context>| #[trigger] advanced(
            context,
            r,
            timeout_budget(did_timeout),
            trace,
        ),
        context.wip_root.is_none() ==> r == context,
{
    let mut context = context;
    context.work_loop(did_timeout);
    context
}

} // verus!
