use fusion::context::{get_context, render, work_loop, Context};
use fusion::host::HostOp;
use fusion::element::{Element, Props, Tag};
use fusion::fiber::{Fiber, FiberEffect};

fn div(class: &str, children: Vec<Element>) -> Element {
    Element::new(String::from("div"), Some(String::from(class)), children)
}

fn named(name: &str, children: Vec<Element>) -> Element {
    Element::new(String::from(name), None, children)
}

fn text(value: &str) -> Element {
    Element::text(String::from(value))
}

fn run(context: Context, element: Element) -> (Context, Vec<HostOp>) {
    let context = render(context, element);
    let mut context = work_loop(context, false);
    let ops = context.take_ops();
    (context, ops)
}

fn effects_of_pass(context: &Context, start: usize) -> Vec<Option<FiberEffect>> {
    context.fibers[start + 1..].iter().map(|f| f.effect_tag).collect()
}

fn count(ops: &[HostOp], pred: fn(&HostOp) -> bool) -> usize {
    ops.iter().filter(|o| pred(o)).count()
}

#[test]
fn initial_mount_creates_every_node_in_pre_order() {
    let tree = div("app", vec![named("h1", vec![text("Hi")]), named("p", vec![]), text("end")]);
    let (context, ops) = run(get_context(), tree);
    // Five virtual nodes: div, h1, "Hi", p, "end".
    let creations = count(&ops, |o| matches!(o, HostOp::CreateElement { .. } | HostOp::CreateText { .. }));
    assert_eq!(creations, 5);
    let effects = effects_of_pass(&context, 0);
    assert_eq!(effects.len(), 5);
    assert!(effects.iter().all(|e| *e == Some(FiberEffect::Placement)));
    let created: Vec<usize> = ops
        .iter()
        .filter_map(|o| match o {
            HostOp::CreateElement { node, .. } | HostOp::CreateText { node, .. } => Some(*node),
            _ => None,
        })
        .collect();
    let tags: Vec<String> = created
        .iter()
        .map(|n| match &context.fibers[*n].tag {
            Tag::Named(s) => s.clone(),
            Tag::Text => String::from("#text"),
            Tag::Root => String::from("#root"),
        })
        .collect();
    assert_eq!(tags, vec!["div", "h1", "#text", "p", "#text"]);
    assert_eq!(context.current_root, Some(0));
    assert!(context.wip_root.is_none());
}

#[test]
fn initial_mount_ops_are_exact() {
    let (_, ops) = run(get_context(), div("box", vec![text("A")]));
    assert_eq!(
        ops,
        vec![
            HostOp::Container { node: 0 },
            HostOp::CreateElement { node: 1, name: String::from("div") },
            HostOp::SetClassName { node: 1, value: String::from("box") },
            HostOp::CreateText { node: 2, value: String::from("A") },
            HostOp::AppendChild { parent: 0, child: 1 },
            HostOp::AppendChild { parent: 1, child: 2 },
        ]
    );
}

#[test]
fn rendering_the_same_tree_twice_mutates_nothing() {
    let tree = || div("app", vec![named("h1", vec![text("Hi")]), text("end")]);
    let (context, _) = run(get_context(), tree());
    let start = context.fibers.len();
    let (context, ops) = run(context, tree());
    assert_eq!(ops, vec![HostOp::Container { node: start }]);
    let effects = effects_of_pass(&context, start);
    assert!(effects.iter().all(|e| *e == Some(FiberEffect::Update)));
}

#[test]
fn text_change_is_one_update() {
    let (context, _) = run(get_context(), div("app", vec![text("A")]));
    let start = context.fibers.len();
    let (context, ops) = run(context, div("app", vec![text("B")]));
    assert_eq!(
        ops,
        vec![
            HostOp::Container { node: start },
            HostOp::SetTextValue { node: 2, value: String::from("B") },
        ]
    );
    let effects = effects_of_pass(&context, start);
    assert_eq!(effects, vec![Some(FiberEffect::Update), Some(FiberEffect::Update)]);
    assert!(context.deletions.is_empty());
}

#[test]
fn class_change_sets_class_once() {
    let (context, _) = run(get_context(), div("a", vec![]));
    let start = context.fibers.len();
    let (_, ops) = run(context, div("b", vec![]));
    assert_eq!(
        ops,
        vec![
            HostOp::Container { node: start },
            HostOp::SetClassName { node: 1, value: String::from("b") },
        ]
    );
}

#[test]
fn type_change_remounts() {
    let (context, _) = run(get_context(), div("app", vec![named("span", vec![])]));
    let start = context.fibers.len();
    let context = render(context, div("app", vec![named("p", vec![])]));
    let mut context = context;
    // Root, then the div: the div's children are reconciled in the second unit.
    context.advance(2);
    let old_span = 2;
    assert_eq!(context.fibers[old_span].effect_tag, Some(FiberEffect::Deletion));
    assert_eq!(context.deletions, vec![old_span]);
    let new_p = start + 2;
    assert_eq!(context.fibers[new_p].effect_tag, Some(FiberEffect::Placement));
    assert_eq!(context.fibers[new_p].alternate, None);
    context.work_loop(false);
    let ops = context.take_ops();
    assert_eq!(
        ops,
        vec![
            HostOp::Container { node: start },
            HostOp::CreateElement { node: new_p, name: String::from("p") },
            HostOp::RemoveChild { parent: 1, child: old_span },
            HostOp::AppendChild { parent: 1, child: new_p },
        ]
    );
}

#[test]
fn shrinking_children_updates_first_and_unmounts_rest() {
    let three = div("list", vec![named("li", vec![]), named("li", vec![]), named("li", vec![])]);
    let (context, _) = run(get_context(), three);
    let start = context.fibers.len();
    let (context, ops) = run(context, div("list", vec![named("li", vec![])]));
    let effects = effects_of_pass(&context, start);
    assert_eq!(effects, vec![Some(FiberEffect::Update), Some(FiberEffect::Update)]);
    assert_eq!(context.fibers[3].effect_tag, Some(FiberEffect::Deletion));
    assert_eq!(context.fibers[4].effect_tag, Some(FiberEffect::Deletion));
    assert_eq!(
        ops,
        vec![
            HostOp::Container { node: start },
            HostOp::RemoveChild { parent: 1, child: 3 },
            HostOp::RemoveChild { parent: 1, child: 4 },
        ]
    );
}

#[test]
fn empty_new_list_unmounts_every_old_child() {
    let (context, _) = run(get_context(), div("list", vec![text("x"), text("y")]));
    let start = context.fibers.len();
    let (_, ops) = run(context, div("list", vec![]));
    assert_eq!(
        ops,
        vec![
            HostOp::Container { node: start },
            HostOp::RemoveChild { parent: 1, child: 2 },
            HostOp::RemoveChild { parent: 1, child: 3 },
        ]
    );
}

#[test]
fn traversal_visits_every_fiber_once_across_yields() {
    let tree = || div("a", vec![named("b", vec![text("c"), named("d", vec![])]), named("e", vec![text("f")])]);
    let (_, whole) = run(get_context(), tree());
    let mut context = render(get_context(), tree());
    let mut visited = Vec::new();
    while let Some(f) = context.next_unit_of_work {
        visited.push(f);
        context.advance(1);
    }
    // Root plus six virtual nodes, each once.
    assert_eq!(visited.len(), 7);
    let mut sorted = visited.clone();
    sorted.sort();
    sorted.dedup();
    assert_eq!(sorted.len(), 7);
    assert!(context.wip_root.is_none());
    assert_eq!(context.take_ops(), whole);
}

#[test]
fn timeout_does_no_work() {
    let context = render(get_context(), div("a", vec![]));
    let before = context.fibers.len();
    let context = work_loop(context, true);
    assert_eq!(context.fibers.len(), before);
    assert_eq!(context.next_unit_of_work, Some(0));
    assert_eq!(context.wip_root, Some(0));
}

#[test]
fn new_render_discards_unfinished_work() {
    let mut context = render(get_context(), div("a", vec![text("x")]));
    context.advance(1);
    let context = render(context, div("b", vec![]));
    let root = context.wip_root.unwrap();
    assert_eq!(context.next_unit_of_work, Some(root));
    assert_eq!(context.fibers[root].alternate, None);
    assert!(context.deletions.is_empty());
}

#[test]
fn perform_unit_of_work_returns_child_then_sibling_then_uncle() {
    let mut context = render(get_context(), div("a", vec![named("b", vec![text("c")]), named("d", vec![])]));
    let mut order = Vec::new();
    while context.next_unit_of_work.is_some() {
        let next = context.perform_unit_of_work();
        order.push(next);
        context.next_unit_of_work = next;
    }
    // root -> div(1) -> b(2) -> "c"(4) -> d(3) -> end
    assert_eq!(order, vec![Some(1), Some(2), Some(4), Some(3), None]);
}

#[test]
fn props_comparison() {
    let a = Props { class_name: Some(String::from("x")), node_value: None };
    let b = Props { class_name: Some(String::from("y")), node_value: None };
    let mut f = Fiber::new(Tag::Named(String::from("div")));
    f.set_props(a.duplicate());
    assert!(!f.has_props_changed(&a));
    assert!(f.has_props_changed(&b));
    assert!(f.is_text_fiber() == false);
    assert!(Fiber::new(Tag::Text).is_text_fiber());
}

#[test]
fn parents_walk_goes_up_to_the_root() {
    let mut context = render(get_context(), div("a", vec![named("b", vec![text("c")])]));
    context.work_loop(false);
    // root(0) -> div(1) -> b(2) -> "c"(3)
    let mut walk = fusion::context::FiberParentsIter::parents(3);
    assert_eq!(walk.next(&context.fibers), Some(2));
    assert_eq!(walk.next(&context.fibers), Some(1));
    assert_eq!(walk.next(&context.fibers), Some(0));
    assert_eq!(walk.next(&context.fibers), None);
    assert_eq!(walk.next(&context.fibers), None);
}

#[test]
fn zero_budget_leaves_the_pass_untouched() {
    let mut context = render(get_context(), div("a", vec![text("x")]));
    context.advance(0);
    assert_eq!(context.next_unit_of_work, Some(0));
    assert_eq!(context.fibers.len(), 1);
    assert_eq!(context.take_ops(), vec![HostOp::Container { node: 0 }]);
}

#[test]
fn advance_without_a_pass_does_nothing() {
    let mut context = get_context();
    context.advance(5);
    assert!(context.fibers.is_empty());
    assert!(context.take_ops().is_empty());
}

#[test]
fn text_without_value_is_created_empty() {
    let mut context = render(
        get_context(),
        Element { tag: Tag::Text, props: Props::empty(), children: vec![] },
    );
    context.work_loop(false);
    assert_eq!(
        context.take_ops(),
        vec![
            HostOp::Container { node: 0 },
            HostOp::CreateText { node: 1, value: String::new() },
            HostOp::AppendChild { parent: 0, child: 1 },
        ]
    );
}

#[test]
fn update_patches_only_changed_fields() {
    let mut context = get_context();
    context.update_dom_node(7, Some(Props::empty()), Props::empty());
    context.update_dom_text(
        8,
        Some(Props { class_name: None, node_value: Some(String::from("v")) }),
        Props { class_name: None, node_value: Some(String::from("v")) },
    );
    assert!(context.ops.is_empty());
    context.update_dom_node(
        7,
        None,
        Props { class_name: Some(String::from("c")), node_value: None },
    );
    assert_eq!(context.take_ops(), vec![HostOp::SetClassName { node: 7, value: String::from("c") }]);
}

#[test]
fn tags_compare_by_name() {
    let a = Tag::Named(String::from("div"));
    assert!(a.same_as(&Tag::Named(String::from("div"))));
    assert!(!a.same_as(&Tag::Named(String::from("span"))));
    assert!(!a.same_as(&Tag::Text));
    assert!(Tag::Text.same_as(&Tag::Text));
}
