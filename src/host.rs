//! Host operations: what the engine asks of the host adapter.
use vstd::prelude::*;
use crate::element::{PropsView, TagView};

verus! {

/// A host operation, addressed by host-node handle.
#[derive(Debug, PartialEq, Eq)]
pub enum HostOp {
    /// Binds the handle to the container that a render pass was started on.
    Container { node: usize },
    CreateElement { node: usize, name: String },
    CreateText { node: usize, value: String },
    SetClassName { node: usize, value: String },
    SetTextValue { node: usize, value: String },
    AppendChild { parent: usize, child: usize },
    RemoveChild { parent: usize, child: usize },
}

pub enum HostOpView {
    Container { node: usize },
    CreateElement { node: usize, name: Seq<char> },
    CreateText { node: usize, value: Seq<char> },
    SetClassName { node: usize, value: Seq<char> },
    SetTextValue { node: usize, value: Seq<char> },
    AppendChild { parent: usize, child: usize },
    RemoveChild { parent: usize, child: usize },
}

impl View for HostOp {
    type V = HostOpView;

    open spec fn view(&self) -> HostOpView {
        match self {
            HostOp::Container { node } => HostOpView::Container { node: *node },
            HostOp::CreateElement { node, name } => HostOpView::CreateElement {
                node: *node,
                name: name@,
            },
            HostOp::CreateText { node, value } => HostOpView::CreateText {
                node: *node,
                value: value@,
            },
            HostOp::SetClassName { node, value } => HostOpView::SetClassName {
                node: *node,
                value: value@,
            },
            HostOp::SetTextValue { node, value } => HostOpView::SetTextValue {
                node: *node,
                value: value@,
            },
            HostOp::AppendChild { parent, child } => HostOpView::AppendChild {
                parent: *parent,
                child: *child,
            },
            HostOp::RemoveChild { parent, child } => HostOpView::RemoveChild {
                parent: *parent,
                child: *child,
            },
        }
    }
}

pub open spec fn ops_view(v: Seq<HostOp>) -> Seq<HostOpView> {
    v.map_values(|o: HostOp| o@)
}

pub open spec fn prev_class(prev: Option<PropsView>) -> Option<Seq<char>> {
    match prev {
        Some(p) => p.class_name,
        None => None,
    }
}

pub open spec fn prev_value(prev: Option<PropsView>) -> Option<Seq<char>> {
    match prev {
        Some(p) => p.node_value,
        None => None,
    }
}

/// The patch of an element's class: set when it appears or changes.
pub open spec fn class_patch(node: usize, prev: Option<PropsView>, next: PropsView) -> Seq<HostOpView> {
    match (prev_class(prev), next.class_name) {
        (Some(a), Some(b)) => if a != b {
            seq![HostOpView::SetClassName { node, value: b }]
        } else {
            Seq::empty()
        },
        (None, Some(b)) => seq![HostOpView::SetClassName { node, value: b }],
        _ => Seq::empty(),
    }
}

/// The patch of a text node's value: set when it appears or changes.
pub open spec fn text_patch(node: usize, prev: Option<PropsView>, next: PropsView) -> Seq<HostOpView> {
    match (prev_value(prev), next.node_value) {
        (Some(a), Some(b)) => if a != b {
            seq![HostOpView::SetTextValue { node, value: b }]
        } else {
            Seq::empty()
        },
        (None, Some(b)) => seq![HostOpView::SetTextValue { node, value: b }],
        _ => Seq::empty(),
    }
}

/// The operations that create the host node of a fiber.
pub open spec fn create_ops(tag: TagView, props: PropsView, node: usize) -> Seq<HostOpView> {
    match tag {
        TagView::Text => seq![
            HostOpView::CreateText {
                node,
                value: match props.node_value {
                    Some(v) => v,
                    None => Seq::empty(),
                },
            },
        ],
        TagView::Named(name) => seq![HostOpView::CreateElement { node, name }].add(
            class_patch(node, None, props),
        ),
        TagView::Root => Seq::empty(),
    }
}

} // verus!
