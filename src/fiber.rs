//! Fibers: the mutable, resumable work units of a render pass.
//!
//! Fibers live in an arena (a `Vec<Fiber>`) and refer to one another by
//! index: `parent`, `child`, `sibling` and `alternate` are optional indices.
use vstd::prelude::*;
use crate::element::{Element, Props, Tag, TagView};

verus! {

/// The host mutation that a fiber carries to the commit.
#[derive(PartialEq, Eq, Structural, Clone, Copy, Debug)]
pub enum FiberEffect {
    /// A new host node is attached under its nearest host ancestor.
    Placement,
    /// The inherited host node is patched with the changed attributes.
    Update,
    /// The host node is detached from its host parent.
    Deletion,
}

/// One node of the fiber tree.
pub struct Fiber {
    pub tag: Tag,
    pub props: Props,
    /// Virtual children not yet turned into fibers.
    pub element_children: Vec<Element>,
    /// Host node handle: the index of the fiber that created the node.
    pub dom_node: Option<usize>,
    pub alternate: Option<usize>,
    pub parent: Option<usize>,
    pub sibling: Option<usize>,
    pub child: Option<usize>,
    pub effect_tag: Option<FiberEffect>,
}

impl Fiber {
    /// A fiber of the given kind with no attributes, links or effect.
    pub fn new(tag: Tag) -> (r: Fiber)
        ensures
            r.tag == tag,
            r.props@.class_name.is_none(),
            r.props@.node_value.is_none(),
            r.element_children@.len() == 0,
            r.dom_node.is_none(),
            r.alternate.is_none(),
            r.parent.is_none(),
            r.sibling.is_none(),
            r.child.is_none(),
            r.effect_tag.is_none(),
    {
        Fiber {
            tag,
            props: Props::empty(),
            element_children: Vec::new(),
            dom_node: None,
            alternate: None,
            parent: None,
            sibling: None,
            child: None,
            effect_tag: None,
        }
    }

    /// The fiber at the root of a render pass.
    pub fn new_root() -> (r: Fiber)
        ensures
            r.tag@ == TagView::Root,
            r.element_children@.len() == 0,
            r.dom_node.is_none(),
            r.alternate.is_none(),
            r.parent.is_none(),
            r.sibling.is_none(),
            r.child.is_none(),
            r.effect_tag.is_none(),
    {
        Fiber::new(Tag::Root)
    }

    pub fn element_type(&self) -> (r: &Tag)
        ensures
            r == &self.tag,
    {
        &self.tag
    }

    pub fn is_text_fiber(&self) -> (r: bool)
        ensures
            r == (self.tag@ == TagView::Text),
    {
        self.tag.is_text()
    }

    pub fn dom_node(&self) -> (r: Option<usize>)
        ensures
            r == self.dom_node,
    {
        self.dom_node
    }

    pub fn set_dom_node(&mut self, dom_node: usize)
        ensures
            *final(self) == (Fiber { dom_node: Some(dom_node), ..*old(self) }),
    {
        self.dom_node = Some(dom_node);
    }

    pub fn child(&self) -> (r: Option<usize>)
        ensures
            r == self.child,
    {
        self.child
    }

    pub fn set_child(&mut self, child: usize)
        ensures
            *final(self) == (Fiber { child: Some(child), ..*old(self) }),
    {
        self.child = Some(child);
    }

    pub fn props(&self) -> (r: &Props)
        ensures
            r == &self.props,
    {
        &self.props
    }

    pub fn set_props(&mut self, props: Props)
        ensures
            *final(self) == (Fiber { props, ..*old(self) }),
    {
        self.props = props;
    }

    pub fn parent(&self) -> (r: Option<usize>)
        ensures
            r == self.parent,
    {
        self.parent
    }

    pub fn set_parent(&mut self, parent: usize)
        ensures
            *final(self) == (Fiber { parent: Some(parent), ..*old(self) }),
    {
        self.parent = Some(parent);
    }

    pub fn sibling(&self) -> (r: Option<usize>)
        ensures
            r == self.sibling,
    {
        self.sibling
    }

    pub fn set_sibling(&mut self, sibling: usize)
        ensures
            *final(self) == (Fiber { sibling: Some(sibling), ..*old(self) }),
    {
        self.sibling = Some(sibling);
    }

    pub fn alternate(&self) -> (r: Option<usize>)
        ensures
            r == self.alternate,
    {
        self.alternate
    }

    pub fn set_alternate(&mut self, alternate: usize)
        ensures
            *final(self) == (Fiber { alternate: Some(alternate), ..*old(self) }),
    {
        self.alternate = Some(alternate);
    }

    pub fn element_children(&self) -> (r: &Vec<Element>)
        ensures
            r == &self.element_children,
    {
        &self.element_children
    }

    pub fn set_element_children(&mut self, children: Vec<Element>)
        ensures
            *final(self) == (Fiber { element_children: children, ..*old(self) }),
    {
        self.element_children = children;
    }

    pub fn effect_tag(&self) -> (r: Option<FiberEffect>)
        ensures
            r == self.effect_tag,
    {
        self.effect_tag
    }

    pub fn set_effect_tag(&mut self, effect: FiberEffect)
        ensures
            *final(self) == (Fiber { effect_tag: Some(effect), ..*old(self) }),
    {
        self.effect_tag = Some(effect);
    }

    /// Whether `other_props` differ from this fiber's attributes.
    pub fn has_props_changed(&self, other_props: &Props) -> (r: bool)
        ensures
            r == (self.props@ != other_props@),
    {
        self.props.differs_from(other_props)
    }
}

} // verus!
