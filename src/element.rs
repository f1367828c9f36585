//! Virtual nodes: the immutable description of a desired tree.
use vstd::prelude::*;

verus! {

/// What kind of node a virtual node or a fiber stands for.
pub enum Tag {
    /// The root of a render pass; its host node is the container.
    Root,
    /// A text node; its value is the `node_value` attribute.
    Text,
    /// An element with the given tag name.
    Named(String),
}

/// The attributes that the engine reads.
pub struct Props {
    pub class_name: Option<String>,
    pub node_value: Option<String>,
}

/// A virtual node: tag, attributes and ordered children.
pub struct Element {
    pub tag: Tag,
    pub props: Props,
    pub children: Vec<Element>,
}

/// The mathematical value of a tag.
pub enum TagView {
    Root,
    Text,
    Named(Seq<char>),
}

/// The mathematical value of the attributes.
pub struct PropsView {
    pub class_name: Option<Seq<char>>,
    pub node_value: Option<Seq<char>>,
}

pub open spec fn opt_view(o: Option<String>) -> Option<Seq<char>> {
    match o {
        Some(s) => Some(s@),
        None => None,
    }
}

impl View for Tag {
    type V = TagView;

    open spec fn view(&self) -> TagView {
        match self {
            Tag::Root => TagView::Root,
            Tag::Text => TagView::Text,
            Tag::Named(s) => TagView::Named(s@),
        }
    }
}

impl View for Props {
    type V = PropsView;

    open spec fn view(&self) -> PropsView {
        PropsView { class_name: opt_view(self.class_name), node_value: opt_view(self.node_value) }
    }
}

fn clone_opt_string(o: &Option<String>) -> (r: Option<String>)
    ensures
        opt_view(r) == opt_view(*o),
{
    match o {
        Some(s) => Some(s.clone()),
        None => None,
    }
}

fn opt_string_eq(a: &Option<String>, b: &Option<String>) -> (r: bool)
    ensures
        r == (opt_view(*a) == opt_view(*b)),
{
    match (a, b) {
        (Some(x), Some(y)) => (*x).eq(y),
        (None, None) => true,
        _ => false,
    }
}

impl Tag {
    /// Whether two tags are the same; this is the reconciler's matching rule.
    pub fn same_as(&self, other: &Tag) -> (r: bool)
        ensures
            r == (self@ == other@),
    {
        match (self, other) {
            (Tag::Root, Tag::Root) => true,
            (Tag::Text, Tag::Text) => true,
            (Tag::Named(a), Tag::Named(b)) => (*a).eq(b),
            _ => false,
        }
    }

    pub fn is_text(&self) -> (r: bool)
        ensures
            r == (self@ == TagView::Text),
    {
        match self {
            Tag::Text => true,
            _ => false,
        }
    }

    pub fn duplicate(&self) -> (r: Tag)
        ensures
            r@ == self@,
    {
        match self {
            Tag::Root => Tag::Root,
            Tag::Text => Tag::Text,
            Tag::Named(s) => Tag::Named(s.clone()),
        }
    }
}

impl Props {
    pub fn empty() -> (r: Props)
        ensures
            r@ == (PropsView { class_name: None, node_value: None }),
    {
        Props { class_name: None, node_value: None }
    }

    pub fn duplicate(&self) -> (r: Props)
        ensures
            r@ == self@,
    {
        Props {
            class_name: clone_opt_string(&self.class_name),
            node_value: clone_opt_string(&self.node_value),
        }
    }

    /// Whether any attribute differs from `other`.
    pub fn differs_from(&self, other: &Props) -> (r: bool)
        ensures
            r == (self@ != other@),
    {
        !(opt_string_eq(&self.class_name, &other.class_name) && opt_string_eq(
            &self.node_value,
            &other.node_value,
        ))
    }
}

impl Element {
    /// A virtual element node.
    pub fn new(tag: String, class_name: Option<String>, children: Vec<Element>) -> (r: Element)
        ensures
            r.tag@ == TagView::Named(tag@),
            r.props@.class_name == opt_view(class_name),
            r.props@.node_value.is_none(),
            r.children@ == children@,
    {
        Element { tag: Tag::Named(tag), props: Props { class_name, node_value: None }, children }
    }

    /// A virtual text node.
    pub fn text(value: String) -> (r: Element)
        ensures
            r.tag@ == TagView::Text,
            r.props@.class_name.is_none(),
            r.props@.node_value == Some(value@),
            r.children@.len() == 0,
    {
        Element {
            tag: Tag::Text,
            props: Props { class_name: None, node_value: Some(value) },
            children: Vec::new(),
        }
    }
}

} // verus!
