//! The document tree that the parser builds and the renderer consumes.

use vstd::prelude::*;
use crate::token::{Token, TokenView, tokens_view};

verus! {

/// One node of a parsed template.
#[derive(Debug, PartialEq, Eq)]
pub enum Node {
    /// A run of literal text.
    Text(String),
    /// A tag or a fragment.
    Element(Element),
}

/// What an attribute is set to.
#[derive(Debug, PartialEq, Eq)]
pub enum AttributeValue {
    /// The attribute is present and has no value.
    Empty,
    /// A value known when the template is parsed, already decoded.
    Literal(String),
    /// An expression of the host language, kept as the tokens it was written with.
    Expression(Vec<Token>),
}

/// A named attribute of an element.
#[derive(Debug, PartialEq, Eq)]
pub struct Attribute {
    pub name: String,
    pub value: AttributeValue,
}

/// A tag with its attributes and children. An empty tag name makes a fragment.
#[derive(Debug, PartialEq, Eq)]
pub struct Element {
    pub tag: String,
    pub attributes: Vec<Attribute>,
    pub children: Vec<Node>,
}

/// The mathematical value of an [`AttributeValue`].
pub enum AttributeValueView {
    Empty,
    Literal(Seq<char>),
    Expression(Seq<TokenView>),
}

/// The mathematical value of an [`Attribute`].
pub struct AttributeView {
    pub name: Seq<char>,
    pub value: AttributeValueView,
}

/// The mathematical value of an [`Element`].
pub struct ElementView {
    pub tag: Seq<char>,
    pub attributes: Seq<AttributeView>,
    pub children: Seq<NodeView>,
}

/// The mathematical value of a [`Node`].
pub enum NodeView {
    Text(Seq<char>),
    Element(ElementView),
}

impl View for AttributeValue {
    type V = AttributeValueView;

    open spec fn view(&self) -> AttributeValueView {
        match self {
            AttributeValue::Empty => AttributeValueView::Empty,
            AttributeValue::Literal(text) => AttributeValueView::Literal(text@),
            AttributeValue::Expression(tokens) => AttributeValueView::Expression(
                tokens_view(tokens@),
            ),
        }
    }
}

impl View for Attribute {
    type V = AttributeView;

    open spec fn view(&self) -> AttributeView {
        AttributeView { name: self.name@, value: self.value@ }
    }
}

/// The values of a sequence of attributes, in order.
pub open spec fn attributes_view(attributes: Seq<Attribute>) -> Seq<AttributeView> {
    Seq::new(attributes.len(), |i: int| attributes[i]@)
}

impl View for Node {
    type V = NodeView;

    open spec fn view(&self) -> NodeView
        decreases self,
    {
        match self {
            Node::Text(text) => NodeView::Text(text@),
            Node::Element(element) => NodeView::Element(element@),
        }
    }
}

impl View for Element {
    type V = ElementView;

    open spec fn view(&self) -> ElementView
        decreases self,
    {
        ElementView {
            tag: self.tag@,
            attributes: attributes_view(self.attributes@),
            children: nodes_view(self.children@),
        }
    }
}

/// The values of a sequence of nodes, in order.
pub open spec fn nodes_view(nodes: Seq<Node>) -> Seq<NodeView>
    decreases nodes,
{
    Seq::new(
        nodes.len(),
        |i: int|
            if 0 <= i < nodes.len() {
                nodes[i]@
            } else {
                arbitrary()
            },
    )
}

/// Appending an attribute appends its value.
pub proof fn lemma_attributes_view_push(attributes: Seq<Attribute>, attribute: Attribute)
    ensures
        attributes_view(attributes.push(attribute)) == attributes_view(attributes).push(
            attribute@,
        ),
{
    assert(attributes_view(attributes.push(attribute)) =~= attributes_view(attributes).push(
        attribute@,
    ));
}

/// Appending a node appends its value.
pub proof fn lemma_nodes_view_push(nodes: Seq<Node>, node: Node)
    ensures
        nodes_view(nodes.push(node)) == nodes_view(nodes).push(node@),
{
    assert(nodes_view(nodes.push(node)) =~= nodes_view(nodes).push(node@));
}

impl Attribute {
    /// An attribute with the given name and value.
    pub fn new(name: String, value: AttributeValue) -> (attribute: Attribute)
        ensures
            attribute.name == name,
            attribute.value == value,
            attribute@ == (AttributeView { name: name@, value: value@ }),
    {
        Attribute { name, value }
    }

    /// An attribute that is present and has no value.
    pub fn empty(name: String) -> (attribute: Attribute)
        ensures
            attribute.name == name,
            attribute.value == AttributeValue::Empty,
            attribute@ == (AttributeView { name: name@, value: AttributeValueView::Empty }),
    {
        Attribute { name, value: AttributeValue::Empty }
    }
}

impl Element {
    /// An element with the given tag, no attributes and no children.
    pub fn new(tag: String) -> (element: Element)
        ensures
            element.tag == tag,
            element.attributes@ == Seq::<Attribute>::empty(),
            element.children@ == Seq::<Node>::empty(),
            element@ == ElementView::new(tag@),
    {
        let element = Element { tag, attributes: Vec::new(), children: Vec::new() };
        assert(attributes_view(element.attributes@) =~= Seq::empty());
        assert(nodes_view(element.children@) =~= Seq::empty());
        element
    }

    /// A fragment: an element without a tag name, attributes or children.
    pub fn fragment() -> (element: Element)
        ensures
            element@ == ElementView::fragment(),
    {
        Element::new(String::new())
    }
}

impl ElementView {
    /// The value of an element with the given tag, no attributes and no children.
    pub open spec fn new(tag: Seq<char>) -> ElementView {
        ElementView { tag, attributes: Seq::empty(), children: Seq::empty() }
    }

    /// The value of an empty fragment.
    pub open spec fn fragment() -> ElementView {
        ElementView::new(Seq::empty())
    }

    /// This element with one more child at the end.
    pub open spec fn with_child(self, child: NodeView) -> ElementView {
        ElementView { children: self.children.push(child), ..self }
    }
}

} // verus!
