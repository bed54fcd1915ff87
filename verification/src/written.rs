//! The written form of a document, and the law that parsing it gives the
//! document back.

use vstd::prelude::*;
use crate::document::{AttributeValueView, AttributeView, ElementView, NodeView};
use crate::grammar::{
    attribute_at, attribute_value_at, attributes_at, child_at, children_at, close_tag_at,
    element_body_at, element_close_at, element_end_at, lemma_child_advances, template, Child,
    Children, Failure,
};
use crate::literal::decoded;
use crate::token::{Delimiter, TokenView};

verus! {

/// For each text a literal that stands for it.
pub type Sources = spec_fn(Seq<char>) -> Seq<char>;

/// Whether every literal that `source` gives stands for the text that it
/// was given for.
pub open spec fn denotes(source: Sources) -> bool {
    forall|text: Seq<char>| decoded(#[trigger] source(text)) == Some(text)
}

/// The tokens of an attribute: its name and, for a value, `=` and the
/// value; a literal by its source, an expression in braces.
pub open spec fn written_attribute(attribute: AttributeView, source: Sources) -> Seq<TokenView> {
    match attribute.value {
        AttributeValueView::Empty => seq![TokenView::Ident(attribute.name)],
        AttributeValueView::Literal(text) => seq![
            TokenView::Ident(attribute.name),
            TokenView::Punct('='),
            TokenView::Literal(source(text)),
        ],
        AttributeValueView::Expression(tokens) => seq![
            TokenView::Ident(attribute.name),
            TokenView::Punct('='),
            TokenView::Group(Delimiter::Brace, tokens),
        ],
    }
}

/// The tokens of the attributes, in order.
pub open spec fn written_attributes(attributes: Seq<AttributeView>, source: Sources) -> Seq<
    TokenView,
>
    decreases attributes.len(),
{
    if attributes.len() == 0 {
        Seq::empty()
    } else {
        written_attribute(attributes[0], source) + written_attributes(attributes.skip(1), source)
    }
}

/// The tokens of a closing tag: `<`, `/`, the name and `>`.
pub open spec fn written_closing(tag: Seq<char>) -> Seq<TokenView> {
    seq![
        TokenView::Punct('<'),
        TokenView::Punct('/'),
        TokenView::Ident(tag),
        TokenView::Punct('>'),
    ]
}

/// The tokens of a node: a text as a literal; an element as `<`, its tag,
/// its attributes, `>`, its children and its closing tag.
pub open spec fn written(node: NodeView, source: Sources) -> Seq<TokenView>
    decreases node, 0int,
{
    match node {
        NodeView::Text(text) => seq![TokenView::Literal(source(text))],
        NodeView::Element(element) => written_element(element, source),
    }
}

/// The tokens of an element.
pub open spec fn written_element(element: ElementView, source: Sources) -> Seq<TokenView>
    decreases element, 0int,
{
    seq![TokenView::Punct('<'), TokenView::Ident(element.tag)] + written_attributes(
        element.attributes,
        source,
    ) + seq![TokenView::Punct('>')] + written_children(element.children, source)
        + written_closing(element.tag)
}

/// The tokens of the children, in order.
pub open spec fn written_children(children: Seq<NodeView>, source: Sources) -> Seq<TokenView>
    decreases children, 1int,
{
    if children.len() == 0 {
        Seq::empty()
    } else {
        written(children[0], source) + written_children(children.skip(1), source)
    }
}

/// Whether `part` stands in `tokens` from position `i` on.
pub open spec fn stands_at(tokens: Seq<TokenView>, i: int, part: Seq<TokenView>) -> bool {
    &&& 0 <= i
    &&& i + part.len() <= tokens.len()
    &&& forall|k: int| 0 <= k < part.len() ==> tokens[i + k] == #[trigger] part[k]
}

/// Where three parts stand one after the other, the middle one stands
/// after the first.
pub proof fn lemma_stands_part(
    tokens: Seq<TokenView>,
    i: int,
    before: Seq<TokenView>,
    part: Seq<TokenView>,
    after: Seq<TokenView>,
)
    requires
        stands_at(tokens, i, before + part + after),
    ensures
        stands_at(tokens, i + before.len(), part),
{
    let all = before + part + after;
    assert forall|k: int| 0 <= k < part.len() implies tokens[i + before.len() + k]
        == #[trigger] part[k] by {
        assert(all[before.len() + k] == part[k]);
    }
}

/// Where written attributes and `>` stand, they are read as the
/// attributes.
pub proof fn lemma_written_attributes(
    tokens: Seq<TokenView>,
    i: int,
    attributes: Seq<AttributeView>,
    source: Sources,
)
    requires
        denotes(source),
        stands_at(tokens, i, written_attributes(attributes, source) + seq![TokenView::Punct('>')]),
    ensures
        attributes_at(tokens, i) == Ok::<(Seq<AttributeView>, int), Failure>(
            (attributes, i + written_attributes(attributes, source).len()),
        ),
    decreases attributes.len(),
{
    let end = seq![TokenView::Punct('>')];
    let all = written_attributes(attributes, source) + end;
    if attributes.len() == 0 {
        assert(all[0] == TokenView::Punct('>'));
        assert(attribute_at(tokens, i) == Ok::<(Option<AttributeView>, int), Failure>((None, i)));
        assert(attributes =~= Seq::empty());
    } else {
        let first = attributes[0];
        let head = written_attribute(first, source);
        let rest = attributes.skip(1);
        let tail = written_attributes(rest, source) + end;
        assert(all =~= Seq::<TokenView>::empty() + head + tail);
        assert(all =~= head + tail + Seq::<TokenView>::empty());
        lemma_stands_part(tokens, i, head, tail, Seq::empty());
        lemma_written_attributes(tokens, i + head.len(), rest, source);
        assert(all[0] == TokenView::Ident(first.name));
        assert(all[head.len() as int] == tail[0]);
        if rest.len() == 0 {
            assert(tail[0] == TokenView::Punct('>'));
        } else {
            assert(tail[0] == TokenView::Ident(rest[0].name)) by {
                assert(written_attribute(rest[0], source)[0] == TokenView::Ident(rest[0].name));
            }
        }
        match first.value {
            AttributeValueView::Empty => {
                assert(tokens[i + 1] == tail[0]);
            },
            AttributeValueView::Literal(text) => {
                assert(all[1] == TokenView::Punct('='));
                assert(all[2] == TokenView::Literal(source(text)));
                assert(attribute_value_at(tokens, i + 2) == Ok::<
                    (AttributeValueView, int),
                    Failure,
                >((first.value, i + 3)));
            },
            AttributeValueView::Expression(inner) => {
                assert(all[1] == TokenView::Punct('='));
                assert(all[2] == TokenView::Group(Delimiter::Brace, inner));
                assert(attribute_value_at(tokens, i + 2) == Ok::<
                    (AttributeValueView, int),
                    Failure,
                >((first.value, i + 3)));
            },
        }
        assert(attribute_at(tokens, i) == Ok::<(Option<AttributeView>, int), Failure>(
            (Some(first), i + head.len()),
        ));
        assert(seq![first] + rest =~= attributes);
    }
}

/// Where a written node stands, it is read as that node.
pub proof fn lemma_written_node(tokens: Seq<TokenView>, i: int, node: NodeView, source: Sources)
    requires
        denotes(source),
        stands_at(tokens, i, written(node, source)),
    ensures
        child_at(tokens, i) == Child::Node(node, i + written(node, source).len()),
    decreases node, 0int,
{
    let all = written(node, source);
    match node {
        NodeView::Text(text) => {
            assert(all[0] == TokenView::Literal(source(text)));
        },
        NodeView::Element(element) => {
            assert(all[0] == TokenView::Punct('<'));
            assert(all[1] == TokenView::Ident(element.tag));
            lemma_written_element(tokens, i, element, source);
        },
    }
}

/// Where a written element stands, what follows its `<` is read as that
/// element.
pub proof fn lemma_written_element(
    tokens: Seq<TokenView>,
    i: int,
    element: ElementView,
    source: Sources,
)
    requires
        denotes(source),
        stands_at(tokens, i, written_element(element, source)),
    ensures
        element_body_at(tokens, i + 1) == Ok::<(ElementView, int), Failure>(
            (element, i + written_element(element, source).len()),
        ),
    decreases element, 0int,
{
    let all = written_element(element, source);
    let start = seq![TokenView::Punct('<'), TokenView::Ident(element.tag)];
    let attributes = written_attributes(element.attributes, source);
    let close = seq![TokenView::Punct('>')];
    let children = written_children(element.children, source);
    let closing = written_closing(element.tag);
    assert(all[1] == TokenView::Ident(element.tag));
    assert(all =~= start + (attributes + close) + (children + closing));
    lemma_stands_part(tokens, i, start, attributes + close, children + closing);
    lemma_written_attributes(tokens, i + 2, element.attributes, source);
    let at = i + 2 + attributes.len();
    assert(all[attributes.len() as int + 2] == TokenView::Punct('>'));
    assert(all =~= (start + attributes + close) + (children + closing) + Seq::<
        TokenView,
    >::empty());
    lemma_stands_part(tokens, i, start + attributes + close, children + closing, Seq::empty());
    lemma_written_children(tokens, at + 1, element.children, element.tag, source);
    let open = ElementView {
        tag: element.tag,
        attributes: element.attributes,
        children: Seq::empty(),
    };
    assert(open.children + element.children =~= element.children);
    assert(element_end_at(tokens, at + 1, open) == Ok::<(ElementView, int), Failure>(
        (element, at + 1 + children.len() + 4),
    ));
    assert(element_close_at(tokens, at, open) == element_end_at(tokens, at + 1, open));
}

/// Where written children and a closing tag stand, they are read as the
/// children and that tag.
pub proof fn lemma_written_children(
    tokens: Seq<TokenView>,
    i: int,
    children: Seq<NodeView>,
    tag: Seq<char>,
    source: Sources,
)
    requires
        denotes(source),
        stands_at(tokens, i, written_children(children, source) + written_closing(tag)),
    ensures
        children_at(tokens, i) == Ok::<Children, Failure>(
            Children {
                nodes: children,
                closing_name: tag,
                closing_position: i + written_children(children, source).len(),
                end: i + written_children(children, source).len() + 4,
            },
        ),
    decreases children, 1int,
{
    let closing = written_closing(tag);
    let all = written_children(children, source) + closing;
    if children.len() == 0 {
        assert(all[0] == TokenView::Punct('<'));
        assert(all[1] == TokenView::Punct('/'));
        assert(all[2] == TokenView::Ident(tag));
        assert(all[3] == TokenView::Punct('>'));
        assert(close_tag_at(tokens, i + 2) == Ok::<(Seq<char>, int), Failure>((tag, i + 4)));
        assert(child_at(tokens, i) == Child::ClosingTag(tag, i + 4));
        assert(children =~= Seq::empty());
    } else {
        let first = children[0];
        let head = written(first, source);
        let rest = children.skip(1);
        let tail = written_children(rest, source) + closing;
        assert(all =~= Seq::<TokenView>::empty() + head + tail);
        assert(all =~= head + tail + Seq::<TokenView>::empty());
        lemma_stands_part(tokens, i, Seq::empty(), head, tail);
        lemma_written_node(tokens, i, first, source);
        lemma_child_advances(tokens, i);
        lemma_stands_part(tokens, i, head, tail, Seq::empty());
        lemma_written_children(tokens, i + head.len(), rest, tag, source);
        assert(seq![first] + rest =~= children);
    }
}

/// Every document is what its written form is parsed as.
pub proof fn law_written_document_is_parsed(node: NodeView, source: Sources)
    requires
        denotes(source),
    ensures
        template(written(node, source)) == Ok::<NodeView, Failure>(node),
{
    let tokens = written(node, source);
    assert(stands_at(tokens, 0, tokens));
    lemma_written_node(tokens, 0, node, source);
    match node {
        NodeView::Text(text) => {
            assert(tokens[0] == TokenView::Literal(source(text)));
        },
        NodeView::Element(element) => {
            assert(tokens[0] == TokenView::Punct('<'));
            assert(tokens[1] == TokenView::Ident(element.tag));
            lemma_written_element(tokens, 0, element, source);
        },
    }
}

} // verus!
