//! What a token sequence means: the grammar of templates as pure functions
//! from a token sequence and a position to what is found there.
//!
//! ```text
//! template        := LITERAL | '<' element_body
//! element_body    := IDENT attribute* close
//!                  | '>' children '<' '/' '>'
//! close           := '>' children '<' '/' IDENT '>'
//!                  | '/' '>'
//! attribute       := IDENT ('=' attribute_value)?
//! attribute_value := IDENT | LITERAL | GROUP(Parenthesis | Brace)
//! children        := (LITERAL | '<' element_body)*
//! ```
//!
//! Every function but [`template`] reads from a position onwards and says
//! where it stopped; positions at or past the end of the sequence hold no
//! token.

use vstd::prelude::*;
use crate::document::{AttributeValueView, AttributeView, ElementView, NodeView};
use crate::literal::decoded;
use crate::token::{Delimiter, TokenView};

verus! {

/// Why a token sequence is not a template. Each failure names the position
/// of the token that it is about; the length of the sequence stands for its
/// end.
pub enum Failure {
    /// The token at `position` fits no production of the grammar there.
    UnexpectedToken { position: int },
    /// The closing tag that starts at `position` names `found` where the
    /// element that it closes was opened as `expected`.
    MismatchedClosingTag { expected: Seq<char>, found: Seq<char>, position: int },
    /// The token at `position`, after `=`, cannot be an attribute's value.
    InvalidAttributeValue { position: int },
    /// The literal at `position` has no canonical text.
    UnsupportedLiteralKind { position: int },
}

/// The token at position `i`, if there is one.
pub open spec fn token_at(tokens: Seq<TokenView>, i: int) -> Option<TokenView> {
    if 0 <= i < tokens.len() {
        Some(tokens[i])
    } else {
        None
    }
}

/// Whether the token at position `i` is the punctuation character `c`.
pub open spec fn punct_at(tokens: Seq<TokenView>, i: int, c: char) -> bool {
    token_at(tokens, i) == Some(TokenView::Punct(c))
}

/// The identifier at position `i`, if the token there is one.
pub open spec fn ident_at(tokens: Seq<TokenView>, i: int) -> Option<Seq<char>> {
    match token_at(tokens, i) {
        Some(TokenView::Ident(name)) => Some(name),
        _ => None,
    }
}

/// The text of the literal at position `i`: `Ok(None)` where the token
/// there is no literal, a failure where it is one without canonical text.
pub open spec fn text_at(tokens: Seq<TokenView>, i: int) -> Result<Option<Seq<char>>, Failure> {
    match token_at(tokens, i) {
        Some(TokenView::Literal(source)) => match decoded(source) {
            Some(text) => Ok(Some(text)),
            None => Err(Failure::UnsupportedLiteralKind { position: i }),
        },
        _ => Ok(None),
    }
}

/// The attribute value at position `i`. An identifier is an expression of
/// itself, a group in parentheses or braces an expression of what it
/// encloses, a literal its decoded text.
pub open spec fn attribute_value_at(tokens: Seq<TokenView>, i: int) -> Result<
    (AttributeValueView, int),
    Failure,
> {
    match token_at(tokens, i) {
        Some(TokenView::Ident(name)) => Ok(
            (AttributeValueView::Expression(seq![TokenView::Ident(name)]), i + 1),
        ),
        Some(TokenView::Literal(source)) => match decoded(source) {
            Some(text) => Ok((AttributeValueView::Literal(text), i + 1)),
            None => Err(Failure::UnsupportedLiteralKind { position: i }),
        },
        Some(TokenView::Group(delimiter, inner)) => if delimiter == Delimiter::Parenthesis
            || delimiter == Delimiter::Brace {
            Ok((AttributeValueView::Expression(inner), i + 1))
        } else {
            Err(Failure::InvalidAttributeValue { position: i })
        },
        _ => Err(Failure::InvalidAttributeValue { position: i }),
    }
}

/// Whether the token at position `i` may follow an attribute that has no
/// value: `>`, `/` or the name of the next attribute.
pub open spec fn ends_empty_attribute(tokens: Seq<TokenView>, i: int) -> bool {
    punct_at(tokens, i, '>') || punct_at(tokens, i, '/') || ident_at(tokens, i) is Some
}

/// The attribute at position `i`: `Ok((None, i))` where the attribute list
/// ends (at `>` or `/`, which stays unread).
pub open spec fn attribute_at(tokens: Seq<TokenView>, i: int) -> Result<
    (Option<AttributeView>, int),
    Failure,
> {
    match token_at(tokens, i) {
        Some(TokenView::Ident(name)) => if punct_at(tokens, i + 1, '=') {
            match attribute_value_at(tokens, i + 2) {
                Ok((value, next)) => Ok((Some(AttributeView { name, value }), next)),
                Err(failure) => Err(failure),
            }
        } else if ends_empty_attribute(tokens, i + 1) {
            Ok((Some(AttributeView { name, value: AttributeValueView::Empty }), i + 1))
        } else {
            Err(Failure::UnexpectedToken { position: i + 1 })
        },
        Some(TokenView::Punct(c)) => if c == '>' || c == '/' {
            Ok((None, i))
        } else {
            Err(Failure::UnexpectedToken { position: i })
        },
        _ => Err(Failure::UnexpectedToken { position: i }),
    }
}

/// The attributes from position `i` up to the end of the attribute list.
pub open spec fn attributes_at(tokens: Seq<TokenView>, i: int) -> Result<
    (Seq<AttributeView>, int),
    Failure,
>
    decreases tokens.len() - i,
{
    match attribute_at(tokens, i) {
        Ok((Some(attribute), next)) => match attributes_at(tokens, next) {
            Ok((rest, end)) => Ok((seq![attribute] + rest, end)),
            Err(failure) => Err(failure),
        },
        Ok((None, end)) => Ok((Seq::empty(), end)),
        Err(failure) => Err(failure),
    }
}

/// An attribute list ends at a token, at or after the position where it
/// starts.
pub proof fn lemma_attributes_end(tokens: Seq<TokenView>, i: int)
    requires
        0 <= i,
    ensures
        attributes_at(tokens, i) matches Ok((_, end)) ==> i <= end < tokens.len(),
    decreases tokens.len() - i,
{
    if let Ok((Some(_), next)) = attribute_at(tokens, i) {
        lemma_attributes_end(tokens, next);
    }
}

/// The rest of a closing tag at position `i`, after `<` and `/`: a name and
/// `>`, or `>` alone, which closes a fragment and gives the empty name.
pub open spec fn close_tag_at(tokens: Seq<TokenView>, i: int) -> Result<(Seq<char>, int), Failure> {
    match token_at(tokens, i) {
        Some(TokenView::Ident(name)) => if punct_at(tokens, i + 1, '>') {
            Ok((name, i + 2))
        } else {
            Err(Failure::UnexpectedToken { position: i + 1 })
        },
        Some(TokenView::Punct(c)) => if c == '>' {
            Ok((Seq::empty(), i + 1))
        } else {
            Err(Failure::UnexpectedToken { position: i })
        },
        _ => Err(Failure::UnexpectedToken { position: i }),
    }
}

/// What stands where a child is looked for.
pub enum Child {
    /// A child, and the position after it.
    Node(NodeView, int),
    /// The closing tag of the enclosing element, by its name, and the
    /// position after it.
    ClosingTag(Seq<char>, int),
    /// Neither.
    Failed(Failure),
}

/// The children of an element and the closing tag that ends them.
pub struct Children {
    /// The children, in order.
    pub nodes: Seq<NodeView>,
    /// The name in the closing tag.
    pub closing_name: Seq<char>,
    /// Where the closing tag starts.
    pub closing_position: int,
    /// The position after the closing tag.
    pub end: int,
}

/// What stands at position `i` where a child is looked for: a text, an
/// element, or the closing tag of the enclosing element.
pub open spec fn child_at(tokens: Seq<TokenView>, i: int) -> Child
    decreases tokens.len() - i, 0int,
{
    match text_at(tokens, i) {
        Err(failure) => Child::Failed(failure),
        Ok(Some(text)) => Child::Node(NodeView::Text(text), i + 1),
        Ok(None) => if punct_at(tokens, i, '<') {
            if punct_at(tokens, i + 1, '/') {
                match close_tag_at(tokens, i + 2) {
                    Ok((name, next)) => Child::ClosingTag(name, next),
                    Err(failure) => Child::Failed(failure),
                }
            } else {
                match element_body_at(tokens, i + 1) {
                    Ok((element, next)) => Child::Node(NodeView::Element(element), next),
                    Err(failure) => Child::Failed(failure),
                }
            }
        } else {
            Child::Failed(Failure::UnexpectedToken { position: i })
        },
    }
}

/// The children from position `i` up to and including the closing tag that
/// ends them.
pub open spec fn children_at(tokens: Seq<TokenView>, i: int) -> Result<Children, Failure>
    decreases tokens.len() - i, 1int,
{
    match child_at(tokens, i) {
        Child::Node(node, next) => if i < next <= tokens.len() {
            match children_at(tokens, next) {
                Ok(rest) => Ok(Children { nodes: seq![node] + rest.nodes, ..rest }),
                Err(failure) => Err(failure),
            }
        } else {
            // A child is never empty (`lemma_child_advances`).
            Err(Failure::UnexpectedToken { position: i })
        },
        Child::ClosingTag(name, next) => Ok(
            Children { nodes: Seq::empty(), closing_name: name, closing_position: i, end: next },
        ),
        Child::Failed(failure) => Err(failure),
    }
}

/// The element `open` completed by the children at position `i` and their
/// closing tag, which must name the element's tag.
pub open spec fn element_end_at(tokens: Seq<TokenView>, i: int, open: ElementView) -> Result<
    (ElementView, int),
    Failure,
>
    decreases tokens.len() - i, 2int,
{
    match children_at(tokens, i) {
        Ok(children) => if children.closing_name == open.tag {
            Ok((ElementView { children: open.children + children.nodes, ..open }, children.end))
        } else {
            Err(
                Failure::MismatchedClosingTag {
                    expected: open.tag,
                    found: children.closing_name,
                    position: children.closing_position,
                },
            )
        },
        Err(failure) => Err(failure),
    }
}

/// The element `open` completed by what follows its attributes at position
/// `i`: `>`, children and a closing tag, or `/` and `>`.
pub open spec fn element_close_at(tokens: Seq<TokenView>, i: int, open: ElementView) -> Result<
    (ElementView, int),
    Failure,
>
    decreases tokens.len() - i, 3int,
{
    if punct_at(tokens, i, '>') {
        element_end_at(tokens, i + 1, open)
    } else if punct_at(tokens, i, '/') {
        if punct_at(tokens, i + 1, '>') {
            Ok((open, i + 2))
        } else {
            Err(Failure::UnexpectedToken { position: i + 1 })
        }
    } else {
        Err(Failure::UnexpectedToken { position: i })
    }
}

/// The element whose `<` stands just before position `i`: a tag name,
/// attributes and a close, or `>` and the children of a fragment.
pub open spec fn element_body_at(tokens: Seq<TokenView>, i: int) -> Result<
    (ElementView, int),
    Failure,
>
    decreases tokens.len() - i, 4int,
{
    match ident_at(tokens, i) {
        Some(tag) => match attributes_at(tokens, i + 1) {
            Ok((attributes, next)) => {
                proof {
                    lemma_attributes_end(tokens, i + 1);
                }
                element_close_at(
                    tokens,
                    next,
                    ElementView { tag, attributes, children: Seq::empty() },
                )
            },
            Err(failure) => Err(failure),
        },
        None => if punct_at(tokens, i, '>') {
            element_end_at(tokens, i + 1, ElementView::fragment())
        } else {
            Err(Failure::UnexpectedToken { position: i })
        },
    }
}

/// The element at position `i`: `Ok((None, i))` where no `<` stands there.
pub open spec fn element_at(tokens: Seq<TokenView>, i: int) -> Result<
    (Option<ElementView>, int),
    Failure,
> {
    if punct_at(tokens, i, '<') {
        match element_body_at(tokens, i + 1) {
            Ok((element, next)) => Ok((Some(element), next)),
            Err(failure) => Err(failure),
        }
    } else {
        Ok((None, i))
    }
}

/// The template at position `i`: a text or an element.
pub open spec fn template_at(tokens: Seq<TokenView>, i: int) -> Result<(NodeView, int), Failure> {
    match text_at(tokens, i) {
        Err(failure) => Err(failure),
        Ok(Some(text)) => Ok((NodeView::Text(text), i + 1)),
        Ok(None) => match element_at(tokens, i) {
            Err(failure) => Err(failure),
            Ok((Some(element), next)) => Ok((NodeView::Element(element), next)),
            Ok((None, _)) => Err(Failure::UnexpectedToken { position: i }),
        },
    }
}

/// The document that the whole token sequence stands for: one template
/// with nothing after it.
pub open spec fn template(tokens: Seq<TokenView>) -> Result<NodeView, Failure> {
    match template_at(tokens, 0) {
        Ok((node, end)) => if end == tokens.len() {
            Ok(node)
        } else {
            Err(Failure::UnexpectedToken { position: end })
        },
        Err(failure) => Err(failure),
    }
}

/// The attributes from position `i` on, after the attributes `before`.
pub open spec fn attributes_after(
    tokens: Seq<TokenView>,
    i: int,
    before: Seq<AttributeView>,
) -> Result<(Seq<AttributeView>, int), Failure> {
    match attributes_at(tokens, i) {
        Ok((rest, end)) => Ok((before + rest, end)),
        Err(failure) => Err(failure),
    }
}

/// Reading one attribute and then the rest is reading them all.
pub proof fn lemma_attributes_step(tokens: Seq<TokenView>, i: int, before: Seq<AttributeView>)
    ensures
        match attribute_at(tokens, i) {
            Ok((Some(attribute), next)) => attributes_after(tokens, i, before)
                == attributes_after(tokens, next, before.push(attribute)),
            Ok((None, end)) => attributes_after(tokens, i, before) == Ok::<
                (Seq<AttributeView>, int),
                Failure,
            >((before, end)),
            Err(failure) => attributes_after(tokens, i, before) == Err::<
                (Seq<AttributeView>, int),
                Failure,
            >(failure),
        },
{
    match attribute_at(tokens, i) {
        Ok((Some(attribute), next)) => {
            if let Ok((rest, end)) = attributes_at(tokens, next) {
                assert(before + (seq![attribute] + rest) =~= before.push(attribute) + rest);
            }
        },
        Ok((None, end)) => {
            assert(before + Seq::<AttributeView>::empty() =~= before);
        },
        Err(failure) => {},
    }
}

/// Whatever is read where a child is looked for ends after the position
/// where it starts, and within the token sequence.
pub proof fn lemma_child_advances(tokens: Seq<TokenView>, i: int)
    requires
        0 <= i,
    ensures
        child_at(tokens, i) matches Child::Node(_, next) ==> i < next <= tokens.len(),
        child_at(tokens, i) matches Child::ClosingTag(_, next) ==> i < next <= tokens.len(),
    decreases tokens.len() - i, 0int,
{
    if text_at(tokens, i) == Ok::<Option<Seq<char>>, Failure>(None) && punct_at(tokens, i, '<')
        && !punct_at(tokens, i + 1, '/') {
        lemma_element_body_advances(tokens, i + 1);
    }
}

/// Children and their closing tag end after the position where they start,
/// and within the token sequence.
pub proof fn lemma_children_advance(tokens: Seq<TokenView>, i: int)
    requires
        0 <= i,
    ensures
        children_at(tokens, i) matches Ok(children) ==> i <= children.closing_position
            < children.end <= tokens.len(),
    decreases tokens.len() - i, 1int,
{
    lemma_child_advances(tokens, i);
    if let Child::Node(_, next) = child_at(tokens, i) {
        lemma_children_advance(tokens, next);
    }
}

/// An element ends after the position where its body starts, and within
/// the token sequence.
pub proof fn lemma_element_body_advances(tokens: Seq<TokenView>, i: int)
    requires
        0 <= i,
    ensures
        element_body_at(tokens, i) matches Ok((_, next)) ==> i < next <= tokens.len(),
    decreases tokens.len() - i, 4int,
{
    match ident_at(tokens, i) {
        Some(tag) => {
            lemma_attributes_end(tokens, i + 1);
            if let Ok((attributes, next)) = attributes_at(tokens, i + 1) {
                if punct_at(tokens, next, '>') {
                    lemma_children_advance(tokens, next + 1);
                }
            }
        },
        None => {
            if punct_at(tokens, i, '>') {
                lemma_children_advance(tokens, i + 1);
            }
        },
    }
}

/// Reading one child and then completing the element with the rest is
/// completing it with them all.
pub proof fn lemma_element_end_step(tokens: Seq<TokenView>, i: int, open: ElementView)
    requires
        0 <= i,
    ensures
        child_at(tokens, i) matches Child::Node(node, next) ==> element_end_at(tokens, i, open)
            == element_end_at(tokens, next, open.with_child(node)),
{
    lemma_child_advances(tokens, i);
    if let Child::Node(node, next) = child_at(tokens, i) {
        if let Ok(rest) = children_at(tokens, next) {
            assert(open.children + (seq![node] + rest.nodes) =~= open.children.push(node)
                + rest.nodes);
        }
    }
}

/// A template ends after the position where it starts, and within the
/// token sequence.
pub proof fn lemma_template_advances(tokens: Seq<TokenView>, i: int)
    requires
        0 <= i,
    ensures
        template_at(tokens, i) matches Ok((_, end)) ==> i < end <= tokens.len(),
{
    lemma_element_body_advances(tokens, i + 1);
}

} // verus!
