//! Elements: tag names, closing tags and the completion of open elements.

use vstd::prelude::*;
use crate::document::{
    lemma_attributes_view_push, AttributeView, Element, ElementView, NodeView,
};
use crate::grammar::{
    attributes_after, attributes_at, close_tag_at, element_at, element_body_at,
    element_close_at, element_end_at, ident_at, lemma_attributes_step, lemma_child_advances,
    lemma_element_end_step, Failure,
};
use crate::parser::children::ChildError;
use crate::parser::Parser;
use crate::token::Token;

verus! {

/// Why the rest of a closing tag could not be read.
#[derive(Clone, Copy, Debug, PartialEq, Eq, Structural)]
pub enum CloseTagError {
    /// The token at `position` is neither the tag's name nor its `>`.
    UnexpectedToken { position: usize },
}

impl View for CloseTagError {
    type V = Failure;

    open spec fn view(&self) -> Failure {
        match self {
            CloseTagError::UnexpectedToken { position } => Failure::UnexpectedToken {
                position: *position as int,
            },
        }
    }
}

impl CloseTagError {
    /// The same failure as an error of the element that the tag would
    /// close.
    pub fn into_element_error(self) -> (error: ElementError)
        ensures
            error@ == self@,
    {
        match self {
            CloseTagError::UnexpectedToken { position } => ElementError::UnexpectedToken {
                position,
            },
        }
    }
}

/// Why a token sequence is not a template. Positions count tokens from the
/// start of the sequence; the length of the sequence stands for its end.
#[derive(Debug, PartialEq, Eq)]
pub enum ElementError {
    /// The token at `position` fits no production of the grammar there.
    UnexpectedToken { position: usize },
    /// The closing tag that starts at `position` names `found` where the
    /// element that it closes was opened as `expected`.
    MismatchedClosingTag { expected: String, found: String, position: usize },
    /// The token at `position`, after `=`, cannot be an attribute's value.
    InvalidAttributeValue { position: usize },
    /// The literal at `position` has no canonical text.
    UnsupportedLiteralKind { position: usize },
}

impl View for ElementError {
    type V = Failure;

    open spec fn view(&self) -> Failure {
        match self {
            ElementError::UnexpectedToken { position } => Failure::UnexpectedToken {
                position: *position as int,
            },
            ElementError::MismatchedClosingTag { expected, found, position } => {
                Failure::MismatchedClosingTag {
                    expected: expected@,
                    found: found@,
                    position: *position as int,
                }
            },
            ElementError::InvalidAttributeValue { position } => Failure::InvalidAttributeValue {
                position: *position as int,
            },
            ElementError::UnsupportedLiteralKind { position } => Failure::UnsupportedLiteralKind {
                position: *position as int,
            },
        }
    }
}

impl Parser {
    /// Reads an element, or a fragment, with all that it holds. `Ok(None)`
    /// where no `<` stands at the cursor; nothing is read then.
    pub fn try_element(&mut self) -> (result: Result<Option<Element>, ElementError>)
        ensures
            final(self).tokens() == old(self).tokens(),
            result is Ok ==> final(self).open_elements() == old(self).open_elements(),
            match result {
                Ok(Some(element)) => element_at(old(self).tokens(), old(self).position()) == Ok::<
                    (Option<ElementView>, int),
                    Failure,
                >((Some(element@), final(self).position())),
                Ok(None) => {
                    &&& element_at(old(self).tokens(), old(self).position()) == Ok::<
                        (Option<ElementView>, int),
                        Failure,
                    >((None, final(self).position()))
                    &&& final(self).position() == old(self).position()
                },
                Err(error) => element_at(old(self).tokens(), old(self).position()) == Err::<
                    (Option<ElementView>, int),
                    Failure,
                >(error@),
            },
        decreases old(self).remaining(), 0int,
    {
        if self.at_punct('<') {
            self.advance();
            match self.element_body() {
                Ok(element) => Ok(Some(element)),
                Err(error) => Err(error),
            }
        } else {
            Ok(None)
        }
    }

    /// Reads what follows the `<` of an element: a tag name, attributes and
    /// the close of the element, or `>` and the children of a fragment up to
    /// `</>`.
    pub fn element_body(&mut self) -> (result: Result<Element, ElementError>)
        ensures
            final(self).tokens() == old(self).tokens(),
            result is Ok ==> final(self).open_elements() == old(self).open_elements(),
            match result {
                Ok(element) => element_body_at(old(self).tokens(), old(self).position()) == Ok::<
                    (ElementView, int),
                    Failure,
                >((element@, final(self).position())),
                Err(error) => element_body_at(old(self).tokens(), old(self).position()) == Err::<
                    (ElementView, int),
                    Failure,
                >(error@),
            },
        decreases old(self).remaining(), 0int,
    {
        let ghost tokens = self.tokens();
        let ghost outer = self.open_elements();
        match self.try_tag_name() {
            Some(tag) => {
                let mut element = Element::new(tag);
                let ghost start = self.position();
                loop
                    invariant
                        self.tokens() == tokens,
                        tokens == old(self).tokens(),
                        start == old(self).position() + 1,
                        ident_at(tokens, old(self).position()) == Some(tag@),
                        self.open_elements() == outer,
                        start <= self.position(),
                        element@.tag == tag@,
                        element@.children == Seq::<NodeView>::empty(),
                        attributes_after(tokens, self.position(), element@.attributes)
                            == attributes_after(tokens, start, Seq::empty()),
                    ensures
                        self.tokens() == tokens,
                        self.open_elements() == outer,
                        start <= self.position(),
                        element@.tag == tag@,
                        element@.children == Seq::<NodeView>::empty(),
                        attributes_at(tokens, start) == Ok::<(Seq<AttributeView>, int), Failure>(
                            (element@.attributes, self.position()),
                        ),
                    decreases self.remaining(),
                {
                    proof {
                        lemma_attributes_step(tokens, self.position(), element@.attributes);
                    }
                    match self.try_attribute() {
                        Ok(Some(attribute)) => {
                            proof {
                                lemma_attributes_view_push(element.attributes@, attribute);
                            }
                            element.attributes.push(attribute);
                        },
                        Ok(None) => {
                            assert(Seq::<AttributeView>::empty() + element@.attributes
                                =~= element@.attributes);
                            break ;
                        },
                        Err(error) => {
                            return Err(error.into_element_error());
                        },
                    }
                }
                assert(element@ == (ElementView {
                    tag: tag@,
                    attributes: element@.attributes,
                    children: Seq::empty(),
                }));
                self.open_element(element);
                assert(self.open_elements().drop_last() =~= outer);
                self.end_current_element()
            },
            None => {
                if self.at_punct('>') {
                    self.advance();
                    self.open_element(Element::fragment());
                    assert(self.open_elements().drop_last() =~= outer);
                    self.end_fragment()
                } else {
                    Err(ElementError::UnexpectedToken { position: self.offset() })
                }
            },
        }
    }

    /// Reads an identifier as a tag name. `None` where the token at the
    /// cursor is no identifier; nothing is read then.
    pub fn try_tag_name(&mut self) -> (name: Option<String>)
        ensures
            final(self).moved_from(old(self)),
            match name {
                Some(tag) => {
                    &&& ident_at(old(self).tokens(), old(self).position()) == Some(tag@)
                    &&& final(self).position() == old(self).position() + 1
                },
                None => {
                    &&& ident_at(old(self).tokens(), old(self).position()) is None
                    &&& final(self).position() == old(self).position()
                },
            },
    {
        let name = match self.peek() {
            Some(Token::Ident(name)) => name.clone(),
            _ => {
                return None;
            },
        };
        self.advance();
        Some(name)
    }

    /// Reads the rest of a closing tag, after its `<` and `/`: a name and
    /// `>`, or `>` alone, which ends a fragment and gives the empty name.
    pub fn try_close_tag(&mut self) -> (result: Result<String, CloseTagError>)
        ensures
            final(self).moved_from(old(self)),
            match result {
                Ok(name) => close_tag_at(old(self).tokens(), old(self).position()) == Ok::<
                    (Seq<char>, int),
                    Failure,
                >((name@, final(self).position())),
                Err(error) => close_tag_at(old(self).tokens(), old(self).position()) == Err::<
                    (Seq<char>, int),
                    Failure,
                >(error@),
            },
    {
        let name = match self.peek() {
            Some(Token::Ident(name)) => name.clone(),
            Some(Token::Punct(c)) => {
                if *c == '>' {
                    self.advance();
                    return Ok(String::new());
                }
                return Err(CloseTagError::UnexpectedToken { position: self.offset() });
            },
            _ => {
                return Err(CloseTagError::UnexpectedToken { position: self.offset() });
            },
        };
        self.advance();
        if self.at_punct('>') {
            self.advance();
            Ok(name)
        } else {
            Err(CloseTagError::UnexpectedToken { position: self.offset() })
        }
    }

    /// Completes the innermost open element, whose tag name and attributes
    /// have been read: after `>` come its children and its closing tag,
    /// after `/` comes `>` and the element has no children. The element is
    /// taken from the stack and handed out.
    pub fn end_current_element(&mut self) -> (result: Result<Element, ElementError>)
        requires
            old(self).open_elements().len() > 0,
        ensures
            final(self).tokens() == old(self).tokens(),
            result is Ok ==> final(self).open_elements() == old(self).open_elements().drop_last(),
            match result {
                Ok(element) => element_close_at(
                    old(self).tokens(),
                    old(self).position(),
                    old(self).open_elements().last(),
                ) == Ok::<(ElementView, int), Failure>((element@, final(self).position())),
                Err(error) => element_close_at(
                    old(self).tokens(),
                    old(self).position(),
                    old(self).open_elements().last(),
                ) == Err::<(ElementView, int), Failure>(error@),
            },
        decreases old(self).remaining(), 0int,
    {
        if self.at_punct('>') {
            self.advance();
            self.end_fragment()
        } else if self.at_punct('/') {
            self.advance();
            if self.at_punct('>') {
                self.advance();
                Ok(self.close_element())
            } else {
                Err(ElementError::UnexpectedToken { position: self.offset() })
            }
        } else {
            Err(ElementError::UnexpectedToken { position: self.offset() })
        }
    }

    /// Reads children into the innermost open element up to its closing
    /// tag, which must name the element's tag: the empty name for a
    /// fragment. The element is taken from the stack and handed out.
    pub fn end_fragment(&mut self) -> (result: Result<Element, ElementError>)
        requires
            old(self).open_elements().len() > 0,
        ensures
            final(self).tokens() == old(self).tokens(),
            result is Ok ==> final(self).open_elements() == old(self).open_elements().drop_last(),
            match result {
                Ok(element) => element_end_at(
                    old(self).tokens(),
                    old(self).position(),
                    old(self).open_elements().last(),
                ) == Ok::<(ElementView, int), Failure>((element@, final(self).position())),
                Err(error) => element_end_at(
                    old(self).tokens(),
                    old(self).position(),
                    old(self).open_elements().last(),
                ) == Err::<(ElementView, int), Failure>(error@),
            },
        decreases old(self).remaining(), 1int,
    {
        let ghost tokens = self.tokens();
        let ghost start = self.position();
        let ghost outer = self.open_elements().drop_last();
        let ghost opened = self.open_elements().last();
        loop
            invariant
                self.tokens() == tokens,
                tokens == old(self).tokens(),
                start == old(self).position(),
                start <= self.position(),
                self.open_elements().len() > 0,
                self.open_elements().drop_last() == outer,
                outer == old(self).open_elements().drop_last(),
                opened == old(self).open_elements().last(),
                element_end_at(tokens, self.position(), self.open_elements().last())
                    == element_end_at(tokens, start, opened),
            decreases self.remaining(),
        {
            let at = self.offset();
            proof {
                lemma_child_advances(tokens, self.position());
                lemma_element_end_step(tokens, self.position(), self.open_elements().last());
            }
            match self.try_child() {
                Ok(child) => {
                    self.append_child(child);
                    assert(self.open_elements().drop_last() =~= outer);
                },
                Err(ChildError::ClosingTag(name)) => {
                    let element = self.close_element();
                    if element.tag == name {
                        assert(element@.children + Seq::<NodeView>::empty()
                            =~= element@.children);
                        return Ok(element);
                    }
                    return Err(
                        ElementError::MismatchedClosingTag {
                            expected: element.tag,
                            found: name,
                            position: at,
                        },
                    );
                },
                Err(ChildError::Failed(error)) => {
                    return Err(error);
                },
            }
        }
    }
}

} // verus!
