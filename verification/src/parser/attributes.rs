//! Attributes and their values.

use vstd::prelude::*;
use crate::document::{Attribute, AttributeValue, AttributeValueView, AttributeView};
use crate::grammar::{attribute_at, attribute_value_at, Failure};
use crate::literal::decode_literal;
use crate::parser::element::ElementError;
use crate::parser::Parser;
use crate::token::{
    clone_tokens, lemma_tokens_view_push, tokens_view, Delimiter, Token, TokenView,
};

verus! {

/// What is wrong with an attribute.
#[derive(Clone, Copy, Debug, PartialEq, Eq, Structural)]
pub enum AttributeErrorKind {
    /// A token that cannot start or follow an attribute.
    UnexpectedToken,
    /// A token after `=` that cannot be a value.
    InvalidAttributeValue,
    /// A literal value without canonical text.
    UnsupportedLiteralKind,
}

/// Why an attribute could not be read: what is wrong, and the position of
/// the token that it is wrong with.
#[derive(Clone, Copy, Debug, PartialEq, Eq, Structural)]
pub struct AttributeError {
    pub kind: AttributeErrorKind,
    pub position: usize,
}

impl View for AttributeError {
    type V = Failure;

    open spec fn view(&self) -> Failure {
        match self.kind {
            AttributeErrorKind::UnexpectedToken => Failure::UnexpectedToken {
                position: self.position as int,
            },
            AttributeErrorKind::InvalidAttributeValue => Failure::InvalidAttributeValue {
                position: self.position as int,
            },
            AttributeErrorKind::UnsupportedLiteralKind => Failure::UnsupportedLiteralKind {
                position: self.position as int,
            },
        }
    }
}

impl AttributeError {
    /// The same failure as an error of the element that the attribute
    /// belongs to.
    pub fn into_element_error(self) -> (error: ElementError)
        ensures
            error@ == self@,
    {
        match self.kind {
            AttributeErrorKind::UnexpectedToken => ElementError::UnexpectedToken {
                position: self.position,
            },
            AttributeErrorKind::InvalidAttributeValue => ElementError::InvalidAttributeValue {
                position: self.position,
            },
            AttributeErrorKind::UnsupportedLiteralKind => ElementError::UnsupportedLiteralKind {
                position: self.position,
            },
        }
    }
}

impl Parser {
    /// Reads one attribute. `Ok(None)` where the attribute list ends, at `>`
    /// or `/`, which stays unread. An attribute without `=` is empty; the
    /// token that follows it is looked at and stays unread.
    pub fn try_attribute(&mut self) -> (result: Result<Option<Attribute>, AttributeError>)
        ensures
            final(self).moved_from(old(self)),
            match result {
                Ok(Some(attribute)) => attribute_at(old(self).tokens(), old(self).position())
                    == Ok::<(Option<AttributeView>, int), Failure>(
                    (Some(attribute@), final(self).position()),
                ),
                Ok(None) => attribute_at(old(self).tokens(), old(self).position()) == Ok::<
                    (Option<AttributeView>, int),
                    Failure,
                >((None, final(self).position())),
                Err(error) => attribute_at(old(self).tokens(), old(self).position()) == Err::<
                    (Option<AttributeView>, int),
                    Failure,
                >(error@),
            },
    {
        let name = match self.peek() {
            Some(Token::Ident(name)) => name.clone(),
            Some(Token::Punct(c)) => {
                if *c == '>' || *c == '/' {
                    return Ok(None);
                }
                return Err(
                    AttributeError {
                        kind: AttributeErrorKind::UnexpectedToken,
                        position: self.offset(),
                    },
                );
            },
            _ => {
                return Err(
                    AttributeError {
                        kind: AttributeErrorKind::UnexpectedToken,
                        position: self.offset(),
                    },
                );
            },
        };
        self.advance();
        if self.at_punct('=') {
            self.advance();
            match self.try_attribute_value() {
                Ok(value) => Ok(Some(Attribute::new(name, value))),
                Err(error) => Err(error),
            }
        } else {
            let ends = match self.peek() {
                Some(Token::Punct(c)) => *c == '>' || *c == '/',
                Some(Token::Ident(_)) => true,
                _ => false,
            };
            if ends {
                Ok(Some(Attribute::empty(name)))
            } else {
                Err(
                    AttributeError {
                        kind: AttributeErrorKind::UnexpectedToken,
                        position: self.offset(),
                    },
                )
            }
        }
    }

    /// Reads the value of an attribute, after its `=`: an identifier or a
    /// group in parentheses or braces as an expression, a literal as its
    /// decoded text. Nothing is read on failure.
    pub fn try_attribute_value(&mut self) -> (result: Result<AttributeValue, AttributeError>)
        ensures
            final(self).moved_from(old(self)),
            match result {
                Ok(value) => attribute_value_at(old(self).tokens(), old(self).position()) == Ok::<
                    (AttributeValueView, int),
                    Failure,
                >((value@, final(self).position())),
                Err(error) => {
                    &&& attribute_value_at(old(self).tokens(), old(self).position()) == Err::<
                        (AttributeValueView, int),
                        Failure,
                    >(error@)
                    &&& final(self).position() == old(self).position()
                },
            },
    {
        let position = self.offset();
        let value = match self.peek() {
            Some(Token::Ident(name)) => {
                let mut tokens: Vec<Token> = Vec::new();
                let ghost none = tokens@;
                tokens.push(Token::Ident(name.clone()));
                proof {
                    lemma_tokens_view_push(none, tokens@[0]);
                    assert(tokens@ =~= none.push(tokens@[0]));
                    assert(tokens_view(tokens@) =~= seq![TokenView::Ident(name@)]);
                }
                AttributeValue::Expression(tokens)
            },
            Some(Token::Literal(source)) => match decode_literal(source.as_str()) {
                Some(text) => AttributeValue::Literal(text),
                None => {
                    return Err(
                        AttributeError {
                            kind: AttributeErrorKind::UnsupportedLiteralKind,
                            position,
                        },
                    );
                },
            },
            Some(Token::Group(delimiter, inner)) => {
                match delimiter {
                    Delimiter::Parenthesis | Delimiter::Brace => AttributeValue::Expression(
                        clone_tokens(inner),
                    ),
                    _ => {
                        return Err(
                            AttributeError {
                                kind: AttributeErrorKind::InvalidAttributeValue,
                                position,
                            },
                        );
                    },
                }
            },
            _ => {
                return Err(
                    AttributeError { kind: AttributeErrorKind::InvalidAttributeValue, position },
                );
            },
        };
        self.advance();
        Ok(value)
    }
}

} // verus!
