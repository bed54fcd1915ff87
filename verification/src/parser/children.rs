//! The children of an element.

use vstd::prelude::*;
use crate::document::Node;
use crate::grammar::{child_at, Child};
use crate::parser::element::ElementError;
use crate::parser::Parser;

verus! {

/// Why no child was read.
#[derive(Debug, PartialEq, Eq)]
pub enum ChildError {
    /// The closing tag of the enclosing element stands there, with this
    /// name; the empty name closes a fragment.
    ClosingTag(String),
    /// What stands there is neither a child nor a closing tag.
    Failed(ElementError),
}

impl Parser {
    /// Reads one child of the innermost open element: a text or an element.
    /// Where the closing tag of the enclosing element stands instead, that
    /// tag is read and its name handed out as `ChildError::ClosingTag`.
    pub fn try_child(&mut self) -> (result: Result<Node, ChildError>)
        ensures
            final(self).tokens() == old(self).tokens(),
            !(result matches Err(ChildError::Failed(_))) ==> final(self).open_elements() == old(
                self,
            ).open_elements(),
            match result {
                Ok(node) => child_at(old(self).tokens(), old(self).position()) == Child::Node(
                    node@,
                    final(self).position(),
                ),
                Err(ChildError::ClosingTag(name)) => child_at(
                    old(self).tokens(),
                    old(self).position(),
                ) == Child::ClosingTag(name@, final(self).position()),
                Err(ChildError::Failed(error)) => child_at(
                    old(self).tokens(),
                    old(self).position(),
                ) == Child::Failed(error@),
            },
        decreases old(self).remaining(), 0int,
    {
        match self.try_text() {
            Err(error) => {
                return Err(ChildError::Failed(error));
            },
            Ok(Some(text)) => {
                return Ok(Node::Text(text));
            },
            Ok(None) => {},
        }
        if !self.at_punct('<') {
            return Err(
                ChildError::Failed(ElementError::UnexpectedToken { position: self.offset() }),
            );
        }
        self.advance();
        if self.at_punct('/') {
            self.advance();
            match self.try_close_tag() {
                Ok(name) => Err(ChildError::ClosingTag(name)),
                Err(error) => Err(ChildError::Failed(error.into_element_error())),
            }
        } else {
            match self.element_body() {
                Ok(element) => Ok(Node::Element(element)),
                Err(error) => Err(ChildError::Failed(error)),
            }
        }
    }
}

} // verus!
