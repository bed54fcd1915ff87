//! The parser: a cursor over a token sequence and a stack of the elements
//! that are open at the cursor.

pub mod attributes;
pub mod children;
pub mod element;

use vstd::prelude::*;
use crate::document::{lemma_nodes_view_push, Element, ElementView, Node, NodeView};
use crate::grammar::{
    lemma_template_advances, punct_at, template, template_at, text_at, token_at, Failure,
};
use crate::literal::decode_literal;
use crate::parser::element::ElementError;
use crate::token::{tokens_view, Token, TokenView};

verus! {

/// A parser at some position of its token sequence.
pub struct Parser {
    stack: Vec<Element>,
    stream: Vec<Token>,
    pos: usize,
}

/// The values of a sequence of elements, in order.
pub open spec fn elements_view(elements: Seq<Element>) -> Seq<ElementView> {
    Seq::new(elements.len(), |i: int| elements[i]@)
}

impl Parser {
    /// The token sequence that is parsed.
    pub closed spec fn tokens(&self) -> Seq<TokenView> {
        tokens_view(self.stream@)
    }

    /// The position of the next token to read.
    pub closed spec fn position(&self) -> int {
        self.pos as int
    }

    /// The elements that are open at the cursor, outermost first.
    pub closed spec fn open_elements(&self) -> Seq<ElementView> {
        elements_view(self.stack@)
    }

    /// How many tokens are left to read.
    pub open spec fn remaining(&self) -> int {
        if self.position() < self.tokens().len() {
            self.tokens().len() - self.position()
        } else {
            0
        }
    }

    /// Whether the parser differs from `before` by its position alone.
    pub open spec fn moved_from(&self, before: &Parser) -> bool {
        &&& self.tokens() == before.tokens()
        &&& self.open_elements() == before.open_elements()
    }

    /// A parser at the start of `tokens`, with no element open.
    pub fn new(tokens: Vec<Token>) -> (parser: Parser)
        ensures
            parser.tokens() == tokens_view(tokens@),
            parser.position() == 0,
            parser.open_elements() == Seq::<ElementView>::empty(),
    {
        let parser = Parser { stack: Vec::new(), stream: tokens, pos: 0 };
        assert(elements_view(parser.stack@) =~= Seq::empty());
        parser
    }

    /// Parses a whole token sequence as one template. Fails where the
    /// sequence is no template, and where anything follows the template.
    pub fn parse(tokens: Vec<Token>) -> (result: Result<Node, ElementError>)
        ensures
            match result {
                Ok(node) => template(tokens_view(tokens@)) == Ok::<NodeView, Failure>(node@),
                Err(error) => template(tokens_view(tokens@)) == Err::<NodeView, Failure>(error@),
            },
    {
        let mut parser = Parser::new(tokens);
        match parser.start() {
            Ok(node) => {
                if parser.pos < parser.stream.len() {
                    Err(ElementError::UnexpectedToken { position: parser.pos })
                } else {
                    proof {
                        lemma_template_advances(parser.tokens(), 0);
                    }
                    Ok(node)
                }
            },
            Err(error) => Err(error),
        }
    }

    /// Reads one template at the cursor: a text or an element. The stack of
    /// open elements is afterwards what it was before.
    pub fn start(&mut self) -> (result: Result<Node, ElementError>)
        ensures
            final(self).tokens() == old(self).tokens(),
            result is Ok ==> final(self).open_elements() == old(self).open_elements(),
            match result {
                Ok(node) => template_at(old(self).tokens(), old(self).position()) == Ok::<
                    (NodeView, int),
                    Failure,
                >((node@, final(self).position())),
                Err(error) => template_at(old(self).tokens(), old(self).position()) == Err::<
                    (NodeView, int),
                    Failure,
                >(error@),
            },
    {
        match self.try_text() {
            Err(error) => {
                return Err(error);
            },
            Ok(Some(text)) => {
                return Ok(Node::Text(text));
            },
            Ok(None) => {},
        }
        match self.try_element() {
            Err(error) => Err(error),
            Ok(Some(element)) => Ok(Node::Element(element)),
            Ok(None) => Err(ElementError::UnexpectedToken { position: self.pos }),
        }
    }

    /// The token at the cursor, if there is one.
    pub(crate) fn peek(&self) -> (token: Option<&Token>)
        ensures
            match token {
                Some(t) => token_at(self.tokens(), self.position()) == Some(t@),
                None => token_at(self.tokens(), self.position()) is None,
            },
    {
        if self.pos < self.stream.len() {
            Some(&self.stream[self.pos])
        } else {
            None
        }
    }

    /// Whether the token at the cursor is the punctuation character `c`.
    pub(crate) fn at_punct(&self, c: char) -> (found: bool)
        ensures
            found == punct_at(self.tokens(), self.position(), c),
    {
        match self.peek() {
            Some(Token::Punct(p)) => *p == c,
            _ => false,
        }
    }

    /// Moves the cursor past the token that it is at, if it is at one.
    pub(crate) fn advance(&mut self)
        ensures
            final(self).moved_from(old(self)),
            final(self).position() == if token_at(old(self).tokens(), old(self).position())
                is Some {
                old(self).position() + 1
            } else {
                old(self).position()
            },
    {
        if self.pos < self.stream.len() {
            self.pos = self.pos + 1;
        }
    }

    /// Opens `element`: it becomes the innermost open element.
    pub fn open_element(&mut self, element: Element)
        ensures
            final(self).tokens() == old(self).tokens(),
            final(self).position() == old(self).position(),
            final(self).open_elements() == old(self).open_elements().push(element@),
    {
        self.stack.push(element);
        assert(elements_view(self.stack@) =~= elements_view(old(self).stack@).push(element@));
    }

    /// Takes the innermost open element from the stack.
    pub(crate) fn close_element(&mut self) -> (element: Element)
        requires
            old(self).open_elements().len() > 0,
        ensures
            final(self).tokens() == old(self).tokens(),
            final(self).position() == old(self).position(),
            final(self).open_elements() == old(self).open_elements().drop_last(),
            element@ == old(self).open_elements().last(),
    {
        match self.stack.pop() {
            Some(element) => {
                assert(elements_view(self.stack@) =~= elements_view(old(self).stack@).drop_last());
                element
            },
            None => vstd::pervasive::unreached(),
        }
    }

    /// Appends `child` to the innermost open element.
    pub(crate) fn append_child(&mut self, child: Node)
        requires
            old(self).open_elements().len() > 0,
        ensures
            final(self).tokens() == old(self).tokens(),
            final(self).position() == old(self).position(),
            final(self).open_elements() == old(self).open_elements().drop_last().push(
                old(self).open_elements().last().with_child(child@),
            ),
    {
        let mut element = self.close_element();
        proof {
            lemma_nodes_view_push(element.children@, child);
        }
        element.children.push(child);
        self.open_element(element);
    }

    /// The position of the cursor.
    pub fn offset(&self) -> (position: usize)
        ensures
            position == self.position(),
    {
        self.pos
    }

    /// Reads the literal at the cursor as text. `Ok(None)` where the token at
    /// the cursor is no literal; nothing is read then, nor on failure.
    pub fn try_text(&mut self) -> (result: Result<Option<String>, ElementError>)
        ensures
            final(self).moved_from(old(self)),
            match result {
                Ok(Some(text)) => {
                    &&& text_at(old(self).tokens(), old(self).position()) == Ok::<
                        Option<Seq<char>>,
                        Failure,
                    >(Some(text@))
                    &&& final(self).position() == old(self).position() + 1
                },
                Ok(None) => {
                    &&& text_at(old(self).tokens(), old(self).position()) == Ok::<
                        Option<Seq<char>>,
                        Failure,
                    >(None)
                    &&& final(self).position() == old(self).position()
                },
                Err(error) => {
                    &&& text_at(old(self).tokens(), old(self).position()) == Err::<
                        Option<Seq<char>>,
                        Failure,
                    >(error@)
                    &&& final(self).position() == old(self).position()
                },
            },
    {
        let decoded = match self.peek() {
            Some(Token::Literal(source)) => decode_literal(source.as_str()),
            _ => {
                return Ok(None);
            },
        };
        match decoded {
            Some(text) => {
                self.advance();
                Ok(Some(text))
            },
            None => Err(ElementError::UnsupportedLiteralKind { position: self.pos }),
        }
    }
}

} // verus!
