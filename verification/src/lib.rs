//! A template compiler for an embedded markup mini-language: a token-stream
//! parser that builds a document tree, and a renderer that turns the tree
//! into an ordered list of output operations.

pub mod document;
pub mod grammar;
pub mod laws;
pub mod literal;
pub mod parser;
pub mod render;
pub mod token;
pub mod utils;
pub mod written;

use vstd::prelude::*;
use crate::document::NodeView;
use crate::grammar::{template, Failure};
use crate::parser::element::ElementError;
use crate::parser::Parser;
use crate::render::{operations_view, render_operations, rendered, OutputOp};
use crate::token::{tokens_view, Token};

verus! {

/// Compiles a template: parses the tokens as one template and renders the
/// document into the operations that produce its text. Fails, with no
/// operations, exactly where the tokens are no template.
pub fn render(input: Vec<Token>) -> (result: Result<Vec<OutputOp>, ElementError>)
    ensures
        match result {
            Ok(operations) => template(tokens_view(input@)) matches Ok(node)
                && operations_view(operations@) == rendered(node),
            Err(error) => template(tokens_view(input@)) == Err::<NodeView, Failure>(error@),
        },
{
    match Parser::parse(input) {
        Ok(root) => Ok(render_operations(root)),
        Err(error) => Err(error),
    }
}

} // verus!
