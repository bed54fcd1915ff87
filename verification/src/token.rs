//! The lexical vocabulary handed to the parser: identifiers, literals,
//! punctuation and delimited groups.

use vstd::prelude::*;

verus! {

/// How a group of tokens is delimited.
#[derive(Clone, Copy, Debug, PartialEq, Eq, Structural)]
pub enum Delimiter {
    /// `( ... )`
    Parenthesis,
    /// `{ ... }`
    Brace,
    /// `[ ... ]`
    Bracket,
    /// No visible delimiter.
    Invisible,
}

/// One lexical unit of the template language.
#[derive(Debug, PartialEq, Eq)]
pub enum Token {
    /// An identifier, by its text.
    Ident(String),
    /// A literal, by its source text (quotes, escapes and suffix included).
    Literal(String),
    /// A single punctuation character.
    Punct(char),
    /// A delimited, nested sequence of tokens.
    Group(Delimiter, Vec<Token>),
}

/// The mathematical value of a [`Token`].
pub enum TokenView {
    Ident(Seq<char>),
    Literal(Seq<char>),
    Punct(char),
    Group(Delimiter, Seq<TokenView>),
}

impl View for Token {
    type V = TokenView;

    open spec fn view(&self) -> TokenView
        decreases self,
    {
        match self {
            Token::Ident(s) => TokenView::Ident(s@),
            Token::Literal(s) => TokenView::Literal(s@),
            Token::Punct(c) => TokenView::Punct(*c),
            Token::Group(d, inner) => TokenView::Group(*d, tokens_view(inner@)),
        }
    }
}

/// The values of a sequence of tokens, in order.
pub open spec fn tokens_view(tokens: Seq<Token>) -> Seq<TokenView>
    decreases tokens,
{
    Seq::new(
        tokens.len(),
        |i: int|
            if 0 <= i < tokens.len() {
                tokens[i]@
            } else {
                arbitrary()
            },
    )
}

/// Appending a token appends its value.
pub proof fn lemma_tokens_view_push(tokens: Seq<Token>, token: Token)
    ensures
        tokens_view(tokens.push(token)) == tokens_view(tokens).push(token@),
{
    assert(tokens_view(tokens.push(token)) =~= tokens_view(tokens).push(token@));
}

impl Clone for Token {
    /// A deep copy: the copy has the same value as this token.
    fn clone(&self) -> (copy: Token)
        ensures
            copy@ == self@,
        decreases self,
    {
        match self {
            Token::Ident(s) => Token::Ident(s.clone()),
            Token::Literal(s) => Token::Literal(s.clone()),
            Token::Punct(c) => Token::Punct(*c),
            Token::Group(d, inner) => Token::Group(*d, clone_tokens(inner)),
        }
    }
}

/// A deep copy of a token sequence.
pub fn clone_tokens(tokens: &Vec<Token>) -> (copy: Vec<Token>)
    ensures
        tokens_view(copy@) == tokens_view(tokens@),
    decreases tokens,
{
    let mut copy: Vec<Token> = Vec::new();
    let mut i: usize = 0;
    while i < tokens.len()
        invariant
            i <= tokens.len(),
            copy@.len() == i,
            forall|k: int| 0 <= k < i ==> copy@[k]@ == tokens@[k]@,
        decreases tokens.len() - i,
    {
        let token = tokens[i].clone();
        copy.push(token);
        i = i + 1;
    }
    assert(tokens_view(copy@) =~= tokens_view(tokens@));
    copy
}

} // verus!
