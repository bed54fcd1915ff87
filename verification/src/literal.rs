//! Decoding of literal tokens into the text they stand for.

use vstd::prelude::*;

verus! {

/// A literal of the host language, read from its source text.
#[derive(Debug, PartialEq, Eq)]
pub enum LiteralValue {
    /// A string literal, by the text it denotes.
    Str(String),
    /// A character literal, by the character it denotes.
    Char(char),
    /// An integer literal, by its digits in base 10.
    Int(String),
    /// A floating-point literal, as it was written.
    Float(String),
    /// `true` or `false`.
    Bool(bool),
    /// A literal of any other kind.
    Other,
}

/// The mathematical value of a [`LiteralValue`].
pub enum LiteralValueView {
    Str(Seq<char>),
    Char(char),
    Int(Seq<char>),
    Float(Seq<char>),
    Bool(bool),
    Other,
}

impl View for LiteralValue {
    type V = LiteralValueView;

    open spec fn view(&self) -> LiteralValueView {
        match self {
            LiteralValue::Str(text) => LiteralValueView::Str(text@),
            LiteralValue::Char(c) => LiteralValueView::Char(*c),
            LiteralValue::Int(digits) => LiteralValueView::Int(digits@),
            LiteralValue::Float(text) => LiteralValueView::Float(text@),
            LiteralValue::Bool(b) => LiteralValueView::Bool(*b),
            LiteralValue::Other => LiteralValueView::Other,
        }
    }
}

/// What `syn` reads from the source text of a literal: `None` where the text
/// is not one literal.
pub uninterp spec fn literal_value(source: Seq<char>) -> Option<LiteralValueView>;

/// Parses `source` as a `syn::Lit` with `syn::parse_str` and hands out what
/// the literal holds: `LitStr::value` of a string, `LitChar::value` of a
/// character, `LitInt::base10_digits` of an integer, the `Display` text of a
/// `LitFloat`, `LitBool::value` of a boolean. The contract only gives the
/// result its name.
#[verifier::external_body]
fn parse_literal(source: &str) -> (value: Option<LiteralValue>)
    ensures
        match value {
            Some(v) => literal_value(source@) == Some(v@),
            None => literal_value(source@) is None,
        },
{
    match syn::parse_str::<syn::Lit>(source) {
        Ok(syn::Lit::Str(s)) => Some(LiteralValue::Str(s.value())),
        Ok(syn::Lit::Char(c)) => Some(LiteralValue::Char(c.value())),
        Ok(syn::Lit::Int(i)) => Some(LiteralValue::Int(i.base10_digits().to_string())),
        Ok(syn::Lit::Float(f)) => Some(LiteralValue::Float(f.to_string())),
        Ok(syn::Lit::Bool(b)) => Some(LiteralValue::Bool(b.value())),
        Ok(_) => Some(LiteralValue::Other),
        Err(_) => None,
    }
}

/// `String::push` appends one character.
pub assume_specification[ String::push ](s: &mut String, c: char)
    ensures
        final(s)@ == old(s)@.push(c),
;

/// The text `true`.
pub open spec fn text_true() -> Seq<char> {
    seq!['t', 'r', 'u', 'e']
}

/// The text `false`.
pub open spec fn text_false() -> Seq<char> {
    seq!['f', 'a', 'l', 's', 'e']
}

/// The canonical text of a literal: a string's content, a character as a
/// one-character text, an integer's decimal digits, a float as written, a
/// boolean as `true` or `false`. Literals of other kinds have none.
pub open spec fn canonical_text(value: LiteralValueView) -> Option<Seq<char>> {
    match value {
        LiteralValueView::Str(text) => Some(text),
        LiteralValueView::Char(c) => Some(seq![c]),
        LiteralValueView::Int(digits) => Some(digits),
        LiteralValueView::Float(text) => Some(text),
        LiteralValueView::Bool(b) => Some(
            if b {
                text_true()
            } else {
                text_false()
            },
        ),
        LiteralValueView::Other => None,
    }
}

/// The text that the literal written as `source` stands for, if it is a
/// literal of a supported kind.
pub open spec fn decoded(source: Seq<char>) -> Option<Seq<char>> {
    match literal_value(source) {
        Some(value) => canonical_text(value),
        None => None,
    }
}

/// The canonical text of a literal, or `None` for a literal without one.
pub fn literal_text(value: LiteralValue) -> (text: Option<String>)
    ensures
        match text {
            Some(t) => canonical_text(value@) == Some(t@),
            None => canonical_text(value@) is None,
        },
{
    match value {
        LiteralValue::Str(text) => Some(text),
        LiteralValue::Char(c) => {
            let mut text = String::new();
            text.push(c);
            assert(text@ =~= seq![c]);
            Some(text)
        },
        LiteralValue::Int(digits) => Some(digits),
        LiteralValue::Float(text) => Some(text),
        LiteralValue::Bool(b) => {
            proof {
                reveal_strlit("true");
                reveal_strlit("false");
            }
            let text = if b {
                "true".to_owned()
            } else {
                "false".to_owned()
            };
            assert(text@ =~= if b { text_true() } else { text_false() });
            Some(text)
        },
        LiteralValue::Other => None,
    }
}

/// Decodes the source text of a literal token into the text it stands for:
/// `None` where the text is no literal or a literal of an unsupported kind.
pub fn decode_literal(source: &str) -> (text: Option<String>)
    ensures
        match text {
            Some(t) => decoded(source@) == Some(t@),
            None => decoded(source@) is None,
        },
{
    match parse_literal(source) {
        Some(value) => literal_text(value),
        None => None,
    }
}

} // verus!
