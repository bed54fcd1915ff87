use htmi::document::{Attribute, AttributeValue, Element, Node};
use htmi::literal::{decode_literal, literal_text, LiteralValue};
use htmi::parser::attributes::{AttributeError, AttributeErrorKind};
use htmi::parser::children::ChildError;
use htmi::parser::element::{CloseTagError, ElementError};
use htmi::parser::Parser;
use htmi::token::{clone_tokens, Delimiter, Token};
use htmi::utils::escape_attribute_value;

fn ident(name: &str) -> Token {
    Token::Ident(name.to_string())
}

fn lit(source: &str) -> Token {
    Token::Literal(source.to_string())
}

fn punct(c: char) -> Token {
    Token::Punct(c)
}

#[test]
fn escape_replaces_the_four_special_characters() {
    assert_eq!(escape_attribute_value("a&b<c>d\"e"), "a&amp;b&lt;c&gt;d&quot;e");
}

#[test]
fn escape_keeps_other_text() {
    assert_eq!(escape_attribute_value("hello world's é/="), "hello world's é/=");
    assert_eq!(escape_attribute_value(""), "");
}

#[test]
fn decode_literal_of_each_kind() {
    assert_eq!(decode_literal("\"a\\nb\""), Some("a\nb".to_string()));
    assert_eq!(decode_literal("r#\"raw \"text\"\"#"), Some("raw \"text\"".to_string()));
    assert_eq!(decode_literal("'x'"), Some("x".to_string()));
    assert_eq!(decode_literal("12"), Some("12".to_string()));
    assert_eq!(decode_literal("1_000u32"), Some("1000".to_string()));
    assert_eq!(decode_literal("0xff"), Some("255".to_string()));
    assert_eq!(decode_literal("2.50"), Some("2.50".to_string()));
    assert_eq!(decode_literal("true"), Some("true".to_string()));
    assert_eq!(decode_literal("false"), Some("false".to_string()));
    assert_eq!(decode_literal("b'x'"), None);
    assert_eq!(decode_literal("b\"bytes\""), None);
    assert_eq!(decode_literal("name"), None);
    assert_eq!(decode_literal("1 2"), None);
    assert_eq!(decode_literal(""), None);
}

#[test]
fn literal_text_of_each_kind() {
    assert_eq!(literal_text(LiteralValue::Str("s".to_string())), Some("s".to_string()));
    assert_eq!(literal_text(LiteralValue::Char('c')), Some("c".to_string()));
    assert_eq!(literal_text(LiteralValue::Int("7".to_string())), Some("7".to_string()));
    assert_eq!(literal_text(LiteralValue::Float("1e3".to_string())), Some("1e3".to_string()));
    assert_eq!(literal_text(LiteralValue::Bool(true)), Some("true".to_string()));
    assert_eq!(literal_text(LiteralValue::Bool(false)), Some("false".to_string()));
    assert_eq!(literal_text(LiteralValue::Other), None);
}

#[test]
fn clone_tokens_copies_nested_groups() {
    let nested = vec![
        ident("a"),
        Token::Group(Delimiter::Bracket, vec![lit("1"), Token::Group(Delimiter::Brace, vec![])]),
        punct('+'),
    ];
    assert_eq!(clone_tokens(&nested), nested);
    assert_eq!(nested[1].clone(), nested[1]);
}

#[test]
fn try_text_reads_a_literal_only() {
    let mut parser = Parser::new(vec![lit("\"a\""), ident("b")]);
    assert_eq!(parser.try_text(), Ok(Some("a".to_string())));
    assert_eq!(parser.offset(), 1);
    assert_eq!(parser.try_text(), Ok(None));
    assert_eq!(parser.offset(), 1);
}

#[test]
fn try_tag_name_reads_an_identifier_only() {
    let mut parser = Parser::new(vec![ident("div"), punct('>')]);
    assert_eq!(parser.try_tag_name(), Some("div".to_string()));
    assert_eq!(parser.offset(), 1);
    assert_eq!(parser.try_tag_name(), None);
    assert_eq!(parser.offset(), 1);
}

#[test]
fn try_close_tag_reads_a_name_or_the_end_of_a_fragment() {
    let mut parser = Parser::new(vec![ident("div"), punct('>'), punct('>'), ident("x"), ident("y")]);
    assert_eq!(parser.try_close_tag(), Ok("div".to_string()));
    assert_eq!(parser.offset(), 2);
    assert_eq!(parser.try_close_tag(), Ok(String::new()));
    assert_eq!(parser.offset(), 3);
    assert_eq!(
        parser.try_close_tag(),
        Err(CloseTagError::UnexpectedToken { position: 4 })
    );
    let mut parser = Parser::new(vec![punct('=')]);
    assert_eq!(
        parser.try_close_tag(),
        Err(CloseTagError::UnexpectedToken { position: 0 })
    );
}

#[test]
fn try_attribute_leaves_the_lookahead_unread() {
    let mut parser = Parser::new(vec![ident("a"), ident("b"), punct('/'), punct('>')]);
    assert_eq!(parser.try_attribute(), Ok(Some(Attribute::empty("a".to_string()))));
    assert_eq!(parser.offset(), 1);
    assert_eq!(parser.try_attribute(), Ok(Some(Attribute::empty("b".to_string()))));
    assert_eq!(parser.offset(), 2);
    assert_eq!(parser.try_attribute(), Ok(None));
    assert_eq!(parser.offset(), 2);
}

#[test]
fn try_attribute_reads_a_value_after_the_equals_sign() {
    let mut parser = Parser::new(vec![ident("a"), punct('='), lit("3"), punct('>')]);
    assert_eq!(
        parser.try_attribute(),
        Ok(Some(Attribute::new(
            "a".to_string(),
            AttributeValue::Literal("3".to_string())
        )))
    );
    assert_eq!(parser.offset(), 3);
}

#[test]
fn try_attribute_errors() {
    let error = |kind, position| Err(AttributeError { kind, position });
    let mut parser = Parser::new(vec![lit("1")]);
    assert_eq!(parser.try_attribute(), error(AttributeErrorKind::UnexpectedToken, 0));
    let mut parser = Parser::new(vec![ident("a"), punct('<')]);
    assert_eq!(parser.try_attribute(), error(AttributeErrorKind::UnexpectedToken, 1));
    let mut parser = Parser::new(vec![ident("a")]);
    assert_eq!(parser.try_attribute(), error(AttributeErrorKind::UnexpectedToken, 1));
    let mut parser = Parser::new(vec![ident("a"), punct('='), punct('=')]);
    assert_eq!(parser.try_attribute(), error(AttributeErrorKind::InvalidAttributeValue, 2));
    let mut parser = Parser::new(vec![ident("a"), punct('='), lit("b'x'")]);
    assert_eq!(parser.try_attribute(), error(AttributeErrorKind::UnsupportedLiteralKind, 2));
}

#[test]
fn try_attribute_value_takes_groups_in_parentheses_and_braces() {
    let inner = vec![lit("1"), punct('+'), lit("2")];
    for delimiter in [Delimiter::Parenthesis, Delimiter::Brace] {
        let mut parser = Parser::new(vec![Token::Group(delimiter, clone_tokens(&inner))]);
        assert_eq!(
            parser.try_attribute_value(),
            Ok(AttributeValue::Expression(clone_tokens(&inner)))
        );
        assert_eq!(parser.offset(), 1);
    }
    for delimiter in [Delimiter::Bracket, Delimiter::Invisible] {
        let mut parser = Parser::new(vec![Token::Group(delimiter, clone_tokens(&inner))]);
        assert_eq!(
            parser.try_attribute_value(),
            Err(AttributeError { kind: AttributeErrorKind::InvalidAttributeValue, position: 0 })
        );
        assert_eq!(parser.offset(), 0);
    }
}

#[test]
fn attribute_error_becomes_the_element_error_of_its_kind() {
    let error = |kind| AttributeError { kind, position: 5 };
    assert_eq!(
        error(AttributeErrorKind::UnexpectedToken).into_element_error(),
        ElementError::UnexpectedToken { position: 5 }
    );
    assert_eq!(
        error(AttributeErrorKind::InvalidAttributeValue).into_element_error(),
        ElementError::InvalidAttributeValue { position: 5 }
    );
    assert_eq!(
        error(AttributeErrorKind::UnsupportedLiteralKind).into_element_error(),
        ElementError::UnsupportedLiteralKind { position: 5 }
    );
    assert_eq!(
        CloseTagError::UnexpectedToken { position: 2 }.into_element_error(),
        ElementError::UnexpectedToken { position: 2 }
    );
}

#[test]
fn try_child_reads_text_elements_and_closing_tags() {
    let mut parser = Parser::new(vec![
        lit("\"t\""),
        punct('<'),
        ident("b"),
        punct('/'),
        punct('>'),
        punct('<'),
        punct('/'),
        ident("div"),
        punct('>'),
    ]);
    assert_eq!(parser.try_child(), Ok(Node::Text("t".to_string())));
    assert_eq!(parser.try_child(), Ok(Node::Element(Element::new("b".to_string()))));
    assert_eq!(parser.offset(), 5);
    assert_eq!(parser.try_child(), Err(ChildError::ClosingTag("div".to_string())));
    assert_eq!(parser.offset(), 9);
    assert_eq!(
        parser.try_child(),
        Err(ChildError::Failed(ElementError::UnexpectedToken { position: 9 }))
    );
}

#[test]
fn try_element_reads_nothing_where_no_element_starts() {
    let mut parser = Parser::new(vec![ident("div")]);
    assert_eq!(parser.try_element(), Ok(None));
    assert_eq!(parser.offset(), 0);
}

#[test]
fn end_current_element_completes_the_open_element() {
    let mut parser = Parser::new(vec![
        punct('>'),
        lit("\"x\""),
        punct('<'),
        punct('/'),
        ident("p"),
        punct('>'),
    ]);
    parser.open_element(Element::new("p".to_string()));
    assert_eq!(
        parser.end_current_element(),
        Ok(Element {
            tag: "p".to_string(),
            attributes: vec![],
            children: vec![Node::Text("x".to_string())],
        })
    );
    assert_eq!(parser.offset(), 6);

    let mut parser = Parser::new(vec![punct('/'), punct('>'), ident("rest")]);
    parser.open_element(Element::new("p".to_string()));
    assert_eq!(parser.end_current_element(), Ok(Element::new("p".to_string())));
    assert_eq!(parser.offset(), 2);
}

#[test]
fn end_fragment_reads_up_to_the_empty_closing_tag() {
    let mut parser = Parser::new(vec![lit("1"), punct('<'), punct('/'), punct('>')]);
    parser.open_element(Element::fragment());
    assert_eq!(
        parser.end_fragment(),
        Ok(Element {
            tag: String::new(),
            attributes: vec![],
            children: vec![Node::Text("1".to_string())],
        })
    );
    assert_eq!(parser.offset(), 4);
}

#[test]
fn start_reads_one_template_and_leaves_the_rest() {
    let mut parser = Parser::new(vec![
        punct('<'),
        ident("a"),
        punct('/'),
        punct('>'),
        lit("\"next\""),
    ]);
    assert_eq!(parser.start(), Ok(Node::Element(Element::new("a".to_string()))));
    assert_eq!(parser.offset(), 4);
    assert_eq!(parser.start(), Ok(Node::Text("next".to_string())));
    assert_eq!(parser.offset(), 5);
}

#[test]
fn constructors() {
    assert_eq!(
        Attribute::new("a".to_string(), AttributeValue::Empty),
        Attribute::empty("a".to_string())
    );
    assert_eq!(Element::fragment(), Element::new(String::new()));
    assert_eq!(
        Element::new("div".to_string()),
        Element { tag: "div".to_string(), attributes: vec![], children: vec![] }
    );
}
