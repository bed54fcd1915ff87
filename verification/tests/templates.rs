use htmi::document::{Attribute, AttributeValue, Element, Node};
use htmi::parser::element::ElementError;
use htmi::parser::Parser;
use htmi::render::{assemble, EscapeContext, OutputOp, Render};
use htmi::token::{Delimiter, Token};

fn delimiter(d: proc_macro2::Delimiter) -> Delimiter {
    match d {
        proc_macro2::Delimiter::Parenthesis => Delimiter::Parenthesis,
        proc_macro2::Delimiter::Brace => Delimiter::Brace,
        proc_macro2::Delimiter::Bracket => Delimiter::Bracket,
        proc_macro2::Delimiter::None => Delimiter::Invisible,
    }
}

fn convert(stream: proc_macro2::TokenStream) -> Vec<Token> {
    stream
        .into_iter()
        .map(|tree| match tree {
            proc_macro2::TokenTree::Ident(ident) => Token::Ident(ident.to_string()),
            proc_macro2::TokenTree::Literal(literal) => Token::Literal(literal.to_string()),
            proc_macro2::TokenTree::Punct(punct) => Token::Punct(punct.as_char()),
            proc_macro2::TokenTree::Group(group) => {
                Token::Group(delimiter(group.delimiter()), convert(group.stream()))
            }
        })
        .collect()
}

fn tokens(source: &str) -> Vec<Token> {
    convert(source.parse::<proc_macro2::TokenStream>().unwrap())
}

fn output(source: &str, values: &[&str]) -> String {
    let operations = htmi::render(tokens(source)).unwrap();
    let values: Vec<String> = values.iter().map(|v| v.to_string()).collect();
    assemble(&operations, &values).unwrap()
}

fn literal(text: &str) -> OutputOp {
    OutputOp::Literal(text.to_string())
}

#[test]
fn lib_simple() {
    assert_eq!(
        &output(r#"<div hello="world"></div>"#, &[]),
        r#"<div hello="world"></div>"#
    );

    // non-string
    assert_eq!(
        &output(r#"<div hello=12></div>"#, &[]),
        r#"<div hello="12"></div>"#
    );
}

#[test]
fn lib_expression_attribute() {
    let world = "world";
    assert_eq!(
        output("<div hello=world></div>", &[world]),
        r#"<div hello="world"></div>"#
    );
    assert_eq!(
        output("<div hello=(world)></div>", &[world]),
        r#"<div hello="world"></div>"#
    );
    assert_eq!(
        output("<div hello={world}></div>", &[world]),
        r#"<div hello="world"></div>"#
    );
    assert_eq!(
        output("<div hello=(1+2)></div>", &[&(1 + 2).to_string()]),
        r#"<div hello="3"></div>"#
    );
    assert_eq!(
        output("<div hello={1+2}></div>", &[&(1 + 2).to_string()]),
        r#"<div hello="3"></div>"#
    );
    assert_eq!(
        output(
            "<div hello={let a = 12; a + 1}></div>",
            &[&{
                let a = 12;
                a + 1
            }
            .to_string()]
        ),
        r#"<div hello="13"></div>"#
    );
}

#[test]
fn simple() {
    let a = output(r#"<div hello="world"></div>"#, &[]);
    assert_eq!(&a, r#"<div hello="world"></div>"#);
}

#[test]
fn expression_attribute() {
    let world = "world";
    let a = output("<div hello=(world)></div>", &[world]);
    assert_eq!(a, r#"<div hello="world"></div>"#);
}

#[test]
fn literal_attribute_gives_one_operation_with_the_escaped_value() {
    let operations = htmi::render(tokens(r#"<a title="x"></a>"#)).unwrap();
    assert_eq!(
        operations,
        vec![
            literal("<a"),
            literal(" title=\"x\""),
            literal(">"),
            literal("</a>"),
        ]
    );
}

#[test]
fn expression_attribute_gives_three_operations() {
    let operations = htmi::render(tokens("<a title=(x + 1)></a>")).unwrap();
    assert_eq!(
        operations,
        vec![
            literal("<a"),
            literal(" title=\""),
            OutputOp::Evaluate(tokens("x + 1"), EscapeContext::AttributeValue),
            literal("\""),
            literal(">"),
            literal("</a>"),
        ]
    );
}

#[test]
fn the_three_expression_forms_give_the_same_operations() {
    let bare = htmi::render(tokens("<div hello=world></div>")).unwrap();
    let parenthesized = htmi::render(tokens("<div hello=(world)></div>")).unwrap();
    let braced = htmi::render(tokens("<div hello={world}></div>")).unwrap();
    assert_eq!(bare, parenthesized);
    assert_eq!(bare, braced);
}

#[test]
fn literal_and_expression_values_are_escaped_alike() {
    let value = "a \"quoted\" & <tagged> value";
    let from_literal = output(&format!("<div hello={:?}></div>", value), &[]);
    let from_expression = output("<div hello=(value)></div>", &[value]);
    assert_eq!(from_literal, from_expression);
    assert_eq!(
        from_literal,
        "<div hello=\"a &quot;quoted&quot; &amp; &lt;tagged&gt; value\"></div>"
    );
}

#[test]
fn mismatched_closing_tag_fails() {
    assert_eq!(
        htmi::render(tokens("<div></span>")),
        Err(ElementError::MismatchedClosingTag {
            expected: "div".to_string(),
            found: "span".to_string(),
            position: 3,
        })
    );
    assert_eq!(
        Parser::parse(tokens("<div></span>")),
        Err(ElementError::MismatchedClosingTag {
            expected: "div".to_string(),
            found: "span".to_string(),
            position: 3,
        })
    );
}

#[test]
fn fragment_closed_by_a_name_fails() {
    assert_eq!(
        Parser::parse(tokens("<></div>")),
        Err(ElementError::MismatchedClosingTag {
            expected: String::new(),
            found: "div".to_string(),
            position: 2,
        })
    );
}

#[test]
fn element_closed_as_a_fragment_fails() {
    assert_eq!(
        Parser::parse(tokens("<div></>")),
        Err(ElementError::MismatchedClosingTag {
            expected: "div".to_string(),
            found: String::new(),
            position: 3,
        })
    );
}

#[test]
fn empty_attribute() {
    assert_eq!(
        output("<input disabled></input>", &[]),
        "<input disabled></input>"
    );
    assert_eq!(
        htmi::render(tokens("<input disabled></input>")).unwrap(),
        vec![
            literal("<input"),
            literal(" disabled"),
            literal(">"),
            literal("</input>"),
        ]
    );
}

#[test]
fn self_closing_element_renders_with_a_closing_tag() {
    assert_eq!(
        Parser::parse(tokens("<input disabled/>")),
        Ok(Node::Element(Element {
            tag: "input".to_string(),
            attributes: vec![Attribute::empty("disabled".to_string())],
            children: vec![],
        }))
    );
    assert_eq!(output("<input disabled/>", &[]), "<input disabled></input>");
    assert_eq!(output("<br/>", &[]), "<br></br>");
}

#[test]
fn empty_attribute_before_another_attribute() {
    assert_eq!(
        output(r#"<input disabled name="n" checked/>"#, &[]),
        r#"<input disabled name="n" checked></input>"#
    );
}

#[test]
fn nesting_and_ordering() {
    assert_eq!(
        output(r#"<div><span>"a"</span><span>"b"</span></div>"#, &[]),
        "<div><span>a</span><span>b</span></div>"
    );
}

#[test]
fn nested_elements_parse_into_a_tree() {
    let span = |text: &str| {
        Node::Element(Element {
            tag: "span".to_string(),
            attributes: vec![],
            children: vec![Node::Text(text.to_string())],
        })
    };
    assert_eq!(
        Parser::parse(tokens(r#"<div><span>"a"</span>"mid"<span>"b"</span></div>"#)),
        Ok(Node::Element(Element {
            tag: "div".to_string(),
            attributes: vec![],
            children: vec![span("a"), Node::Text("mid".to_string()), span("b")],
        }))
    );
}

#[test]
fn bare_text_root() {
    assert_eq!(
        Parser::parse(tokens(r#""just text""#)),
        Ok(Node::Text("just text".to_string()))
    );
    assert_eq!(output(r#""just text""#, &[]), "just text");
}

#[test]
fn fragment_renders_with_empty_tags() {
    assert_eq!(
        Parser::parse(tokens(r#"<>"a"<b></b></>"#)),
        Ok(Node::Element(Element {
            tag: String::new(),
            attributes: vec![],
            children: vec![
                Node::Text("a".to_string()),
                Node::Element(Element::new("b".to_string())),
            ],
        }))
    );
    assert_eq!(output(r#"<>"a"<b></b></>"#, &[]), "<>a<b></b></>");
}

#[test]
fn attribute_values_of_each_kind() {
    let parsed = Parser::parse(tokens(
        r#"<a s="x\"y" c='c' i=0x10 f=1.5 b=true e=name g=(1 + 2) h={x}></a>"#,
    ))
    .unwrap();
    let attribute = |name: &str, value: AttributeValue| Attribute::new(name.to_string(), value);
    let text = |value: &str| AttributeValue::Literal(value.to_string());
    assert_eq!(
        parsed,
        Node::Element(Element {
            tag: "a".to_string(),
            attributes: vec![
                attribute("s", text("x\"y")),
                attribute("c", text("c")),
                attribute("i", text("16")),
                attribute("f", text("1.5")),
                attribute("b", AttributeValue::Expression(tokens("true"))),
                attribute("e", AttributeValue::Expression(tokens("name"))),
                attribute("g", AttributeValue::Expression(tokens("1 + 2"))),
                attribute("h", AttributeValue::Expression(tokens("x"))),
            ],
            children: vec![],
        })
    );
}

#[test]
fn unexpected_token_errors() {
    let unexpected = |position: usize| Err(ElementError::UnexpectedToken { position });
    // nothing at all
    assert_eq!(Parser::parse(tokens("")), unexpected(0));
    // neither a literal nor `<`
    assert_eq!(Parser::parse(tokens("div")), unexpected(0));
    // neither a tag name nor `>` after `<`
    assert_eq!(Parser::parse(tokens("< = >")), unexpected(1));
    // the input ends inside the element
    assert_eq!(Parser::parse(tokens("<div>")), unexpected(3));
    assert_eq!(Parser::parse(tokens("<div")), unexpected(2));
    // a token that cannot follow an attribute name
    assert_eq!(Parser::parse(tokens("<div a ; ></div>")), unexpected(3));
    // a token that cannot start an attribute
    assert_eq!(Parser::parse(tokens("<div \"a\"></div>")), unexpected(2));
    // `/` without `>`
    assert_eq!(Parser::parse(tokens("<div / div>")), unexpected(3));
    // an identifier where a child is looked for
    assert_eq!(Parser::parse(tokens("<div>a</div>")), unexpected(3));
    // a closing tag without `>`
    assert_eq!(Parser::parse(tokens("<div></div")), unexpected(6));
    assert_eq!(Parser::parse(tokens("<div></ =>")), unexpected(5));
    // something after the template
    assert_eq!(Parser::parse(tokens("<div></div><p></p>")), unexpected(7));
    assert_eq!(Parser::parse(tokens("\"a\" \"b\"")), unexpected(1));
}

#[test]
fn invalid_attribute_value_errors() {
    let invalid = |position: usize| Err(ElementError::InvalidAttributeValue { position });
    assert_eq!(Parser::parse(tokens("<div a=[1]></div>")), invalid(4));
    assert_eq!(Parser::parse(tokens("<div a=></div>")), invalid(4));
    assert_eq!(Parser::parse(tokens("<div a=")), invalid(4));
}

#[test]
fn unsupported_literal_kind_errors() {
    let unsupported = |position: usize| Err(ElementError::UnsupportedLiteralKind { position });
    assert_eq!(Parser::parse(tokens("<div a=b\"bytes\"></div>")), unsupported(4));
    assert_eq!(Parser::parse(tokens("<div>b'x'</div>")), unsupported(3));
    assert_eq!(Parser::parse(tokens("b\"bytes\"")), unsupported(0));
    assert_eq!(
        Parser::parse(vec![Token::Literal("not a literal".to_string())]),
        unsupported(0)
    );
}

#[test]
fn render_into_appends_to_the_target() {
    let node = Parser::parse(tokens("<p></p>")).unwrap();
    let mut target = vec![literal("before")];
    node.render_into(&mut target);
    assert_eq!(
        target,
        vec![literal("before"), literal("<p"), literal(">"), literal("</p>")]
    );
}

#[test]
fn assemble_needs_one_value_for_each_evaluation() {
    let operations = htmi::render(tokens("<a x=(1) y=(2)></a>")).unwrap();
    assert_eq!(assemble(&operations, &vec![]), None);
    assert_eq!(assemble(&operations, &vec!["1".to_string()]), None);
    assert_eq!(
        assemble(&operations, &vec!["1".to_string(), "<2>".to_string()]),
        Some("<a x=\"1\" y=\"&lt;2&gt;\"></a>".to_string())
    );
    assert_eq!(
        assemble(
            &operations,
            &vec!["1".to_string(), "2".to_string(), "3".to_string()]
        ),
        None
    );
}

#[test]
fn string_attribute_without_special_characters_comes_out_as_written() {
    for (tag, name, value) in [("div", "hello", "world"), ("a", "href", "/x/y?z=1"), ("p", "title", "")] {
        let written = format!("<{} {}=\"{}\"></{}>", tag, name, value, tag);
        assert_eq!(output(&written, &[]), written);
    }
}

#[test]
fn string_attribute_with_an_ampersand_is_escaped() {
    assert_eq!(output(r#"<a title="a&b"></a>"#, &[]), r#"<a title="a&amp;b"></a>"#);
}

#[test]
fn expression_values_are_escaped_after_evaluation() {
    assert_eq!(
        output("<a title=(quote)></a>", &["\"&\""]),
        r#"<a title="&quot;&amp;&quot;"></a>"#
    );
}

#[test]
fn escape_for_the_attribute_value_context() {
    assert_eq!(
        htmi::render::escape_for(EscapeContext::AttributeValue, "<&>"),
        "&lt;&amp;&gt;"
    );
}

#[test]
fn render_element_and_attribute_append_their_operations() {
    let element = Element {
        tag: "a".to_string(),
        attributes: vec![Attribute::empty("x".to_string())],
        children: vec![Node::Text("t".to_string())],
    };
    let mut target = Vec::new();
    htmi::render::render_attribute(&element.attributes[0], &mut target);
    assert_eq!(target, vec![literal(" x")]);
    let mut target = Vec::new();
    htmi::render::render_element(&element, &mut target);
    assert_eq!(
        target,
        vec![literal("<a"), literal(" x"), literal(">"), literal("t"), literal("</a>")]
    );
    let mut target = Vec::new();
    htmi::render::render_node(&Node::Text("t".to_string()), &mut target);
    assert_eq!(target, vec![literal("t")]);
    assert_eq!(
        htmi::render::render_operations(Node::Element(element)),
        vec![literal("<a"), literal(" x"), literal(">"), literal("t"), literal("</a>")]
    );
}

#[test]
fn deeply_nested_elements() {
    assert_eq!(
        output(r#"<a><b><c><d x=1/></c>"t"</b><e/></a>"#, &[]),
        r#"<a><b><c><d x="1"></d></c>t</b><e></e></a>"#
    );
}
