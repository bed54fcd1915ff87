//! What holds of the grammar, the renderer and the escaping together.

use vstd::prelude::*;
use crate::document::{AttributeValueView, AttributeView, ElementView, NodeView};
use crate::grammar::{
    attribute_at, attribute_value_at, attributes_at, child_at, children_at, close_tag_at,
    element_at, element_body_at, element_close_at, element_end_at, ident_at, template,
    template_at, text_at, token_at, Child, Children, Failure,
};
use crate::literal::{decoded, literal_value, LiteralValueView};
use crate::render::{
    assembled, closing, evaluations, opening, rendered, rendered_attribute, rendered_attributes,
    rendered_attributes_to, rendered_children, rendered_children_to, EscapeContext, OutputOpView,
};
use crate::token::{Delimiter, TokenView};
use crate::utils::{escaped, lemma_escaped_is_safe, lemma_escaped_plain, needs_escape};

verus! {

/// The tokens of an element with one attribute and no children:
/// `<tag name=value></tag>`, where `value` is one token.
pub open spec fn one_attribute_tokens(tag: Seq<char>, name: Seq<char>, value: TokenView) -> Seq<
    TokenView,
> {
    seq![
        TokenView::Punct('<'),
        TokenView::Ident(tag),
        TokenView::Ident(name),
        TokenView::Punct('='),
        value,
        TokenView::Punct('>'),
        TokenView::Punct('<'),
        TokenView::Punct('/'),
        TokenView::Ident(tag),
        TokenView::Punct('>'),
    ]
}

/// An element with one attribute and no children.
pub open spec fn one_attribute_element(
    tag: Seq<char>,
    name: Seq<char>,
    value: AttributeValueView,
) -> NodeView {
    NodeView::Element(
        ElementView {
            tag,
            attributes: seq![AttributeView { name, value }],
            children: Seq::empty(),
        },
    )
}

/// The text `<tag name="value"></tag>`.
pub open spec fn one_attribute_text(tag: Seq<char>, name: Seq<char>, value: Seq<char>) -> Seq<
    char,
> {
    opening(tag) + seq![' '] + name + seq!['=', '"'] + value + seq!['"'] + seq!['>'] + closing(
        tag,
    )
}

/// The output of operations is the output of a first part followed by the
/// output of the rest, each with its own values.
pub proof fn lemma_assembled_concat(
    first: Seq<OutputOpView>,
    rest: Seq<OutputOpView>,
    first_values: Seq<Seq<char>>,
    rest_values: Seq<Seq<char>>,
)
    requires
        rest_values.len() == evaluations(rest),
    ensures
        evaluations(first + rest) == evaluations(first) + evaluations(rest),
        assembled(first + rest, first_values + rest_values) == assembled(first, first_values)
            + assembled(rest, rest_values),
    decreases rest.len(),
{
    if rest.len() == 0 {
        assert(first + rest =~= first);
        assert(first_values + rest_values =~= first_values);
        assert(assembled(first, first_values) + assembled(rest, rest_values) =~= assembled(
            first,
            first_values,
        ));
    } else {
        assert((first + rest).drop_last() =~= first + rest.drop_last());
        assert((first + rest).last() == rest.last());
        match rest.last() {
            OutputOpView::Literal(text) => {
                lemma_assembled_concat(first, rest.drop_last(), first_values, rest_values);
                assert(assembled(first + rest, first_values + rest_values) =~= assembled(
                    first,
                    first_values,
                ) + assembled(rest, rest_values));
            },
            OutputOpView::Evaluate(_, context) => {
                assert((first_values + rest_values).drop_last() =~= first_values
                    + rest_values.drop_last());
                assert((first_values + rest_values).last() == rest_values.last());
                lemma_assembled_concat(
                    first,
                    rest.drop_last(),
                    first_values,
                    rest_values.drop_last(),
                );
                assert(assembled(first + rest, first_values + rest_values) =~= assembled(
                    first,
                    first_values,
                ) + assembled(rest, rest_values));
            },
        }
    }
}

/// One literal operation puts out its text.
pub proof fn lemma_assembled_literal(text: Seq<char>)
    ensures
        evaluations(seq![OutputOpView::Literal(text)]) == 0,
        assembled(seq![OutputOpView::Literal(text)], Seq::empty()) == text,
{
    let operations = seq![OutputOpView::Literal(text)];
    assert(operations.drop_last() =~= Seq::empty());
    assert(evaluations(operations.drop_last()) == 0);
    assert(assembled(operations.drop_last(), Seq::empty()) =~= Seq::empty());
    assert(assembled(operations, Seq::empty()) =~= text);
}

/// One evaluation puts out the escaped text of its value.
pub proof fn lemma_assembled_evaluation(
    tokens: Seq<TokenView>,
    context: EscapeContext,
    value: Seq<char>,
)
    ensures
        evaluations(seq![OutputOpView::Evaluate(tokens, context)]) == 1,
        assembled(seq![OutputOpView::Evaluate(tokens, context)], seq![value]) == escaped(value),
{
    let operations = seq![OutputOpView::Evaluate(tokens, context)];
    assert(operations.drop_last() =~= Seq::empty());
    assert(evaluations(operations.drop_last()) == 0);
    assert(seq![value].drop_last() =~= Seq::<Seq<char>>::empty());
    assert(assembled(operations.drop_last(), seq![value].drop_last()) =~= Seq::empty());
    assert(assembled(operations, seq![value]) =~= escaped(value));
}

/// Children are rendered in the order in which they stand: the operations
/// of a sequence of children are those of a first part followed by those of
/// the rest.
pub proof fn law_children_render_in_order(first: Seq<NodeView>, rest: Seq<NodeView>)
    ensures
        rendered_children(first + rest) == rendered_children(first) + rendered_children(rest),
{
    lemma_rendered_children_prefix(first + rest, first, first.len() as int);
    lemma_rendered_children_concat(first, rest, rest.len() as int);
}

/// The first `count` children are rendered alike in two sequences that
/// agree on them.
pub proof fn lemma_rendered_children_prefix(a: Seq<NodeView>, b: Seq<NodeView>, count: int)
    requires
        0 <= count <= a.len(),
        count <= b.len(),
        forall|i: int| 0 <= i < count ==> a[i] == b[i],
    ensures
        rendered_children_to(a, count) == rendered_children_to(b, count),
    decreases count,
{
    if count > 0 {
        lemma_rendered_children_prefix(a, b, count - 1);
    }
}

/// The first children of a concatenation, up to `count` of the second
/// part.
pub proof fn lemma_rendered_children_concat(first: Seq<NodeView>, rest: Seq<NodeView>, count: int)
    requires
        0 <= count <= rest.len(),
    ensures
        rendered_children_to(first + rest, first.len() + count) == rendered_children_to(
            first + rest,
            first.len() as int,
        ) + rendered_children_to(rest, count),
    decreases count,
{
    if count > 0 {
        lemma_rendered_children_concat(first, rest, count - 1);
        assert((first + rest)[first.len() + count - 1] == rest[count - 1]);
        assert(rendered_children_to(first + rest, first.len() + count) =~= rendered_children_to(
            first + rest,
            first.len() as int,
        ) + rendered_children_to(rest, count));
    } else {
        assert(rendered_children_to(first + rest, first.len() as int) + rendered_children_to(
            rest,
            0,
        ) =~= rendered_children_to(first + rest, first.len() as int));
    }
}

/// The operations of an element with one attribute and no children: its
/// opening, the attribute, `>` and its closing tag.
pub proof fn lemma_one_attribute_rendered(tag: Seq<char>, name: Seq<char>, value: AttributeValueView)
    ensures
        rendered(one_attribute_element(tag, name, value)) == seq![
            OutputOpView::Literal(opening(tag)),
        ] + rendered_attribute(AttributeView { name, value }) + seq![
            OutputOpView::Literal(seq!['>']),
            OutputOpView::Literal(closing(tag)),
        ],
{
    let attribute = AttributeView { name, value };
    let attributes = seq![attribute];
    assert(rendered_attributes_to(attributes, 0) =~= Seq::empty());
    assert(rendered_attributes(attributes) =~= rendered_attribute(attribute));
    assert(rendered_children_to(Seq::<NodeView>::empty(), 0) =~= Seq::empty());
    assert(rendered(one_attribute_element(tag, name, value)) =~= seq![
        OutputOpView::Literal(opening(tag)),
    ] + rendered_attribute(attribute) + seq![
        OutputOpView::Literal(seq!['>']),
        OutputOpView::Literal(closing(tag)),
    ]);
}

/// The tokens `<tag name=value></tag>` are the element `tag` with the one
/// attribute `name`, whatever the one token `value` stands for as an
/// attribute value.
pub proof fn lemma_one_attribute_template(
    tag: Seq<char>,
    name: Seq<char>,
    token: TokenView,
    value: AttributeValueView,
)
    requires
        attribute_value_at(seq![token], 0) == Ok::<(AttributeValueView, int), Failure>(
            (value, 1),
        ),
    ensures
        template(one_attribute_tokens(tag, name, token)) == Ok::<NodeView, Failure>(
            one_attribute_element(tag, name, value),
        ),
{
    let tokens = one_attribute_tokens(tag, name, token);
    assert(token_at(seq![token], 0) == Some(token));
    assert(token_at(tokens, 4) == Some(token));
    assert(attribute_value_at(tokens, 4) == Ok::<(AttributeValueView, int), Failure>((value, 5)));
    let attribute = AttributeView { name, value };
    assert(attribute_at(tokens, 2) == Ok::<(Option<AttributeView>, int), Failure>(
        (Some(attribute), 5),
    ));
    assert(attribute_at(tokens, 5) == Ok::<(Option<AttributeView>, int), Failure>((None, 5)));
    assert(attributes_at(tokens, 5) == Ok::<(Seq<AttributeView>, int), Failure>(
        (Seq::empty(), 5),
    ));
    assert(seq![attribute] + Seq::<AttributeView>::empty() =~= seq![attribute]);
    assert(attributes_at(tokens, 2) == Ok::<(Seq<AttributeView>, int), Failure>(
        (seq![attribute], 5),
    ));
    assert(text_at(tokens, 6) == Ok::<Option<Seq<char>>, Failure>(None));
    assert(close_tag_at(tokens, 8) == Ok::<(Seq<char>, int), Failure>((tag, 10)));
    assert(child_at(tokens, 6) == Child::ClosingTag(tag, 10));
    assert(children_at(tokens, 6) == Ok::<Children, Failure>(
        Children { nodes: Seq::empty(), closing_name: tag, closing_position: 6, end: 10 },
    ));
    let open = ElementView { tag, attributes: seq![attribute], children: Seq::empty() };
    assert(open.children + Seq::<NodeView>::empty() =~= Seq::empty());
    assert(element_end_at(tokens, 6, open) == Ok::<(ElementView, int), Failure>((open, 10)));
    assert(element_close_at(tokens, 5, open) == Ok::<(ElementView, int), Failure>((open, 10)));
    assert(ident_at(tokens, 1) == Some(tag));
    assert(element_body_at(tokens, 1) == Ok::<(ElementView, int), Failure>((open, 10)));
    assert(text_at(tokens, 0) == Ok::<Option<Seq<char>>, Failure>(None));
    assert(element_at(tokens, 0) == Ok::<(Option<ElementView>, int), Failure>((Some(open), 10)));
    assert(template_at(tokens, 0) == Ok::<(NodeView, int), Failure>(
        (NodeView::Element(open), 10),
    ));
}

/// The output of an element with one attribute whose value is a literal:
/// `<tag name="..."></tag>` with the escaped value between the quotes.
pub proof fn lemma_literal_attribute_output(tag: Seq<char>, name: Seq<char>, value: Seq<char>)
    ensures
        evaluations(
            rendered(one_attribute_element(tag, name, AttributeValueView::Literal(value))),
        ) == 0,
        assembled(
            rendered(one_attribute_element(tag, name, AttributeValueView::Literal(value))),
            Seq::empty(),
        ) == one_attribute_text(tag, name, escaped(value)),
{
    let none = Seq::<Seq<char>>::empty();
    let open = seq![OutputOpView::Literal(opening(tag))];
    let text = seq![' '] + name + seq!['=', '"'] + escaped(value) + seq!['"'];
    let attribute = seq![OutputOpView::Literal(text)];
    let close = seq![OutputOpView::Literal(seq!['>'])];
    let end = seq![OutputOpView::Literal(closing(tag))];
    lemma_one_attribute_rendered(tag, name, AttributeValueView::Literal(value));
    assert(rendered(one_attribute_element(tag, name, AttributeValueView::Literal(value)))
        =~= open + attribute + close + end);
    lemma_assembled_literal(opening(tag));
    lemma_assembled_literal(text);
    lemma_assembled_literal(seq!['>']);
    lemma_assembled_literal(closing(tag));
    assert(none + none =~= none);
    lemma_assembled_concat(open, attribute, none, none);
    lemma_assembled_concat(open + attribute, close, none, none);
    lemma_assembled_concat(open + attribute + close, end, none, none);
    assert(opening(tag) + text + seq!['>'] + closing(tag) =~= one_attribute_text(
        tag,
        name,
        escaped(value),
    ));
}

/// The output of an element with one attribute whose value is an
/// expression that evaluated to `value`: `<tag name="..."></tag>` with the
/// escaped value between the quotes.
pub proof fn lemma_expression_attribute_output(
    tag: Seq<char>,
    name: Seq<char>,
    expression: Seq<TokenView>,
    value: Seq<char>,
)
    ensures
        evaluations(
            rendered(one_attribute_element(tag, name, AttributeValueView::Expression(expression))),
        ) == 1,
        assembled(
            rendered(one_attribute_element(tag, name, AttributeValueView::Expression(expression))),
            seq![value],
        ) == one_attribute_text(tag, name, escaped(value)),
{
    let none = Seq::<Seq<char>>::empty();
    let one = seq![value];
    let open = seq![OutputOpView::Literal(opening(tag))];
    let text = seq![' '] + name + seq!['=', '"'];
    let before = seq![OutputOpView::Literal(text)];
    let evaluate = seq![OutputOpView::Evaluate(expression, EscapeContext::AttributeValue)];
    let after = seq![OutputOpView::Literal(seq!['"'])];
    let close = seq![OutputOpView::Literal(seq!['>'])];
    let end = seq![OutputOpView::Literal(closing(tag))];
    lemma_one_attribute_rendered(tag, name, AttributeValueView::Expression(expression));
    assert(rendered(one_attribute_element(tag, name, AttributeValueView::Expression(expression)))
        =~= open + before + evaluate + after + close + end);
    lemma_assembled_literal(opening(tag));
    lemma_assembled_literal(text);
    lemma_assembled_evaluation(expression, EscapeContext::AttributeValue, value);
    lemma_assembled_literal(seq!['"']);
    lemma_assembled_literal(seq!['>']);
    lemma_assembled_literal(closing(tag));
    assert(none + none =~= none);
    assert(none + one =~= one);
    assert(one + none =~= one);
    lemma_assembled_concat(open, before, none, none);
    lemma_assembled_concat(open + before, evaluate, none, one);
    lemma_assembled_concat(open + before + evaluate, after, one, none);
    lemma_assembled_concat(open + before + evaluate + after, close, one, none);
    lemma_assembled_concat(open + before + evaluate + after + close, end, one, none);
    assert(opening(tag) + text + escaped(value) + seq!['"'] + seq!['>'] + closing(tag)
        =~= one_attribute_text(tag, name, escaped(value)));
}

/// A string literal attribute comes out as it went in: where the literal
/// `source` denotes the string `value` and `value` holds none of `&`, `<`,
/// `>` and `"`, the template `<tag name=source></tag>` is a document whose
/// output is `<tag name="value"></tag>`.
pub proof fn law_literal_attribute_round_trip(
    tag: Seq<char>,
    name: Seq<char>,
    source: Seq<char>,
    value: Seq<char>,
)
    requires
        literal_value(source) == Some(LiteralValueView::Str(value)),
        forall|i: int| 0 <= i < value.len() ==> !needs_escape(#[trigger] value[i]),
    ensures
        template(one_attribute_tokens(tag, name, TokenView::Literal(source))) matches Ok(node)
            && assembled(rendered(node), Seq::empty()) == one_attribute_text(tag, name, value),
{
    lemma_one_attribute_template(
        tag,
        name,
        TokenView::Literal(source),
        AttributeValueView::Literal(value),
    );
    lemma_literal_attribute_output(tag, name, value);
    lemma_escaped_plain(value);
}

/// Literals with the same canonical text are the same attribute value: an
/// integer literal `12` and a string literal `"12"` give the same document.
pub proof fn law_literal_kinds_agree(
    tag: Seq<char>,
    name: Seq<char>,
    source: Seq<char>,
    other: Seq<char>,
)
    requires
        decoded(source) is Some,
        decoded(source) == decoded(other),
    ensures
        template(one_attribute_tokens(tag, name, TokenView::Literal(source))) is Ok,
        template(one_attribute_tokens(tag, name, TokenView::Literal(source))) == template(
            one_attribute_tokens(tag, name, TokenView::Literal(other)),
        ),
{
    let value = AttributeValueView::Literal(decoded(source)->0);
    lemma_one_attribute_template(tag, name, TokenView::Literal(source), value);
    lemma_one_attribute_template(tag, name, TokenView::Literal(other), value);
}

/// An integer literal is the same attribute value as the string literal
/// of its decimal digits: `name=12` and `name="12"` are the same document,
/// whose output holds the digits between the quotes.
pub proof fn law_integer_literal_is_as_its_digits(
    tag: Seq<char>,
    name: Seq<char>,
    integer: Seq<char>,
    string: Seq<char>,
    digits: Seq<char>,
)
    requires
        literal_value(integer) == Some(LiteralValueView::Int(digits)),
        literal_value(string) == Some(LiteralValueView::Str(digits)),
    ensures
        template(one_attribute_tokens(tag, name, TokenView::Literal(integer))) == template(
            one_attribute_tokens(tag, name, TokenView::Literal(string)),
        ),
        template(one_attribute_tokens(tag, name, TokenView::Literal(integer))) matches Ok(node)
            && assembled(rendered(node), Seq::empty()) == one_attribute_text(
            tag,
            name,
            escaped(digits),
        ),
{
    law_literal_kinds_agree(tag, name, integer, string);
    lemma_one_attribute_template(
        tag,
        name,
        TokenView::Literal(integer),
        AttributeValueView::Literal(digits),
    );
    lemma_literal_attribute_output(tag, name, digits);
}

/// An expression may be written as a bare identifier, in parentheses or in
/// braces: `name=x`, `name=(x)` and `name={x}` are the same document.
pub proof fn law_expression_forms_agree(tag: Seq<char>, name: Seq<char>, x: Seq<char>)
    ensures
        template(one_attribute_tokens(tag, name, TokenView::Ident(x))) == Ok::<
            NodeView,
            Failure,
        >(
            one_attribute_element(
                tag,
                name,
                AttributeValueView::Expression(seq![TokenView::Ident(x)]),
            ),
        ),
        template(
            one_attribute_tokens(
                tag,
                name,
                TokenView::Group(Delimiter::Parenthesis, seq![TokenView::Ident(x)]),
            ),
        ) == template(one_attribute_tokens(tag, name, TokenView::Ident(x))),
        template(
            one_attribute_tokens(
                tag,
                name,
                TokenView::Group(Delimiter::Brace, seq![TokenView::Ident(x)]),
            ),
        ) == template(one_attribute_tokens(tag, name, TokenView::Ident(x))),
{
    let value = AttributeValueView::Expression(seq![TokenView::Ident(x)]);
    lemma_one_attribute_template(tag, name, TokenView::Ident(x), value);
    lemma_one_attribute_template(
        tag,
        name,
        TokenView::Group(Delimiter::Parenthesis, seq![TokenView::Ident(x)]),
        value,
    );
    lemma_one_attribute_template(
        tag,
        name,
        TokenView::Group(Delimiter::Brace, seq![TokenView::Ident(x)]),
        value,
    );
}

/// Parentheses and braces are the same to the parser: the same tokens in
/// either give the same document, whose value is escaped after the
/// expression was evaluated.
pub proof fn law_group_forms_agree(
    tag: Seq<char>,
    name: Seq<char>,
    inner: Seq<TokenView>,
    value: Seq<char>,
)
    ensures
        template(
            one_attribute_tokens(tag, name, TokenView::Group(Delimiter::Parenthesis, inner)),
        ) == template(one_attribute_tokens(tag, name, TokenView::Group(Delimiter::Brace, inner))),
        template(
            one_attribute_tokens(tag, name, TokenView::Group(Delimiter::Brace, inner)),
        ) matches Ok(node) && assembled(rendered(node), seq![value]) == one_attribute_text(
            tag,
            name,
            escaped(value),
        ),
{
    let expression = AttributeValueView::Expression(inner);
    lemma_one_attribute_template(
        tag,
        name,
        TokenView::Group(Delimiter::Parenthesis, inner),
        expression,
    );
    lemma_one_attribute_template(
        tag,
        name,
        TokenView::Group(Delimiter::Brace, inner),
        expression,
    );
    lemma_expression_attribute_output(tag, name, inner, value);
}

/// A value is escaped alike whether it is known when the template is
/// parsed or when its expression is evaluated: both outputs are
/// `<tag name="..."></tag>` with the escaped value between the quotes,
/// which holds no `"`, `<` or `>`.
pub proof fn law_escaping_is_uniform(
    tag: Seq<char>,
    name: Seq<char>,
    expression: Seq<TokenView>,
    value: Seq<char>,
)
    ensures
        assembled(
            rendered(one_attribute_element(tag, name, AttributeValueView::Literal(value))),
            Seq::empty(),
        ) == assembled(
            rendered(one_attribute_element(tag, name, AttributeValueView::Expression(expression))),
            seq![value],
        ),
        assembled(
            rendered(one_attribute_element(tag, name, AttributeValueView::Literal(value))),
            Seq::empty(),
        ) == one_attribute_text(tag, name, escaped(value)),
        forall|i: int|
            0 <= i < escaped(value).len() ==> {
                let c = #[trigger] escaped(value)[i];
                c != '"' && c != '<' && c != '>'
            },
{
    lemma_literal_attribute_output(tag, name, value);
    lemma_expression_attribute_output(tag, name, expression, value);
    lemma_escaped_is_safe(value);
}

/// A closing tag that names another tag than the one that was opened is a
/// failure: `<tag></other>` is no template.
pub proof fn law_mismatched_closing_tag_fails(tag: Seq<char>, other: Seq<char>)
    requires
        tag != other,
    ensures
        template(
            seq![
                TokenView::Punct('<'),
                TokenView::Ident(tag),
                TokenView::Punct('>'),
                TokenView::Punct('<'),
                TokenView::Punct('/'),
                TokenView::Ident(other),
                TokenView::Punct('>'),
            ],
        ) == Err::<NodeView, Failure>(
            Failure::MismatchedClosingTag { expected: tag, found: other, position: 3 },
        ),
{
    let tokens = seq![
        TokenView::Punct('<'),
        TokenView::Ident(tag),
        TokenView::Punct('>'),
        TokenView::Punct('<'),
        TokenView::Punct('/'),
        TokenView::Ident(other),
        TokenView::Punct('>'),
    ];
    assert(attribute_at(tokens, 2) == Ok::<(Option<AttributeView>, int), Failure>((None, 2)));
    assert(attributes_at(tokens, 2) == Ok::<(Seq<AttributeView>, int), Failure>(
        (Seq::empty(), 2),
    ));
    assert(text_at(tokens, 3) == Ok::<Option<Seq<char>>, Failure>(None));
    assert(close_tag_at(tokens, 5) == Ok::<(Seq<char>, int), Failure>((other, 7)));
    assert(child_at(tokens, 3) == Child::ClosingTag(other, 7));
    assert(children_at(tokens, 3) == Ok::<Children, Failure>(
        Children { nodes: Seq::empty(), closing_name: other, closing_position: 3, end: 7 },
    ));
    let open = ElementView { tag, attributes: Seq::empty(), children: Seq::empty() };
    let failure = Failure::MismatchedClosingTag { expected: tag, found: other, position: 3 };
    assert(element_end_at(tokens, 3, open) == Err::<(ElementView, int), Failure>(failure));
    assert(element_close_at(tokens, 2, open) == Err::<(ElementView, int), Failure>(failure));
    assert(ident_at(tokens, 1) == Some(tag));
    assert(element_body_at(tokens, 1) == Err::<(ElementView, int), Failure>(failure));
    assert(text_at(tokens, 0) == Ok::<Option<Seq<char>>, Failure>(None));
    assert(element_at(tokens, 0) == Err::<(Option<ElementView>, int), Failure>(failure));
    assert(template_at(tokens, 0) == Err::<(NodeView, int), Failure>(failure));
}

/// An attribute without a value is kept as its bare name: `<tag name>`
/// closed by `</tag>` and `<tag name/>` are the element `tag` with the
/// empty attribute `name`, which is rendered as one space and the name,
/// with no `=` and no value, so that the output is `<tag name></tag>`.
pub proof fn law_empty_attribute_is_its_name(tag: Seq<char>, name: Seq<char>)
    ensures
        template(
            seq![
                TokenView::Punct('<'),
                TokenView::Ident(tag),
                TokenView::Ident(name),
                TokenView::Punct('>'),
                TokenView::Punct('<'),
                TokenView::Punct('/'),
                TokenView::Ident(tag),
                TokenView::Punct('>'),
            ],
        ) == Ok::<NodeView, Failure>(
            one_attribute_element(tag, name, AttributeValueView::Empty),
        ),
        template(
            seq![
                TokenView::Punct('<'),
                TokenView::Ident(tag),
                TokenView::Ident(name),
                TokenView::Punct('/'),
                TokenView::Punct('>'),
            ],
        ) == Ok::<NodeView, Failure>(
            one_attribute_element(tag, name, AttributeValueView::Empty),
        ),
        rendered_attribute(AttributeView { name, value: AttributeValueView::Empty }) == seq![
            OutputOpView::Literal(seq![' '] + name),
        ],
        assembled(
            rendered(one_attribute_element(tag, name, AttributeValueView::Empty)),
            Seq::empty(),
        ) == opening(tag) + seq![' '] + name + seq!['>'] + closing(tag),
{
    let attribute = AttributeView { name, value: AttributeValueView::Empty };
    let open = ElementView { tag, attributes: seq![attribute], children: Seq::empty() };
    assert(seq![attribute] + Seq::<AttributeView>::empty() =~= seq![attribute]);
    assert(open.children + Seq::<NodeView>::empty() =~= Seq::empty());
    {
        let tokens = seq![
            TokenView::Punct('<'),
            TokenView::Ident(tag),
            TokenView::Ident(name),
            TokenView::Punct('>'),
            TokenView::Punct('<'),
            TokenView::Punct('/'),
            TokenView::Ident(tag),
            TokenView::Punct('>'),
        ];
        assert(attribute_at(tokens, 2) == Ok::<(Option<AttributeView>, int), Failure>(
            (Some(attribute), 3),
        ));
        assert(attribute_at(tokens, 3) == Ok::<(Option<AttributeView>, int), Failure>((None, 3)));
        assert(attributes_at(tokens, 3) == Ok::<(Seq<AttributeView>, int), Failure>(
            (Seq::empty(), 3),
        ));
        assert(attributes_at(tokens, 2) == Ok::<(Seq<AttributeView>, int), Failure>(
            (seq![attribute], 3),
        ));
        assert(text_at(tokens, 4) == Ok::<Option<Seq<char>>, Failure>(None));
        assert(close_tag_at(tokens, 6) == Ok::<(Seq<char>, int), Failure>((tag, 8)));
        assert(child_at(tokens, 4) == Child::ClosingTag(tag, 8));
        assert(children_at(tokens, 4) == Ok::<Children, Failure>(
            Children { nodes: Seq::empty(), closing_name: tag, closing_position: 4, end: 8 },
        ));
        assert(element_end_at(tokens, 4, open) == Ok::<(ElementView, int), Failure>((open, 8)));
        assert(element_close_at(tokens, 3, open) == Ok::<(ElementView, int), Failure>((open, 8)));
        assert(ident_at(tokens, 1) == Some(tag));
        assert(element_body_at(tokens, 1) == Ok::<(ElementView, int), Failure>((open, 8)));
        assert(text_at(tokens, 0) == Ok::<Option<Seq<char>>, Failure>(None));
        assert(element_at(tokens, 0) == Ok::<(Option<ElementView>, int), Failure>(
            (Some(open), 8),
        ));
        assert(template_at(tokens, 0) == Ok::<(NodeView, int), Failure>(
            (NodeView::Element(open), 8),
        ));
    }
    {
        let tokens = seq![
            TokenView::Punct('<'),
            TokenView::Ident(tag),
            TokenView::Ident(name),
            TokenView::Punct('/'),
            TokenView::Punct('>'),
        ];
        assert(attribute_at(tokens, 2) == Ok::<(Option<AttributeView>, int), Failure>(
            (Some(attribute), 3),
        ));
        assert(attribute_at(tokens, 3) == Ok::<(Option<AttributeView>, int), Failure>((None, 3)));
        assert(attributes_at(tokens, 3) == Ok::<(Seq<AttributeView>, int), Failure>(
            (Seq::empty(), 3),
        ));
        assert(attributes_at(tokens, 2) == Ok::<(Seq<AttributeView>, int), Failure>(
            (seq![attribute], 3),
        ));
        assert(element_close_at(tokens, 3, open) == Ok::<(ElementView, int), Failure>((open, 5)));
        assert(ident_at(tokens, 1) == Some(tag));
        assert(element_body_at(tokens, 1) == Ok::<(ElementView, int), Failure>((open, 5)));
        assert(text_at(tokens, 0) == Ok::<Option<Seq<char>>, Failure>(None));
        assert(element_at(tokens, 0) == Ok::<(Option<ElementView>, int), Failure>(
            (Some(open), 5),
        ));
        assert(template_at(tokens, 0) == Ok::<(NodeView, int), Failure>(
            (NodeView::Element(open), 5),
        ));
    }
    let none = Seq::<Seq<char>>::empty();
    let start = seq![OutputOpView::Literal(opening(tag))];
    let named = seq![OutputOpView::Literal(seq![' '] + name)];
    let close = seq![OutputOpView::Literal(seq!['>'])];
    let end = seq![OutputOpView::Literal(closing(tag))];
    lemma_one_attribute_rendered(tag, name, AttributeValueView::Empty);
    assert(rendered(one_attribute_element(tag, name, AttributeValueView::Empty)) =~= start
        + named + close + end);
    lemma_assembled_literal(opening(tag));
    lemma_assembled_literal(seq![' '] + name);
    lemma_assembled_literal(seq!['>']);
    lemma_assembled_literal(closing(tag));
    assert(none + none =~= none);
    lemma_assembled_concat(start, named, none, none);
    lemma_assembled_concat(start + named, close, none, none);
    lemma_assembled_concat(start + named + close, end, none, none);
    assert(opening(tag) + (seq![' '] + name) + seq!['>'] + closing(tag) =~= opening(tag)
        + seq![' '] + name + seq!['>'] + closing(tag));
}

} // verus!
