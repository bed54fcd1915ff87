//! The renderer: from a document tree to the ordered operations that
//! produce its text, and from the operations to the text.

use vstd::prelude::*;
use vstd::string::StringExecFns;
use crate::document::{
    Attribute, AttributeValue, AttributeValueView, AttributeView, Element, Node, NodeView,
};
use crate::token::{clone_tokens, tokens_view, Token, TokenView};
use crate::utils::{escape_attribute_value, escaped};

verus! {

/// Where in the output an evaluated expression is placed, which decides how
/// it is escaped.
#[derive(Clone, Copy, Debug, PartialEq, Eq, Structural)]
pub enum EscapeContext {
    /// Inside a double-quoted attribute value.
    AttributeValue,
}

/// One step of producing the output.
#[derive(Debug, PartialEq, Eq)]
pub enum OutputOp {
    /// Append this text as it is.
    Literal(String),
    /// Evaluate the expression written with these tokens, escape its text
    /// for the context and append it.
    Evaluate(Vec<Token>, EscapeContext),
}

/// The mathematical value of an [`OutputOp`].
pub enum OutputOpView {
    Literal(Seq<char>),
    Evaluate(Seq<TokenView>, EscapeContext),
}

impl View for OutputOp {
    type V = OutputOpView;

    open spec fn view(&self) -> OutputOpView {
        match self {
            OutputOp::Literal(text) => OutputOpView::Literal(text@),
            OutputOp::Evaluate(tokens, context) => OutputOpView::Evaluate(
                tokens_view(tokens@),
                *context,
            ),
        }
    }
}

/// The values of a sequence of operations, in order.
pub open spec fn operations_view(operations: Seq<OutputOp>) -> Seq<OutputOpView> {
    Seq::new(operations.len(), |i: int| operations[i]@)
}

/// The values of a sequence of texts, in order.
pub open spec fn texts_view(texts: Seq<String>) -> Seq<Seq<char>> {
    Seq::new(texts.len(), |i: int| texts[i]@)
}

/// The operations that render one attribute: a space and the name; for a
/// literal value also `="`, the escaped value and `"` in the same text; for
/// an expression the text up to the opening quote, the evaluation, and the
/// closing quote.
pub open spec fn rendered_attribute(attribute: AttributeView) -> Seq<OutputOpView> {
    match attribute.value {
        AttributeValueView::Empty => seq![OutputOpView::Literal(seq![' '] + attribute.name)],
        AttributeValueView::Literal(value) => seq![
            OutputOpView::Literal(
                seq![' '] + attribute.name + seq!['=', '"'] + escaped(value) + seq!['"'],
            ),
        ],
        AttributeValueView::Expression(tokens) => seq![
            OutputOpView::Literal(seq![' '] + attribute.name + seq!['=', '"']),
            OutputOpView::Evaluate(tokens, EscapeContext::AttributeValue),
            OutputOpView::Literal(seq!['"']),
        ],
    }
}

/// The operations that render the first `count` of the attributes, in
/// order.
pub open spec fn rendered_attributes_to(attributes: Seq<AttributeView>, count: int) -> Seq<
    OutputOpView,
>
    decreases count,
{
    if 0 < count <= attributes.len() {
        rendered_attributes_to(attributes, count - 1) + rendered_attribute(attributes[count - 1])
    } else {
        Seq::empty()
    }
}

/// The operations that render the attributes, in order.
pub open spec fn rendered_attributes(attributes: Seq<AttributeView>) -> Seq<OutputOpView> {
    rendered_attributes_to(attributes, attributes.len() as int)
}

/// The text that opens an element: `<` and the tag name.
pub open spec fn opening(tag: Seq<char>) -> Seq<char> {
    seq!['<'] + tag
}

/// The text that closes an element: `</`, the tag name and `>`.
pub open spec fn closing(tag: Seq<char>) -> Seq<char> {
    seq!['<', '/'] + tag + seq!['>']
}

/// The operations that render a node, in the order of the output: a text
/// as itself; an element as `<` and its tag, its attributes, `>`, its
/// children, and its closing tag. A fragment, whose tag is empty, is
/// rendered like any element: as `<>`, its children and `</>`. Whether a
/// fragment should rather leave no trace of itself around its children is
/// an open question.
pub open spec fn rendered(node: NodeView) -> Seq<OutputOpView>
    decreases node, 0int,
{
    match node {
        NodeView::Text(text) => seq![OutputOpView::Literal(text)],
        NodeView::Element(element) => seq![OutputOpView::Literal(opening(element.tag))]
            + rendered_attributes(element.attributes) + seq![OutputOpView::Literal(seq!['>'])]
            + rendered_children_to(element.children, element.children.len() as int)
            + seq![OutputOpView::Literal(closing(element.tag))],
    }
}

/// The operations that render the first `count` of the children, in order.
pub open spec fn rendered_children_to(children: Seq<NodeView>, count: int) -> Seq<OutputOpView>
    decreases children, count,
{
    if 0 < count <= children.len() {
        rendered_children_to(children, count - 1) + rendered(children[count - 1])
    } else {
        Seq::empty()
    }
}

/// The operations that render the children, in order.
pub open spec fn rendered_children(children: Seq<NodeView>) -> Seq<OutputOpView> {
    rendered_children_to(children, children.len() as int)
}

/// How many of the operations are evaluations.
pub open spec fn evaluations(operations: Seq<OutputOpView>) -> nat
    decreases operations.len(),
{
    if operations.len() == 0 {
        0
    } else {
        evaluations(operations.drop_last()) + if operations.last() is Evaluate {
            1nat
        } else {
            0nat
        }
    }
}

/// The text that `value` becomes in the given context.
pub open spec fn escaped_for(context: EscapeContext, value: Seq<char>) -> Seq<char> {
    match context {
        EscapeContext::AttributeValue => escaped(value),
    }
}

/// The output of the operations, where `values` holds for each evaluation,
/// in order, the text that its expression evaluated to: the texts of the
/// literals and the escaped values, concatenated in order.
pub open spec fn assembled(operations: Seq<OutputOpView>, values: Seq<Seq<char>>) -> Seq<char>
    decreases operations.len(),
{
    if operations.len() == 0 {
        Seq::empty()
    } else {
        match operations.last() {
            OutputOpView::Literal(text) => assembled(operations.drop_last(), values) + text,
            OutputOpView::Evaluate(_, context) => assembled(
                operations.drop_last(),
                values.drop_last(),
            ) + escaped_for(context, values.last()),
        }
    }
}

/// Appending an operation appends its value.
pub proof fn lemma_operations_view_push(operations: Seq<OutputOp>, operation: OutputOp)
    ensures
        operations_view(operations.push(operation)) == operations_view(operations).push(
            operation@,
        ),
{
    assert(operations_view(operations.push(operation)) =~= operations_view(operations).push(
        operation@,
    ));
}

/// What can be rendered into a list of output operations.
pub trait Render {
    /// The operations that render this value.
    spec fn operations(&self) -> Seq<OutputOpView>;

    /// Appends to `target` the operations that render this value.
    fn render_into(self, target: &mut Vec<OutputOp>)
        ensures
            operations_view(final(target)@) == operations_view(old(target)@) + self.operations(),
    ;
}

impl Render for Node {
    open spec fn operations(&self) -> Seq<OutputOpView> {
        rendered(self@)
    }

    fn render_into(self, target: &mut Vec<OutputOp>) {
        render_node(&self, target)
    }
}

/// Appends one literal operation to `target`.
fn push_literal(target: &mut Vec<OutputOp>, text: String)
    ensures
        operations_view(final(target)@) == operations_view(old(target)@).push(
            OutputOpView::Literal(text@),
        ),
{
    proof {
        lemma_operations_view_push(target@, OutputOp::Literal(text));
    }
    target.push(OutputOp::Literal(text));
}

/// Appends to `target` the operations that render one attribute.
pub fn render_attribute(attribute: &Attribute, target: &mut Vec<OutputOp>)
    ensures
        operations_view(final(target)@) == operations_view(old(target)@) + rendered_attribute(
            attribute@,
        ),
{
    proof {
        reveal_strlit(" ");
        reveal_strlit("=\"");
        reveal_strlit("\"");
    }
    let ghost before = operations_view(target@);
    let mut text = " ".to_owned();
    text.append(attribute.name.as_str());
    assert(text@ =~= seq![' '] + attribute@.name);
    match &attribute.value {
        AttributeValue::Empty => {
            push_literal(target, text);
            assert(operations_view(target@) =~= before + rendered_attribute(attribute@));
        },
        AttributeValue::Literal(value) => {
            text.append("=\"");
            let value_text = escape_attribute_value(value.as_str());
            text.append(value_text.as_str());
            text.append("\"");
            assert(text@ =~= seq![' '] + attribute@.name + seq!['=', '"'] + escaped(value@)
                + seq!['"']);
            push_literal(target, text);
            assert(operations_view(target@) =~= before + rendered_attribute(attribute@));
        },
        AttributeValue::Expression(tokens) => {
            text.append("=\"");
            assert(text@ =~= seq![' '] + attribute@.name + seq!['=', '"']);
            push_literal(target, text);
            let evaluate = OutputOp::Evaluate(clone_tokens(tokens), EscapeContext::AttributeValue);
            proof {
                lemma_operations_view_push(target@, evaluate);
            }
            target.push(evaluate);
            let quote = "\"".to_owned();
            assert(quote@ =~= seq!['"']);
            push_literal(target, quote);
            assert(operations_view(target@) =~= before + rendered_attribute(attribute@));
        },
    }
}

/// Appends to `target` the operations that render `node`.
pub fn render_node(node: &Node, target: &mut Vec<OutputOp>)
    ensures
        operations_view(final(target)@) == operations_view(old(target)@) + rendered(node@),
    decreases node,
{
    let ghost before = operations_view(target@);
    match node {
        Node::Text(text) => {
            push_literal(target, text.clone());
            assert(operations_view(target@) =~= before + rendered(node@));
        },
        Node::Element(element) => {
            render_element(element, target);
        },
    }
}

/// Appends to `target` the operations that render `element`: its opening,
/// its attributes, `>`, its children and its closing tag.
pub fn render_element(element: &Element, target: &mut Vec<OutputOp>)
    ensures
        operations_view(final(target)@) == operations_view(old(target)@) + rendered(
            NodeView::Element(element@),
        ),
    decreases element,
{
    proof {
        reveal_strlit("<");
        reveal_strlit(">");
        reveal_strlit("</");
    }
    let ghost before = operations_view(target@);
    let ghost view = element@;
    let mut open = "<".to_owned();
    open.append(element.tag.as_str());
    assert(open@ =~= opening(view.tag));
    push_literal(target, open);
    let ghost opened = before.push(OutputOpView::Literal(opening(view.tag)));
    let mut i: usize = 0;
    while i < element.attributes.len()
        invariant
            i <= element.attributes.len(),
            view == element@,
            operations_view(target@) == opened + rendered_attributes_to(view.attributes, i as int),
        decreases element.attributes.len() - i,
    {
        render_attribute(&element.attributes[i], target);
        i = i + 1;
        assert(operations_view(target@) =~= opened + rendered_attributes_to(
            view.attributes,
            i as int,
        ));
    }
    let close = ">".to_owned();
    assert(close@ =~= seq!['>']);
    push_literal(target, close);
    let ghost tagged = opened + rendered_attributes(view.attributes) + seq![
        OutputOpView::Literal(seq!['>']),
    ];
    assert(operations_view(target@) =~= tagged);
    let mut j: usize = 0;
    while j < element.children.len()
        invariant
            j <= element.children.len(),
            view == element@,
            operations_view(target@) == tagged + rendered_children_to(view.children, j as int),
        decreases element.children.len() - j,
    {
        render_node(&element.children[j], target);
        j = j + 1;
        assert(operations_view(target@) =~= tagged + rendered_children_to(
            view.children,
            j as int,
        ));
    }
    let mut end = "</".to_owned();
    end.append(element.tag.as_str());
    end.append(">");
    assert(end@ =~= closing(view.tag));
    push_literal(target, end);
    assert(operations_view(target@) =~= before + rendered(NodeView::Element(view)));
}

/// The operations that render `node`, in the order of the output.
pub fn render_operations(node: Node) -> (operations: Vec<OutputOp>)
    ensures
        operations_view(operations@) == rendered(node@),
{
    let mut operations: Vec<OutputOp> = Vec::new();
    node.render_into(&mut operations);
    assert(operations_view(operations@) =~= rendered(node@));
    operations
}

/// Escapes `value` for the place where it is put in the output.
pub fn escape_for(context: EscapeContext, value: &str) -> (text: String)
    ensures
        text@ == escaped_for(context, value@),
{
    match context {
        EscapeContext::AttributeValue => escape_attribute_value(value),
    }
}

/// Puts the output together: the texts of the literal operations and, for
/// each evaluation, the escaped text of the next of `values`, which hold
/// what the expressions evaluated to, in order. `None` where `values` are
/// not as many as the evaluations.
pub fn assemble(operations: &Vec<OutputOp>, values: &Vec<String>) -> (result: Option<String>)
    ensures
        match result {
            Some(text) => {
                &&& values@.len() == evaluations(operations_view(operations@))
                &&& text@ == assembled(operations_view(operations@), texts_view(values@))
            },
            None => values@.len() != evaluations(operations_view(operations@)),
        },
{
    let ghost ops = operations_view(operations@);
    let ghost vals = texts_view(values@);
    let mut text = String::new();
    let mut used: usize = 0;
    let mut i: usize = 0;
    while i < operations.len()
        invariant
            i <= operations.len(),
            used <= values.len(),
            ops == operations_view(operations@),
            vals == texts_view(values@),
            used == evaluations(ops.take(i as int)),
            text@ == assembled(ops.take(i as int), vals.take(used as int)),
        decreases operations.len() - i,
    {
        proof {
            assert(ops.take(i + 1).drop_last() =~= ops.take(i as int));
            assert(ops.take(i + 1).last() == ops[i as int]);
        }
        match &operations[i] {
            OutputOp::Literal(literal) => {
                text.append(literal.as_str());
            },
            OutputOp::Evaluate(_, context) => {
                if used >= values.len() {
                    proof {
                        lemma_evaluations_take(ops, i + 1);
                    }
                    return None;
                }
                let value = escape_for(*context, values[used].as_str());
                text.append(value.as_str());
                proof {
                    assert(vals.take(used + 1).drop_last() =~= vals.take(used as int));
                    assert(vals.take(used + 1).last() == vals[used as int]);
                }
                used = used + 1;
            },
        }
        i = i + 1;
    }
    proof {
        assert(ops.take(i as int) =~= ops);
    }
    if used == values.len() {
        proof {
            assert(vals.take(used as int) =~= vals);
        }
        Some(text)
    } else {
        None
    }
}

/// A prefix of the operations holds no more evaluations than all of them.
pub proof fn lemma_evaluations_take(operations: Seq<OutputOpView>, count: int)
    requires
        0 <= count <= operations.len(),
    ensures
        evaluations(operations.take(count)) <= evaluations(operations),
    decreases operations.len(),
{
    if count == operations.len() {
        assert(operations.take(count) =~= operations);
    } else {
        assert(operations.drop_last().take(count) =~= operations.take(count));
        lemma_evaluations_take(operations.drop_last(), count);
    }
}

} // verus!
