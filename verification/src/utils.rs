//! Escaping of text that is placed inside a double-quoted attribute value.

use vstd::prelude::*;

verus! {

/// What stands for `c` inside a double-quoted attribute value: an entity for
/// `&`, `<`, `>` and `"`, the character itself otherwise.
pub open spec fn escaped_char(c: char) -> Seq<char> {
    if c == '&' {
        seq!['&', 'a', 'm', 'p', ';']
    } else if c == '<' {
        seq!['&', 'l', 't', ';']
    } else if c == '>' {
        seq!['&', 'g', 't', ';']
    } else if c == '"' {
        seq!['&', 'q', 'u', 'o', 't', ';']
    } else {
        seq![c]
    }
}

/// The text with each character replaced by what stands for it.
pub open spec fn escaped(text: Seq<char>) -> Seq<char>
    decreases text.len(),
{
    if text.len() == 0 {
        Seq::empty()
    } else {
        escaped(text.drop_last()) + escaped_char(text.last())
    }
}

/// Whether `c` is one of the characters that escaping replaces.
pub open spec fn needs_escape(c: char) -> bool {
    c == '&' || c == '<' || c == '>' || c == '"'
}

/// Calls `html_escape::encode_double_quoted_attribute` and takes ownership of
/// the result. That function replaces every `&` by `&amp;`, `<` by `&lt;`,
/// `>` by `&gt;` and `"` by `&quot;` and copies all other text unchanged; it
/// works on the UTF-8 bytes, where these four ASCII characters occur only as
/// themselves, so the same holds character by character.
#[verifier::external_body]
fn encode_double_quoted_attribute(text: &str) -> (encoded: String)
    ensures
        encoded@ == escaped(text@),
{
    html_escape::encode_double_quoted_attribute(text).into_owned()
}

/// Escapes text for use inside a double-quoted attribute value.
pub fn escape_attribute_value(text: &str) -> (result: String)
    ensures
        result@ == escaped(text@),
{
    encode_double_quoted_attribute(text)
}

/// Text without `&`, `<`, `>` and `"` is its own escaped form.
pub proof fn lemma_escaped_plain(text: Seq<char>)
    requires
        forall|i: int| 0 <= i < text.len() ==> !needs_escape(#[trigger] text[i]),
    ensures
        escaped(text) == text,
    decreases text.len(),
{
    if text.len() > 0 {
        lemma_escaped_plain(text.drop_last());
        assert(!needs_escape(text[text.len() - 1]));
        assert(escaped(text) =~= text);
    }
}

/// Escaped text holds no `"`, `<` or `>`: it cannot end the attribute value
/// or open a tag.
pub proof fn lemma_escaped_is_safe(text: Seq<char>)
    ensures
        forall|i: int|
            0 <= i < escaped(text).len() ==> {
                let c = #[trigger] escaped(text)[i];
                c != '"' && c != '<' && c != '>'
            },
    decreases text.len(),
{
    if text.len() > 0 {
        lemma_escaped_is_safe(text.drop_last());
        let head = escaped(text.drop_last());
        let tail = escaped_char(text.last());
        assert forall|i: int| 0 <= i < escaped(text).len() implies {
            let c = #[trigger] escaped(text)[i];
            c != '"' && c != '<' && c != '>'
        } by {
            if i < head.len() {
                assert(escaped(text)[i] == head[i]);
            } else {
                assert(escaped(text)[i] == tail[i - head.len()]);
            }
        }
    }
}

} // verus!
