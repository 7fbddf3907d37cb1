//! Escaping of text that goes into a search query. In the query language
//! punctuation has meaning, so a punctuation mark that belongs to the
//! text is written with a backslash before it.

use crate::helpers::text::{push_char, to_chars};
use vstd::prelude::*;

verus! {

/// The punctuation marks that the query language reads as syntax.
pub open spec fn is_query_punctuation(c: char) -> bool {
    c == ',' || c == '.' || c == '<' || c == '>' || c == '{' || c == '}' || c == '[' || c == ']'
        || c == '"' || c == '\'' || c == ':' || c == ';' || c == '!' || c == '@' || c == '#' || c
        == '$' || c == '%' || c == '^' || c == '&' || c == '*' || c == '(' || c == ')' || c == '-'
        || c == '+' || c == '=' || c == '~' || c == '|' || c == '/' || c == '\\'
}

/// What must be escaped inside a tag value: punctuation and the space,
/// which would end the value.
pub open spec fn is_tag_special(c: char) -> bool {
    is_query_punctuation(c) || c == ' '
}

/// The text with a backslash before every character of `s` that is
/// punctuation, and before every space too if `spaces` is set.
pub open spec fn escaped(s: Seq<char>, spaces: bool) -> Seq<char>
    decreases s.len(),
{
    if s.len() == 0 {
        Seq::empty()
    } else if is_query_punctuation(s.last()) || (spaces && s.last() == ' ') {
        escaped(s.drop_last(), spaces).push('\\').push(s.last())
    } else {
        escaped(s.drop_last(), spaces).push(s.last())
    }
}

fn query_punctuation(c: char) -> (yes: bool)
    ensures
        yes == is_query_punctuation(c),
{
    c == ',' || c == '.' || c == '<' || c == '>' || c == '{' || c == '}' || c == '[' || c == ']'
        || c == '"' || c == '\'' || c == ':' || c == ';' || c == '!' || c == '@' || c == '#' || c
        == '$' || c == '%' || c == '^' || c == '&' || c == '*' || c == '(' || c == ')' || c == '-'
        || c == '+' || c == '=' || c == '~' || c == '|' || c == '/' || c == '\\'
}

/// Appends the escaped form of `input`.
pub fn push_escaped(out: &mut String, input: &str, spaces: bool)
    ensures
        final(out)@ == old(out)@ + escaped(input@, spaces),
{
    let chars = to_chars(input);
    let mut i: usize = 0;
    assert(chars@.subrange(0, 0) =~= Seq::<char>::empty());
    assert(out@ =~= old(out)@ + escaped(chars@.subrange(0, 0), spaces));
    while i < chars.len()
        invariant
            i <= chars.len(),
            chars@ == input@,
            out@ == old(out)@ + escaped(chars@.subrange(0, i as int), spaces),
        decreases chars.len() - i,
    {
        let c = chars[i];
        let ghost seen = chars@.subrange(0, i as int);
        let ghost next = chars@.subrange(0, i + 1);
        assert(next.drop_last() =~= seen);
        assert(next.last() == c);
        if query_punctuation(c) || (spaces && c == ' ') {
            push_char(out, '\\');
        }
        push_char(out, c);
        assert(out@ =~= old(out)@ + escaped(next, spaces));
        i += 1;
    }
    assert(chars@.subrange(0, chars.len() as int) =~= chars@);
}

/// A tag value as it is written in a query: punctuation and spaces
/// escaped.
pub fn escape_tag_value(input: &str) -> (text: String)
    ensures
        text@ == escaped(input@, true),
{
    let mut text = String::new();
    push_escaped(&mut text, input, true);
    assert(text@ =~= escaped(input@, true));
    text
}

/// Free text as it is written in a query: punctuation escaped, spaces
/// left to part the words.
pub fn escape_search_query_text(input: &str) -> (text: String)
    ensures
        text@ == escaped(input@, false),
{
    let mut text = String::new();
    push_escaped(&mut text, input, false);
    assert(text@ =~= escaped(input@, false));
    text
}

} // verus!
