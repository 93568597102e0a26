use vstd::prelude::*;

verus! {

/// What `char::is_alphanumeric` answers for a character.
pub uninterp spec fn alphanumeric(c: char) -> bool;

/// What `char::is_whitespace` answers for a character.
pub uninterp spec fn whitespace(c: char) -> bool;

/// Relies on `char::is_alphanumeric`: a test of the character alone.
#[verifier::external_body]
fn is_alphanumeric(c: char) -> (r: bool)
    ensures
        r == alphanumeric(c),
{
    c.is_alphanumeric()
}

/// Relies on `char::is_whitespace`: a test of the character alone.
#[verifier::external_body]
fn is_whitespace(c: char) -> (r: bool)
    ensures
        r == whitespace(c),
{
    c.is_whitespace()
}

/// Relies on `String::push`: the character is appended at the end.
#[verifier::external_body]
pub(crate) fn push_char(s: &mut String, c: char)
    ensures
        final(s)@ == old(s)@.push(c),
{
    s.push(c)
}

/// A character together with the two Unicode properties the tokenizer reads.
#[derive(Clone, Copy, Debug, PartialEq, Eq)]
pub struct CharClass {
    pub ch: char,
    pub alphanumeric: bool,
    pub whitespace: bool,
}

/// The class of a character as the standard library reports it.
pub open spec fn class_of(c: char) -> CharClass {
    CharClass { ch: c, alphanumeric: alphanumeric(c), whitespace: whitespace(c) }
}

/// The classes of every character of `s`, in order.
pub open spec fn classes_of(s: Seq<char>) -> Seq<CharClass> {
    s.map_values(|c: char| class_of(c))
}

/// Classifies one character.
pub fn classify(c: char) -> (r: CharClass)
    ensures
        r == class_of(c),
{
    CharClass { ch: c, alphanumeric: is_alphanumeric(c), whitespace: is_whitespace(c) }
}

/// Classifies every character of `text`.
pub fn classify_all(text: &str) -> (r: Vec<CharClass>)
    ensures
        r@ == classes_of(text@),
{
    let mut r: Vec<CharClass> = Vec::new();
    for c in it: text.chars()
        invariant
            it.seq() == text@,
            r@ == classes_of(text@.take(it.index() as int)),
    {
        r.push(classify(c));
        assert(classes_of(text@.take(it.index() as int + 1)) =~= classes_of(
            text@.take(it.index() as int),
        ).push(class_of(c)));
    }
    assert(text@.take(text@.len() as int) =~= text@);
    r
}

} // verus!
