//! Building and comparing text, character by character.

use vstd::prelude::*;
use vstd::string::*;

verus! {

/// `String::push` of the standard library: the text grows at its end by the
/// one character handed over, and nothing else of it changes.
#[verifier::external_body]
fn push_char(text: &mut String, c: char)
    ensures
        final(text)@ == old(text)@.push(c),
{
    text.push(c);
}

/// The characters of `chars` from `from` up to, and without, `to`, as text.
pub(crate) fn text_of(chars: &Vec<char>, from: usize, to: usize) -> (text: String)
    requires
        from <= to <= chars.len(),
    ensures
        text@ == chars@.subrange(from as int, to as int),
{
    let mut text = String::new();
    let mut i: usize = from;
    while i < to
        invariant
            from <= i <= to <= chars.len(),
            text@ == chars@.subrange(from as int, i as int),
        decreases to - i,
    {
        push_char(&mut text, chars[i]);
        i += 1;
    }
    text
}

/// The text `before`, then the character `c`, then the text `after`.
pub(crate) fn enclose(before: &str, c: char, after: &str) -> (text: String)
    ensures
        text@ == before@.push(c) + after@,
{
    let mut text = String::from_str(before);
    push_char(&mut text, c);
    text.append(after);
    text
}

/// Whether `text`, which is `len` characters long, is the word `word`.
pub(crate) fn is_word(text: &str, len: usize, word: &str) -> (same: bool)
    requires
        len == text@.len(),
    ensures
        same == (text@ == word@),
{
    if word.unicode_len() != len {
        return false;
    }
    let mut i: usize = 0;
    while i < len
        invariant
            i <= len,
            len == text@.len(),
            len == word@.len(),
            forall|j: int| 0 <= j < i ==> text@[j] == word@[j],
        decreases len - i,
    {
        if text.get_char(i) != word.get_char(i) {
            return false;
        }
        i += 1;
    }
    assert(text@ =~= word@);
    true
}

} // verus!
