//! Moving between strings and their characters.

use vstd::prelude::*;

verus! {

broadcast use vstd::string::group_string_axioms;

/// Appends `c` to `s` with `String::push`, which its documentation says
/// appends the character to the end of the string.
#[verifier::external_body]
pub(crate) fn push_char(s: &mut String, c: char)
    ensures
        final(s)@ == old(s)@.push(c),
{
    s.push(c)
}

/// The characters of `text`, collected into a vector.
pub fn chars_of(text: &str) -> (result: Vec<char>)
    ensures
        result@ == text@,
{
    let mut result: Vec<char> = Vec::new();
    for c in it: text.chars()
        invariant
            it.seq() == text@,
            result@ == it.seq().take(it.index()),
    {
        result.push(c);
        proof {
            assert(result@ =~= it.seq().take(it.index() + 1));
        }
    }
    proof {
        assert(text@.take(text@.len() as int) =~= text@);
    }
    result
}

/// The characters of `chars` as a string.
pub fn string_of(chars: &Vec<char>) -> (result: String)
    ensures
        result@ == chars@,
{
    let mut result = String::new();
    let mut i: usize = 0;
    while i < chars.len()
        invariant
            i <= chars@.len(),
            result@ == chars@.take(i as int),
        decreases chars@.len() - i,
    {
        push_char(&mut result, chars[i]);
        i = i + 1;
        proof {
            assert(result@ =~= chars@.take(i as int));
        }
    }
    proof {
        assert(chars@.take(i as int) =~= chars@);
    }
    result
}

} // verus!
