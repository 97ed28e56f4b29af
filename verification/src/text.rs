//! Patterns written as text: one position for each character.

use crate::element::PatternElement;
use crate::signature::Signature;
use vstd::prelude::*;

verus! {

broadcast use vstd::string::group_string_axioms;

/// The byte that stands for a character: its code point, of which the lowest
/// eight bits are kept. For a character of one byte this is the character
/// itself.
pub open spec fn byte_of(c: char) -> u8 {
    (c as u32 % 256) as u8
}

/// The position that a character of a text gives where `wildcard`, if there
/// is one, is the character that stands for a wildcard.
pub open spec fn element_of(c: char, wildcard: Option<char>) -> PatternElement {
    if wildcard == Some(c) {
        PatternElement(None)
    } else {
        PatternElement(Some(byte_of(c)))
    }
}

/// The pattern that a text gives: a position for each character, in order,
/// and behind them a literal zero byte where a terminator is asked for.
pub open spec fn text_elements(
    s: Seq<char>,
    wildcard: Option<char>,
    include_terminator: bool,
) -> Seq<PatternElement> {
    let body = s.map_values(|c: char| element_of(c, wildcard));
    if include_terminator {
        body.push(PatternElement(Some(0u8)))
    } else {
        body
    }
}

/// The byte that stands for `c`.
fn low_byte(c: char) -> (b: u8)
    ensures
        b == byte_of(c),
{
    let code: u32 = c as u32;
    (code % 256) as u8
}

/// The positions that `string` gives, with the terminator where asked for.
fn elements_of_text(string: &str, wildcard: Option<char>, include_terminator: bool) -> (r: Vec<
    PatternElement,
>)
    ensures
        r@ == text_elements(string@, wildcard, include_terminator),
{
    let mut elements: Vec<PatternElement> = Vec::new();
    for c in it: string.chars()
        invariant
            it.seq() == string@,
            elements@ == string@.take(it.index()).map_values(|c: char| element_of(c, wildcard)),
    {
        let is_wildcard: bool = match wildcard {
            Some(w) => c == w,
            None => false,
        };
        if is_wildcard {
            elements.push(PatternElement(None));
        } else {
            elements.push(PatternElement(Some(low_byte(c))));
        }
        proof {
            let done = string@.take(it.index() + 1);
            assert(done.drop_last() == string@.take(it.index()));
            assert(elements@ == done.map_values(|c: char| element_of(c, wildcard)));
        }
    }
    proof {
        assert(string@.take(string@.len() as int) == string@);
    }
    if include_terminator {
        elements.push(PatternElement(Some(0x00u8)));
    }
    elements
}

impl Signature {
    /// The pattern that demands the characters of `string` one after the other,
    /// each as one byte, and then a zero byte if `include_terminator` is set.
    pub fn string(string: &str, include_terminator: bool) -> (r: Signature)
        ensures
            r@ == text_elements(string@, None, include_terminator),
            r@.len() == string@.len() + (if include_terminator { 1int } else { 0int }),
            forall|i: int| 0 <= i < string@.len() ==> r@[i] == PatternElement(Some(byte_of(string@[i]))),
            include_terminator ==> r@.last() == PatternElement(Some(0u8)),
    {
        Signature::new(elements_of_text(string, None, include_terminator))
    }

    /// As `string`, but each character equal to `wildcard` gives a wildcard. The
    /// terminator is a literal zero byte whatever `wildcard` is.
    pub fn wildcard_string(string: &str, wildcard: char, include_terminator: bool) -> (r: Signature)
        ensures
            r@ == text_elements(string@, Some(wildcard), include_terminator),
            r@.len() == string@.len() + (if include_terminator { 1int } else { 0int }),
            forall|i: int| 0 <= i < string@.len() ==> r@[i] == (if string@[i] == wildcard {
                PatternElement(None)
            } else {
                PatternElement(Some(byte_of(string@[i])))
            }),
            include_terminator ==> r@.last() == PatternElement(Some(0u8)),
    {
        Signature::new(elements_of_text(string, Some(wildcard), include_terminator))
    }
}

} // verus!
