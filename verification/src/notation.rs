//! Patterns written as hexadecimal notation: tokens separated by white
//! space, each of them two hexadecimal digits for a literal byte, or question
//! marks for a wildcard.

use crate::element::PatternElement;
use crate::signature::Signature;
use vstd::prelude::*;

verus! {

broadcast use vstd::string::group_string_axioms;

/// The token at the given place of a notation is neither a run of question
/// marks nor two hexadecimal digits. Tokens are counted from zero.
#[derive(Clone, Copy, Debug, PartialEq, Eq, Structural)]
pub struct MalformedToken {
    pub index: usize,
}

/// The characters that separate tokens: space, tab, line feed, form feed and
/// carriage return.
pub open spec fn is_space(c: char) -> bool {
    c == ' ' || c == '\t' || c == '\n' || c == '\x0C' || c == '\r'
}

/// Where the run of characters other than white space that begins at `from`
/// ends: the place of the first white space behind `from`, or the end of `s`.
pub open spec fn token_end(s: Seq<char>, from: int) -> int
    decreases s.len() - from,
{
    if from < 0 || from >= s.len() || is_space(s[from]) {
        from
    } else {
        token_end(s, from + 1)
    }
}

/// The tokens of `s` from `from` on: its longest runs of characters other than
/// white space, from left to right. `from` is the start of `s`, or a place
/// behind a white space or behind a token's end.
pub open spec fn tokens_from(s: Seq<char>, from: int) -> Seq<Seq<char>>
    decreases s.len() - from,
    via tokens_from_decreases
{
    if from < 0 || from >= s.len() {
        Seq::empty()
    } else if is_space(s[from]) {
        tokens_from(s, from + 1)
    } else {
        seq![s.subrange(from, token_end(s, from))] + tokens_from(s, token_end(s, from))
    }
}

#[via_fn]
proof fn tokens_from_decreases(s: Seq<char>, from: int) {
    if 0 <= from < s.len() && !is_space(s[from]) {
        lemma_token_end(s, from);
    }
}

/// The tokens of `s`.
pub open spec fn tokens(s: Seq<char>) -> Seq<Seq<char>> {
    tokens_from(s, 0)
}

/// A token's run ends inside `s`, behind its start where that is no white
/// space; it holds no white space, and white space or the end of `s` follows.
pub proof fn lemma_token_end(s: Seq<char>, from: int)
    requires
        0 <= from <= s.len(),
    ensures
        from <= token_end(s, from) <= s.len(),
        from < s.len() && !is_space(s[from]) ==> from < token_end(s, from),
        forall|k: int| from <= k < token_end(s, from) ==> !is_space(#[trigger] s[k]),
        token_end(s, from) < s.len() ==> is_space(s[token_end(s, from)]),
    decreases s.len() - from,
{
    if from < s.len() && !is_space(s[from]) {
        lemma_token_end(s, from + 1);
    }
}

/// The value of a hexadecimal digit, in either case; nothing for another
/// character.
pub open spec fn hex_value(c: char) -> Option<u8> {
    if '0' <= c <= '9' {
        Some((c as int - '0' as int) as u8)
    } else if 'a' <= c <= 'f' {
        Some((c as int - 'a' as int + 10) as u8)
    } else if 'A' <= c <= 'F' {
        Some((c as int - 'A' as int + 10) as u8)
    } else {
        None
    }
}

/// The token is made of question marks, one or more, and of nothing else.
pub open spec fn is_wildcard_token(t: Seq<char>) -> bool {
    t.len() > 0 && forall|i: int| 0 <= i < t.len() ==> t[i] == '?'
}

/// The token is made of two hexadecimal digits.
pub open spec fn is_byte_token(t: Seq<char>) -> bool {
    t.len() == 2 && hex_value(t[0]) is Some && hex_value(t[1]) is Some
}

/// The position that a token stands for: a wildcard for question marks, a
/// literal for two hexadecimal digits, of which the first counts sixteenfold;
/// nothing for a token of another shape.
pub open spec fn parse_token(t: Seq<char>) -> Option<PatternElement> {
    if is_wildcard_token(t) {
        Some(PatternElement(None))
    } else if is_byte_token(t) {
        Some(PatternElement(Some((hex_value(t[0])->0 * 16 + hex_value(t[1])->0) as u8)))
    } else {
        None
    }
}

/// Each of the tokens stands for a position.
pub open spec fn well_formed(toks: Seq<Seq<char>>) -> bool {
    forall|i: int| 0 <= i < toks.len() ==> parse_token(#[trigger] toks[i]) is Some
}

/// The token at place `at` is the first of `toks` that stands for no position.
pub open spec fn first_malformed(toks: Seq<Seq<char>>, at: int) -> bool {
    &&& 0 <= at < toks.len()
    &&& parse_token(toks[at]) is None
    &&& forall|i: int| 0 <= i < at ==> parse_token(#[trigger] toks[i]) is Some
}

/// The positions that well-formed tokens stand for, in order.
pub open spec fn elements_of(toks: Seq<Seq<char>>) -> Seq<PatternElement> {
    toks.map_values(|t: Seq<char>| parse_token(t)->0)
}

fn is_space_char(c: char) -> (r: bool)
    ensures
        r == is_space(c),
{
    c == ' ' || c == '\t' || c == '\n' || c == '\x0C' || c == '\r'
}

fn hex_digit(c: char) -> (r: Option<u8>)
    ensures
        r == hex_value(c),
{
    if '0' <= c && c <= '9' {
        Some(c as u8 - 48)
    } else if 'a' <= c && c <= 'f' {
        Some(c as u8 - 97 + 10)
    } else if 'A' <= c && c <= 'F' {
        Some(c as u8 - 65 + 10)
    } else {
        None
    }
}

/// The characters of `s`, one by one.
fn chars_of(s: &str) -> (r: Vec<char>)
    ensures
        r@ == s@,
{
    let mut chars: Vec<char> = Vec::new();
    for c in it: s.chars()
        invariant
            it.seq() == s@,
            chars@ == s@.take(it.index()),
    {
        chars.push(c);
        proof {
            assert(chars@ == s@.take(it.index() + 1));
        }
    }
    proof {
        assert(s@.take(s@.len() as int) == s@);
    }
    chars
}

/// Reads the token that `chars` holds from `start` up to `end`.
fn read_token(chars: &Vec<char>, start: usize, end: usize) -> (r: Option<PatternElement>)
    requires
        start < end <= chars@.len(),
    ensures
        r == parse_token(chars@.subrange(start as int, end as int)),
{
    let ghost t = chars@.subrange(start as int, end as int);
    let mut k: usize = start;
    while k < end && chars[k] == '?'
        invariant
            start <= k <= end <= chars@.len(),
            t == chars@.subrange(start as int, end as int),
            forall|i: int| 0 <= i < k - start ==> t[i] == '?',
        decreases end - k,
    {
        k += 1;
    }
    if k == end {
        return Some(PatternElement(None));
    }
    proof {
        assert(t[k - start] != '?');
        assert(!is_wildcard_token(t));
    }
    if end - start != 2 {
        return None;
    }
    proof {
        assert(t[0] == chars@[start as int]);
        assert(t[1] == chars@[start + 1]);
    }
    match (hex_digit(chars[start]), hex_digit(chars[start + 1])) {
        (Some(high), Some(low)) => Some(PatternElement(Some(high * 16 + low))),
        _ => None,
    }
}

impl Signature {
    /// The pattern that a hexadecimal notation stands for. The notation is a
    /// row of tokens with white space of any length between them, and before
    /// and behind them. A token of question marks gives a wildcard, a token of
    /// two hexadecimal digits the byte that they spell. The first token of
    /// another shape is reported, and no pattern is built.
    pub fn ida(pattern: &str) -> (r: Result<Signature, MalformedToken>)
        ensures
            match r {
                Ok(sig) => {
                    &&& well_formed(tokens(pattern@))
                    &&& sig@ == elements_of(tokens(pattern@))
                    &&& sig@.len() == tokens(pattern@).len()
                    &&& forall|i: int|
                        0 <= i < sig@.len() ==> (sig@[i].is_wildcard() <==> is_wildcard_token(
                            #[trigger] tokens(pattern@)[i],
                        ))
                },
                Err(e) => first_malformed(tokens(pattern@), e.index as int),
            },
    {
        let chars: Vec<char> = chars_of(pattern);
        let n: usize = chars.len();
        let mut elements: Vec<PatternElement> = Vec::new();
        let ghost mut done: Seq<Seq<char>> = Seq::empty();
        let mut i: usize = 0;
        while i < n
            invariant
                chars@ == pattern@,
                n == chars@.len(),
                i <= n,
                tokens(chars@) == done + tokens_from(chars@, i as int),
                well_formed(done),
                elements@ == elements_of(done),
            decreases n - i,
        {
            if is_space_char(chars[i]) {
                i += 1;
            } else {
                let start: usize = i;
                let mut end: usize = i + 1;
                while end < n && !is_space_char(chars[end])
                    invariant
                        n == chars@.len(),
                        start < end <= n,
                        token_end(chars@, start as int) == token_end(chars@, end as int),
                    decreases n - end,
                {
                    end += 1;
                }
                let ghost token = chars@.subrange(start as int, end as int);
                let ghost rest = tokens_from(chars@, end as int);
                proof {
                    assert(token_end(chars@, start as int) == end);
                    assert(tokens_from(chars@, start as int) == seq![token] + rest);
                    assert(tokens(chars@) =~= done.push(token) + rest);
                }
                match read_token(&chars, start, end) {
                    Some(element) => {
                        elements.push(element);
                        proof {
                            assert(elements_of(done.push(token)) =~= elements_of(done).push(
                                element,
                            ));
                            done = done.push(token);
                        }
                    },
                    None => {
                        proof {
                            let toks = tokens(chars@);
                            assert(toks[done.len() as int] == token);
                            assert forall|k: int| 0 <= k < done.len() implies parse_token(
                                #[trigger] toks[k],
                            ) is Some by {
                                assert(toks[k] == done[k]);
                            }
                        }
                        return Err(MalformedToken { index: elements.len() });
                    },
                }
                i = end;
            }
        }
        proof {
            assert(tokens(chars@) =~= done);
        }
        Ok(Signature::new(elements))
    }
}

} // verus!
