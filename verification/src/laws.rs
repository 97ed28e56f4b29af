//! What holds of the patterns and of the searches together.

use crate::element::PatternElement;
use crate::search::{all_offsets, is_first_match, is_last_match, lemma_offsets_from, strictly_ascending};
use crate::signature::matches_at;
use crate::text::{byte_of, text_elements};
use vstd::prelude::*;

verus! {

/// The pattern that demands the given bytes, one after the other.
pub open spec fn literals(bytes: Seq<u8>) -> Seq<PatternElement> {
    bytes.map_values(|b: u8| PatternElement(Some(b)))
}

/// The bytes that a text without wildcards demands.
pub open spec fn text_bytes(s: Seq<char>, include_terminator: bool) -> Seq<u8> {
    let body = s.map_values(|c: char| byte_of(c));
    if include_terminator {
        body.push(0u8)
    } else {
        body
    }
}

/// A wildcard is satisfied by every byte, a literal by its own byte and by no
/// other.
pub proof fn lemma_element_accepts(element: PatternElement, b: u8)
    ensures
        element.is_wildcard() ==> element.accepts(b),
        !element.is_wildcard() ==> (element.accepts(b) <==> element.0 == Some(b)),
{
}

/// A pattern of literals holds the bytes that it was made of, in their order.
/// It is satisfied by these bytes, and by no other buffer of their length.
pub proof fn lemma_literals_round_trip(bytes: Seq<u8>, buf: Seq<u8>)
    ensures
        literals(bytes).len() == bytes.len(),
        forall|i: int| 0 <= i < bytes.len() ==> (#[trigger] literals(bytes)[i]).0 == Some(bytes[i]),
        matches_at(literals(bytes), bytes, 0),
        buf.len() == bytes.len() && matches_at(literals(bytes), buf, 0) ==> buf == bytes,
{
    let p = literals(bytes);
    if buf.len() == bytes.len() && matches_at(p, buf, 0) {
        assert forall|i: int| 0 <= i < bytes.len() implies buf[i] == bytes[i] by {
            assert(p[i].accepts(buf[0 + i]));
        }
        assert(buf =~= bytes);
    }
}

/// The pattern of a text without wildcards is the pattern of literals of the
/// bytes that stand for its characters, so it is satisfied by just these
/// bytes.
pub proof fn lemma_text_round_trip(s: Seq<char>, include_terminator: bool)
    ensures
        text_elements(s, None, include_terminator) == literals(text_bytes(s, include_terminator)),
        matches_at(
            text_elements(s, None, include_terminator),
            text_bytes(s, include_terminator),
            0,
        ),
{
    assert(text_elements(s, None, include_terminator) =~= literals(
        text_bytes(s, include_terminator),
    ));
    lemma_literals_round_trip(text_bytes(s, include_terminator), Seq::empty());
}

/// A search for the first occurrence has one outcome only: asked again of the
/// same pattern and buffer, it gives the same.
pub proof fn lemma_first_match_unique(
    pattern: Seq<PatternElement>,
    buf: Seq<u8>,
    a: Option<usize>,
    b: Option<usize>,
)
    requires
        is_first_match(pattern, buf, a),
        is_first_match(pattern, buf, b),
    ensures
        a == b,
{
}

/// A search for the last occurrence has one outcome only.
pub proof fn lemma_last_match_unique(
    pattern: Seq<PatternElement>,
    buf: Seq<u8>,
    a: Option<usize>,
    b: Option<usize>,
)
    requires
        is_last_match(pattern, buf, a),
        is_last_match(pattern, buf, b),
    ensures
        a == b,
{
}

/// Two strictly ascending sequences that hold the same numbers are equal.
pub proof fn lemma_ascending_unique(a: Seq<int>, b: Seq<int>)
    requires
        strictly_ascending(a),
        strictly_ascending(b),
        forall|k: int| a.contains(k) <==> b.contains(k),
    ensures
        a == b,
    decreases a.len(),
{
    if a.len() == 0 {
        if b.len() > 0 {
            assert(b.contains(b[0]));
        }
        assert(a =~= b);
    } else {
        assert(a.contains(a[0]));
        let j = choose|j: int| 0 <= j < b.len() && b[j] == a[0];
        assert(b.contains(b[0]));
        let i = choose|i: int| 0 <= i < a.len() && a[i] == b[0];
        assert(a[0] == b[0]);
        let ta = a.drop_first();
        let tb = b.drop_first();
        assert forall|k: int| ta.contains(k) <==> tb.contains(k) by {
            if ta.contains(k) {
                let x = choose|x: int| 0 <= x < ta.len() && ta[x] == k;
                assert(a[x + 1] == k);
                assert(a.contains(k));
                let y = choose|y: int| 0 <= y < b.len() && b[y] == k;
                assert(y != 0);
                assert(tb[y - 1] == k);
            }
            if tb.contains(k) {
                let y = choose|y: int| 0 <= y < tb.len() && tb[y] == k;
                assert(b[y + 1] == k);
                assert(b.contains(k));
                let x = choose|x: int| 0 <= x < a.len() && a[x] == k;
                assert(x != 0);
                assert(ta[x - 1] == k);
            }
        }
        assert(strictly_ascending(ta)) by {
            assert forall|x: int, y: int| 0 <= x < y < ta.len() implies ta[x] < ta[y] by {
                assert(a[x + 1] < a[y + 1]);
            }
        }
        assert(strictly_ascending(tb)) by {
            assert forall|x: int, y: int| 0 <= x < y < tb.len() implies tb[x] < tb[y] by {
                assert(b[x + 1] < b[y + 1]);
            }
        }
        lemma_ascending_unique(ta, tb);
        assert(a =~= seq![a[0]] + ta);
        assert(b =~= seq![b[0]] + tb);
    }
}

/// The offsets of all occurrences are the one sequence that is strictly
/// ascending and holds just the offsets of the windows that satisfy the
/// pattern.
pub proof fn lemma_all_offsets_unique(pattern: Seq<PatternElement>, buf: Seq<u8>, s: Seq<int>)
    requires
        strictly_ascending(s),
        forall|k: int| s.contains(k) <==> matches_at(pattern, buf, k),
    ensures
        s == all_offsets(pattern, buf),
{
    lemma_offsets_from(pattern, buf, 0);
    let all = all_offsets(pattern, buf);
    assert forall|k: int| s.contains(k) <==> all.contains(k) by {
        if s.contains(k) {
            assert(matches_at(pattern, buf, k));
        }
        if all.contains(k) {
            assert(matches_at(pattern, buf, k));
        }
    }
    lemma_ascending_unique(s, all);
}

/// The first occurrence is the first of all occurrences and the last one is
/// the last of them; where there is none, neither search finds one.
pub proof fn lemma_searches_agree(
    pattern: Seq<PatternElement>,
    buf: Seq<u8>,
    first: Option<usize>,
    last: Option<usize>,
)
    requires
        is_first_match(pattern, buf, first),
        is_last_match(pattern, buf, last),
    ensures
        first is None <==> all_offsets(pattern, buf).len() == 0,
        last is None <==> all_offsets(pattern, buf).len() == 0,
        first is Some ==> all_offsets(pattern, buf).first() == first->0,
        last is Some ==> all_offsets(pattern, buf).last() == last->0,
{
    lemma_offsets_from(pattern, buf, 0);
    let all = all_offsets(pattern, buf);
    if all.len() > 0 {
        assert(all.contains(all[0]));
        assert(all.contains(all[all.len() - 1]));
        assert(matches_at(pattern, buf, all[0]));
    }
    if first is Some {
        let f = first->0 as int;
        assert(all.contains(f));
        let i = choose|i: int| 0 <= i < all.len() && all[i] == f;
        if i > 0 {
            assert(all[0] < all[i]);
        }
    }
    if last is Some {
        let l = last->0 as int;
        assert(all.contains(l));
        let i = choose|i: int| 0 <= i < all.len() && all[i] == l;
        if i < all.len() - 1 {
            assert(all[i] < all[all.len() - 1]);
        }
    }
}

} // verus!
