//! The pattern itself and the comparison of a pattern against one window.

use crate::element::PatternElement;
use vstd::prelude::*;

verus! {

/// A pattern: a fixed sequence of positions, compared in order against a
/// window of the same length.
///
/// A pattern of length zero is allowed. It is satisfied by the empty window,
/// which exists at every offset from zero up to and including the length of
/// the buffer.
pub struct Signature(Vec<PatternElement>);

impl View for Signature {
    type V = Seq<PatternElement>;

    closed spec fn view(&self) -> Seq<PatternElement> {
        self.0@
    }
}

/// The window of `buf` that starts at offset `at` and is as long as `pattern`
/// lies inside `buf`, and each of its bytes satisfies the position of
/// `pattern` at the same distance from the start.
pub open spec fn matches_at(pattern: Seq<PatternElement>, buf: Seq<u8>, at: int) -> bool {
    &&& 0 <= at
    &&& at + pattern.len() <= buf.len()
    &&& forall|j: int| 0 <= j < pattern.len() ==> (#[trigger] pattern[j]).accepts(buf[at + j])
}

impl Signature {
    /// Takes the positions as they are given.
    pub fn new(vec: Vec<PatternElement>) -> (r: Signature)
        ensures
            r@ == vec@,
    {
        Signature(vec)
    }

    /// The positions of the pattern, in order.
    pub fn get_elements(&self) -> (r: &Vec<PatternElement>)
        ensures
            r@ == self@,
    {
        &self.0
    }

    /// The number of positions.
    pub fn len(&self) -> (r: usize)
        ensures
            r == self@.len(),
    {
        self.0.len()
    }

    /// Compares the window of `slice` at offset `at` with the pattern.
    pub(crate) fn window_matches(&self, slice: &[u8], at: usize) -> (r: bool)
        requires
            at + self@.len() <= slice@.len(),
        ensures
            r == matches_at(self@, slice@, at as int),
    {
        let n: usize = self.0.len();
        let len: usize = slice.len();
        let mut j: usize = 0;
        while j < n
            invariant
                n == self@.len(),
                len == slice@.len(),
                j <= n,
                at + n <= slice@.len(),
                forall|k: int| 0 <= k < j ==> (#[trigger] self@[k]).accepts(slice@[at + k]),
            decreases n - j,
        {
            if !self.0[j].matches_byte(slice[at + j]) {
                return false;
            }
            j += 1;
        }
        true
    }

    /// Whether the whole of `slice`, taken as one window, satisfies the
    /// pattern. A slice of another length than the pattern never does.
    pub fn matches(&self, slice: &[u8]) -> (r: bool)
        ensures
            r == (slice@.len() == self@.len() && matches_at(self@, slice@, 0)),
    {
        if slice.len() != self.0.len() {
            return false;
        }
        self.window_matches(slice, 0)
    }
}

} // verus!
