//! The occurrences of a pattern in a buffer, handed out one at a time.

use crate::element::PatternElement;
use crate::search::offsets_from;
use crate::signature::Signature;
use vstd::prelude::*;

verus! {

/// A walk over the windows of a buffer, from left to right, that stops at each
/// window satisfying the pattern. It borrows pattern and buffer, and holds
/// nothing but the offset it has reached.
pub struct Occurrences<'a> {
    signature: &'a Signature,
    slice: &'a [u8],
    pos: usize,
    done: bool,
}

impl<'a> Occurrences<'a> {
    #[verifier::type_invariant]
    spec fn in_bounds(self) -> bool {
        self.done || self.pos + self.signature@.len() <= self.slice@.len()
    }

    /// The pattern that is looked for.
    pub closed spec fn pattern(self) -> Seq<PatternElement> {
        self.signature@
    }

    /// The buffer that is walked.
    pub closed spec fn buffer(self) -> Seq<u8> {
        self.slice@
    }

    /// The offsets that are still to come, in the order in which they come.
    pub closed spec fn remaining(self) -> Seq<int> {
        if self.done {
            Seq::empty()
        } else {
            offsets_from(self.signature@, self.slice@, self.pos as int)
        }
    }

    /// A walk that starts at the left end of `slice`.
    pub(crate) fn start(signature: &'a Signature, slice: &'a [u8]) -> (r: Occurrences<'a>)
        ensures
            r.pattern() == signature@,
            r.buffer() == slice@,
            r.remaining() == offsets_from(signature@, slice@, 0),
    {
        let done: bool = signature.len() > slice.len();
        Occurrences { signature, slice, pos: 0, done }
    }

    /// Hands out the next offset, if one is left.
    pub fn next(&mut self) -> (r: Option<usize>)
        ensures
            final(self).pattern() == old(self).pattern(),
            final(self).buffer() == old(self).buffer(),
            match r {
                Some(i) => {
                    &&& old(self).remaining().len() > 0
                    &&& i == old(self).remaining()[0]
                    &&& final(self).remaining() == old(self).remaining().drop_first()
                },
                None => {
                    &&& old(self).remaining().len() == 0
                    &&& final(self).remaining().len() == 0
                },
            },
    {
        let n: usize = self.signature.len();
        let len: usize = self.slice.len();
        while !self.done
            invariant
                n == self.signature@.len(),
                len == self.slice@.len(),
                self.signature == old(self).signature,
                self.slice == old(self).slice,
                self.remaining() == old(self).remaining(),
            decreases len - self.pos + (if self.done { 0int } else { 1int }),
        {
            proof {
                use_type_invariant(&*self);
            }
            let at: usize = self.pos;
            let found: bool = self.signature.window_matches(self.slice, at);
            let ghost before = self.remaining();
            let ghost later = offsets_from(self.signature@, self.slice@, at + 1);
            if at + n == len {
                self.done = true;
                assert(later == Seq::<int>::empty());
            } else {
                self.pos = at + 1;
            }
            assert(self.remaining() == later);
            if found {
                proof {
                    assert(before == seq![at as int] + later);
                    assert(later == before.drop_first());
                }
                return Some(at);
            }
            assert(before == later);
        }
        None
    }

    /// Walks to the end and gathers the offsets that were still to come.
    pub fn collect(self) -> (r: Vec<usize>)
        ensures
            r@.map_values(|i: usize| i as int) == self.remaining(),
    {
        let mut walk = self;
        let mut out: Vec<usize> = Vec::new();
        loop
            invariant
                out@.map_values(|i: usize| i as int) + walk.remaining() == self.remaining(),
            ensures
                out@.map_values(|i: usize| i as int) == self.remaining(),
            decreases walk.remaining().len(),
        {
            let ghost before = out@.map_values(|i: usize| i as int);
            match walk.next() {
                Some(i) => {
                    out.push(i);
                    proof {
                        assert(out@.map_values(|i: usize| i as int) == before.push(i as int));
                    }
                },
                None => {
                    break ;
                },
            }
        }
        out
    }
}

} // verus!
