//! Locating a pattern inside a buffer: the first window that satisfies it, the
//! last one, and all of them.

use crate::occurrences::Occurrences;
use crate::signature::{matches_at, Signature};
use crate::element::PatternElement;
use vstd::prelude::*;

verus! {

/// `r` is the outcome of looking for the leftmost window of `buf` that
/// satisfies `pattern`: its offset, or nothing where no window does.
pub open spec fn is_first_match(pattern: Seq<PatternElement>, buf: Seq<u8>, r: Option<usize>) -> bool {
    match r {
        Some(i) => {
            &&& matches_at(pattern, buf, i as int)
            &&& forall|k: int| k < i ==> !matches_at(pattern, buf, k)
        },
        None => forall|k: int| !matches_at(pattern, buf, k),
    }
}

/// `r` is the outcome of looking for the rightmost window of `buf` that
/// satisfies `pattern`: its offset, or nothing where no window does.
pub open spec fn is_last_match(pattern: Seq<PatternElement>, buf: Seq<u8>, r: Option<usize>) -> bool {
    match r {
        Some(i) => {
            &&& matches_at(pattern, buf, i as int)
            &&& forall|k: int| i < k ==> !matches_at(pattern, buf, k)
        },
        None => forall|k: int| !matches_at(pattern, buf, k),
    }
}

/// The offsets, from `from` on and in ascending order, of the windows of `buf`
/// that satisfy `pattern`.
pub open spec fn offsets_from(pattern: Seq<PatternElement>, buf: Seq<u8>, from: int) -> Seq<int>
    decreases buf.len() - from + 1,
{
    if from < 0 || from + pattern.len() > buf.len() {
        Seq::empty()
    } else {
        let later = offsets_from(pattern, buf, from + 1);
        if matches_at(pattern, buf, from) {
            seq![from] + later
        } else {
            later
        }
    }
}

/// The offsets of all windows of `buf` that satisfy `pattern`, ascending.
pub open spec fn all_offsets(pattern: Seq<PatternElement>, buf: Seq<u8>) -> Seq<int> {
    offsets_from(pattern, buf, 0)
}

/// Each item of `s` is smaller than the one after it.
pub open spec fn strictly_ascending(s: Seq<int>) -> bool {
    forall|i: int, j: int| 0 <= i < j < s.len() ==> s[i] < s[j]
}

/// The offsets from `from` on are strictly ascending, and they are just the
/// offsets, not smaller than `from`, of the windows of `buf` that satisfy
/// `pattern`.
pub proof fn lemma_offsets_from(pattern: Seq<PatternElement>, buf: Seq<u8>, from: int)
    requires
        0 <= from,
    ensures
        strictly_ascending(offsets_from(pattern, buf, from)),
        forall|k: int| #[trigger]
            offsets_from(pattern, buf, from).contains(k) ==> from <= k && matches_at(
                pattern,
                buf,
                k,
            ),
        forall|k: int|
            from <= k && #[trigger] matches_at(pattern, buf, k) ==> offsets_from(
                pattern,
                buf,
                from,
            ).contains(k),
    decreases buf.len() - from + 1,
{
    let here = offsets_from(pattern, buf, from);
    if from + pattern.len() <= buf.len() {
        let later = offsets_from(pattern, buf, from + 1);
        lemma_offsets_from(pattern, buf, from + 1);
        if matches_at(pattern, buf, from) {
            assert(here == seq![from] + later);
            assert forall|i: int, j: int| 0 <= i < j < here.len() implies here[i] < here[j] by {
                assert(here[j] == later[j - 1]);
                assert(later.contains(later[j - 1]));
                if i > 0 {
                    assert(here[i] == later[i - 1]);
                }
            }
            assert forall|k: int| #[trigger] here.contains(k) implies from <= k && matches_at(
                pattern,
                buf,
                k,
            ) by {
                let i = choose|i: int| 0 <= i < here.len() && here[i] == k;
                if i > 0 {
                    assert(here[i] == later[i - 1]);
                    assert(later.contains(later[i - 1]));
                }
            }
            assert forall|k: int| from <= k && #[trigger] matches_at(
                pattern,
                buf,
                k,
            ) implies here.contains(k) by {
                if k == from {
                    assert(here[0] == k);
                } else {
                    assert(later.contains(k));
                    let i = choose|i: int| 0 <= i < later.len() && later[i] == k;
                    assert(here[i + 1] == k);
                }
            }
        }
    }
}

impl Signature {
    /// The offset of the leftmost window of `slice` that satisfies the
    /// pattern.
    pub fn next(&self, slice: &[u8]) -> (r: Option<usize>)
        ensures
            is_first_match(self@, slice@, r),
    {
        let n: usize = self.len();
        let len: usize = slice.len();
        if n > len {
            return None;
        }
        let last: usize = len - n;
        let mut i: usize = 0;
        while i <= last
            invariant
                n == self@.len(),
                len == slice@.len(),
                last == len - n,
                i <= last + 1,
                forall|k: int| k < i ==> !matches_at(self@, slice@, k),
            decreases last + 1 - i,
        {
            if self.window_matches(slice, i) {
                return Some(i);
            }
            if i == last {
                return None;
            }
            i += 1;
        }
        None
    }

    /// The offset of the rightmost window of `slice` that satisfies the
    /// pattern.
    pub fn prev(&self, slice: &[u8]) -> (r: Option<usize>)
        ensures
            is_last_match(self@, slice@, r),
    {
        let n: usize = self.len();
        let len: usize = slice.len();
        if n > len {
            return None;
        }
        let mut i: usize = len - n;
        loop
            invariant
                n == self@.len(),
                len == slice@.len(),
                i + n <= len,
                forall|k: int| i < k ==> !matches_at(self@, slice@, k),
            decreases i,
        {
            if self.window_matches(slice, i) {
                return Some(i);
            }
            if i == 0 {
                return None;
            }
            i -= 1;
        }
    }

    /// The offsets of all windows of `slice` that satisfy the pattern, from
    /// left to right, overlapping ones included. Nothing is compared before
    /// the first offset is asked for; each call begins a walk of its own.
    pub fn all<'a>(&'a self, slice: &'a [u8]) -> (r: Occurrences<'a>)
        ensures
            r.pattern() == self@,
            r.buffer() == slice@,
            r.remaining() == all_offsets(self@, slice@),
            strictly_ascending(r.remaining()),
            forall|k: int|
                #![trigger r.remaining().contains(k)]
                #![trigger matches_at(self@, slice@, k)]
                r.remaining().contains(k) <==> matches_at(self@, slice@, k),
    {
        proof {
            lemma_offsets_from(self@, slice@, 0);
        }
        Occurrences::start(self, slice)
    }
}

} // verus!
