//! A single position of a pattern.

use vstd::prelude::*;
use vstd::std_specs::cmp::PartialEqSpecImpl;

verus! {

/// One position of a pattern: `Some(b)` demands the byte `b`, `None` is a
/// wildcard that any byte satisfies.
#[derive(Clone, Copy, Debug)]
pub struct PatternElement(pub Option<u8>);

impl PatternElement {
    /// Whether the byte `b` satisfies this position.
    pub open spec fn accepts(self, b: u8) -> bool {
        match self.0 {
            Some(v) => v == b,
            None => true,
        }
    }

    /// Whether this position is a wildcard.
    pub open spec fn is_wildcard(self) -> bool {
        self.0 is None
    }

    /// Tests the byte `b` against this position.
    pub fn matches_byte(&self, b: u8) -> (r: bool)
        ensures
            r == self.accepts(b),
    {
        match self.0 {
            Some(v) => v == b,
            None => true,
        }
    }
}

/// Structural equality: both wildcards, or both literals of the same value.
impl PartialEq for PatternElement {
    fn eq(&self, other: &PatternElement) -> (r: bool) {
        match (self.0, other.0) {
            (Some(a), Some(b)) => a == b,
            (None, None) => true,
            _ => false,
        }
    }
}

impl PartialEqSpecImpl for PatternElement {
    open spec fn obeys_eq_spec() -> bool {
        true
    }

    open spec fn eq_spec(&self, other: &PatternElement) -> bool {
        self.0 == other.0
    }
}

impl Eq for PatternElement {}

/// Wildcard-aware equality against a byte.
impl PartialEq<u8> for PatternElement {
    fn eq(&self, other: &u8) -> (r: bool) {
        self.matches_byte(*other)
    }
}

impl PartialEqSpecImpl<u8> for PatternElement {
    open spec fn obeys_eq_spec() -> bool {
        true
    }

    open spec fn eq_spec(&self, other: &u8) -> bool {
        self.accepts(*other)
    }
}

} // verus!
