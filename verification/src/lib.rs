//! Byte-pattern scanning: a pattern is a fixed-length sequence of positions,
//! each a literal byte or a wildcard, and is located inside a byte buffer by
//! comparing it against every window of its own length.

pub mod element;
pub mod laws;
pub mod notation;
pub mod occurrences;
pub mod search;
pub mod signature;
pub mod text;

pub use element::PatternElement;
pub use notation::MalformedToken;
pub use occurrences::Occurrences;
pub use signature::Signature;
