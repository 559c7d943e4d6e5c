//! A small numeric-range library: ranges over the fixed-width integer types,
//! built from several caller-facing shapes (closed, half-open, open-start,
//! with or without a stride) and normalized to one canonical representation
//! with an inclusive upper bound, which then answers containment queries and
//! enumerates its elements in ascending order.

pub mod elem;
pub mod range;

pub use elem::RangeElem;
pub use range::OneRange;
pub use range::Step;
