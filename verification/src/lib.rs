//! A bloom filter over strings, sized from an expected item count and a
//! target false-positive rate.
//!
//! The filter never reports an inserted item absent; it may report an item
//! present that was never inserted. Items cannot be removed, and the filter
//! does not grow.
//!
//! - [`number`]: the two parameters as callers give them, binary64 patterns
//!   judged with integer arithmetic.
//! - [`state`]: what a filter is, as a mathematical value, and the laws that
//!   insertion and membership checks obey.
//! - [`engine`]: the bit array and the hashing, supplied by `fastbloom`; the
//!   statements about it that the proofs rest on.
//! - [`filter`]: the filter itself.

pub mod engine;
pub mod filter;
pub mod number;
pub mod state;

pub use filter::expected_items;
pub use filter::BloomFilter;
pub use filter::ConstructionError;
pub use number::Number;
pub use state::FilterState;
