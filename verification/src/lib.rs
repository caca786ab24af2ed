//! A bounded-depth parallel merge sort over `u64` sequences, together with
//! the small benchmark-subject types built around it.
//!
//! The sort splits its input recursively down to a configurable fork depth,
//! runs the two halves of every split as a fork-join pair, and merges the
//! sorted halves back while the roles of the two working buffers alternate
//! at every level of the recursion.

pub mod life;
pub mod merge_sort;
