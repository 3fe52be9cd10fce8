//! Lazy merge of two sorted sequences of `(key, value)` pairs.
//!
//! Each input is individually sorted in strictly ascending key order; the
//! merged output is again strictly ascending, with one entry per distinct
//! key. A key present in only one input passes its value through unchanged;
//! a key present in both is reduced by a caller-supplied combining function,
//! always invoked with the left value first.
//!
//! Inputs are not checked for sortedness: the ordering and deduplication
//! guarantees stated in the contracts are conditioned on sorted inputs.

pub mod lookahead;
pub mod merge;
pub mod merge_pairs_ext;
pub mod model;
pub mod order;
pub mod source;

pub use lookahead::Lookahead;
pub use merge::MergePair;
pub use merge::MergePairs;
pub use merge_pairs_ext::MergePairsExt;

pub use order::Cmp;
pub use order::TotalOrdered;
pub use source::SortedPairs;
