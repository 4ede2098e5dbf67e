//! Fallible, short-circuiting variants of the standard sequence scans.
//!
//! The ordinary `all` / `any` / `position` / `rposition` scans require the
//! predicate to return a plain boolean.  Here the predicate is fallible: it
//! may fail with an error of a caller-chosen type instead of producing a
//! boolean, and the first such failure halts the scan and is propagated
//! verbatim to the caller.

pub mod adapters;
pub mod laws;
pub mod try_iterator;

pub use adapters::enumerate;
pub use adapters::Chained;
pub use adapters::Reversed;
pub use adapters::Skipped;
pub use adapters::SliceTryIter;
pub use adapters::Taken;
pub use adapters::VecTryIter;
pub use try_iterator::TryIterator;
pub use try_iterator::TryReverseIterator;
