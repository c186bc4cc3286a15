//! A fixed-capacity, overwrite-on-full time series buffer.
//!
//! The buffer holds at most `capacity` elements and exposes them newest
//! first. Insertion and head access are constant-time: the backing store
//! has `2 * capacity` slots, and every write lands in two slots that are
//! `capacity` apart, so the live window `[head, head + length)` is always
//! a contiguous, non-wrapping run of the store.

mod buffer;
mod laws;

pub use buffer::pushed_view;
pub use buffer::TimeseriesError;
pub use buffer::TimeseriesImpl;
pub use laws::lemma_capacity_bound;
pub use laws::lemma_eviction;
pub use laws::lemma_under_capacity_growth;
pub use laws::lemma_view_after_pushes;
pub use laws::view_after_pushes;
