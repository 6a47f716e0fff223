//! Bounded-memory stream extraction in the manner of `head`: the first or
//! all-but-last N lines or bytes of a stream, the numeric counts that select
//! them, and the per-source header and failure bookkeeping of a multi-source run.
//! A small companion module builds the block that `yes` repeats.

pub mod window;
pub mod number;
pub mod stream;
pub mod extract;
pub mod driver;
pub mod repeat;
pub mod laws;
