//! An append-only, reference-counted byte buffer backed by a fixed-block pool.
//!
//! One `AppendBuf` writer fills a fixed-capacity block obtained from a `Pool`;
//! any number of `Slice` views expose committed prefixes and sub-ranges of the
//! same block. Every handle holds one claim on the block; the block returns to
//! the pool exactly when the last claim is released.

pub mod laws;
pub mod pool;
pub mod slice;
pub mod writer;

pub use pool::{AllocError, Pool, HEADER_SIZE};
pub use slice::Slice;
pub use writer::AppendBuf;
