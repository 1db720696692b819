//! Concatenation of a stream of containers into one container.
//!
//! A stream hands out containers one at a time and may, between two of them,
//! report that the next one is not ready yet. [`Concat`] is the state of a
//! future that merges every container the stream hands out, in the order of
//! their arrival, and yields the merged container once the stream has ended.
//!
//! The crate holds the decisions of that future: [`Concat::poll`] takes what
//! the stream answered and says what the driver of the future does next. The
//! driver itself, which asks the stream and suspends the task, stays with the
//! caller.

pub mod concat;
pub mod container;
pub mod laws;

pub use crate::concat::{Advance, Concat, ConcatView, Pulled};
pub use crate::container::Container;
