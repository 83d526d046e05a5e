//! Collecting the items of an iterator into fixed-size arrays.
//!
//! The conversions take the first `N` items of an iterator into an `[T; N]`,
//! with a choice of what happens when the iterator holds fewer or more than
//! `N` items: an error, a default value, a clone of a given value, or values
//! from a padding function. `ChunksIter` cuts an iterator into successive
//! arrays of `N` items, padding only the last one.

mod buffer;
pub mod padding;
pub mod chunks;
pub mod convert;
pub mod error;

pub use chunks::{Chunks, ChunksDefault, ChunksIter};
pub use convert::{ToArray, ToArrayDefault, ToArrayPad};
pub use error::{MaybePartial, ToArrayError};
pub use padding::{DefaultPad, Padding};
