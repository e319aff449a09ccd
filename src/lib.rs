//! A typed arena: it hands out objects of one type `T`, keeps each of them at a
//! fixed place until the arena itself is dropped, and frees them all at once.
//!
//! Objects live in chunks. An allocation is written into the current chunk; when
//! the batch does not fit, a new, larger chunk is started and the old one is kept
//! untouched. An allocation returns a handle (`Slot` or `Span`) that names the
//! chunk and the position, and stays valid for the life of the arena.

use vstd::prelude::*;

pub mod capacity;
pub mod chunk_list;
pub mod single;
pub mod sync;
pub mod unsync;

verus! {

/// The size, in bytes, that a new arena without a given capacity aims at.
pub const INITIAL_SIZE: usize = 1024;

/// The smallest capacity of a chunk.
pub const MIN_CAPACITY: usize = 1;

} // verus!
