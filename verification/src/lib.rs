//! A bump-allocating arena.
//!
//! An arena owns the values allocated in it. It allocates by appending to a
//! chunk, never frees or moves a value while it lives, and drops all of them
//! together when it is dropped. When a chunk is full it is frozen as it
//! stands, and a chunk of at least twice the capacity takes its place.
//!
//! - [`Arena`] allocates single values and batches, and hands out mutable
//!   references to them.
//! - [`ImmutableArena`] allocates single values and hands out an [`Index`] for
//!   each, through which the value is read.
//! - [`model`] is what both are specified by: the chunks as sequences, and
//!   what each allocation does to them.
//! - [`laws`] states what holds of the model over any run of allocations:
//!   nothing moves, nothing is lost, and the order of allocation is kept.
//! - [`capacity`] is the arithmetic by which chunks grow.
//!
//! ```
//! use typed_arena::Arena;
//!
//! struct Monster {
//!     level: u32,
//! }
//!
//! let mut monsters = Arena::new();
//!
//! let vegeta = monsters.allocate(Monster { level: 9001 });
//! assert!(vegeta.level > 9000);
//! ```

pub mod arena;
pub mod capacity;
pub mod immutable_arena;
pub mod laws;
pub mod model;

pub use arena::Arena;
pub use immutable_arena::{ImmutableArena, Index};
