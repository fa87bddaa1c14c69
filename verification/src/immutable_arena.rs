//! An arena that hands out indices in place of references.
//!
//! An [`Index`] names the slot in which a value was allocated. A slot never
//! moves and never changes its value, so an index stays good for as long as
//! the arena lives, and any number of shared references may be had through it.

use crate::arena::Arena;
use crate::capacity::{default_capacity_hint, initial_capacity};
use crate::model::Chunks;
use vstd::prelude::*;

verus! {

/// The index of a value in an [`ImmutableArena`].
///
/// It is good for the arena that gave it out and for no other.
#[derive(Debug, Clone, Copy, PartialEq, Eq, Structural, PartialOrd, Ord, Hash)]
pub struct Index {
    /// The position of the chunk among the frozen ones; one past the last of
    /// them for the current chunk, which will be frozen at that position.
    chunk: usize,
    /// The position of the element within the chunk.
    element: usize,
}

impl View for Index {
    type V = (int, int);

    /// The slot that the index names: chunk position, element position.
    closed spec fn view(&self) -> (int, int) {
        (self.chunk as int, self.element as int)
    }
}

impl Index {
    /// Constructs an index from its raw parts, as [`Index::into_raw_parts`]
    /// gives them.
    pub fn from_raw_parts(a: usize, b: usize) -> (index: Index)
        ensures
            index@ == (a as int, b as int),
    {
        Index { chunk: a, element: b }
    }

    /// Converts the index into its raw parts: chunk position, element
    /// position.
    pub fn into_raw_parts(self) -> (parts: (usize, usize))
        ensures
            self@ == (parts.0 as int, parts.1 as int),
    {
        (self.chunk, self.element)
    }

    /// An index is no more than the slot it names: two that name the same slot
    /// are the same index.
    pub proof fn lemma_same_slot_same_index(self, other: Index)
        requires
            self@ == other@,
        ensures
            self == other,
    {
    }
}

/// An arena whose values are reached through an [`Index`] and never handed out
/// mutably.
pub struct ImmutableArena<T> {
    inner: Arena<T>,
}

impl<T> View for ImmutableArena<T> {
    type V = Chunks<T>;

    closed spec fn view(&self) -> Chunks<T> {
        self.inner@
    }
}

impl<T> ImmutableArena<T> {
    /// The arena's invariant: that of the [`Arena`] within.
    pub open spec fn wf(&self) -> bool {
        &&& self@.wf()
        &&& self@.bounded()
    }

    /// Constructs an empty arena, sized as [`Arena::new`] sizes it.
    pub fn new() -> (arena: ImmutableArena<T>)
        ensures
            arena.wf(),
            arena@ == Chunks::<T>::empty(
                initial_capacity(default_capacity_hint(vstd::layout::size_of::<T>())),
            ),
    {
        ImmutableArena { inner: Arena::new() }
    }

    /// Constructs an empty arena whose first chunk has room for `n` values,
    /// and for one value where `n` is 0.
    pub fn with_capacity(n: usize) -> (arena: ImmutableArena<T>)
        ensures
            arena.wf(),
            arena@ == Chunks::<T>::empty(initial_capacity(n as nat)),
    {
        ImmutableArena { inner: Arena::with_capacity(n) }
    }

    /// The number of values allocated in the arena.
    pub fn len(&self) -> (n: usize)
        requires
            self.wf(),
        ensures
            n == self@.len(),
    {
        self.inner.len()
    }

    /// Converts the arena into a `Vec<T>` that holds the values in the order
    /// in which they were allocated.
    pub fn into_vec(self) -> (items: Vec<T>)
        requires
            self.wf(),
        ensures
            items@ == self@.contents(),
    {
        self.inner.into_vec()
    }

    /// Whether [`ImmutableArena::allocate`] may be called.
    pub fn can_allocate(&self) -> (ok: bool)
        requires
            self.wf(),
        ensures
            ok == self@.can_allocate(),
    {
        self.inner.can_allocate()
    }

    /// Allocates a value in the arena and returns the index of its slot.
    pub fn allocate(&mut self, value: T) -> (index: Index)
        requires
            old(self).wf(),
            old(self)@.can_allocate(),
        ensures
            final(self).wf(),
            final(self)@ == old(self)@.allocate(value),
            final(self)@.keeps(old(self)@),
            final(self)@.contents() == old(self)@.contents().push(value),
            index@ == old(self)@.next_slot(),
            !old(self)@.holds(index@.0, index@.1),
            final(self)@.holds(index@.0, index@.1),
            final(self)@.at(index@.0, index@.1) == value,
    {
        proof {
            self@.lemma_allocate(value);
        }
        // The reference is dropped here: no value of this arena is ever
        // handed out mutably.
        self.inner.allocate(value);
        Index { chunk: self.inner.filled_chunks(), element: self.inner.current_len() - 1 }
    }

    /// Whether the index names a slot of this arena that holds a value.
    pub fn contains(&self, index: Index) -> (held: bool)
        ensures
            held == self@.holds(index@.0, index@.1),
    {
        self.inner.holds(index.chunk, index.element)
    }

    /// Returns a shared reference to the value that was allocated at `index`.
    pub fn get(&self, index: Index) -> (value: &T)
        requires
            self@.holds(index@.0, index@.1),
        ensures
            *value == self@.at(index@.0, index@.1),
    {
        self.inner.slot(index.chunk, index.element)
    }
}

impl<T> Default for ImmutableArena<T> {
    fn default() -> (arena: Self)
        ensures
            arena.wf(),
            arena@ == Chunks::<T>::empty(
                initial_capacity(default_capacity_hint(vstd::layout::size_of::<T>())),
            ),
    {
        Self::new()
    }
}

} // verus!
