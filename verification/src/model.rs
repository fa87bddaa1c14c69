//! The mathematical model of an arena's storage.
//!
//! An arena keeps its elements in chunks. The chunks in `rest` are frozen:
//! nothing is ever added to them, taken from them or moved within them again.
//! The chunk `current` is the only one that is appended to, and only up to
//! `capacity`, the number of elements it was sized for. When it cannot take
//! what is asked of it, it is frozen as it stands and a larger chunk takes its
//! place.
//!
//! A slot is a pair of positions: that of a chunk, counted through `rest` with
//! `current` last, and that of an element within the chunk. A reference into an
//! arena stays good for as long as the slot it points to keeps its place and
//! its value: [`Chunks::keeps`] says so of every slot at once.

use crate::capacity::{grown_capacity, lemma_grown_capacity_bounds};
use vstd::prelude::*;

verus! {

/// The chunks of an arena with elements of type `T`.
#[verifier::ext_equal]
pub struct Chunks<T> {
    /// The frozen chunks, oldest first.
    pub rest: Seq<Seq<T>>,
    /// The chunk that allocation appends to.
    pub current: Seq<T>,
    /// The number of elements that `current` was sized for.
    pub capacity: nat,
}

impl<T> Chunks<T> {
    /// Storage that holds nothing, with a first chunk of the given capacity.
    pub open spec fn empty(capacity: nat) -> Self {
        Chunks { rest: Seq::empty(), current: Seq::empty(), capacity }
    }

    /// The current chunk has a capacity and is within it.
    pub open spec fn wf(self) -> bool {
        &&& self.capacity >= 1
        &&& self.current.len() <= self.capacity
    }

    /// The element count and the capacity fit in `usize`.
    pub open spec fn bounded(self) -> bool {
        &&& self.len() <= usize::MAX
        &&& self.capacity <= usize::MAX
    }

    /// All chunks in order: the frozen ones, then the current one.
    pub open spec fn chunks(self) -> Seq<Seq<T>> {
        self.rest.push(self.current)
    }

    /// Every element, in the order of allocation.
    pub open spec fn contents(self) -> Seq<T> {
        self.rest.flatten() + self.current
    }

    /// The number of elements.
    pub open spec fn len(self) -> nat {
        self.contents().len()
    }

    /// The number of elements that the current chunk can still take.
    pub open spec fn room(self) -> nat {
        (self.capacity - self.current.len()) as nat
    }

    /// The slot `(chunk, element)` is occupied.
    pub open spec fn holds(self, chunk: int, element: int) -> bool {
        &&& 0 <= chunk < self.chunks().len()
        &&& 0 <= element < self.chunks()[chunk].len()
    }

    /// The value in the slot `(chunk, element)`.
    pub open spec fn at(self, chunk: int, element: int) -> T
        recommends
            self.holds(chunk, element),
    {
        self.chunks()[chunk][element]
    }

    /// Every slot that `earlier` holds is held here too, with the same value:
    /// nothing that `earlier` stored has moved, changed or gone.
    pub open spec fn keeps(self, earlier: Self) -> bool {
        forall|chunk: int, element: int| #[trigger]
            earlier.holds(chunk, element) ==> self.holds(chunk, element) && self.at(
                chunk,
                element,
            ) == earlier.at(chunk, element)
    }

    /// The current chunk is frozen as it stands, and an empty one of the grown
    /// capacity takes its place.
    pub open spec fn reserve(self, additional: nat) -> Self {
        Chunks {
            rest: self.rest.push(self.current),
            current: Seq::empty(),
            capacity: grown_capacity(self.capacity, additional),
        }
    }

    /// The capacity that `reserve(additional)` asks for fits in `usize`.
    pub open spec fn can_reserve(self, additional: nat) -> bool {
        grown_capacity(self.capacity, additional) <= usize::MAX
    }

    /// The same chunks, the current one sized for at least `n` elements.
    pub open spec fn sized_for(self, n: nat) -> Self {
        Chunks { capacity: if n > self.capacity { n } else { self.capacity }, ..self }
    }

    /// The same chunks, with `items` appended to the current one.
    pub open spec fn fill(self, items: Seq<T>) -> Self {
        Chunks { current: self.current + items, ..self }
    }

    /// The slot that the next single allocation fills.
    pub open spec fn next_slot(self) -> (int, int) {
        if self.room() > 0 {
            (self.rest.len() as int, self.current.len() as int)
        } else {
            (self.rest.len() as int + 1, 0int)
        }
    }

    /// One element is allocated: in the current chunk where it has room, else
    /// in a new chunk of twice the capacity.
    pub open spec fn allocate(self, value: T) -> Self {
        if self.room() > 0 {
            self.fill(seq![value])
        } else {
            self.reserve(1).fill(seq![value])
        }
    }

    /// A single allocation neither overflows the element count nor asks for a
    /// capacity that does not fit.
    pub open spec fn can_allocate(self) -> bool {
        &&& self.len() < usize::MAX
        &&& self.room() == 0 ==> self.can_reserve(1)
    }

    /// Room is made for a batch of `n` elements that announced at least
    /// `min_len`.
    ///
    /// Where the announced length is more than the current chunk has room for, a
    /// new chunk is made for it at once. Where the batch fits, nothing changes.
    /// Where the batch turns out to be longer than there is room for, the new
    /// chunk is asked for when the current one is full, for one element more
    /// than it had room for. A new chunk takes the whole batch, so it is sized
    /// for `n` at least.
    pub open spec fn make_room(self, min_len: nat, n: nat) -> Self {
        if min_len > self.room() {
            self.reserve(min_len).sized_for(n)
        } else if n <= self.room() {
            self
        } else {
            self.reserve(self.room() + 1).sized_for(n)
        }
    }

    /// A batch is allocated: room is made for it, and it goes into the current
    /// chunk in one piece.
    pub open spec fn alloc_extend(self, min_len: nat, items: Seq<T>) -> Self {
        self.make_room(min_len, items.len()).fill(items)
    }

    /// A batch of `n` elements that announced at least `min_len` neither
    /// overflows the element count nor asks for a capacity that does not fit.
    pub open spec fn can_alloc_extend(self, min_len: nat, n: nat) -> bool {
        &&& self.len() + n <= usize::MAX
        &&& min_len > self.room() ==> self.can_reserve(min_len)
        &&& min_len <= self.room() && n > self.room() ==> self.can_reserve(self.room() + 1)
    }

    /// The announced length as far as it can be acted on: one that asks for a
    /// capacity that does not fit counts as no announcement.
    pub open spec fn usable_hint(self, min_len: nat) -> nat {
        if min_len <= self.room() || self.can_reserve(min_len) {
            min_len
        } else {
            0
        }
    }

    /// `keeps` carries over: what keeps storage that keeps a third keeps the
    /// third.
    pub proof fn lemma_keeps_carries_over(self, middle: Self, earlier: Self)
        requires
            self.keeps(middle),
            middle.keeps(earlier),
        ensures
            self.keeps(earlier),
    {
    }

    /// Appending to the current chunk moves nothing and keeps the order.
    pub proof fn lemma_fill(self, items: Seq<T>)
        ensures
            self.fill(items).keeps(self),
            self.fill(items).contents() == self.contents() + items,
            self.fill(items).len() == self.len() + items.len(),
    {
    }

    /// Freezing the current chunk moves nothing, keeps the order, and at least
    /// doubles the capacity.
    pub proof fn lemma_reserve(self, additional: nat)
        requires
            self.wf(),
        ensures
            self.reserve(additional).wf(),
            self.reserve(additional).keeps(self),
            self.reserve(additional).contents() == self.contents(),
            self.reserve(additional).capacity >= 2 * self.capacity,
            self.reserve(additional).capacity >= additional,
            self.reserve(additional).room() == self.reserve(additional).capacity,
    {
        broadcast use Seq::lemma_flatten_push;

        lemma_grown_capacity_bounds(self.capacity, additional);
    }

    /// A single allocation moves nothing, puts the value last, and puts it in
    /// a slot that was free.
    pub proof fn lemma_allocate(self, value: T)
        requires
            self.wf(),
        ensures
            self.allocate(value).wf(),
            self.allocate(value).keeps(self),
            self.allocate(value).contents() == self.contents().push(value),
            self.allocate(value).len() == self.len() + 1,
            !self.holds(self.next_slot().0, self.next_slot().1),
            self.allocate(value).holds(self.next_slot().0, self.next_slot().1),
            self.allocate(value).at(self.next_slot().0, self.next_slot().1) == value,
            self.next_slot() == (
                self.allocate(value).rest.len() as int,
                self.allocate(value).current.len() - 1,
            ),
    {
        let one = seq![value];
        if self.room() > 0 {
            self.lemma_fill(one);
        } else {
            let grown = self.reserve(1);
            self.lemma_reserve(1);
            grown.lemma_fill(one);
            self.allocate(value).lemma_keeps_carries_over(grown, self);
        }
    }

    /// Making room moves nothing and keeps the order; afterwards the current
    /// chunk has room for the batch.
    pub proof fn lemma_make_room(self, min_len: nat, n: nat)
        requires
            self.wf(),
        ensures
            self.make_room(min_len, n).wf(),
            self.make_room(min_len, n).keeps(self),
            self.make_room(min_len, n).contents() == self.contents(),
            self.make_room(min_len, n).room() >= n,
            self.make_room(min_len, n).capacity >= self.capacity,
    {
        if min_len > self.room() {
            self.lemma_reserve(min_len);
        } else if n > self.room() {
            self.lemma_reserve(self.room() + 1);
        }
    }

    /// A batch allocation moves nothing that was there and puts the batch
    /// last, in order and in one piece.
    pub proof fn lemma_alloc_extend(self, min_len: nat, items: Seq<T>)
        requires
            self.wf(),
        ensures
            self.alloc_extend(min_len, items).wf(),
            self.alloc_extend(min_len, items).keeps(self),
            self.alloc_extend(min_len, items).contents() == self.contents() + items,
            self.alloc_extend(min_len, items).len() == self.len() + items.len(),
            self.alloc_extend(min_len, items).current.len() >= items.len(),
            self.alloc_extend(min_len, items).current.subrange(
                self.alloc_extend(min_len, items).current.len() - items.len(),
                self.alloc_extend(min_len, items).current.len() as int,
            ) == items,
    {
        let roomy = self.make_room(min_len, items.len());
        self.lemma_make_room(min_len, items.len());
        roomy.lemma_fill(items);
        let done = self.alloc_extend(min_len, items);
        done.lemma_keeps_carries_over(roomy, self);
    }
}

} // verus!
