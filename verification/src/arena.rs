//! The arena: allocation into chunks that never move what they hold.

use crate::capacity::{
    checked_grown_capacity, checked_next_power_of_two, default_capacity_hint, initial_capacity,
    lemma_next_power_of_two_covers, INITIAL_SIZE, MIN_CAPACITY,
};
use crate::model::Chunks;
use vstd::prelude::*;
use vstd::std_specs::iter::IteratorSpec;

verus! {

/// The chunks themselves.
///
/// `capacity` is the room that `current` was made with. The buffer may have
/// been given more; what counts here is only what was asked for. Once a
/// reference into `current` is out, nothing is pushed beyond `capacity`, so
/// the buffer is never reallocated and the values in it stay where they are.
/// The chunks in `rest` are not touched at all.
struct ChunkList<T> {
    current: Vec<T>,
    rest: Vec<Vec<T>>,
    capacity: usize,
}

/// An arena of objects of type `T`.
///
/// The arena owns every value allocated in it and drops them together when it
/// is dropped, unless [`Arena::into_vec`] takes them out first.
pub struct Arena<T> {
    chunks: ChunkList<T>,
}

impl<T> View for ChunkList<T> {
    type V = Chunks<T>;

    closed spec fn view(&self) -> Chunks<T> {
        Chunks {
            rest: self.rest@.map_values(|chunk: Vec<T>| chunk@),
            current: self.current@,
            capacity: self.capacity as nat,
        }
    }
}

impl<T> View for Arena<T> {
    type V = Chunks<T>;

    closed spec fn view(&self) -> Chunks<T> {
        self.chunks@
    }
}

impl<T> ChunkList<T> {
    /// An empty chunk list whose current chunk has room for `capacity`
    /// elements.
    fn with_capacity(capacity: usize) -> (chunks: ChunkList<T>)
        ensures
            chunks@ == Chunks::<T>::empty(capacity as nat),
    {
        ChunkList { current: Vec::with_capacity(capacity), rest: Vec::new(), capacity }
    }

    /// Freezes the current chunk and puts an empty one of the grown capacity in
    /// its place.
    fn reserve(&mut self, additional: usize)
        requires
            old(self)@.can_reserve(additional as nat),
        ensures
            final(self)@ == old(self)@.reserve(additional as nat),
    {
        let double_cap: usize = self.capacity.checked_mul(2).expect("capacity overflow");
        let required_cap: usize = checked_next_power_of_two(additional).expect(
            "capacity overflow",
        );
        let new_capacity: usize = if double_cap >= required_cap {
            double_cap
        } else {
            required_cap
        };
        let mut chunk: Vec<T> = Vec::with_capacity(new_capacity);
        core::mem::swap(&mut self.current, &mut chunk);
        self.rest.push(chunk);
        self.capacity = new_capacity;
    }

    /// Moves the last `count` elements of the chunk frozen last back into the
    /// current chunk, behind what that holds.
    fn take_back(&mut self, count: usize)
        requires
            old(self)@.rest.len() > 0,
            count <= old(self)@.rest.last().len(),
        ensures
            final(self)@ == (Chunks {
                rest: old(self)@.rest.drop_last().push(
                    old(self)@.rest.last().take(old(self)@.rest.last().len() - count),
                ),
                current: old(self)@.current + old(self)@.rest.last().skip(
                    old(self)@.rest.last().len() - count,
                ),
                capacity: old(self)@.capacity,
            }),
    {
        let last: usize = self.rest.len() - 1;
        let previous = &mut self.rest[last];
        let at: usize = previous.len() - count;
        let mut moved = previous.split_off(at);
        self.current.append(&mut moved);
    }
}

/// Appends everything that the iterator yields to the chunk.
fn extend_from_iter<T, I: Iterator<Item = T>>(chunk: &mut Vec<T>, iter: I)
    requires
        iter.obeys_prophetic_iter_laws(),
        iter.decrease() is Some,
    ensures
        final(chunk)@ == old(chunk)@ + iter.remaining(),
{
    let mut iter = iter;
    let ghost items = iter.remaining();
    loop
        invariant
            iter.obeys_prophetic_iter_laws(),
            iter.decrease() is Some,
            chunk@ + iter.remaining() == old(chunk)@ + items,
        ensures
            chunk@ == old(chunk)@ + items,
        decreases iter.decrease()->0,
    {
        match iter.next() {
            Some(item) => {
                chunk.push(item);
            },
            None => {
                break ;
            },
        }
    }
}

/// The chunk from `start` on, as a mutable slice.
fn tail_mut<T>(chunk: &mut Vec<T>, start: usize) -> (tail: &mut [T])
    requires
        start <= old(chunk)@.len(),
    ensures
        tail@ == old(chunk)@.skip(start as int),
        final(chunk)@ == old(chunk)@.take(start as int) + final(tail)@,
{
    let whole = chunk.as_mut_slice();
    let (_, tail) = whole.split_at_mut(start);
    tail
}

/// The least number of elements that the iterator says it will yield: the
/// lower bound of `Iterator::size_hint`. An iterator may announce any number,
/// whatever it goes on to yield, so nothing is claimed of the result.
#[verifier::external_body]
fn announced_len<I: Iterator>(iter: &I) -> (min_len: usize) {
    iter.size_hint().0
}

/// The elements of the first `count` chunks, in order.
spec fn flat_prefix<T>(chunks: Seq<Seq<T>>, count: int) -> Seq<T> {
    chunks.take(count).flatten()
}

/// Taking one more chunk appends that chunk, and no prefix is longer than the
/// whole.
proof fn lemma_flat_prefix<T>(chunks: Seq<Seq<T>>, count: int)
    requires
        0 <= count <= chunks.len(),
    ensures
        flat_prefix(chunks, count).len() <= chunks.flatten().len(),
        count < chunks.len() ==> flat_prefix(chunks, count + 1) == flat_prefix(chunks, count)
            + chunks[count],
        flat_prefix(chunks, 0) == Seq::<T>::empty(),
        flat_prefix(chunks, chunks.len() as int) == chunks.flatten(),
{
    broadcast use Seq::lemma_flatten_push;

    vstd::seq_lib::lemma_flatten_concat(chunks.take(count), chunks.skip(count));
    assert(chunks.take(count) + chunks.skip(count) == chunks);
    if count < chunks.len() {
        assert(chunks.take(count + 1) == chunks.take(count).push(chunks[count]));
    }
    assert(chunks.take(chunks.len() as int) == chunks);
}

impl<T> Arena<T> {
    /// The arena's invariant: the current chunk is within its capacity, and
    /// the element count fits in `usize`.
    pub open spec fn wf(&self) -> bool {
        &&& self@.wf()
        &&& self@.bounded()
    }

    /// Constructs an empty arena whose first chunk takes about
    /// [`INITIAL_SIZE`] bytes.
    pub fn new() -> (arena: Arena<T>)
        ensures
            arena.wf(),
            arena@ == Chunks::<T>::empty(
                initial_capacity(default_capacity_hint(vstd::layout::size_of::<T>())),
            ),
    {
        let size: usize = core::mem::size_of::<T>();
        let size: usize = if size >= 1 {
            size
        } else {
            1
        };
        Arena::with_capacity(INITIAL_SIZE / size)
    }

    /// Constructs an empty arena whose first chunk has room for `n` values,
    /// and for one value where `n` is 0.
    pub fn with_capacity(n: usize) -> (arena: Arena<T>)
        ensures
            arena.wf(),
            arena@ == Chunks::<T>::empty(initial_capacity(n as nat)),
    {
        let n: usize = if n >= MIN_CAPACITY {
            n
        } else {
            MIN_CAPACITY
        };
        Arena { chunks: ChunkList::with_capacity(n) }
    }

    /// Allocates a value in the arena and returns a mutable reference to it.
    ///
    /// The value goes into the current chunk; where that is full, into a new
    /// chunk of twice its capacity. What the arena holds afterwards is what it
    /// held, with whatever the caller leaves behind the reference in last place.
    pub fn allocate(&mut self, value: T) -> (slot: &mut T)
        requires
            old(self).wf(),
            old(self)@.can_allocate(),
        ensures
            *slot == value,
            final(self)@ == old(self)@.allocate(*final(slot)),
            final(self)@.keeps(old(self)@),
            final(self)@.contents() == old(self)@.contents().push(*final(slot)),
            final(self).wf(),
    {
        if self.chunks.current.len() == self.chunks.capacity {
            self.chunks.reserve(1);
        }
        self.chunks.current.push(value);
        let last: usize = self.chunks.current.len() - 1;
        let slot = &mut self.chunks.current[last];
        proof {
            old(self)@.lemma_allocate(*final(slot));
        }
        slot
    }

    /// Allocates everything that the iterator yields, in order and in one
    /// piece, and returns it as a mutable slice. `min_len` is the length that
    /// the batch announced; the batch may turn out shorter or longer.
    ///
    /// Where the announced length is more than the current chunk has room for,
    /// a new chunk is made first. Otherwise the elements go into the current
    /// chunk one by one. If it fills up before the batch ends, a new chunk is
    /// made, the elements of this batch move over into it, and the rest of the
    /// batch follows them: no reference to them is out yet, and nothing
    /// allocated earlier is touched.
    pub fn alloc_extend_with_hint<I: Iterator<Item = T>>(&mut self, min_len: usize, iter: I) -> (slice:
        &mut [T])
        requires
            old(self).wf(),
            iter.obeys_prophetic_iter_laws(),
            iter.decrease() is Some,
            old(self)@.can_alloc_extend(min_len as nat, iter.remaining().len()),
        ensures
            slice@ == iter.remaining(),
            final(self)@ == old(self)@.make_room(min_len as nat, slice@.len()).fill(final(slice)@),
            final(self)@.keeps(old(self)@),
            final(self)@.contents() == old(self)@.contents() + final(slice)@,
            final(slice)@.len() == slice@.len() ==> final(self).wf(),
    {
        let mut iter = iter;
        let ghost items = iter.remaining();
        let ghost before = self@;
        let room: usize = self.chunks.capacity - self.chunks.current.len();
        let mut start: usize = self.chunks.current.len();
        let mut fresh: bool = false;
        if min_len > room {
            self.chunks.reserve(min_len);
            fresh = true;
        } else {
            let mut pushed: usize = 0;
            loop
                invariant_except_break
                    !fresh,
                    pushed <= room,
                    pushed <= items.len(),
                    self@ == before.fill(items.take(pushed as int)),
                    iter.remaining() == items.skip(pushed as int),
                invariant
                    iter.obeys_prophetic_iter_laws(),
                    iter.decrease() is Some,
                    before.wf(),
                    before.bounded(),
                    before.can_alloc_extend(min_len as nat, items.len()),
                    room == before.room(),
                    min_len <= room,
                ensures
                    !fresh ==> items.len() <= room && self@ == before.fill(items),
                    fresh ==> items.len() > room && self@ == before.reserve(room as nat + 1).fill(
                        items.take(room + 1),
                    ) && iter.remaining() == items.skip(room + 1),
                decreases iter.decrease()->0,
            {
                match iter.next() {
                    None => {
                        break ;
                    },
                    Some(item) => {
                        if self.chunks.current.len() == self.chunks.capacity {
                            proof {
                                lemma_next_power_of_two_covers(room as nat + 1);
                            }
                            let ghost early = items.take(pushed as int);
                            let ghost full = before.current + early;
                            self.chunks.reserve(pushed + 1);
                            assert(full.take(full.len() - pushed) == before.current);
                            self.chunks.take_back(pushed);
                            self.chunks.current.push(item);
                            fresh = true;
                            break ;
                        }
                        self.chunks.current.push(item);
                        pushed = pushed + 1;
                    },
                }
            }
        }
        if fresh {
            extend_from_iter(&mut self.chunks.current, iter);
            if self.chunks.current.len() > self.chunks.capacity {
                self.chunks.capacity = self.chunks.current.len();
            }
            start = 0;
        }
        proof {
            before.lemma_make_room(min_len as nat, items.len());
        }
        let slice = tail_mut(&mut self.chunks.current, start);
        proof {
            before.lemma_alloc_extend(min_len as nat, final(slice)@);
        }
        slice
    }

    /// Allocates everything that the iterator yields, in order and in one
    /// piece, and returns it as a mutable slice.
    ///
    /// The length that the iterator announces decides, as in
    /// [`Arena::alloc_extend_with_hint`], whether a new chunk is made up front.
    /// It is not trusted: the batch may be shorter or longer, and an announced
    /// length that asks for a capacity beyond `usize` is passed over.
    pub fn alloc_extend<I: Iterator<Item = T>>(&mut self, iter: I) -> (slice: &mut [T])
        requires
            old(self).wf(),
            iter.obeys_prophetic_iter_laws(),
            iter.decrease() is Some,
            old(self)@.can_alloc_extend(0, iter.remaining().len()),
        ensures
            slice@ == iter.remaining(),
            exists|announced: nat|
                final(self)@ == old(self)@.make_room(
                    #[trigger] old(self)@.usable_hint(announced),
                    slice@.len(),
                ).fill(final(slice)@),
            final(self)@.keeps(old(self)@),
            final(self)@.contents() == old(self)@.contents() + final(slice)@,
            final(slice)@.len() == slice@.len() ==> final(self).wf(),
    {
        let announced: usize = announced_len(&iter);
        let room: usize = self.chunks.capacity - self.chunks.current.len();
        let min_len: usize = if announced <= room || checked_grown_capacity(
            self.chunks.capacity,
            announced,
        ).is_some() {
            announced
        } else {
            0
        };
        assert(min_len == old(self)@.usable_hint(announced as nat));
        self.alloc_extend_with_hint(min_len, iter)
    }

    /// Makes sure that the current chunk has room for `additional` more
    /// values in one piece, with a new chunk where it has not.
    pub fn reserve_extend(&mut self, additional: usize)
        requires
            old(self).wf(),
            additional > old(self)@.room() ==> old(self)@.can_reserve(additional as nat),
        ensures
            final(self).wf(),
            final(self)@ == if additional > old(self)@.room() {
                old(self)@.reserve(additional as nat)
            } else {
                old(self)@
            },
            final(self)@.room() >= additional,
    {
        if additional > self.chunks.capacity - self.chunks.current.len() {
            proof {
                self@.lemma_reserve(additional as nat);
            }
            self.chunks.reserve(additional);
        }
    }

    /// Whether [`Arena::allocate`] may be called.
    pub fn can_allocate(&self) -> (ok: bool)
        requires
            self.wf(),
        ensures
            ok == self@.can_allocate(),
    {
        if self.len() == usize::MAX {
            false
        } else if self.chunks.current.len() == self.chunks.capacity {
            checked_grown_capacity(self.chunks.capacity, 1).is_some()
        } else {
            true
        }
    }

    /// Whether [`Arena::alloc_extend_with_hint`] may be called with a batch of
    /// `n` elements that announced `min_len`.
    pub fn can_alloc_extend(&self, min_len: usize, n: usize) -> (ok: bool)
        requires
            self.wf(),
        ensures
            ok == self@.can_alloc_extend(min_len as nat, n as nat),
    {
        let room: usize = self.chunks.capacity - self.chunks.current.len();
        if n > usize::MAX - self.len() {
            false
        } else if min_len > room {
            checked_grown_capacity(self.chunks.capacity, min_len).is_some()
        } else if n > room {
            proof {
                lemma_next_power_of_two_covers(room as nat + 1);
            }
            room < usize::MAX && checked_grown_capacity(self.chunks.capacity, room + 1).is_some()
        } else {
            true
        }
    }

    /// The number of values allocated in the arena.
    pub fn len(&self) -> (n: usize)
        requires
            self.wf(),
        ensures
            n == self@.len(),
    {
        let mut total: usize = 0;
        let mut index: usize = 0;
        proof {
            lemma_flat_prefix(self@.rest, 0);
        }
        while index < self.chunks.rest.len()
            invariant
                self.wf(),
                index <= self.chunks.rest.len(),
                total == flat_prefix(self@.rest, index as int).len(),
            decreases self.chunks.rest.len() - index,
        {
            proof {
                lemma_flat_prefix(self@.rest, index as int);
                lemma_flat_prefix(self@.rest, index + 1);
            }
            total = total + self.chunks.rest[index].len();
            index = index + 1;
        }
        proof {
            lemma_flat_prefix(self@.rest, index as int);
        }
        total + self.chunks.current.len()
    }

    /// The number of frozen chunks: one for each time the arena has grown.
    pub fn filled_chunks(&self) -> (n: usize)
        ensures
            n == self@.rest.len(),
    {
        self.chunks.rest.len()
    }

    /// The number of values that the current chunk can still take before the
    /// arena grows.
    pub fn spare_capacity(&self) -> (n: usize)
        requires
            self.wf(),
        ensures
            n == self@.room(),
    {
        self.chunks.capacity - self.chunks.current.len()
    }

    /// Converts the arena into a `Vec<T>` that holds the values in the order
    /// in which they were allocated.
    pub fn into_vec(self) -> (items: Vec<T>)
        requires
            self.wf(),
        ensures
            items@ == self@.contents(),
    {
        let n: usize = self.len();
        let ghost chunks = self@.rest;
        let mut rest = self.chunks.rest;
        let mut current = self.chunks.current;
        let mut items: Vec<T> = Vec::with_capacity(n);
        let mut index: usize = 0;
        proof {
            lemma_flat_prefix(chunks, 0);
        }
        while index < rest.len()
            invariant
                index <= rest.len(),
                rest.len() == chunks.len(),
                forall|later: int| index <= later < rest.len() ==> rest@[later]@ == chunks[later],
                items@ == flat_prefix(chunks, index as int),
            decreases rest.len() - index,
        {
            proof {
                lemma_flat_prefix(chunks, index as int);
            }
            items.append(&mut rest[index]);
            index = index + 1;
        }
        proof {
            lemma_flat_prefix(chunks, index as int);
        }
        items.append(&mut current);
        items
    }

    /// The number of values in the current chunk.
    pub(crate) fn current_len(&self) -> (n: usize)
        ensures
            n == self@.current.len(),
    {
        self.chunks.current.len()
    }

    /// Whether the slot `(chunk, element)` is occupied.
    pub(crate) fn holds(&self, chunk: usize, element: usize) -> (held: bool)
        ensures
            held == self@.holds(chunk as int, element as int),
    {
        if chunk < self.chunks.rest.len() {
            element < self.chunks.rest[chunk].len()
        } else {
            chunk == self.chunks.rest.len() && element < self.chunks.current.len()
        }
    }

    /// The value in the slot `(chunk, element)`: in the frozen chunk at that
    /// position, or in the current chunk where `chunk` is one past the last
    /// frozen one.
    pub(crate) fn slot(&self, chunk: usize, element: usize) -> (value: &T)
        requires
            self@.holds(chunk as int, element as int),
        ensures
            *value == self@.at(chunk as int, element as int),
    {
        if chunk < self.chunks.rest.len() {
            &self.chunks.rest[chunk][element]
        } else {
            &self.chunks.current[element]
        }
    }
}

} // verus!
