//! What holds of an arena over any run of allocations.
//!
//! A run is a sequence of requests, each a single allocation or a batch. The
//! laws below are stated of the model that the arena's functions are specified
//! by, so they hold of every sequence of calls that meets those functions'
//! preconditions.

use crate::capacity::{initial_capacity, lemma_grown_capacity_bounds};
use crate::model::Chunks;
use vstd::prelude::*;

verus! {

/// One allocation request.
pub enum Request<T> {
    /// A single value.
    One(T),
    /// A batch: the length it announced, and the values it held.
    Batch(nat, Seq<T>),
}

impl<T> Request<T> {
    /// The values that the request asks to store, in order.
    pub open spec fn values(self) -> Seq<T> {
        match self {
            Request::One(value) => seq![value],
            Request::Batch(_, items) => items,
        }
    }
}

/// The values of all the requests, in order.
pub open spec fn requested<T>(requests: Seq<Request<T>>) -> Seq<T>
    decreases requests.len(),
{
    if requests.len() == 0 {
        Seq::empty()
    } else {
        requested(requests.drop_last()) + requests.last().values()
    }
}

impl<T> Chunks<T> {
    /// The storage after one request.
    pub open spec fn serve(self, request: Request<T>) -> Self {
        match request {
            Request::One(value) => self.allocate(value),
            Request::Batch(min_len, items) => self.alloc_extend(min_len, items),
        }
    }

    /// The storage after all the requests, first to last.
    pub open spec fn serve_all(self, requests: Seq<Request<T>>) -> Self
        decreases requests.len(),
    {
        if requests.len() == 0 {
            self
        } else {
            self.serve_all(requests.drop_last()).serve(requests.last())
        }
    }
}

/// One request leaves the storage well formed, moves nothing that was there,
/// and puts its values last.
pub proof fn law_one_request<T>(start: Chunks<T>, request: Request<T>)
    requires
        start.wf(),
    ensures
        start.serve(request).wf(),
        start.serve(request).keeps(start),
        start.serve(request).contents() == start.contents() + request.values(),
{
    match request {
        Request::One(value) => {
            start.lemma_allocate(value);
        },
        Request::Batch(min_len, items) => {
            start.lemma_alloc_extend(min_len, items);
        },
    }
}

/// How one request may change the chunks.
///
/// A frozen chunk is never changed again. The current chunk either stays
/// current, and is then only appended to, within the capacity it has; or it
/// is frozen exactly as it stands, and the chunk that takes its place has at
/// least twice its capacity.
pub proof fn law_chunks_after_one_request<T>(start: Chunks<T>, request: Request<T>)
    requires
        start.wf(),
    ensures
        ({
            let after = start.serve(request);
            if after.rest.len() == start.rest.len() {
                &&& after.rest == start.rest
                &&& after.capacity == start.capacity
                &&& start.current.is_prefix_of(after.current)
            } else {
                &&& after.rest == start.rest.push(start.current)
                &&& after.capacity >= 2 * start.capacity
                &&& after.current == request.values()
            }
        }),
{
    match request {
        Request::One(value) => {
            start.lemma_reserve(1);
        },
        Request::Batch(min_len, items) => {
            start.lemma_reserve(min_len);
            start.lemma_reserve(start.room() + 1);
        },
    }
}

/// Over any run, chunks are frozen for good and capacities only grow: what
/// was frozen after the first `served` requests is frozen, unchanged and in
/// the same place, after all of them, and the current chunk has at least the
/// capacity it had.
pub proof fn law_frozen_chunks_stay_frozen<T>(
    start: Chunks<T>,
    requests: Seq<Request<T>>,
    served: int,
)
    requires
        start.wf(),
        0 <= served <= requests.len(),
    ensures
        start.serve_all(requests.take(served)).rest.is_prefix_of(start.serve_all(requests).rest),
        start.serve_all(requests.take(served)).capacity <= start.serve_all(requests).capacity,
    decreases requests.len() - served,
{
    let early = start.serve_all(requests.take(served));
    if served == requests.len() {
        assert(requests.take(served) == requests);
    } else {
        let next = start.serve_all(requests.take(served + 1));
        assert(requests.take(served + 1).drop_last() == requests.take(served));
        law_stays_well_formed(start, requests.take(served));
        law_chunks_after_one_request(early, requests[served]);
        law_frozen_chunks_stay_frozen(start, requests, served + 1);
    }
}

/// Whatever the requests, the storage stays well formed.
pub proof fn law_stays_well_formed<T>(start: Chunks<T>, requests: Seq<Request<T>>)
    requires
        start.wf(),
    ensures
        start.serve_all(requests).wf(),
    decreases requests.len(),
{
    if requests.len() > 0 {
        law_stays_well_formed(start, requests.drop_last());
        law_one_request(start.serve_all(requests.drop_last()), requests.last());
    }
}

/// No request moves, changes or removes a value that an earlier request
/// stored: every slot held after the first `served` requests is held after all
/// of them, with the same value. A reference handed out at any point of the run
/// is therefore good, and reads the same, at its end.
pub proof fn law_every_slot_is_kept<T>(
    start: Chunks<T>,
    requests: Seq<Request<T>>,
    served: int,
)
    requires
        start.wf(),
        0 <= served <= requests.len(),
    ensures
        start.serve_all(requests).keeps(start.serve_all(requests.take(served))),
    decreases requests.len() - served,
{
    let early = start.serve_all(requests.take(served));
    if served == requests.len() {
        assert(requests.take(served) == requests);
    } else {
        let next = start.serve_all(requests.take(served + 1));
        assert(requests.take(served + 1).drop_last() == requests.take(served));
        law_stays_well_formed(start, requests.take(served));
        law_one_request(early, requests[served]);
        law_every_slot_is_kept(start, requests, served + 1);
        start.serve_all(requests).lemma_keeps_carries_over(next, early);
    }
}

/// The storage holds what it held at the start, followed by the values of the
/// requests in the order in which they were made, whether they came one by one
/// or in batches and wherever the storage grew.
pub proof fn law_contents_follow_requests<T>(start: Chunks<T>, requests: Seq<Request<T>>)
    requires
        start.wf(),
    ensures
        start.serve_all(requests).contents() == start.contents() + requested(requests),
        start.serve_all(requests).len() == start.len() + requested(requests).len(),
    decreases requests.len(),
{
    if requests.len() > 0 {
        let early = start.serve_all(requests.drop_last());
        law_contents_follow_requests(start, requests.drop_last());
        law_stays_well_formed(start, requests.drop_last());
        law_one_request(early, requests.last());
    }
}

/// The slot in which a single allocation put its value holds that value after
/// any number of further requests: looking up the index that the allocation
/// returned gives back what was stored.
pub proof fn law_lookup_returns_what_was_stored<T>(
    start: Chunks<T>,
    requests: Seq<Request<T>>,
    which: int,
)
    requires
        start.wf(),
        0 <= which < requests.len(),
        requests[which] is One,
    ensures
        ({
            let slot = start.serve_all(requests.take(which)).next_slot();
            &&& start.serve_all(requests).holds(slot.0, slot.1)
            &&& start.serve_all(requests).at(slot.0, slot.1) == requests[which]->One_0
        }),
{
    let early = start.serve_all(requests.take(which));
    assert(requests.take(which + 1).drop_last() == requests.take(which));
    law_stays_well_formed(start, requests.take(which));
    early.lemma_allocate(requests[which]->One_0);
    law_every_slot_is_kept(start, requests, which + 1);
}

/// Two single allocations of one run never share a slot: the indices that an
/// arena gives out are all different.
pub proof fn law_slots_are_distinct<T>(
    start: Chunks<T>,
    requests: Seq<Request<T>>,
    first: int,
    second: int,
)
    requires
        start.wf(),
        0 <= first < second < requests.len(),
        requests[first] is One,
        requests[second] is One,
    ensures
        start.serve_all(requests.take(first)).next_slot() != start.serve_all(
            requests.take(second),
        ).next_slot(),
{
    let upto = requests.take(second);
    assert(upto.take(first) == requests.take(first));
    law_lookup_returns_what_was_stored(start, upto, first);
    law_stays_well_formed(start, upto);
    start.serve_all(upto).lemma_allocate(requests[second]->One_0);
}

/// An arena asked for no capacity still has room for a value: its first two
/// allocations succeed, land in different slots, and are both there
/// afterwards.
pub proof fn law_zero_capacity_still_allocates<T>(first: T, second: T)
    ensures
        ({
            let start = Chunks::<T>::empty(initial_capacity(0));
            let one = start.allocate(first);
            let two = one.allocate(second);
            &&& start.wf() && start.bounded() && start.can_allocate()
            &&& one.wf() && one.bounded() && one.can_allocate()
            &&& start.next_slot() != one.next_slot()
            &&& two.at(start.next_slot().0, start.next_slot().1) == first
            &&& two.at(one.next_slot().0, one.next_slot().1) == second
            &&& two.contents() == seq![first, second]
        }),
{
    let start = Chunks::<T>::empty(initial_capacity(0));
    start.lemma_allocate(first);
    start.allocate(first).lemma_allocate(second);
}

/// A single allocation is a batch of one value that announced its length:
/// both leave the same storage, and both may be made of the same storage.
pub proof fn law_single_allocation_is_a_batch_of_one<T>(start: Chunks<T>, value: T)
    requires
        start.wf(),
    ensures
        start.allocate(value) == start.alloc_extend(1, seq![value]),
        start.can_allocate() <==> start.can_alloc_extend(1, 1),
{
    lemma_grown_capacity_bounds(start.capacity, 1);
}

} // verus!
