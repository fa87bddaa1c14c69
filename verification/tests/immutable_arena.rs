use std::cell::Cell;

use typed_arena::{ImmutableArena, Index};

struct DropTracker<'a>(&'a Cell<u32>);

impl<'a> Drop for DropTracker<'a> {
    fn drop(&mut self) {
        self.0.set(self.0.get() + 1);
    }
}

struct Link<'b>(Option<Index>, u32, DropTracker<'b>);

#[test]
fn get_returns_what_was_allocated() {
    let mut arena = ImmutableArena::new();
    let idx = arena.allocate(42);
    let x = arena.get(idx);
    assert_eq!(*x, 42);
}

#[test]
fn chain_of_indices_survives_growth() {
    let drop_counter = Cell::new(0);
    {
        let mut arena = ImmutableArena::with_capacity(2);
        let mut node = arena.allocate(Link(None, 1, DropTracker(&drop_counter)));
        node = arena.allocate(Link(Some(node), 2, DropTracker(&drop_counter)));
        node = arena.allocate(Link(Some(node), 3, DropTracker(&drop_counter)));
        node = arena.allocate(Link(Some(node), 4, DropTracker(&drop_counter)));

        let fourth = arena.get(node);
        assert_eq!(fourth.1, 4);
        let third = arena.get(fourth.0.unwrap());
        assert_eq!(third.1, 3);
        let second = arena.get(third.0.unwrap());
        assert_eq!(second.1, 2);
        let first = arena.get(second.0.unwrap());
        assert_eq!(first.1, 1);
        assert!(first.0.is_none());
        assert_eq!(drop_counter.get(), 0);

        let mut node = arena.allocate(Link(None, 5, DropTracker(&drop_counter)));
        node = arena.allocate(Link(Some(node), 6, DropTracker(&drop_counter)));
        node = arena.allocate(Link(Some(node), 7, DropTracker(&drop_counter)));
        assert_eq!(drop_counter.get(), 0);

        assert_eq!(arena.get(node).1, 7);
        assert_eq!(arena.get(arena.get(node).0.unwrap()).1, 6);
        assert_eq!(arena.get(arena.get(arena.get(node).0.unwrap()).0.unwrap()).1, 5);
        assert!(arena.get(arena.get(arena.get(node).0.unwrap()).0.unwrap()).0.is_none());
        assert_eq!(arena.len(), 7);
        assert_eq!(drop_counter.get(), 0);
    }
    assert_eq!(drop_counter.get(), 7);
}

#[test]
fn every_index_ever_issued_reads_back_its_value() {
    let mut arena = ImmutableArena::with_capacity(1);
    let mut issued = Vec::new();
    for value in 0..500u32 {
        issued.push((arena.allocate(value), value));
        for &(index, stored) in &issued {
            assert_eq!(*arena.get(index), stored);
        }
    }
    assert_eq!(arena.len(), 500);
    assert_eq!(arena.into_vec(), (0..500).collect::<Vec<u32>>());
}

#[test]
fn shared_lookups_coexist() {
    let mut arena = ImmutableArena::with_capacity(1);
    let a = arena.allocate(String::from("a"));
    let b = arena.allocate(String::from("b"));
    let first = arena.get(a);
    let again = arena.get(a);
    let other = arena.get(b);
    assert_eq!(first, "a");
    assert_eq!(again, "a");
    assert_eq!(other, "b");
    assert!(std::ptr::eq(first, again));
    assert!(!std::ptr::eq(first, other));
}

#[test]
fn zero_capacity_first_two_allocations_are_distinct() {
    let mut arena = ImmutableArena::with_capacity(0);
    let a = arena.allocate(1);
    let b = arena.allocate(2);
    assert_ne!(a, b);
    assert_eq!(*arena.get(a), 1);
    assert_eq!(*arena.get(b), 2);
}

#[test]
fn indices_name_chunk_and_element() {
    let mut arena = ImmutableArena::with_capacity(2);
    assert_eq!(arena.allocate('a').into_raw_parts(), (0, 0));
    assert_eq!(arena.allocate('b').into_raw_parts(), (0, 1));
    assert_eq!(arena.allocate('c').into_raw_parts(), (1, 0));
    assert_eq!(arena.allocate('d').into_raw_parts(), (1, 1));
    assert_eq!(arena.allocate('e').into_raw_parts(), (1, 2));
    assert_eq!(arena.allocate('f').into_raw_parts(), (1, 3));
    assert_eq!(arena.allocate('g').into_raw_parts(), (2, 0));
    assert_eq!(*arena.get(Index::from_raw_parts(0, 1)), 'b');
    assert_eq!(*arena.get(Index::from_raw_parts(1, 3)), 'f');
    assert_eq!(*arena.get(Index::from_raw_parts(2, 0)), 'g');
}

#[test]
fn raw_parts_round_trip() {
    let index = Index::from_raw_parts(3, 17);
    assert_eq!(index.into_raw_parts(), (3, 17));
    assert_eq!(Index::from_raw_parts(3, 17), index);
    assert_ne!(Index::from_raw_parts(17, 3), index);
    assert!(Index::from_raw_parts(1, 9) < Index::from_raw_parts(2, 0));
}

#[test]
fn contains_tells_issued_indices_from_others() {
    let mut arena = ImmutableArena::with_capacity(2);
    assert!(!arena.contains(Index::from_raw_parts(0, 0)));
    let a = arena.allocate(1);
    let b = arena.allocate(2);
    let c = arena.allocate(3);
    assert!(arena.contains(a));
    assert!(arena.contains(b));
    assert!(arena.contains(c));
    assert!(!arena.contains(Index::from_raw_parts(0, 2)));
    assert!(!arena.contains(Index::from_raw_parts(1, 1)));
    assert!(!arena.contains(Index::from_raw_parts(2, 0)));
    assert!(!arena.contains(Index::from_raw_parts(7, 0)));
}

#[test]
fn default_is_new() {
    let mut arena: ImmutableArena<u64> = ImmutableArena::default();
    assert_eq!(arena.len(), 0);
    assert!(arena.can_allocate());
    let index = arena.allocate(9);
    assert_eq!(index.into_raw_parts(), (0, 0));
    assert_eq!(arena.into_vec(), vec![9]);
}
