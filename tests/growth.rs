use std::sync::Mutex;

use chunk_arena::capacity::next_power_of_two;
use chunk_arena::chunk_list::{ChunkList, Slot, Span};
use chunk_arena::{single, sync, unsync, INITIAL_SIZE, MIN_CAPACITY};

#[test]
fn growth_schedule_from_capacity_two() {
    let mut arena: unsync::Arena<u32> = unsync::Arena::with_capacity(2);
    let expected = [0usize, 0, 1, 1, 1, 1, 2];
    for (i, want) in expected.iter().enumerate() {
        arena.alloc_one(i as u32 + 1);
        assert_eq!(arena.retired_count(), *want, "after allocation {}", i + 1);
    }
}

#[test]
fn slots_name_the_same_objects_after_growth() {
    let mut arena: sync::Arena<u64> = sync::Arena::with_capacity(1);
    let mut slots: Vec<Slot> = Vec::new();
    for i in 0..100u64 {
        slots.push(arena.alloc_one(i * 3));
        for (j, s) in slots.iter().enumerate() {
            assert_eq!(*arena.get(*s), j as u64 * 3);
        }
    }
    assert!(arena.retired_count() > 0);
}

#[test]
fn empty_batch_on_full_chunk_does_not_grow() {
    let mut arena: unsync::Arena<u32> = unsync::Arena::with_capacity(2);
    arena.alloc_one(1);
    arena.alloc_one(2);
    let span = arena.alloc_extend(Vec::new());
    assert_eq!(span.len, 0);
    assert_eq!(arena.slice(span).len(), 0);
    assert_eq!(arena.retired_count(), 0);
}

#[test]
fn empty_batch_on_new_arena() {
    let mut arena: single::Arena<u8> = single::Arena::new();
    let span = arena.alloc_extend(Vec::new());
    assert_eq!(span, Span { chunk: 0, start: 0, len: 0 });
    assert_eq!(arena.retired_count(), 0);
}

#[test]
fn large_batch_grows_once_to_hold_it_whole() {
    let mut arena: unsync::Arena<u32> = unsync::Arena::with_capacity(2);
    let first = arena.alloc_one(1);
    let span = arena.alloc_extend(vec![10, 11, 12, 13, 14]);
    assert_eq!(arena.retired_count(), 1);
    assert_eq!(span, Span { chunk: 1, start: 0, len: 5 });
    assert_eq!(arena.slice(span), &[10, 11, 12, 13, 14]);
    assert_eq!(*arena.get(first), 1);
    // The new chunk holds max(2 * 2, 8) = 8 objects.
    let rest = arena.alloc_extend(vec![15, 16, 17]);
    assert_eq!(rest, Span { chunk: 1, start: 5, len: 3 });
    assert_eq!(arena.retired_count(), 1);
    arena.alloc_one(18);
    assert_eq!(arena.retired_count(), 2);
}

#[test]
fn batch_that_fits_follows_earlier_objects() {
    let mut arena: single::AtomicArena<i32> = single::AtomicArena::with_capacity(8);
    let a = arena.alloc_extend(vec![1, 2, 3]);
    let b = arena.alloc_extend(vec![4, 5]);
    assert_eq!(a, Span { chunk: 0, start: 0, len: 3 });
    assert_eq!(b, Span { chunk: 0, start: 3, len: 2 });
    assert_eq!(arena.slice(a), &[1, 2, 3]);
    assert_eq!(arena.slice(b), &[4, 5]);
    assert_eq!(arena.retired_count(), 0);
}

#[test]
fn doubling_beats_a_small_batch() {
    let mut list: ChunkList<u16> = ChunkList::with_capacity(4);
    list.alloc_extend(vec![1, 2, 3]);
    // 3 + 2 > 4: the new chunk holds max(2 * 4, 2) = 8.
    let s = list.alloc_extend(vec![4, 5]);
    assert_eq!(s, Span { chunk: 1, start: 0, len: 2 });
    let t = list.alloc_extend(vec![6, 7, 8, 9, 10, 11]);
    assert_eq!(t, Span { chunk: 1, start: 2, len: 6 });
    assert_eq!(list.retired_count(), 1);
    list.alloc_extend(vec![12]);
    assert_eq!(list.retired_count(), 2);
}

#[test]
fn every_object_kept_in_call_order() {
    let mut arena: sync::Arena<u32> = sync::Arena::with_capacity(3);
    let mut spans: Vec<Span> = Vec::new();
    let mut next = 0u32;
    for size in [2usize, 0, 5, 1, 9, 3, 17] {
        let batch: Vec<u32> = (next..next + size as u32).collect();
        next += size as u32;
        spans.push(arena.alloc_extend(batch));
    }
    let mut all: Vec<u32> = Vec::new();
    for s in &spans {
        all.extend_from_slice(arena.slice(*s));
    }
    let want: Vec<u32> = (0..next).collect();
    assert_eq!(all, want);
}

#[test]
fn zero_capacity_is_raised_to_the_minimum() {
    let mut arena: unsync::Arena<u8> = unsync::Arena::with_capacity(0);
    assert_eq!(MIN_CAPACITY, 1);
    arena.alloc_one(1);
    assert_eq!(arena.retired_count(), 0);
    arena.alloc_one(2);
    assert_eq!(arena.retired_count(), 1);
}

#[test]
fn default_capacity_fills_the_initial_size() {
    let mut bytes: unsync::Arena<u8> = unsync::Arena::new();
    for i in 0..INITIAL_SIZE {
        bytes.alloc_one(i as u8);
    }
    assert_eq!(bytes.retired_count(), 0);
    bytes.alloc_one(0);
    assert_eq!(bytes.retired_count(), 1);

    let mut words: unsync::Arena<u32> = unsync::Arena::new();
    for i in 0..INITIAL_SIZE / 4 {
        words.alloc_one(i as u32);
    }
    assert_eq!(words.retired_count(), 0);
    words.alloc_one(0);
    assert_eq!(words.retired_count(), 1);
}

#[test]
fn default_capacity_of_zero_sized_objects() {
    let mut units: sync::Arena<()> = sync::Arena::new();
    for _ in 0..INITIAL_SIZE {
        units.alloc_one(());
    }
    assert_eq!(units.retired_count(), 0);
    units.alloc_one(());
    assert_eq!(units.retired_count(), 1);
}

#[test]
fn default_capacity_of_large_objects_is_one() {
    let mut big: unsync::Arena<[u8; 4096]> = unsync::Arena::new();
    big.alloc_one([0; 4096]);
    assert_eq!(big.retired_count(), 0);
    big.alloc_one([1; 4096]);
    assert_eq!(big.retired_count(), 1);
}

#[test]
fn powers_of_two() {
    assert_eq!(next_power_of_two(0), 1);
    assert_eq!(next_power_of_two(1), 1);
    assert_eq!(next_power_of_two(2), 2);
    assert_eq!(next_power_of_two(3), 4);
    assert_eq!(next_power_of_two(5), 8);
    assert_eq!(next_power_of_two(1024), 1024);
    assert_eq!(next_power_of_two(1025), 2048);
}

#[test]
fn shared_arena_counts_every_allocation() {
    let arena: Mutex<sync::Arena<(u32, u32)>> = Mutex::new(sync::Arena::with_capacity(2));
    let workers: u32 = 4;
    let per_worker: u32 = 25;
    let mut slots: Vec<Slot> = Vec::new();
    for round in 0..per_worker {
        for w in 0..workers {
            slots.push(arena.lock().unwrap().alloc_one((w, round)));
        }
    }
    let guard = arena.lock().unwrap();
    let mut seen: Vec<(u32, u32)> = slots.iter().map(|s| *guard.get(*s)).collect();
    seen.sort();
    seen.dedup();
    assert_eq!(seen.len(), (workers * per_worker) as usize);
}

#[test]
fn queries_on_handles_and_room() {
    let mut arena: unsync::Arena<u8> = unsync::Arena::with_capacity(2);
    let s = arena.alloc_one(7);
    assert!(arena.contains(s));
    assert!(!arena.contains(Slot { chunk: 0, index: 1 }));
    assert!(!arena.contains(Slot { chunk: 1, index: 0 }));
    let span = arena.alloc_extend(vec![8]);
    assert!(arena.contains_span(span));
    assert!(arena.contains_span(Span { chunk: 0, start: 2, len: 0 }));
    assert!(!arena.contains_span(Span { chunk: 0, start: 1, len: 2 }));
    assert!(arena.can_append(0));
    assert!(arena.can_append(1000));
    assert!(!arena.can_append(usize::MAX));
}

#[test]
fn room_check_on_a_list() {
    let list: ChunkList<u8> = ChunkList::with_capacity(4);
    assert!(list.can_append(4));
    assert!(list.can_append(1 << 20));
    assert!(!list.can_append(usize::MAX / 2 + 2));
}

