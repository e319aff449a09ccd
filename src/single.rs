//! Both kinds of arena, side by side.

use vstd::prelude::*;

use crate::chunk_list::{default_capacity, first_capacity, Slot, Span};

pub use crate::chunk_list::ChunkList;

verus! {

/// A simple arena.
pub struct Arena<T> {
    chunks: ChunkList<T>,
}

impl<T> Arena<T> {
    /// The chunk list that holds the arena's objects.
    pub closed spec fn store(&self) -> ChunkList<T> {
        self.chunks
    }

    pub open spec fn wf(&self) -> bool {
        self.store().wf()
    }

    /// Creates an arena whose first chunk holds about `INITIAL_SIZE` bytes.
    pub fn new() -> (r: Self)
        ensures
            r.wf(),
            r.store().chunks() == seq![Seq::<T>::empty()],
            r.store().capacities() == seq![default_capacity::<T>()],
            r.store().items() == Seq::<T>::empty(),
    {
        Arena { chunks: ChunkList::new() }
    }

    /// Creates an arena with room for at least `n` objects before it grows.
    pub fn with_capacity(n: usize) -> (r: Self)
        ensures
            r.wf(),
            r.store().chunks() == seq![Seq::<T>::empty()],
            r.store().capacities() == seq![first_capacity(n as nat)],
            r.store().items() == Seq::<T>::empty(),
    {
        Arena { chunks: ChunkList::with_capacity(n) }
    }

    /// Allocates one object and returns the slot that holds it. Objects
    /// allocated before stay where they are.
    pub fn alloc_one(&mut self, t: T) -> (r: Slot)
        requires
            old(self).wf(),
            old(self).store().appendable(1),
        ensures
            final(self).wf(),
            final(self).store().chunks() == old(self).store().chunks_after(seq![t]),
            final(self).store().capacities() == old(self).store().capacities_after(1),
            final(self).store().items() == old(self).store().items().push(t),
            final(self).store().keeps(&old(self).store()),
            r.chunk == final(self).store().chunks().len() - 1,
            r.index == old(self).store().start_after(1),
            final(self).store().holds(r),
            final(self).store().at(r) == t,
    {
        let mut batch: Vec<T> = Vec::new();
        batch.push(t);
        let span = self.chunks.alloc_extend(batch);
        assert(self.chunks.span_items(span)[0] == t);
        assert(seq![t] =~= Seq::<T>::empty().push(t));
        Slot { chunk: span.chunk, index: span.start }
    }

    /// Allocates `items`, in order and next to each other, and returns the span
    /// that holds them. Objects allocated before stay where they are.
    pub fn alloc_extend(&mut self, items: Vec<T>) -> (r: Span)
        requires
            old(self).wf(),
            old(self).store().appendable(items@.len()),
        ensures
            final(self).wf(),
            final(self).store().chunks() == old(self).store().chunks_after(items@),
            final(self).store().capacities() == old(self).store().capacities_after(items@.len()),
            final(self).store().items() == old(self).store().items() + items@,
            final(self).store().keeps(&old(self).store()),
            r.chunk == final(self).store().chunks().len() - 1,
            r.start == old(self).store().start_after(items@.len()),
            r.len == items@.len(),
            final(self).store().holds_span(r),
            final(self).store().span_items(r) == items@,
    {
        self.chunks.alloc_extend(items)
    }

    /// The object that `s` names.
    pub fn get(&self, s: Slot) -> (r: &T)
        requires
            self.wf(),
            self.store().holds(s),
        ensures
            *r == self.store().at(s),
    {
        self.chunks.get(s)
    }

    /// The objects that `s` names, in order.
    pub fn slice(&self, s: Span) -> (r: &[T])
        requires
            self.wf(),
            self.store().holds_span(s),
        ensures
            r@ == self.store().span_items(s),
    {
        self.chunks.slice(s)
    }

    /// Whether a batch of `n` objects can be allocated without a capacity
    /// overflow; `alloc_one` and `alloc_extend` ask for this.
    pub fn can_append(&self, n: usize) -> (r: bool)
        requires
            self.wf(),
        ensures
            r == self.store().appendable(n as nat),
    {
        self.chunks.can_append(n)
    }

    /// Whether `s` names an object of this arena.
    pub fn contains(&self, s: Slot) -> (r: bool)
        requires
            self.wf(),
        ensures
            r == self.store().holds(s),
    {
        self.chunks.contains(s)
    }

    /// Whether `s` names a run of objects of this arena.
    pub fn contains_span(&self, s: Span) -> (r: bool)
        requires
            self.wf(),
        ensures
            r == self.store().holds_span(s),
    {
        self.chunks.contains_span(s)
    }

    /// The number of chunks that the arena has retired.
    pub fn retired_count(&self) -> (r: usize)
        requires
            self.wf(),
        ensures
            r == self.store().chunks().len() - 1,
    {
        self.chunks.retired_count()
    }
}

/// An arena meant to be shared between threads behind a lock such as a
/// `Mutex`; it is `Send` and `Sync` whenever `T` is.
pub struct AtomicArena<T> {
    chunks: ChunkList<T>,
}

impl<T> AtomicArena<T> {
    /// The chunk list that holds the arena's objects.
    pub closed spec fn store(&self) -> ChunkList<T> {
        self.chunks
    }

    pub open spec fn wf(&self) -> bool {
        self.store().wf()
    }

    /// Creates an arena whose first chunk holds about `INITIAL_SIZE` bytes.
    pub fn new() -> (r: Self)
        ensures
            r.wf(),
            r.store().chunks() == seq![Seq::<T>::empty()],
            r.store().capacities() == seq![default_capacity::<T>()],
            r.store().items() == Seq::<T>::empty(),
    {
        AtomicArena { chunks: ChunkList::new() }
    }

    /// Creates an arena with room for at least `n` objects before it grows.
    pub fn with_capacity(n: usize) -> (r: Self)
        ensures
            r.wf(),
            r.store().chunks() == seq![Seq::<T>::empty()],
            r.store().capacities() == seq![first_capacity(n as nat)],
            r.store().items() == Seq::<T>::empty(),
    {
        AtomicArena { chunks: ChunkList::with_capacity(n) }
    }

    /// Allocates one object and returns the slot that holds it. Objects
    /// allocated before stay where they are.
    pub fn alloc_one(&mut self, t: T) -> (r: Slot)
        requires
            old(self).wf(),
            old(self).store().appendable(1),
        ensures
            final(self).wf(),
            final(self).store().chunks() == old(self).store().chunks_after(seq![t]),
            final(self).store().capacities() == old(self).store().capacities_after(1),
            final(self).store().items() == old(self).store().items().push(t),
            final(self).store().keeps(&old(self).store()),
            r.chunk == final(self).store().chunks().len() - 1,
            r.index == old(self).store().start_after(1),
            final(self).store().holds(r),
            final(self).store().at(r) == t,
    {
        let mut batch: Vec<T> = Vec::new();
        batch.push(t);
        let span = self.chunks.alloc_extend(batch);
        assert(self.chunks.span_items(span)[0] == t);
        assert(seq![t] =~= Seq::<T>::empty().push(t));
        Slot { chunk: span.chunk, index: span.start }
    }

    /// Allocates `items`, in order and next to each other, and returns the span
    /// that holds them. Objects allocated before stay where they are.
    pub fn alloc_extend(&mut self, items: Vec<T>) -> (r: Span)
        requires
            old(self).wf(),
            old(self).store().appendable(items@.len()),
        ensures
            final(self).wf(),
            final(self).store().chunks() == old(self).store().chunks_after(items@),
            final(self).store().capacities() == old(self).store().capacities_after(items@.len()),
            final(self).store().items() == old(self).store().items() + items@,
            final(self).store().keeps(&old(self).store()),
            r.chunk == final(self).store().chunks().len() - 1,
            r.start == old(self).store().start_after(items@.len()),
            r.len == items@.len(),
            final(self).store().holds_span(r),
            final(self).store().span_items(r) == items@,
    {
        self.chunks.alloc_extend(items)
    }

    /// The object that `s` names.
    pub fn get(&self, s: Slot) -> (r: &T)
        requires
            self.wf(),
            self.store().holds(s),
        ensures
            *r == self.store().at(s),
    {
        self.chunks.get(s)
    }

    /// The objects that `s` names, in order.
    pub fn slice(&self, s: Span) -> (r: &[T])
        requires
            self.wf(),
            self.store().holds_span(s),
        ensures
            r@ == self.store().span_items(s),
    {
        self.chunks.slice(s)
    }

    /// Whether a batch of `n` objects can be allocated without a capacity
    /// overflow; `alloc_one` and `alloc_extend` ask for this.
    pub fn can_append(&self, n: usize) -> (r: bool)
        requires
            self.wf(),
        ensures
            r == self.store().appendable(n as nat),
    {
        self.chunks.can_append(n)
    }

    /// Whether `s` names an object of this arena.
    pub fn contains(&self, s: Slot) -> (r: bool)
        requires
            self.wf(),
        ensures
            r == self.store().holds(s),
    {
        self.chunks.contains(s)
    }

    /// Whether `s` names a run of objects of this arena.
    pub fn contains_span(&self, s: Span) -> (r: bool)
        requires
            self.wf(),
        ensures
            r == self.store().holds_span(s),
    {
        self.chunks.contains_span(s)
    }

    /// The number of chunks that the arena has retired.
    pub fn retired_count(&self) -> (r: usize)
        requires
            self.wf(),
        ensures
            r == self.store().chunks().len() - 1,
    {
        self.chunks.retired_count()
    }
}

} // verus!
