//! The chunks that hold an arena's objects, and the rule by which they grow.

use vstd::prelude::*;

use crate::capacity::{
    checked_next_power_of_two, grown_capacity, growth_fits, lemma_next_pow2_at_least, next_pow2,
    next_power_of_two,
};
use crate::{INITIAL_SIZE, MIN_CAPACITY};

verus! {

/// A handle on one object in a chunk list: the chunk that holds it and its
/// position there.
#[derive(Clone, Copy, Debug, PartialEq, Eq, Structural)]
pub struct Slot {
    pub chunk: usize,
    pub index: usize,
}

/// A handle on a batch of objects that sit next to each other in one chunk.
#[derive(Clone, Copy, Debug, PartialEq, Eq, Structural)]
pub struct Span {
    pub chunk: usize,
    pub start: usize,
    pub len: usize,
}

/// The capacity of the first chunk of a list built without a given capacity:
/// about `INITIAL_SIZE` bytes' worth of `T`s, and at least `MIN_CAPACITY`.
pub open spec fn default_capacity<T>() -> nat {
    let size: nat = if vstd::layout::size_of::<T>() == 0 {
        1
    } else {
        vstd::layout::size_of::<T>()
    };
    let n = INITIAL_SIZE as nat / size;
    if n < MIN_CAPACITY {
        MIN_CAPACITY as nat
    } else {
        n
    }
}

/// The capacity of the first chunk of a list built with a capacity of `n`.
pub open spec fn first_capacity(n: nat) -> nat {
    if n < MIN_CAPACITY {
        MIN_CAPACITY as nat
    } else {
        n
    }
}

/// The list of chunks (`Vec<T>`s holding allocated objects) that make up an
/// arena. Only the last chunk, `current`, is ever written to; the chunks in
/// `rest` are kept unchanged so that their objects stay where they are.
pub struct ChunkList<T> {
    current: Vec<T>,
    rest: Vec<Vec<T>>,
    cap: usize,
    rest_caps: Ghost<Seq<nat>>,
}

impl<T> ChunkList<T> {
    /// The contents of every chunk, oldest first; the last one is the chunk
    /// that new objects go to.
    pub closed spec fn chunks(&self) -> Seq<Seq<T>> {
        self.rest@.map_values(|c: Vec<T>| c@).push(self.current@)
    }

    /// The capacity each chunk was made with, in the order of `chunks`.
    pub closed spec fn capacities(&self) -> Seq<nat> {
        self.rest_caps@.push(self.cap as nat)
    }

    /// The bookkeeping behind `chunks` and `capacities` is consistent.
    pub closed spec fn inner_wf(&self) -> bool {
        &&& self.rest_caps@.len() == self.rest@.len()
        &&& self.cap as nat == self.capacities().last()
    }

    /// Every object in the list, chunk by chunk.
    pub open spec fn items(&self) -> Seq<T> {
        self.chunks().flatten()
    }

    /// The capacity of the chunk that new objects go to.
    pub open spec fn capacity(&self) -> nat {
        self.capacities().last()
    }

    /// The number of objects in the chunk that new objects go to.
    pub open spec fn current_len(&self) -> nat {
        self.chunks().last().len()
    }

    /// The list is consistent: one capacity per chunk, no chunk over its
    /// capacity, and each chunk at least twice as large as the one before.
    pub open spec fn wf(&self) -> bool {
        &&& self.inner_wf()
        &&& self.chunks().len() == self.capacities().len()
        &&& self.chunks().len() >= 1
        &&& self.capacities()[0] >= 1
        &&& forall|i: int|
            0 <= i < self.chunks().len() ==> #[trigger] self.chunks()[i].len()
                <= self.capacities()[i]
        &&& forall|i: int|
            0 < i < self.capacities().len() ==> #[trigger] self.capacities()[i] >= 2
                * self.capacities()[i - 1]
    }

    /// A batch of `n` objects does not fit in the current chunk.
    pub open spec fn needs_growth(&self, n: nat) -> bool {
        self.current_len() + n > self.capacity()
    }

    /// A batch of `n` objects can be placed without overflowing a capacity.
    pub open spec fn appendable(&self, n: nat) -> bool {
        self.needs_growth(n) ==> growth_fits(self.capacity(), n)
    }

    /// The chunks after `batch` has been appended: in the current chunk where it
    /// fits, else alone in a new chunk.
    pub open spec fn chunks_after(&self, batch: Seq<T>) -> Seq<Seq<T>> {
        if self.needs_growth(batch.len()) {
            self.chunks().push(batch)
        } else {
            self.chunks().update(self.chunks().len() - 1, self.chunks().last() + batch)
        }
    }

    /// The capacities after a batch of `n` objects has been appended.
    pub open spec fn capacities_after(&self, n: nat) -> Seq<nat> {
        if self.needs_growth(n) {
            self.capacities().push(grown_capacity(self.capacity(), n))
        } else {
            self.capacities()
        }
    }

    /// Where a batch of `n` objects starts in the chunk that receives it.
    pub open spec fn start_after(&self, n: nat) -> nat {
        if self.needs_growth(n) {
            0
        } else {
            self.current_len()
        }
    }

    /// `s` names an object of this list.
    pub open spec fn holds(&self, s: Slot) -> bool {
        &&& s.chunk < self.chunks().len()
        &&& s.index < self.chunks()[s.chunk as int].len()
    }

    /// The object that `s` names.
    pub open spec fn at(&self, s: Slot) -> T {
        self.chunks()[s.chunk as int][s.index as int]
    }

    /// `s` names a run of objects of this list.
    pub open spec fn holds_span(&self, s: Span) -> bool {
        &&& s.chunk < self.chunks().len()
        &&& s.start + s.len <= self.chunks()[s.chunk as int].len()
    }

    /// The objects that `s` names, in order.
    pub open spec fn span_items(&self, s: Span) -> Seq<T> {
        self.chunks()[s.chunk as int].subrange(s.start as int, s.start + s.len)
    }

    /// Every object of `earlier` is still in this list, in the same chunk and at
    /// the same position; every chunk keeps its capacity.
    pub open spec fn keeps(&self, earlier: &Self) -> bool {
        &&& earlier.chunks().len() <= self.chunks().len()
        &&& earlier.capacities().len() <= self.capacities().len()
        &&& forall|c: int|
            0 <= c < earlier.capacities().len() ==> #[trigger] self.capacities()[c]
                == earlier.capacities()[c]
        &&& forall|c: int|
            0 <= c < earlier.chunks().len() ==> earlier.chunks()[c].len()
                <= #[trigger] self.chunks()[c].len()
        &&& forall|c: int, i: int|
            0 <= c < earlier.chunks().len() && 0 <= i < earlier.chunks()[c].len()
                ==> #[trigger] self.chunks()[c][i] == earlier.chunks()[c][i]
    }

    proof fn lemma_current(&self)
        requires
            self.wf(),
        ensures
            self.chunks().last() == self.current@,
            self.current@.len() <= self.cap,
            self.cap as nat == self.capacity(),
    {
        assert(self.chunks()[self.chunks().len() - 1].len() <= self.capacities()[self.chunks().len() - 1]);
    }

    proof fn lemma_view_rest(&self, i: int)
        requires
            0 <= i < self.rest@.len(),
        ensures
            self.chunks()[i] == self.rest@[i]@,
    {
    }

    /// Creates a list whose first chunk holds about `INITIAL_SIZE` bytes.
    pub fn new() -> (r: Self)
        ensures
            r.wf(),
            r.chunks() == seq![Seq::<T>::empty()],
            r.capacities() == seq![default_capacity::<T>()],
            r.items() == Seq::<T>::empty(),
    {
        let size = core::mem::size_of::<T>();
        let size: usize = if size == 0 {
            1
        } else {
            size
        };
        Self::with_capacity(INITIAL_SIZE / size)
    }

    /// Creates a list whose first chunk holds at least `n` objects.
    pub fn with_capacity(n: usize) -> (r: Self)
        ensures
            r.wf(),
            r.chunks() == seq![Seq::<T>::empty()],
            r.capacities() == seq![first_capacity(n as nat)],
            r.items() == Seq::<T>::empty(),
    {
        let n: usize = if n < MIN_CAPACITY {
            MIN_CAPACITY
        } else {
            n
        };
        let r = ChunkList {
            current: Vec::with_capacity(n),
            rest: Vec::new(),
            cap: n,
            rest_caps: Ghost(Seq::empty()),
        };
        proof {
            assert(r.chunks() =~= seq![Seq::<T>::empty()]);
            assert(r.capacities() =~= seq![n as nat]);
            seq![Seq::<T>::empty()].lemma_flatten_one_element();
        }
        r
    }

    /// Retires the current chunk, unchanged, and starts a new one with room for
    /// at least `additional` objects and at least twice the old capacity.
    fn reserve(&mut self, additional: usize)
        requires
            old(self).wf(),
            growth_fits(old(self).capacity(), additional as nat),
        ensures
            final(self).wf(),
            final(self).chunks() == old(self).chunks().push(Seq::<T>::empty()),
            final(self).capacities() == old(self).capacities().push(
                grown_capacity(old(self).capacity(), additional as nat),
            ),
    {
        let double_cap = self.cap * 2;
        let required_cap = next_power_of_two(additional);
        let new_capacity = if double_cap >= required_cap {
            double_cap
        } else {
            required_cap
        };
        let ghost old_chunks = self.chunks();
        let ghost old_caps = self.capacities();
        let mut chunk = Vec::with_capacity(new_capacity);
        core::mem::swap(&mut self.current, &mut chunk);
        self.rest.push(chunk);
        self.rest_caps = Ghost(self.rest_caps@.push(self.cap as nat));
        self.cap = new_capacity;
        proof {
            assert(self.chunks() =~= old_chunks.push(Seq::<T>::empty()));
            assert(self.capacities() =~= old_caps.push(new_capacity as nat));
            assert forall|i: int| 0 <= i < self.chunks().len() implies #[trigger] self.chunks()[i].len()
                <= self.capacities()[i] by {
                if i < old_chunks.len() {
                    assert(self.chunks()[i] == old_chunks[i]);
                    assert(self.capacities()[i] == old_caps[i]);
                }
            }
        }
    }

    /// Appends `items` to the list, in order, all in one chunk, and returns the
    /// span that holds them. Where they do not fit in the current chunk, that
    /// chunk is retired unchanged and they go to a new one (see `reserve`).
    /// Every object already in the list stays where it is. The length of the
    /// batch is known before it is placed, so a batch is never split between
    /// chunks.
    pub fn alloc_extend(&mut self, items: Vec<T>) -> (r: Span)
        requires
            old(self).wf(),
            old(self).appendable(items@.len()),
        ensures
            final(self).wf(),
            final(self).chunks() == old(self).chunks_after(items@),
            final(self).capacities() == old(self).capacities_after(items@.len()),
            final(self).items() == old(self).items() + items@,
            final(self).keeps(&*old(self)),
            old(self).needs_growth(items@.len()) ==> final(self).capacity() >= 2 * old(
                self,
            ).capacity() && final(self).capacity() >= next_pow2(items@.len()),
            r.chunk == final(self).chunks().len() - 1,
            r.start == old(self).start_after(items@.len()),
            r.len == items@.len(),
            final(self).holds_span(r),
            final(self).span_items(r) == items@,
    {
        let ghost old_self = *self;
        let ghost batch = items@;
        proof {
            self.lemma_current();
        }
        let n = items.len();
        let len = self.current.len();
        let mut start: usize = len;
        if n > self.cap - len {
            self.reserve(n);
            start = 0;
        }
        let ghost mid = *self;
        let mut items = items;
        self.current.append(&mut items);
        proof {
            let oc = old_self.chunks();
            let mc = mid.chunks();
            let last = mc.len() - 1;
            assert(self.chunks() =~= mc.update(last, mc.last() + batch));
            assert(self.capacities() == mid.capacities());
            if old_self.needs_growth(n as nat) {
                lemma_next_pow2_at_least(n as nat);
                assert(mc.update(last, mc.last() + batch) =~= oc.push(batch));
            }
            assert(self.chunks() == old_self.chunks_after(batch));
            let nc = self.chunks();
            assert(nc.drop_last() =~= mc.drop_last());
            assert(mc =~= mc.drop_last().push(mc.last()));
            assert(nc =~= nc.drop_last().push(nc.last()));
            assert(nc.flatten() == mc.flatten() + batch) by {
                mc.drop_last().lemma_flatten_push(mc.last());
                nc.drop_last().lemma_flatten_push(nc.last());
            }
            if old_self.needs_growth(n as nat) {
                oc.lemma_flatten_push(Seq::<T>::empty());
                assert(oc.flatten() + Seq::<T>::empty() =~= oc.flatten());
            }
            assert(self.items() =~= old_self.items() + batch);
            assert(self.chunks()[self.chunks().len() - 1].subrange(start as int, start + n)
                =~= batch);
            assert forall|i: int| 0 <= i < self.chunks().len() implies #[trigger] self.chunks()[i].len()
                <= self.capacities()[i] by {
                if i < last {
                    assert(nc[i] == mc[i]);
                }
            }
        }
        Span { chunk: self.rest.len(), start, len: n }
    }

    /// The chunk at position `c`.
    fn chunk_at(&self, c: usize) -> (r: &Vec<T>)
        requires
            self.inner_wf(),
            c < self.chunks().len(),
        ensures
            r@ == self.chunks()[c as int],
    {
        if c < self.rest.len() {
            proof {
                self.lemma_view_rest(c as int);
            }
            &self.rest[c]
        } else {
            &self.current
        }
    }

    /// The object that `s` names.
    pub fn get(&self, s: Slot) -> (r: &T)
        requires
            self.wf(),
            self.holds(s),
        ensures
            *r == self.at(s),
    {
        let chunk = self.chunk_at(s.chunk);
        &chunk[s.index]
    }

    /// The objects that `s` names, in order.
    pub fn slice(&self, s: Span) -> (r: &[T])
        requires
            self.wf(),
            self.holds_span(s),
        ensures
            r@ == self.span_items(s),
    {
        let chunk = self.chunk_at(s.chunk);
        let all = chunk.as_slice();
        let len: usize = all.len();
        assert(s.start + s.len <= len);
        vstd::slice::slice_subrange(all, s.start, s.start + s.len)
    }

    /// Whether a batch of `n` objects can be appended without a capacity
    /// overflow; `alloc_extend` asks for this.
    pub fn can_append(&self, n: usize) -> (r: bool)
        requires
            self.wf(),
        ensures
            r == self.appendable(n as nat),
    {
        proof {
            self.lemma_current();
        }
        if n <= self.cap - self.current.len() {
            true
        } else {
            self.cap <= usize::MAX / 2 && checked_next_power_of_two(n).is_some()
        }
    }

    /// Whether `s` names an object of this list.
    pub fn contains(&self, s: Slot) -> (r: bool)
        requires
            self.wf(),
        ensures
            r == self.holds(s),
    {
        s.chunk <= self.rest.len() && s.index < self.chunk_at(s.chunk).len()
    }

    /// Whether `s` names a run of objects of this list.
    pub fn contains_span(&self, s: Span) -> (r: bool)
        requires
            self.wf(),
        ensures
            r == self.holds_span(s),
    {
        s.chunk <= self.rest.len() && s.start <= self.chunk_at(s.chunk).len() && s.len
            <= self.chunk_at(s.chunk).len() - s.start
    }

    /// The number of chunks that have been retired.
    pub fn retired_count(&self) -> (r: usize)
        requires
            self.wf(),
        ensures
            r == self.chunks().len() - 1,
    {
        self.rest.len()
    }
}

/// A handle stays good: where a later list keeps an earlier one (as every
/// `alloc_extend` does), a slot of the earlier list names the same object in the
/// later one.
pub proof fn lemma_slot_stable<T>(earlier: &ChunkList<T>, later: &ChunkList<T>, s: Slot)
    requires
        later.keeps(earlier),
        earlier.holds(s),
    ensures
        later.holds(s),
        later.at(s) == earlier.at(s),
{
    assert(earlier.chunks()[s.chunk as int].len() <= later.chunks()[s.chunk as int].len());
    assert(later.chunks()[s.chunk as int][s.index as int] == earlier.chunks()[s.chunk as int][s.index as int]);
}

/// A span of an earlier list names the same objects, in the same order, in any
/// later list that keeps it.
pub proof fn lemma_span_stable<T>(earlier: &ChunkList<T>, later: &ChunkList<T>, s: Span)
    requires
        later.keeps(earlier),
        earlier.holds_span(s),
    ensures
        later.holds_span(s),
        later.span_items(s) == earlier.span_items(s),
{
    let c = s.chunk as int;
    assert(earlier.chunks()[c].len() <= later.chunks()[c].len());
    assert forall|i: int| 0 <= i < s.len implies #[trigger] later.span_items(s)[i]
        == earlier.span_items(s)[i] by {
        assert(later.chunks()[c][s.start + i] == earlier.chunks()[c][s.start + i]);
    }
    assert(later.span_items(s) =~= earlier.span_items(s));
}

/// Keeping is transitive, so a list keeps every earlier state it went through.
pub proof fn lemma_keeps_transitive<T>(a: &ChunkList<T>, b: &ChunkList<T>, c: &ChunkList<T>)
    requires
        b.keeps(a),
        c.keeps(b),
    ensures
        c.keeps(a),
{
    assert forall|k: int| 0 <= k < a.chunks().len() implies a.chunks()[k].len()
        <= #[trigger] c.chunks()[k].len() by {
        assert(a.chunks()[k].len() <= b.chunks()[k].len());
    }
    assert forall|k: int, i: int|
        0 <= k < a.chunks().len() && 0 <= i < a.chunks()[k].len() implies #[trigger] c.chunks()[k][i]
        == a.chunks()[k][i] by {
        assert(a.chunks()[k].len() <= b.chunks()[k].len());
        assert(b.chunks()[k][i] == a.chunks()[k][i]);
    }
}

/// Capacities only grow, by at least a factor of two per chunk: a later chunk
/// is at least twice as large as any earlier one.
pub proof fn lemma_capacities_grow<T>(l: &ChunkList<T>, i: int, j: int)
    requires
        l.wf(),
        0 <= i < j < l.capacities().len(),
    ensures
        l.capacities()[j] >= 2 * l.capacities()[i],
    decreases j - i,
{
    assert(l.capacities()[j] >= 2 * l.capacities()[j - 1]);
    if i < j - 1 {
        lemma_capacities_grow(l, i, j - 1);
    }
}

/// Nothing is lost or repeated: in a run of lists that starts empty, where each
/// list is the one before with one batch appended (as `alloc_extend` ensures),
/// the last list holds exactly the batches, concatenated in call order.
pub proof fn lemma_run_keeps_every_batch<T>(lists: Seq<ChunkList<T>>, batches: Seq<Seq<T>>)
    requires
        lists.len() == batches.len() + 1,
        lists[0].items() == Seq::<T>::empty(),
        forall|i: int|
            0 <= i < batches.len() ==> #[trigger] lists[i + 1].items() == lists[i].items()
                + batches[i],
    ensures
        lists.last().items() == batches.flatten(),
    decreases batches.len(),
{
    if batches.len() == 0 {
        assert(batches.flatten() == Seq::<T>::empty());
    } else {
        let n = batches.len() - 1;
        let shorter = lists.drop_last();
        let firsts = batches.drop_last();
        assert forall|i: int| 0 <= i < firsts.len() implies #[trigger] shorter[i + 1].items()
            == shorter[i].items() + firsts[i] by {
            assert(lists[i + 1].items() == lists[i].items() + batches[i]);
        }
        lemma_run_keeps_every_batch(shorter, firsts);
        assert(lists[n + 1].items() == lists[n].items() + batches[n]);
        firsts.lemma_flatten_push(batches[n]);
        assert(firsts.push(batches[n]) =~= batches);
    }
}

} // verus!
