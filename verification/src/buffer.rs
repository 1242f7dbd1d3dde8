use vstd::prelude::*;
use vstd::pervasive::VecAdditionalExecFns;

verus! {

/// The one storage strategy this buffer supports: the global heap, reached
/// through `Vec`. The allocator-aware constructor accepts this marker so a
/// caller who picks its strategy explicitly has a place to say so.
pub struct GlobalAllocator;

/// A gap buffer.
///
/// The backing region is a vector of slots. Slots outside the gap each hold
/// one live element; the `gap_len` slots starting at `gap_start` are unused.
/// The logical content — the view — is the left run `[0, gap_start)` followed
/// by the right run `[gap_start + gap_len, capacity)`, in that order.
pub struct GapBuffer<T> {
    allocator: GlobalAllocator,
    slots: Vec<Option<T>>,
    gap_start: usize,
    gap_len: usize,
}

impl<T> GapBuffer<T> {
    /// Total number of allocated slots, live or gap.
    pub closed spec fn spec_capacity(&self) -> nat {
        self.slots@.len()
    }

    /// Index of the first gap slot; equally, the number of left-run elements.
    pub closed spec fn spec_gap_start(&self) -> nat {
        self.gap_start as nat
    }

    /// Number of unused slots in the gap.
    pub closed spec fn spec_gap_len(&self) -> nat {
        self.gap_len as nat
    }

    /// The structural invariant: the gap lies inside the backing region,
    /// every slot outside it holds an element, and every slot inside it
    /// holds none. Constructors establish this and every method keeps it.
    pub closed spec fn well_formed(&self) -> bool {
        &&& self.gap_start + self.gap_len <= self.slots@.len()
        &&& forall|i: int| 0 <= i < self.gap_start ==> self.slots@[i] is Some
        &&& forall|i: int|
            self.gap_start <= i < self.gap_start + self.gap_len ==> self.slots@[i] is None
        &&& forall|i: int|
            self.gap_start + self.gap_len <= i < self.slots@.len() ==> self.slots@[i] is Some
    }

    /// The smallest capacity a growing buffer ever allocates, chosen by
    /// element size: many slots for tiny elements (amortizing allocations),
    /// a single slot for large ones (bounding wasted space).
    pub open spec fn spec_min_non_zero_cap() -> usize {
        if vstd::layout::size_of::<T>() == 1 {
            8usize
        } else if vstd::layout::size_of::<T>() <= 1024 {
            4usize
        } else {
            1usize
        }
    }

    /// Capacity floor used on the first allocation: 8 slots for one-byte
    /// elements, 4 for elements of up to 1024 bytes, 1 for larger ones.
    pub fn min_non_zero_cap() -> (c: usize)
        ensures
            c == Self::spec_min_non_zero_cap(),
    {
        if core::mem::size_of::<T>() == 1 {
            8
        } else if core::mem::size_of::<T>() <= 1024 {
            4
        } else {
            1
        }
    }

    /// An empty buffer. Allocates nothing: capacity, gap and length are zero.
    pub fn new() -> (buf: Self)
        ensures
            buf.well_formed(),
            buf@ == Seq::<T>::empty(),
            buf.spec_capacity() == 0,
            buf.spec_gap_start() == 0,
            buf.spec_gap_len() == 0,
    {
        let buf = GapBuffer {
            allocator: GlobalAllocator,
            slots: Vec::new(),
            gap_start: 0,
            gap_len: 0,
        };
        proof {
            assert(buf@ =~= Seq::<T>::empty());
        }
        buf
    }

    /// An empty buffer that will allocate through the given strategy.
    /// The global heap is the only strategy on offer.
    pub fn new_with_allocator(allocator: GlobalAllocator) -> (buf: Self)
        ensures
            buf.well_formed(),
            buf@ == Seq::<T>::empty(),
            buf.spec_capacity() == 0,
            buf.spec_gap_start() == 0,
            buf.spec_gap_len() == 0,
    {
        let buf = GapBuffer { allocator, slots: Vec::new(), gap_start: 0, gap_len: 0 };
        proof {
            assert(buf@ =~= Seq::<T>::empty());
        }
        buf
    }

    /// Number of live elements.
    pub fn len(&self) -> (n: usize)
        requires
            self.well_formed(),
        ensures
            n == self@.len(),
    {
        self.slots.len() - self.gap_len
    }

    /// Number of allocated slots, live or gap.
    pub fn capacity(&self) -> (c: usize)
        ensures
            c == self.spec_capacity(),
    {
        self.slots.len()
    }

    /// Current size of the gap.
    pub fn gap_len(&self) -> (n: usize)
        ensures
            n == self.spec_gap_len(),
    {
        self.gap_len
    }

    /// Logical position of the gap; also the length of the left run.
    pub fn gap_start(&self) -> (n: usize)
        ensures
            n == self.spec_gap_start(),
    {
        self.gap_start
    }

    /// A borrowed reference to the element at logical index `i`, or nothing
    /// when `i` is at or past the logical length — including on an empty
    /// buffer. Never fails otherwise, and changes nothing.
    pub fn get(&self, i: usize) -> (r: Option<&T>)
        requires
            self.well_formed(),
        ensures
            i < self@.len() ==> r == Some(&self@[i as int]),
            i >= self@.len() ==> r is None,
    {
        if i >= self.len() {
            None
        } else {
            let n = self.slots.len();
            proof {
                assert(i + self.gap_len < n);
            }
            let offset = if i < self.gap_start {
                i
            } else {
                i + self.gap_len
            };
            self.slots[offset].as_ref()
        }
    }

    /// Append `value` at the logical end. Equivalent to inserting at `len()`,
    /// which is the cheapest insertion point once the gap already sits there.
    pub fn push(&mut self, value: T)
        requires
            old(self).well_formed(),
            2 * old(self).spec_capacity() <= usize::MAX,
        ensures
            final(self).well_formed(),
            final(self)@ == old(self)@.push(value),
            old(self).spec_gap_len() > 0 ==> final(self).spec_capacity() == old(
                self,
            ).spec_capacity(),
            old(self).spec_gap_len() == 0 ==> final(self).spec_capacity()
                == Self::spec_grown_capacity(old(self).spec_capacity(), 1),
            final(self).spec_capacity() >= old(self).spec_capacity(),
    {
        let n = self.len();
        self.insert(n, value);
        proof {
            assert(self@ =~= old(self)@.push(value));
        }
    }

    /// Insert `value` at logical index `i`, shifting the elements at and
    /// after `i` one position up. Grows the buffer when the gap is empty.
    pub fn insert(&mut self, i: usize, value: T)
        requires
            old(self).well_formed(),
            i <= old(self)@.len(),
            2 * old(self).spec_capacity() <= usize::MAX,
        ensures
            final(self).well_formed(),
            final(self)@ == old(self)@.insert(i as int, value),
            old(self).spec_gap_len() > 0 ==> final(self).spec_capacity() == old(
                self,
            ).spec_capacity(),
            old(self).spec_gap_len() == 0 ==> final(self).spec_capacity()
                == Self::spec_grown_capacity(old(self).spec_capacity(), 1),
            final(self).spec_capacity() >= old(self).spec_capacity(),
            final(self).spec_gap_start() == i + 1,
    {
        self.gap_move_to(i);
        self.gap_ensure_size(1);
        proof {
            assert(self.spec_gap_len() >= 1);
        }
        self.slots.set(self.gap_start, Some(value));
        self.gap_start = self.gap_start + 1;
        self.gap_len = self.gap_len - 1;
        proof {
            assert(self.well_formed());
            assert(self@ =~= old(self)@.insert(i as int, value));
        }
    }

    /// Remove and return the element at logical index `i`, shifting the
    /// elements after `i` one position down. The freed slot joins the gap;
    /// the capacity is unchanged.
    pub fn delete(&mut self, i: usize) -> (r: T)
        requires
            old(self).well_formed(),
            i < old(self)@.len(),
        ensures
            final(self).well_formed(),
            r == old(self)@[i as int],
            final(self)@ == old(self)@.remove(i as int),
            final(self).spec_capacity() == old(self).spec_capacity(),
            final(self).spec_gap_start() == i,
    {
        self.gap_move_to(i);
        let n = self.slots.len();
        proof {
            assert(self.gap_start + self.gap_len < n);
        }
        let mut taken: Option<T> = None;
        self.slots.set_and_swap(self.gap_start + self.gap_len, &mut taken);
        self.gap_len = self.gap_len + 1;
        proof {
            assert(self.well_formed());
            assert(self@ =~= old(self)@.remove(i as int));
        }
        taken.unwrap()
    }

    /// The growth policy: double the capacity, but never to less than the
    /// requested gap, nor less than the type's capacity floor.
    pub open spec fn spec_grown_capacity(cap: nat, size: nat) -> int {
        vstd::math::max(
            vstd::math::max(2 * (cap as int), size as int),
            Self::spec_min_non_zero_cap() as int,
        )
    }

    /// The growth policy is geometric and monotonic: the capacity chosen for
    /// a growth step is at least double the old capacity, at least the
    /// requested gap size, and at least the type's capacity floor — so it
    /// never falls below what was already allocated.
    pub proof fn lemma_growth_geometric(cap: nat, size: nat)
        ensures
            Self::spec_grown_capacity(cap, size) >= 2 * cap,
            Self::spec_grown_capacity(cap, size) >= size,
            Self::spec_grown_capacity(cap, size) >= Self::spec_min_non_zero_cap(),
    {
    }

    /// Grow the backing region until the gap holds at least `size` slots,
    /// unless it already does. The new capacity is
    /// `max(2 * capacity, size, min_non_zero_cap())`; every newly allocated
    /// slot joins the gap, so the new gap size is the new capacity less the
    /// logical length. The live content and the gap position are unchanged,
    /// and the capacity never shrinks.
    pub fn gap_ensure_size(&mut self, size: usize)
        requires
            old(self).well_formed(),
            2 * old(self).spec_capacity() <= usize::MAX,
        ensures
            final(self).well_formed(),
            final(self)@ == old(self)@,
            final(self).spec_gap_start() == old(self).spec_gap_start(),
            old(self).spec_gap_len() >= size ==> *final(self) == *old(self),
            old(self).spec_gap_len() < size ==> final(self).spec_capacity()
                == Self::spec_grown_capacity(old(self).spec_capacity(), size as nat),
            old(self).spec_gap_len() < size ==> final(self).spec_gap_len()
                == final(self).spec_capacity() - old(self)@.len(),
            final(self).spec_capacity() >= old(self).spec_capacity(),
            final(self).spec_gap_len() >= old(self).spec_gap_len(),
    {
        if self.gap_len < size {
            let mut new_capacity = self.slots.len() * 2;
            if size > new_capacity {
                new_capacity = size;
            }
            let floor = Self::min_non_zero_cap();
            if floor > new_capacity {
                new_capacity = floor;
            }
            let ghost pre = *self;
            let ghost s0 = pre.slots@;
            let old_capacity = self.slots.len();
            let count = new_capacity - old_capacity;
            let mut k: usize = 0;
            while k < count
                invariant
                    k <= count,
                    self.gap_start == pre.gap_start,
                    self.gap_len == pre.gap_len,
                    self.slots@ =~= s0 + Seq::<Option<T>>::new(k as nat, |j: int| None),
                decreases count - k,
            {
                self.slots.push(None);
                k = k + 1;
                proof {
                    assert(self.slots@ =~= s0 + Seq::<Option<T>>::new(k as nat, |j: int| None));
                }
            }
            // Slide the right run to the new end, last element first, one
            // constant-cost slot move each; the vacated slots join the gap.
            let mut j = old_capacity;
            while j > self.gap_start + self.gap_len
                invariant
                    self.gap_start == pre.gap_start,
                    self.gap_len == pre.gap_len,
                    pre.gap_start + pre.gap_len <= j <= old_capacity,
                    old_capacity == s0.len(),
                    old_capacity + count == new_capacity,
                    self.slots@.len() == s0.len() + count,
                    forall|m: int| 0 <= m < j ==> self.slots@[m] == s0[m],
                    forall|m: int| j <= m < j + count ==> self.slots@[m] is None,
                    forall|m: int|
                        j + count <= m < s0.len() + count ==> self.slots@[m] == s0[m - count],
                decreases j,
            {
                j = j - 1;
                let ghost before = self.slots@;
                let mut moved: Option<T> = None;
                self.slots.set_and_swap(j, &mut moved);
                self.slots.set_and_swap(j + count, &mut moved);
                proof {
                    assert(self.slots@ == before.update(j as int, None).update(
                        j as int + count,
                        s0[j as int],
                    ));
                }
            }
            self.gap_len = self.gap_len + count;
            proof {
                let gs = pre.gap_start as int;
                let gl = pre.gap_len as int;
                assert(j == gs + gl);
                assert forall|m: int| 0 <= m < gs implies self.slots@[m] is Some by {
                    assert(self.slots@[m] == s0[m]);
                }
                assert forall|m: int| gs <= m < gs + gl + count implies self.slots@[m] is None by {
                    if m < gs + gl {
                        assert(self.slots@[m] == s0[m]);
                    }
                }
                assert forall|m: int|
                    gs + gl + count <= m < self.slots@.len() implies self.slots@[m] is Some by {
                    assert(self.slots@[m] == s0[m - count]);
                }
                assert(self.well_formed());
                assert(self@ =~= pre@);
            }
        }
    }

    /// In a well-formed buffer, every allocated slot is either live or part
    /// of the gap: logical length plus gap size equals capacity.
    pub proof fn lemma_len_capacity(&self)
        requires
            self.well_formed(),
        ensures
            self@.len() + self.spec_gap_len() == self.spec_capacity(),
            self.spec_gap_start() <= self@.len(),
    {
    }

    /// Move every element of `values` into the buffer, in order, appending
    /// at the logical end. Grows once up front to make room for at least the
    /// source length, then appends element by element.
    pub fn buffer_extend_from_vec(&mut self, values: Vec<T>)
        requires
            old(self).well_formed(),
            4 * old(self).spec_capacity() <= usize::MAX,
            4 * (old(self)@.len() + values@.len()) <= usize::MAX,
        ensures
            final(self).well_formed(),
            final(self)@ == old(self)@ + values@,
            final(self).spec_capacity() >= old(self).spec_capacity(),
    {
        let ghost vals = values@;
        let ghost total = old(self)@.len() + vals.len();
        self.gap_ensure_size(values.len());
        let mut vs = values;
        while vs.len() != 0
            invariant
                self.well_formed(),
                vs@.len() <= vals.len(),
                vs@ =~= vals.skip(vals.len() - vs@.len()),
                self@ =~= old(self)@ + vals.take(vals.len() - vs@.len()),
                self@.len() + vs@.len() == total,
                2 * self.spec_capacity() <= usize::MAX,
                4 * total <= usize::MAX,
                self.spec_capacity() >= old(self).spec_capacity(),
            decreases vs@.len(),
        {
            let ghost done = vals.len() - vs@.len();
            let ghost prev_vs = vs@;
            let ghost prev_buf = self@;
            let x = vs.remove(0);
            proof {
                self.lemma_len_capacity();
                assert(prev_vs == vals.skip(done));
                assert(x == prev_vs[0]);
                assert(vals.skip(done)[0] == vals[0 + done]);
                assert(x == vals[done]);
            }
            self.push(x);
            proof {
                assert forall|j: int| 0 <= j < vs@.len() implies vs@[j] == vals[done + 1
                    + j] by {
                    assert(vs@[j] == prev_vs[j + 1]);
                    assert(prev_vs[j + 1] == vals.skip(done)[j + 1]);
                }
                assert(vs@ =~= vals.skip(done + 1));
                assert forall|j: int| 0 <= j < self@.len() implies self@[j] == (old(self)@
                    + vals.take(done + 1))[j] by {
                    assert(self@ == prev_buf.push(x));
                    if j < prev_buf.len() {
                        assert(prev_buf[j] == (old(self)@ + vals.take(done))[j]);
                    }
                }
                assert(self@ =~= old(self)@ + vals.take(done + 1));
            }
        }
        proof {
            assert(self@ =~= old(self)@ + vals);
        }
    }

    /// Build a buffer holding the elements of `values`, in order. One growth
    /// sized to at least the source length, then repeated appends.
    pub fn from_vec(values: Vec<T>) -> (buf: Self)
        requires
            4 * values@.len() <= usize::MAX,
        ensures
            buf.well_formed(),
            buf@ == values@,
    {
        let mut buf = Self::new();
        buf.buffer_extend_from_vec(values);
        proof {
            assert(buf@ =~= values@);
        }
        buf
    }

    /// The sequence-model law: the buffer tracks a reference ordered
    /// sequence. A buffer whose content agrees with a model sequence still
    /// agrees after the same operation is applied to both — what `push`,
    /// `insert` and `delete` ensure of the view is exactly `Seq::push`,
    /// `Seq::insert` and `Seq::remove` of the model — so, by induction over
    /// any operation sequence that starts from the empty buffer, the element
    /// `get` reads at each index below the length is the model's element
    /// there, and nothing stands at or past the length.
    pub proof fn lemma_sequence_model(buffer: Seq<T>, model: Seq<T>, i: int, value: T)
        requires
            buffer == model,
            0 <= i <= model.len(),
        ensures
            buffer.push(value) == model.push(value),
            buffer.insert(i, value) == model.insert(i, value),
            i < model.len() ==> buffer.remove(i) == model.remove(i),
            i < model.len() ==> buffer[i] == model[i],
    {
    }

    /// The conversion contracts compose into a round trip: a packed vector
    /// moved into a buffer (which then shows it as its view) and packed out
    /// again comes back unchanged, element for element and in order.
    pub proof fn lemma_round_trip(source: Seq<T>, buf: &GapBuffer<T>, packed: Seq<T>)
        requires
            buf@ == source,
            packed == buf@,
        ensures
            packed == source,
    {
    }

    /// Consume the buffer and pack its elements into one contiguous vector,
    /// left run followed by right run, in logical order. Destructive: the
    /// elements move out through repeated removal at the front.
    pub fn into_vec(self) -> (r: Vec<T>)
        requires
            self.well_formed(),
        ensures
            r@ == self@,
    {
        let ghost orig = self@;
        let mut buf = self;
        let mut out: Vec<T> = Vec::new();
        while buf.len() != 0
            invariant
                buf.well_formed(),
                out@ + buf@ =~= orig,
            decreases buf@.len(),
        {
            let ghost prev_out = out@;
            let ghost prev_buf = buf@;
            let x = buf.delete(0);
            out.push(x);
            proof {
                assert forall|j: int| 0 <= j < orig.len() implies (out@ + buf@)[j] == orig[j] by {
                    assert(orig[j] == (prev_out + prev_buf)[j]);
                    if j < prev_out.len() {
                        assert((out@ + buf@)[j] == prev_out[j]);
                    } else if j == prev_out.len() {
                        assert((out@ + buf@)[j] == x);
                        assert(x == prev_buf[0]);
                    } else {
                        assert((out@ + buf@)[j] == prev_buf.remove(0)[j - prev_out.len() - 1]);
                    }
                }
                assert(out@ + buf@ =~= orig);
            }
        }
        proof {
            assert(out@ =~= orig);
        }
        out
    }

    /// Relocate the gap so that it begins at logical position `i`.
    ///
    /// Elements between the old and new gap position cross the gap one at a
    /// time, so the cost is linear in the distance moved, never in the whole
    /// buffer. The live content, the gap size and the capacity are unchanged.
    pub fn gap_move_to(&mut self, i: usize)
        requires
            old(self).well_formed(),
            i <= old(self)@.len(),
        ensures
            final(self).well_formed(),
            final(self)@ == old(self)@,
            final(self).spec_gap_start() == i,
            final(self).spec_gap_len() == old(self).spec_gap_len(),
            final(self).spec_capacity() == old(self).spec_capacity(),
    {
        if self.gap_len == 0 {
            // With no gap slots, relocation is pure bookkeeping.
            let ghost pre = *self;
            self.gap_start = i;
            proof {
                assert(self@ =~= pre@);
            }
            return;
        }
        while self.gap_start > i
            invariant
                self.well_formed(),
                self@ == old(self)@,
                self.spec_gap_len() == old(self).spec_gap_len(),
                self.spec_capacity() == old(self).spec_capacity(),
                self.gap_len > 0,
            decreases self.gap_start,
        {
            // The last left-run element becomes the first right-run element:
            // one slot is vacated and one gap slot is filled, at constant cost.
            let ghost pre = *self;
            proof {
                assert(self.gap_start + self.gap_len <= self.slots@.len());
            }
            let mut moved: Option<T> = None;
            self.slots.set_and_swap(self.gap_start - 1, &mut moved);
            self.slots.set_and_swap(self.gap_start - 1 + self.gap_len, &mut moved);
            self.gap_start = self.gap_start - 1;
            proof {
                let s0 = pre.slots@;
                let gs = pre.gap_start as int;
                let gl = pre.gap_len as int;
                assert(self.slots@ == s0.update(gs - 1, None).update(gs - 1 + gl, s0[gs - 1]));
                assert(self.well_formed());
                assert(self@ =~= pre@);
            }
        }
        while self.gap_start < i
            invariant
                self.well_formed(),
                self@ == old(self)@,
                self.spec_gap_len() == old(self).spec_gap_len(),
                self.spec_capacity() == old(self).spec_capacity(),
                self.gap_len > 0,
                self.gap_start <= i,
                i <= self@.len(),
            decreases i - self.gap_start,
        {
            // The first right-run element becomes the last left-run element:
            // one slot is vacated and one gap slot is filled, at constant cost.
            let ghost pre = *self;
            let n = self.slots.len();
            proof {
                assert(self.gap_start + self.gap_len < n);
            }
            let mut moved: Option<T> = None;
            self.slots.set_and_swap(self.gap_start + self.gap_len, &mut moved);
            self.slots.set_and_swap(self.gap_start, &mut moved);
            self.gap_start = self.gap_start + 1;
            proof {
                let s0 = pre.slots@;
                let gs = pre.gap_start as int;
                let gl = pre.gap_len as int;
                assert(self.slots@ == s0.update(gs + gl, None).update(gs, s0[gs + gl]));
                assert(self.well_formed());
                assert(self@ =~= pre@);
            }
        }
    }
}

impl<T> View for GapBuffer<T> {
    type V = Seq<T>;

    /// The live elements in logical order: left run, then right run.
    closed spec fn view(&self) -> Seq<T> {
        Seq::new(
            (self.slots@.len() - self.gap_len) as nat,
            |i: int|
                if i < self.gap_start {
                    self.slots@[i].unwrap()
                } else {
                    self.slots@[i + self.gap_len].unwrap()
                },
        )
    }
}

} // verus!
