//! The pool itself: the backing storage, its partition into slots, and the
//! loans.

use vstd::prelude::*;
use vstd::pervasive::unreached;
use vstd::slice::slice_subrange;
use crate::builder::{BufferPoolBuilder, BuilderState, DEFAULT_BUFFER_SIZE};
use crate::error::PoolError;
use crate::handle::BufferPoolReference;
use crate::model::{is_default, slots_of, PoolState};
use crate::tracker::{any_set, bits, find_free, grow, taken, update_index, value_of_index};

verus! {

/// A contiguous store of `len() * buffer_size` elements, lent out one slot
/// of `buffer_size` elements at a time.
pub struct BufferPool<V: Default + Clone> {
    buffer: Vec<V>,
    buffer_size: usize,
    used: Vec<u32>,
}

impl<V: Default + Clone> View for BufferPool<V> {
    type V = PoolState<V>;

    closed spec fn view(&self) -> PoolState<V> {
        PoolState {
            storage: self.buffer@,
            buffer_size: self.buffer_size as nat,
            loaned: taken(
                bits(self.used@),
                slots_of(self.buffer@.len() as int, self.buffer_size as int),
            ),
        }
    }
}

proof fn lemma_window_fits(index: int, slots: int, buffer_size: int)
    by (nonlinear_arith)
    requires
        0 <= index < slots,
        0 <= buffer_size,
    ensures
        0 <= index * buffer_size,
        index * buffer_size + buffer_size == (index + 1) * buffer_size,
        (index + 1) * buffer_size <= slots * buffer_size,
{
}

proof fn lemma_slots_of_product(slots: int, buffer_size: int)
    by (nonlinear_arith)
    requires
        0 <= slots,
        0 < buffer_size,
    ensures
        (slots * buffer_size) / buffer_size == slots,
{
}

proof fn lemma_product_of_slots(length: int, buffer_size: int)
    by (nonlinear_arith)
    requires
        0 <= length,
        0 < buffer_size,
    ensures
        0 <= length / buffer_size,
        (length / buffer_size) * buffer_size <= length,
{
}

impl<V: Default + Clone> Default for BufferPool<V> {
    /// A pool with the default buffer size and no slot.
    fn default() -> (res: Self)
        ensures
            res.wf(),
            res@.fresh(DEFAULT_BUFFER_SIZE as int, 0),
    {
        BufferPool::new(DEFAULT_BUFFER_SIZE, 0)
    }
}

impl<V: Default + Clone> BufferPool<V> {
    /// The pool is consistent: the storage is a whole number of slots, the
    /// bitmap has a bit for every slot, and no bit beyond the last slot is
    /// set.
    pub closed spec fn wf(&self) -> bool {
        &&& self.buffer@.len() == self@.slots() * self.buffer_size
        &&& self@.slots() <= bits(self.used@).len()
        &&& forall|i: int| self@.slots() <= i < bits(self.used@).len() ==> !bits(self.used@)[i]
    }

    /// A loan that this pool can serve: its slot is on loan.
    pub open spec fn holds(&self, space: &BufferPoolReference<V>) -> bool {
        self@.loaned.contains(space@)
    }

    /// In a consistent pool every slot on loan is a slot of the pool, and
    /// the storage is exactly as long as its slots.
    pub proof fn lemma_wf(&self)
        requires
            self.wf(),
        ensures
            self@.storage.len() == self@.slots() * self@.buffer_size,
            forall|i: int| self@.loaned.contains(i) ==> 0 <= i < self@.slots(),
    {
    }

    proof fn lemma_window_in_storage(&self, index: int)
        requires
            self.wf(),
            0 <= index < self@.slots(),
        ensures
            0 <= index * self.buffer_size,
            index * self.buffer_size + self.buffer_size == (index + 1) * self.buffer_size,
            (index + 1) * self.buffer_size <= self.buffer@.len() <= usize::MAX,
    {
        lemma_window_fits(index, self@.slots(), self.buffer_size as int);
        assert(self.buffer.len() == self.buffer@.len());
    }

    proof fn lemma_idle_bitmap(&self)
        requires
            self.wf(),
            self@.idle(),
        ensures
            forall|i: int| 0 <= i < bits(self.used@).len() ==> !bits(self.used@)[i],
    {
        assert forall|i: int| 0 <= i < bits(self.used@).len() implies !bits(self.used@)[i] by {
            if i < self@.slots() && bits(self.used@)[i] {
                assert(self@.loaned.contains(i));
            }
        }
    }

    /// A pool of `capacity` slots of `buffer_size` elements each, all of
    /// them default and none on loan.
    pub fn new(buffer_size: usize, capacity: usize) -> (res: Self)
        requires
            capacity * buffer_size <= usize::MAX,
        ensures
            res.wf(),
            res@.fresh(buffer_size as int, capacity as int),
    {
        let mut pool = BufferPool { buffer: Vec::new(), buffer_size, used: Vec::new() };
        pool.resize_idle(capacity);
        pool
    }

    /// A builder with the default buffer size and no slot.
    pub fn builder() -> (res: BufferPoolBuilder<V>)
        ensures
            res@ == (BuilderState { buffer_size: DEFAULT_BUFFER_SIZE, capacity: 0 }),
    {
        BufferPoolBuilder::new()
    }

    /// Number of slots.
    pub fn len(&self) -> (res: usize)
        ensures
            res == self@.slots(),
    {
        if self.buffer_size == 0 {
            0
        } else {
            self.buffer.len() / self.buffer_size
        }
    }

    fn find_free_index(&self) -> (res: Result<usize, PoolError>)
        requires
            self.wf(),
        ensures
            match res {
                Ok(index) => self@.lowest_free(index as int),
                Err(e) => e == PoolError::PoolExhausted && self@.exhausted(),
            },
    {
        match find_free(self.used.as_slice(), self.len()) {
            Some(index) => Ok(index),
            None => Err(PoolError::PoolExhausted),
        }
    }

    fn set_index_used(&mut self, index: usize) -> (res: Result<(), PoolError>)
        requires
            old(self).wf(),
            index < old(self)@.slots(),
        ensures
            res.is_ok(),
            final(self).wf(),
            final(self)@.storage == old(self)@.storage,
            final(self)@.buffer_size == old(self)@.buffer_size,
            final(self)@.loaned == old(self)@.loaned.insert(index as int),
    {
        let res = update_index(&mut self.used, index, true);
        proof {
            assert(final(self)@.loaned =~= old(self)@.loaned.insert(index as int));
        }
        res
    }

    fn find_free_index_and_use(&mut self) -> (res: Result<usize, PoolError>)
        requires
            old(self).wf(),
        ensures
            final(self).wf(),
            final(self)@.storage == old(self)@.storage,
            final(self)@.buffer_size == old(self)@.buffer_size,
            match res {
                Ok(index) => old(self)@.lowest_free(index as int) && final(self)@.loaned == old(
                    self,
                )@.loaned.insert(index as int),
                Err(e) => e == PoolError::PoolExhausted && old(self)@.exhausted() && final(self)@
                    == old(self)@,
            },
    {
        match self.find_free_index() {
            Ok(index) => match self.set_index_used(index) {
                Ok(()) => Ok(index),
                Err(e) => Err(e),
            },
            Err(e) => Err(e),
        }
    }

    /// Lends the lowest free slot, with whatever its window holds. Fails
    /// with `PoolExhausted`, and changes nothing, exactly when every slot is
    /// on loan.
    pub fn get_space(&mut self) -> (res: Result<BufferPoolReference<V>, PoolError>)
        requires
            old(self).wf(),
        ensures
            final(self).wf(),
            final(self)@.storage == old(self)@.storage,
            final(self)@.buffer_size == old(self)@.buffer_size,
            match res {
                Ok(space) => old(self)@.lowest_free(space@) && final(self)@.loaned == old(
                    self,
                )@.loaned.insert(space@),
                Err(e) => e == PoolError::PoolExhausted && old(self)@.exhausted() && final(self)@
                    == old(self)@,
            },
    {
        match self.find_free_index_and_use() {
            Ok(index) => Ok(BufferPoolReference::new(index)),
            Err(e) => Err(e),
        }
    }

    /// Ends a loan: the slot is free again, and its window keeps what was
    /// last written to it. A loan that is dropped instead of being handed
    /// back here keeps its slot on loan.
    pub fn release(&mut self, space: BufferPoolReference<V>)
        requires
            old(self).wf(),
            old(self).holds(&space),
        ensures
            final(self).wf(),
            final(self)@.storage == old(self)@.storage,
            final(self)@.buffer_size == old(self)@.buffer_size,
            final(self)@.loaned == old(self)@.loaned.remove(space@),
    {
        match value_of_index(self.used.as_slice(), space.index()) {
            Ok(true) => {
                let _ = update_index(&mut self.used, space.index(), false);
            },
            _ => {
                unreached::<()>();
            },
        }
        proof {
            assert(final(self)@.loaned =~= old(self)@.loaned.remove(space@));
        }
    }

    /// Number of slots; the same as `len`.
    pub fn capacity(&self) -> (res: usize)
        ensures
            res == self@.slots(),
    {
        self.len()
    }

    /// Whether the pool has no slot at all.
    pub fn is_empty(&self) -> (res: bool)
        ensures
            res == (self@.slots() == 0),
    {
        self.len() == 0
    }

    /// Number of elements in one slot.
    pub fn buffer_size(&self) -> (res: usize)
        ensures
            res == self@.buffer_size,
    {
        self.buffer_size
    }

    /// The whole backing storage, slot after slot.
    pub fn storage(&self) -> (res: &[V])
        ensures
            res@ == self@.storage,
    {
        self.buffer.as_slice()
    }

    /// Whether slot `index` is on loan.
    pub fn is_slot_borrowed(&self, index: usize) -> (res: bool)
        requires
            self.wf(),
        ensures
            res == self@.loaned.contains(index as int),
    {
        if index < self.len() {
            match value_of_index(self.used.as_slice(), index) {
                Ok(value) => value,
                Err(_) => false,
            }
        } else {
            false
        }
    }

    /// Whether any slot is on loan.
    pub fn is_borrowed(&self) -> (res: bool)
        ensures
            res == !self@.idle(),
    {
        let res = any_set(self.used.as_slice(), self.len());
        proof {
            let bitmap = bits(self.used@);
            let slots = self@.slots();
            if res {
                let j = choose|j: int| 0 <= j < slots && j < bitmap.len() && bitmap[j];
                assert(self@.loaned.contains(j));
            }
        }
        res
    }

    /// Overwrites every element of the storage with a default value, on
    /// loan or not. The loans themselves stay as they are.
    pub fn clear(&mut self)
        requires
            old(self).wf(),
        ensures
            final(self).wf(),
            final(self)@.buffer_size == old(self)@.buffer_size,
            final(self)@.loaned == old(self)@.loaned,
            final(self)@.storage.len() == old(self)@.storage.len(),
            forall|k: int| 0 <= k < final(self)@.storage.len() ==> is_default(final(self)@.storage[k]),
    {
        let mut position: usize = 0;
        while position < self.buffer.len()
            invariant
                self.buffer@.len() == old(self).buffer@.len(),
                self.buffer_size == old(self).buffer_size,
                self.used == old(self).used,
                position <= self.buffer@.len(),
                forall|k: int| 0 <= k < position ==> is_default(self.buffer@[k]),
            decreases self.buffer@.len() - position,
        {
            self.buffer[position] = V::default();
            position += 1;
        }
    }

    /// The elements of the slot that `space` covers.
    pub fn read(&self, space: &BufferPoolReference<V>) -> (res: &[V])
        requires
            self.wf(),
            self.holds(space),
        ensures
            res@ == self@.window(space@),
            res@.len() == self@.buffer_size,
    {
        let index: usize = space.index();
        proof {
            self.lemma_window_in_storage(index as int);
        }
        let start: usize = index * self.buffer_size;
        slice_subrange(self.buffer.as_slice(), start, start + self.buffer_size)
    }

    /// Stores `value` as element `offset` of the slot that `space` covers.
    /// No other element of the storage changes.
    pub fn write(&mut self, space: &BufferPoolReference<V>, offset: usize, value: V)
        requires
            old(self).wf(),
            old(self).holds(space),
            offset < old(self)@.buffer_size,
        ensures
            final(self).wf(),
            final(self)@.buffer_size == old(self)@.buffer_size,
            final(self)@.loaned == old(self)@.loaned,
            final(self)@.storage == old(self)@.storage.update(
                old(self)@.window_start(space@) + offset,
                value,
            ),
            final(self)@.window(space@) == old(self)@.window(space@).update(offset as int, value),
    {
        let index: usize = space.index();
        proof {
            self.lemma_window_in_storage(index as int);
        }
        let start: usize = index * self.buffer_size;
        self.buffer[start + offset] = value;
        proof {
            assert(final(self)@.window(space@) =~= old(self)@.window(space@).update(
                offset as int,
                value,
            ));
        }
    }

    /// Lends the lowest free slot after overwriting its window, and no
    /// other part of the storage, with default values. Fails with
    /// `PoolExhausted`, and changes nothing, exactly when every slot is on
    /// loan.
    pub fn get_cleared_space(&mut self) -> (res: Result<BufferPoolReference<V>, PoolError>)
        requires
            old(self).wf(),
        ensures
            final(self).wf(),
            final(self)@.buffer_size == old(self)@.buffer_size,
            final(self)@.storage.len() == old(self)@.storage.len(),
            match res {
                Ok(space) => {
                    &&& old(self)@.lowest_free(space@)
                    &&& final(self)@.loaned == old(self)@.loaned.insert(space@)
                    &&& forall|k: int|
                        0 <= k < final(self)@.storage.len() ==> if old(self)@.in_window(space@, k) {
                            is_default(#[trigger] final(self)@.storage[k])
                        } else {
                            final(self)@.storage[k] == old(self)@.storage[k]
                        }
                },
                Err(e) => e == PoolError::PoolExhausted && old(self)@.exhausted() && final(self)@
                    == old(self)@,
            },
    {
        match self.get_space() {
            Ok(space) => {
                let index: usize = space.index();
                proof {
                    self.lemma_window_in_storage(index as int);
                }
                let start: usize = index * self.buffer_size;
                let end: usize = start + self.buffer_size;
                let ghost lent = *self;
                let mut position: usize = start;
                while position < end
                    invariant
                        self.buffer@.len() == old(self).buffer@.len(),
                        self.buffer_size == old(self).buffer_size,
                        self.used == lent.used,
                        start <= position <= end <= self.buffer@.len(),
                        forall|k: int| start <= k < position ==> is_default(self.buffer@[k]),
                        forall|k: int|
                            0 <= k < self.buffer@.len() && !(start <= k < position)
                                ==> self.buffer@[k] == old(self).buffer@[k],
                    decreases end - position,
                {
                    self.buffer[position] = V::default();
                    position += 1;
                }
                Ok(space)
            },
            Err(e) => Err(e),
        }
    }

    fn resize_idle(&mut self, new_len: usize)
        requires
            forall|i: int| 0 <= i < bits(old(self).used@).len() ==> !bits(old(self).used@)[i],
            new_len * old(self).buffer_size <= usize::MAX,
        ensures
            final(self).wf(),
            final(self)@.idle(),
            final(self)@.buffer_size == old(self).buffer_size,
            final(self)@.storage.len() == new_len * old(self).buffer_size,
            old(self).buffer_size > 0 ==> final(self)@.slots() == new_len,
            forall|k: int|
                0 <= k < final(self)@.storage.len() ==> if k < old(self).buffer@.len() {
                    final(self)@.storage[k] == old(self).buffer@[k]
                } else {
                    is_default(#[trigger] final(self)@.storage[k])
                },
    {
        let target: usize = new_len * self.buffer_size;
        self.buffer.truncate(target);
        while self.buffer.len() < target
            invariant
                self.buffer_size == old(self).buffer_size,
                self.used == old(self).used,
                target > old(self).buffer@.len() ==> old(self).buffer@.len() <= self.buffer@.len()
                    <= target,
                target <= old(self).buffer@.len() ==> self.buffer@ == old(self).buffer@.subrange(
                    0,
                    target as int,
                ),
                forall|k: int|
                    0 <= k < self.buffer@.len() ==> if k < old(self).buffer@.len() {
                        self.buffer@[k] == old(self).buffer@[k]
                    } else {
                        is_default(#[trigger] self.buffer@[k])
                    },
            decreases target - self.buffer.len(),
        {
            self.buffer.push(V::default());
        }
        grow(&mut self.used, new_len);
        proof {
            if self.buffer_size > 0 {
                lemma_slots_of_product(new_len as int, self.buffer_size as int);
            } else {
                assert(new_len * self.buffer_size == 0) by (nonlinear_arith)
                    requires
                        self.buffer_size == 0,
                ;
            }
            assert(self@.loaned =~= Set::empty());
        }
    }

    /// Sets the slot count to `new_len`, with the buffer size unchanged.
    /// Fails with `PoolBusy`, and changes nothing, exactly when a slot is
    /// on loan. Otherwise the storage is cut or extended to `new_len`
    /// slots: what remains of it is unchanged, what is new is default.
    pub fn try_resize(&mut self, new_len: usize) -> (res: Result<(), PoolError>)
        requires
            old(self).wf(),
            new_len * old(self)@.buffer_size <= usize::MAX,
        ensures
            final(self).wf(),
            old(self)@.idle() ==> res.is_ok() && old(self)@.resized_to(new_len as int, final(self)@),
            !old(self)@.idle() ==> res == Err::<(), PoolError>(PoolError::PoolBusy) && *final(self)
                == *old(self),
    {
        if self.is_borrowed() {
            Err(PoolError::PoolBusy)
        } else {
            proof {
                self.lemma_idle_bitmap();
            }
            self.resize_idle(new_len);
            Ok(())
        }
    }

    /// Sets the slot count to `new_len` in a pool with no slot on loan.
    pub fn resize(&mut self, new_len: usize)
        requires
            old(self).wf(),
            old(self)@.idle(),
            new_len * old(self)@.buffer_size <= usize::MAX,
        ensures
            final(self).wf(),
            old(self)@.resized_to(new_len as int, final(self)@),
    {
        if self.try_resize(new_len).is_err() {
            unreached::<()>();
        }
    }

    /// Adds `additional` slots. Fails with `PoolBusy`, and changes nothing,
    /// exactly when a slot is on loan.
    pub fn try_reserve(&mut self, additional: usize) -> (res: Result<(), PoolError>)
        requires
            old(self).wf(),
            (old(self)@.slots() + additional) * old(self)@.buffer_size <= usize::MAX,
            old(self)@.slots() + additional <= usize::MAX,
        ensures
            final(self).wf(),
            old(self)@.idle() ==> res.is_ok() && old(self)@.resized_to(
                old(self)@.slots() + additional,
                final(self)@,
            ),
            !old(self)@.idle() ==> res == Err::<(), PoolError>(PoolError::PoolBusy) && *final(self)
                == *old(self),
    {
        let new_len: usize = self.len() + additional;
        self.try_resize(new_len)
    }

    /// Adds `additional` slots to a pool with no slot on loan.
    pub fn reserve(&mut self, additional: usize)
        requires
            old(self).wf(),
            old(self)@.idle(),
            (old(self)@.slots() + additional) * old(self)@.buffer_size <= usize::MAX,
            old(self)@.slots() + additional <= usize::MAX,
        ensures
            final(self).wf(),
            old(self)@.resized_to(old(self)@.slots() + additional, final(self)@),
    {
        let new_len: usize = self.len() + additional;
        self.resize(new_len);
    }

    /// Sets the number of elements in one slot to `new_buffer_size` and
    /// cuts the storage anew. Fails with `PoolBusy`, and changes nothing,
    /// exactly when a slot is on loan. Otherwise the storage keeps as many
    /// whole slots of the new size as it held and loses the remainder.
    pub fn try_change_buffer_size(&mut self, new_buffer_size: usize) -> (res: Result<
        (),
        PoolError,
    >)
        requires
            old(self).wf(),
        ensures
            final(self).wf(),
            old(self)@.idle() ==> res.is_ok() && old(self)@.repartitioned(
                new_buffer_size as int,
                final(self)@,
            ),
            !old(self)@.idle() ==> res == Err::<(), PoolError>(PoolError::PoolBusy) && *final(self)
                == *old(self),
    {
        if self.is_borrowed() {
            Err(PoolError::PoolBusy)
        } else {
            proof {
                self.lemma_idle_bitmap();
            }
            self.buffer_size = new_buffer_size;
            let new_len: usize = self.len();
            proof {
                if new_buffer_size > 0 {
                    lemma_product_of_slots(self.buffer@.len() as int, new_buffer_size as int);
                }
                assert(self.buffer.len() == self.buffer@.len());
            }
            self.resize_idle(new_len);
            proof {
                assert(final(self)@.storage =~= old(self)@.storage.subrange(
                    0,
                    final(self)@.slots() * new_buffer_size,
                ));
            }
            Ok(())
        }
    }

    /// Sets the number of elements in one slot in a pool with no slot on
    /// loan.
    pub fn change_buffer_size(&mut self, new_buffer_size: usize)
        requires
            old(self).wf(),
            old(self)@.idle(),
        ensures
            final(self).wf(),
            old(self)@.repartitioned(new_buffer_size as int, final(self)@),
    {
        if self.try_change_buffer_size(new_buffer_size).is_err() {
            unreached::<()>();
        }
    }
}

} // verus!
