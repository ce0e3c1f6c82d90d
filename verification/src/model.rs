//! The mathematical model of a pool: what its contracts speak of.

use vstd::prelude::*;

verus! {

/// Whether `value` is a value that `V::default()` may return.
pub open spec fn is_default<V: Default>(value: V) -> bool {
    call_ensures(V::default, (), value)
}

/// Number of slots in a storage of `length` elements cut every
/// `buffer_size` elements: the quotient, and zero where `buffer_size` is zero.
pub open spec fn slots_of(length: int, buffer_size: int) -> int {
    if buffer_size == 0 {
        0
    } else {
        length / buffer_size
    }
}

/// A pool seen as plain values: the backing storage, the number of
/// elements in one slot, and the set of slots on loan.
pub struct PoolState<V> {
    pub storage: Seq<V>,
    pub buffer_size: nat,
    pub loaned: Set<int>,
}

impl<V> PoolState<V> {
    /// Number of slots: the storage length divided by the buffer size, and
    /// zero where the buffer size is zero.
    pub open spec fn slots(self) -> int {
        slots_of(self.storage.len() as int, self.buffer_size as int)
    }

    /// First storage position of slot `index`.
    pub open spec fn window_start(self, index: int) -> int {
        index * self.buffer_size
    }

    /// One past the last storage position of slot `index`.
    pub open spec fn window_end(self, index: int) -> int {
        (index + 1) * self.buffer_size
    }

    /// Whether storage position `position` belongs to slot `index`.
    pub open spec fn in_window(self, index: int, position: int) -> bool {
        self.window_start(index) <= position < self.window_end(index)
    }

    /// The elements of slot `index`.
    pub open spec fn window(self, index: int) -> Seq<V> {
        self.storage.subrange(self.window_start(index), self.window_end(index))
    }

    /// `index` is the lowest slot that is not on loan.
    pub open spec fn lowest_free(self, index: int) -> bool {
        &&& 0 <= index < self.slots()
        &&& !self.loaned.contains(index)
        &&& forall|j: int| 0 <= j < index ==> self.loaned.contains(j)
    }

    /// Every slot is on loan.
    pub open spec fn exhausted(self) -> bool {
        forall|j: int| 0 <= j < self.slots() ==> self.loaned.contains(j)
    }

    /// No slot is on loan.
    pub open spec fn idle(self) -> bool {
        self.loaned =~= Set::empty()
    }
}

impl<V: Default> PoolState<V> {
    /// This is a new pool of `capacity` slots of `buffer_size` elements:
    /// no slot is on loan and every element is default.
    pub open spec fn fresh(self, buffer_size: int, capacity: int) -> bool {
        &&& self.buffer_size == buffer_size
        &&& self.loaned == Set::<int>::empty()
        &&& self.storage.len() == capacity * buffer_size
        &&& buffer_size > 0 ==> self.slots() == capacity
        &&& forall|k: int| 0 <= k < self.storage.len() ==> is_default(#[trigger] self.storage[k])
    }

    /// `after` is this pool, idle, with its slot count set to `slots`: the
    /// buffer size is kept, the storage is cut or extended to `slots`
    /// slots, what remains of it is unchanged and what is new is default.
    pub open spec fn resized_to(self, slots: int, after: PoolState<V>) -> bool {
        &&& after.buffer_size == self.buffer_size
        &&& after.loaned == Set::<int>::empty()
        &&& after.storage.len() == slots * self.buffer_size
        &&& self.buffer_size > 0 ==> after.slots() == slots
        &&& forall|k: int|
            0 <= k < after.storage.len() ==> if k < self.storage.len() {
                after.storage[k] == self.storage[k]
            } else {
                is_default(#[trigger] after.storage[k])
            }
    }

    /// `after` is this pool, idle, cut anew into slots of `buffer_size`
    /// elements: the storage keeps as many whole slots of the new size as
    /// it held, and loses the remainder.
    pub open spec fn repartitioned(self, buffer_size: int, after: PoolState<V>) -> bool {
        &&& after.buffer_size == buffer_size
        &&& after.loaned == Set::<int>::empty()
        &&& after.slots() == slots_of(self.storage.len() as int, buffer_size)
        &&& after.storage == self.storage.subrange(0, after.slots() * buffer_size)
    }
}

} // verus!
