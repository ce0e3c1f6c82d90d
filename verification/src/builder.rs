//! Step-by-step configuration of a pool.

use vstd::prelude::*;
use core::marker::PhantomData;
use crate::pool::BufferPool;

verus! {

/// Number of elements in one slot where none is asked for.
pub const DEFAULT_BUFFER_SIZE: usize = 1024;

/// What a builder has been told so far.
pub struct BuilderState {
    pub buffer_size: usize,
    pub capacity: usize,
}

/// Collects the buffer size and the slot count of a pool to be made.
pub struct BufferPoolBuilder<V: Default + Clone> {
    buffer_size: usize,
    capacity: usize,
    marker: PhantomData<V>,
}

impl<V: Default + Clone> View for BufferPoolBuilder<V> {
    type V = BuilderState;

    closed spec fn view(&self) -> BuilderState {
        BuilderState { buffer_size: self.buffer_size, capacity: self.capacity }
    }
}

impl<V: Clone + Default> Default for BufferPoolBuilder<V> {
    /// The default buffer size and no slot.
    fn default() -> (res: Self)
        ensures
            res@ == (BuilderState { buffer_size: DEFAULT_BUFFER_SIZE, capacity: 0 }),
    {
        BufferPoolBuilder { buffer_size: DEFAULT_BUFFER_SIZE, capacity: 0, marker: PhantomData }
    }
}

impl<V: Default + Clone> BufferPoolBuilder<V> {
    /// The default buffer size and no slot.
    pub fn new() -> (res: Self)
        ensures
            res@ == (BuilderState { buffer_size: DEFAULT_BUFFER_SIZE, capacity: 0 }),
    {
        BufferPoolBuilder { buffer_size: DEFAULT_BUFFER_SIZE, capacity: 0, marker: PhantomData }
    }

    /// Sets the slot count and keeps the buffer size.
    pub fn with_capacity(self, capacity: usize) -> (res: Self)
        ensures
            res@ == (BuilderState { buffer_size: self@.buffer_size, capacity }),
    {
        BufferPoolBuilder { buffer_size: self.buffer_size, capacity, marker: PhantomData }
    }

    /// Sets the buffer size and keeps the slot count.
    pub fn with_buffer_size(self, buffer_size: usize) -> (res: Self)
        ensures
            res@ == (BuilderState { buffer_size, capacity: self@.capacity }),
    {
        BufferPoolBuilder { buffer_size, capacity: self.capacity, marker: PhantomData }
    }

    /// Makes the pool: `capacity` slots of `buffer_size` elements, all of
    /// them default and none on loan.
    pub fn build(self) -> (res: BufferPool<V>)
        requires
            self@.capacity * self@.buffer_size <= usize::MAX,
        ensures
            res.wf(),
            res@.fresh(self@.buffer_size as int, self@.capacity as int),
    {
        BufferPool::new(self.buffer_size, self.capacity)
    }
}

} // verus!
