//! The token that stands for one slot on loan.

use vstd::prelude::*;
use core::marker::PhantomData;

verus! {

/// A slot on loan. It is made by the pool alone, cannot be copied, and is
/// handed back to the pool to end the loan.
pub struct BufferPoolReference<V> {
    index: usize,
    marker: PhantomData<V>,
}

impl<V> View for BufferPoolReference<V> {
    type V = int;

    closed spec fn view(&self) -> int {
        self.index as int
    }
}

impl<V> BufferPoolReference<V> {
    pub(crate) fn new(index: usize) -> (res: Self)
        ensures
            res@ == index,
    {
        BufferPoolReference { index, marker: PhantomData }
    }

    /// The index of the slot that this loan covers.
    pub fn index(&self) -> (res: usize)
        ensures
            res == self@,
    {
        self.index
    }
}

} // verus!
