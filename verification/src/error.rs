use vstd::prelude::*;

verus! {

/// The ways in which a pool operation can be refused.
#[derive(Clone, Copy, Debug, PartialEq, Eq, Structural)]
pub enum PoolError {
    /// Every slot of the pool is on loan.
    PoolExhausted,
    /// The slot count or the buffer size cannot change while a slot is on loan.
    PoolBusy,
    /// An index lies beyond the bits that the occupancy bitmap holds.
    IndexOutOfRange,
}

} // verus!
