//! A fixed-slot buffer pool: one contiguous backing store cut into equal
//! windows, lent out one window at a time, with an occupancy bitmap that
//! records which windows are on loan.

pub mod builder;
pub mod error;
pub mod handle;
pub mod laws;
pub mod model;
pub mod pool;
pub mod tracker;

pub use builder::{BufferPoolBuilder, BuilderState, DEFAULT_BUFFER_SIZE};
pub use error::PoolError;
pub use handle::BufferPoolReference;
pub use model::PoolState;
pub use pool::BufferPool;
