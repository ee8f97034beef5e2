//! A growable, exclusively-owned byte buffer with a valid-data length and a
//! cursor, and a pool that recycles idle buffers by fixed capacity classes.

pub mod buffer;
pub mod pool;

pub use buffer::AllocError;
pub use buffer::MBuf;
pub use pool::MBufPool;
