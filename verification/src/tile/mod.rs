//! Network tiles: the queues between I/O threads and engine threads, and the rules of their
//! packet path.

pub mod network;
pub mod os_tile;
pub mod pool;
pub mod queue;
pub mod router;
pub mod sealed;
