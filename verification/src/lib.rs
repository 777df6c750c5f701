//! Verified core of a tile-based UDP packet I/O stack.
#![allow(unused_imports)]

pub mod addr;
pub mod bench;
pub mod interface;
pub mod iouring;
pub mod mpsc;
pub mod net;
pub mod os;
pub mod sockaddr;
pub mod tile;
pub mod xdp;
