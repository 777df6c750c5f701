//! Packet socket over io_uring.

pub mod buffers;
pub mod ring;
pub mod socket;
