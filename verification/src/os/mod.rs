//! Packet socket over the operating system's UDP sockets.

pub mod buffers;
pub mod debug;
pub mod socket;
