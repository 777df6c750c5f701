//! AF_XDP sockets: UMEM frames, rings, routing and the packet path.

pub mod buffers;
pub mod ebpf;
pub mod lpm;
pub mod packet;
pub mod program;
pub mod raw_socket;
pub mod reclaimer;
pub mod ring;
pub mod route;
pub mod route_monitor;
pub mod socket;
pub mod umem;
