//! Routing table entries.

use vstd::prelude::*;

verus! {

/// One entry of a routing table for addresses of type `A`.
#[derive(Debug)]
pub struct Route<A> {
    pub destination: Option<A>,
    pub gateway: Option<A>,
    pub preferred_src: Option<A>,
    pub out_if_index: Option<u32>,
    pub priority: Option<u32>,
    pub type_: u8,
    pub dst_len: u8,
}

} // verus!
