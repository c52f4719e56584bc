//! Types shared by the probe side and the consumer side.

use vstd::prelude::*;

verus! {

/// Protocol tag of a TCP flow.
pub const TCP: u8 = 0;

/// Protocol tag of a UDP flow.
pub const UDP: u8 = 1;

/// Identity of a flow by its 5-tuple.
#[derive(Copy, Clone, Debug, PartialEq, Eq, Hash, Structural)]
pub struct FlowKey {
    pub src_addr: u32,
    pub dest_addr: u32,
    pub src_port: u16,
    pub dest_port: u16,
    pub protocol: u8,
}

impl FlowKey {
    pub fn new(src_addr: u32, dest_addr: u32, src_port: u16, dest_port: u16, protocol: u8) -> (r:
        FlowKey)
        ensures
            r == (FlowKey { src_addr, dest_addr, src_port, dest_port, protocol }),
    {
        FlowKey { src_addr, dest_addr, src_port, dest_port, protocol }
    }
}

/// Key of an entry of the filter configuration.
#[derive(Copy, Clone, Debug, PartialEq, Eq, Hash, Structural)]
pub enum ConfigKey {
    PID,
    TID,
}

} // verus!
