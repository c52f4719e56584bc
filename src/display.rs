//! What the flow table shows of a record, short of drawing it.

use crate::common_types::TCP;
use vstd::prelude::*;

verus! {

/// How loudly a throughput is shown.
#[derive(Copy, Clone, Debug, PartialEq, Eq, Structural)]
pub enum Level {
    High,
    Medium,
    Normal,
}

/// Above this many bytes per second a flow is shown as high.
pub const HIGH_THROUGHPUT: u64 = 100_000;

/// Above this many bytes per second a flow is shown as medium.
pub const MEDIUM_THROUGHPUT: u64 = 10_000;

pub fn throughput_level(throughput: u64) -> (r: Level)
    ensures
        throughput > HIGH_THROUGHPUT ==> r == Level::High,
        MEDIUM_THROUGHPUT < throughput <= HIGH_THROUGHPUT ==> r == Level::Medium,
        throughput <= MEDIUM_THROUGHPUT ==> r == Level::Normal,
{
    if throughput > HIGH_THROUGHPUT {
        Level::High
    } else if throughput > MEDIUM_THROUGHPUT {
        Level::Medium
    } else {
        Level::Normal
    }
}

/// Name of a protocol tag: TCP for its tag, UDP for any other.
pub fn protocol_label(protocol: u8) -> (r: &'static str)
    ensures
        protocol == TCP ==> r@ == "TCP"@,
        protocol != TCP ==> r@ == "UDP"@,
{
    if protocol == TCP {
        "TCP"
    } else {
        "UDP"
    }
}

} // verus!
