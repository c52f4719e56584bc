//! Options the operator runs the tool with.

use crate::monitor::FilterConfig;
use vstd::prelude::*;

verus! {

/// How many flows to show, optional process and thread filters, and whether to show
/// host names in place of addresses.
#[derive(Copy, Clone, Debug, PartialEq, Eq, Structural)]
pub struct Cli {
    pub top_n: usize,
    pub pid: Option<u64>,
    pub tid: Option<u64>,
    pub host_name: bool,
}

impl Cli {
    /// The filter these options ask the probe for.
    pub fn filter(&self) -> (r: FilterConfig)
        ensures
            r == (FilterConfig { pid: self.pid, tid: self.tid }),
    {
        FilterConfig::new(self.pid, self.tid)
    }
}

} // verus!
