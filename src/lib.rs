//! Live per-flow throughput accounting: a double-buffered counter table written by a
//! probe and drained once per tick into a bounded top-K aggregator.

pub mod common_types;
pub mod flow_info;
pub mod counter_table;
pub mod monitor;
pub mod cli;
pub mod display;

pub use cli::Cli;
pub use common_types::{ConfigKey, FlowKey, TCP, UDP};
pub use counter_table::{sum_per_cpu, FlowCounterTable};
pub use flow_info::{FlowInfo, LimitedMaxHeap, Liter};
pub use monitor::{Direction, FilterConfig, FlowMonitor, ProbeEvent};
