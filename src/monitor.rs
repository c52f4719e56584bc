//! The probe's flow extraction and filter, the generation flag and the rotation that
//! drains the frozen generation into the aggregators.

use crate::common_types::{ConfigKey, FlowKey};
use crate::counter_table::{CounterTableView, FlowCounterTable};
use crate::flow_info::{add_all, LimitedMaxHeap};
use vstd::prelude::*;

verus! {

/// Address family of IPv4 sockets.
pub const AF_INET: u16 = 2;

/// Address family of IPv6 sockets.
pub const AF_INET6: u16 = 10;

/// Direction of the traffic a probe saw: received or sent.
#[derive(Copy, Clone, Debug, PartialEq, Eq, Structural)]
pub enum Direction {
    Ingress,
    Egress,
}

/// Optional filters on the calling process and thread; `None` filters nothing.
#[derive(Copy, Clone, Debug, PartialEq, Eq, Structural)]
pub struct FilterConfig {
    pub pid: Option<u64>,
    pub tid: Option<u64>,
}

/// The entries a filter configuration is pushed to the probe as, process id first.
pub open spec fn config_entries(f: FilterConfig) -> Seq<(ConfigKey, u64)> {
    let p = match f.pid {
        Some(v) => seq![(ConfigKey::PID, v)],
        None => Seq::empty(),
    };
    let t = match f.tid {
        Some(v) => seq![(ConfigKey::TID, v)],
        None => Seq::empty(),
    };
    p + t
}

impl FilterConfig {
    pub fn new(pid: Option<u64>, tid: Option<u64>) -> (r: FilterConfig)
        ensures
            r == (FilterConfig { pid, tid }),
    {
        FilterConfig { pid, tid }
    }

    /// Sets the entry of `key` to `value`, overwriting an earlier one.
    pub fn set(&mut self, key: ConfigKey, value: u64)
        ensures
            key == ConfigKey::PID ==> *final(self) == (FilterConfig { pid: Some(value), ..*old(self) }),
            key == ConfigKey::TID ==> *final(self) == (FilterConfig { tid: Some(value), ..*old(self) }),
    {
        match key {
            ConfigKey::PID => self.pid = Some(value),
            ConfigKey::TID => self.tid = Some(value),
        }
    }

    /// The entries to push to the probe's configuration table.
    pub fn entries(&self) -> (r: Vec<(ConfigKey, u64)>)
        ensures
            r@ == config_entries(*self),
    {
        let mut r: Vec<(ConfigKey, u64)> = Vec::new();
        if let Some(p) = self.pid {
            r.push((ConfigKey::PID, p));
        }
        if let Some(t) = self.tid {
            r.push((ConfigKey::TID, t));
        }
        assert(r@ =~= config_entries(*self));
        r
    }
}

/// What a probe sees of one send or receive call: the execution unit it runs on, the
/// socket's address family, the caller's process and thread ids, the socket's addresses
/// and ports as the bytes stored in it, and the length of the transfer.
#[derive(Copy, Clone, Debug)]
pub struct ProbeEvent {
    pub unit: usize,
    pub family: u16,
    pub process_id: u32,
    pub thread_id: u32,
    pub src_addr: [u8; 4],
    pub dest_addr: [u8; 4],
    pub src_port: [u8; 2],
    pub dest_port: [u8; 2],
    pub len: u64,
}

/// The big-endian reading of four bytes.
pub open spec fn be_u32(b: Seq<u8>) -> u32 {
    (b[0] as int * 0x1000000 + b[1] as int * 0x10000 + b[2] as int * 0x100 + b[3] as int) as u32
}

/// The big-endian reading of two bytes.
pub open spec fn be_u16(b: Seq<u8>) -> u16 {
    (b[0] as int * 0x100 + b[1] as int) as u16
}

/// Reads four bytes in network order.
pub fn u32_from_be_bytes(b: [u8; 4]) -> (r: u32)
    ensures
        r == be_u32(b@),
{
    let v: u32 = b[0] as u32 * 0x1000000 + b[1] as u32 * 0x10000 + b[2] as u32 * 0x100 + b[3] as u32;
    v
}

/// Reads two bytes in network order.
pub fn u16_from_be_bytes(b: [u8; 2]) -> (r: u16)
    ensures
        r == be_u16(b@),
{
    let v: u16 = b[0] as u16 * 0x100 + b[1] as u16;
    v
}

/// The filter lets a call by this process and thread through.
pub open spec fn admits(f: FilterConfig, ev: ProbeEvent) -> bool {
    &&& match f.pid {
        Some(p) => p == ev.process_id as u64,
        None => true,
    }
    &&& match f.tid {
        Some(t) => t == ev.thread_id as u64,
        None => true,
    }
}

/// The flow of a call, its addresses and ports read in network order.
pub open spec fn flow_of(ev: ProbeEvent, protocol: u8) -> FlowKey {
    FlowKey {
        src_addr: be_u32(ev.src_addr@),
        dest_addr: be_u32(ev.dest_addr@),
        src_port: be_u16(ev.src_port@),
        dest_port: be_u16(ev.dest_port@),
        protocol,
    }
}

/// What a probe counts of a call: nothing for a family other than IPv4 or a caller the
/// filter turns away; else the call's flow and length.
pub open spec fn extract(f: FilterConfig, ev: ProbeEvent, protocol: u8) -> Option<(FlowKey, u64)> {
    if ev.family == AF_INET && admits(f, ev) {
        Some((flow_of(ev, protocol), ev.len))
    } else {
        None
    }
}

/// The flow and length a probe counts of a call, if any.
pub fn unwrap_flow_info(filter: &FilterConfig, ev: &ProbeEvent, protocol: u8) -> (r: Option<(FlowKey, u64)>)
    ensures
        r == extract(*filter, *ev, protocol),
{
    if ev.family != AF_INET {
        return None;
    }
    if let Some(pid) = filter.pid {
        if pid != ev.process_id as u64 {
            return None;
        }
    }
    if let Some(tid) = filter.tid {
        if tid != ev.thread_id as u64 {
            return None;
        }
    }
    let key = FlowKey::new(
        u32_from_be_bytes(ev.src_addr),
        u32_from_be_bytes(ev.dest_addr),
        u16_from_be_bytes(ev.src_port),
        u16_from_be_bytes(ev.dest_port),
        protocol,
    );
    Some((key, ev.len))
}

/// The generation that a flag value makes live.
pub open spec fn live_generation(flag: u32) -> int {
    if flag == 0 {
        0
    } else {
        1
    }
}

/// The flag value after a flip.
pub open spec fn flipped(flag: u32) -> u32 {
    if flag == 0 {
        1
    } else {
        0
    }
}

/// One flip of the flag: its new value, and the generation it freezes.
pub fn rotation_step(flag: u32) -> (r: (u32, usize))
    ensures
        r.0 == flipped(flag),
        r.1 == live_generation(flag),
        r.1 != live_generation(r.0),
{
    if flag == 0 {
        (1, 0)
    } else {
        (0, 1)
    }
}

/// How many times the flag is read back after it is first written.
pub const FLAG_INIT_ATTEMPTS: usize = 5;

/// Where setting up the flag stands after one read-back.
#[derive(Copy, Clone, Debug, PartialEq, Eq, Structural)]
pub enum FlagCheck {
    Ready,
    Retry,
    Failed,
}

/// Decides after read-back number `attempt` (from 0) saw `observed`: done once the flag
/// reads 0, else read again until the attempts run out.
pub fn check_flag_init(attempt: usize, observed: u32) -> (r: FlagCheck)
    ensures
        observed == 0 ==> r == FlagCheck::Ready,
        observed != 0 && attempt + 1 < FLAG_INIT_ATTEMPTS ==> r == FlagCheck::Retry,
        observed != 0 && attempt + 1 >= FLAG_INIT_ATTEMPTS ==> r == FlagCheck::Failed,
{
    if observed == 0 {
        FlagCheck::Ready
    } else if attempt < FLAG_INIT_ATTEMPTS - 1 {
        FlagCheck::Retry
    } else {
        FlagCheck::Failed
    }
}

/// Abstract state of a monitor: the flag, the filter, and the four counter tables.
pub struct MonitorView {
    pub flag: u32,
    pub filter: FilterConfig,
    pub ingress_0: CounterTableView,
    pub ingress_1: CounterTableView,
    pub egress_0: CounterTableView,
    pub egress_1: CounterTableView,
}

impl MonitorView {
    /// The table of direction `dir` in generation `generation`.
    pub open spec fn table(self, dir: Direction, generation: int) -> CounterTableView {
        match dir {
            Direction::Ingress => if generation == 0 {
                self.ingress_0
            } else {
                self.ingress_1
            },
            Direction::Egress => if generation == 0 {
                self.egress_0
            } else {
                self.egress_1
            },
        }
    }

    pub open spec fn with_table(self, dir: Direction, generation: int, t: CounterTableView) -> MonitorView {
        match dir {
            Direction::Ingress => if generation == 0 {
                MonitorView { ingress_0: t, ..self }
            } else {
                MonitorView { ingress_1: t, ..self }
            },
            Direction::Egress => if generation == 0 {
                MonitorView { egress_0: t, ..self }
            } else {
                MonitorView { egress_1: t, ..self }
            },
        }
    }

    /// The state after a probe of direction `dir` and protocol `protocol` saw `ev`: the
    /// live table of that direction counts what the call carried, if anything.
    pub open spec fn probe(self, ev: ProbeEvent, dir: Direction, protocol: u8) -> MonitorView {
        match extract(self.filter, ev, protocol) {
            None => self,
            Some((key, size)) => {
                let g = live_generation(self.flag);
                self.with_table(dir, g, self.table(dir, g).increment(ev.unit as int, key, size))
            },
        }
    }

    /// The state after a rotation: the flag flipped, the tables it froze drained.
    pub open spec fn rotated(self) -> MonitorView {
        let g = live_generation(self.flag);
        let s = self.with_table(Direction::Ingress, g, self.table(Direction::Ingress, g).drained());
        MonitorView {
            flag: flipped(self.flag),
            ..s.with_table(Direction::Egress, g, self.table(Direction::Egress, g).drained())
        }
    }

    pub open spec fn wf(self) -> bool {
        &&& self.ingress_0.wf()
        &&& self.ingress_1.wf()
        &&& self.egress_0.wf()
        &&& self.egress_1.wf()
    }
}

/// Once the process filter is set to `p`, a call by any other process changes nothing:
/// no table counts it, so no record can ever come of it.
pub proof fn lemma_filtered_call_not_counted(
    m: MonitorView,
    ev: ProbeEvent,
    dir: Direction,
    protocol: u8,
    p: u64,
)
    requires
        m.filter.pid == Some(p),
        ev.process_id as u64 != p,
    ensures
        extract(m.filter, ev, protocol) is None,
        m.probe(ev, dir, protocol) == m,
{
}

/// Both sides of the double-buffered counting: the probe writes the live generation,
/// a rotation flips the flag and drains the frozen one.
pub struct FlowMonitor {
    flag: u32,
    filter: FilterConfig,
    ingress_0: FlowCounterTable,
    ingress_1: FlowCounterTable,
    egress_0: FlowCounterTable,
    egress_1: FlowCounterTable,
}

impl View for FlowMonitor {
    type V = MonitorView;

    closed spec fn view(&self) -> MonitorView {
        MonitorView {
            flag: self.flag,
            filter: self.filter,
            ingress_0: self.ingress_0@,
            ingress_1: self.ingress_1@,
            egress_0: self.egress_0@,
            egress_1: self.egress_1@,
        }
    }
}

impl FlowMonitor {
    pub closed spec fn wf(&self) -> bool {
        &&& self.ingress_0.wf()
        &&& self.ingress_1.wf()
        &&& self.egress_0.wf()
        &&& self.egress_1.wf()
    }

    /// Four empty tables of `capacity` flows and `units` slots each, generation 0 live,
    /// no filter.
    pub fn new(capacity: usize, units: usize) -> (r: Self)
        ensures
            r.wf(),
            r@.wf(),
            r@.flag == 0,
            r@.filter == (FilterConfig { pid: None, tid: None }),
            forall|d: Direction, g: int|
                #![auto]
                r@.table(d, g).entries.len() == 0 && r@.table(d, g).capacity == capacity
                    && r@.table(d, g).units == units,
    {
        FlowMonitor {
            flag: 0,
            filter: FilterConfig::new(None, None),
            ingress_0: FlowCounterTable::new(capacity, units),
            ingress_1: FlowCounterTable::new(capacity, units),
            egress_0: FlowCounterTable::new(capacity, units),
            egress_1: FlowCounterTable::new(capacity, units),
        }
    }

    /// Sets one entry of the filter.
    pub fn configure(&mut self, key: ConfigKey, value: u64)
        requires
            old(self).wf(),
        ensures
            final(self).wf(),
            key == ConfigKey::PID ==> final(self)@ == (MonitorView {
                filter: FilterConfig { pid: Some(value), ..old(self)@.filter },
                ..old(self)@
            }),
            key == ConfigKey::TID ==> final(self)@ == (MonitorView {
                filter: FilterConfig { tid: Some(value), ..old(self)@.filter },
                ..old(self)@
            }),
    {
        self.filter.set(key, value);
    }

    /// Current value of the flag.
    pub fn flag(&self) -> (r: u32)
        ensures
            r == self@.flag,
    {
        self.flag
    }

    /// Handles one call seen by the probe of direction `dir` and protocol `protocol`.
    pub fn probe(&mut self, ev: &ProbeEvent, dir: Direction, protocol: u8)
        requires
            old(self).wf(),
        ensures
            final(self).wf(),
            final(self)@ == old(self)@.probe(*ev, dir, protocol),
    {
        if let Some((key, size)) = unwrap_flow_info(&self.filter, ev, protocol) {
            match dir {
                Direction::Ingress => {
                    if self.flag == 0 {
                        self.ingress_0.increment(ev.unit, &key, size);
                    } else {
                        self.ingress_1.increment(ev.unit, &key, size);
                    }
                },
                Direction::Egress => {
                    if self.flag == 0 {
                        self.egress_0.increment(ev.unit, &key, size);
                    } else {
                        self.egress_1.increment(ev.unit, &key, size);
                    }
                },
            }
        }
    }

    /// Flips the flag, then drains the generation it froze into the two aggregators.
    pub fn rotate(&mut self, ingress_heap: &mut LimitedMaxHeap, egress_heap: &mut LimitedMaxHeap)
        requires
            old(self).wf(),
            old(ingress_heap).wf(),
            old(egress_heap).wf(),
        ensures
            final(self).wf(),
            final(self)@ == old(self)@.rotated(),
            final(ingress_heap).wf(),
            final(egress_heap).wf(),
            final(ingress_heap).capacity() == old(ingress_heap).capacity(),
            final(egress_heap).capacity() == old(egress_heap).capacity(),
            add_all(
                old(ingress_heap).capacity(),
                old(ingress_heap)@,
                old(self)@.table(Direction::Ingress, live_generation(old(self)@.flag)).drain_records(),
                final(ingress_heap)@,
            ),
            add_all(
                old(egress_heap).capacity(),
                old(egress_heap)@,
                old(self)@.table(Direction::Egress, live_generation(old(self)@.flag)).drain_records(),
                final(egress_heap)@,
            ),
    {
        let (next, frozen) = rotation_step(self.flag);
        self.flag = next;
        let (ingress, egress) = if frozen == 0 {
            (self.ingress_0.drain(), self.egress_0.drain())
        } else {
            (self.ingress_1.drain(), self.egress_1.drain())
        };
        ingress_heap.add_records(&ingress);
        egress_heap.add_records(&egress);
    }
}

} // verus!
