//! Flow counter table: per-flow byte counts, one slot per execution unit.

use crate::common_types::FlowKey;
use crate::flow_info::{flow_record, FlowInfo};
use vstd::prelude::*;

verus! {

/// `a + b`, held at `u64::MAX` where it would pass it.
pub open spec fn sat_add(a: u64, b: u64) -> u64 {
    if a + b > u64::MAX {
        u64::MAX
    } else {
        (a + b) as u64
    }
}

/// Sum of the slots of one flow.
pub open spec fn slot_sum(s: Seq<u64>) -> int
    decreases s.len(),
{
    if s.len() == 0 {
        0
    } else {
        slot_sum(s.drop_last()) + s.last()
    }
}

/// Total throughput of one flow: the sum of its slots, held at `u64::MAX`.
pub open spec fn slot_total(s: Seq<u64>) -> u64 {
    if slot_sum(s) > u64::MAX {
        u64::MAX
    } else {
        slot_sum(s) as u64
    }
}

proof fn lemma_slot_sum_nonneg(s: Seq<u64>)
    ensures
        slot_sum(s) >= 0,
    decreases s.len(),
{
    if s.len() > 0 {
        lemma_slot_sum_nonneg(s.drop_last());
    }
}

/// Sums the per-unit counts of one flow.
pub fn sum_per_cpu(values: &Vec<u64>) -> (r: u64)
    ensures
        r == slot_total(values@),
{
    let mut acc: u64 = 0;
    let mut i: usize = 0;
    while i < values.len()
        invariant
            i <= values@.len(),
            acc == slot_total(values@.take(i as int)),
        decreases values@.len() - i,
    {
        proof {
            let t = values@.take(i + 1);
            assert(t.drop_last() =~= values@.take(i as int));
            lemma_slot_sum_nonneg(values@.take(i as int));
        }
        acc = acc.saturating_add(values[i]);
        i += 1;
    }
    assert(values@.take(values@.len() as int) =~= values@);
    acc
}

/// The slots of a flow first seen on `unit` with `size` bytes.
pub open spec fn fresh_slots(units: nat, unit: int, size: u64) -> Seq<u64> {
    Seq::new(units, |u: int| if u == unit { size } else { 0u64 })
}

proof fn lemma_slot_sum_update(s: Seq<u64>, u: int, v: u64)
    requires
        0 <= u < s.len(),
    ensures
        slot_sum(s.update(u, v)) == slot_sum(s) - s[u] + v,
    decreases s.len(),
{
    let t = s.update(u, v);
    if u == s.len() - 1 {
        assert(t.drop_last() =~= s.drop_last());
    } else {
        assert(t.drop_last() =~= s.drop_last().update(u, v));
        lemma_slot_sum_update(s.drop_last(), u, v);
    }
}

proof fn lemma_slot_le_sum(s: Seq<u64>, u: int)
    requires
        0 <= u < s.len(),
    ensures
        s[u] <= slot_sum(s),
    decreases s.len(),
{
    if u == s.len() - 1 {
        lemma_slot_sum_nonneg(s.drop_last());
    } else {
        lemma_slot_le_sum(s.drop_last(), u);
    }
}

proof fn lemma_fresh_slots_sum(units: nat, unit: int, size: u64)
    requires
        0 <= unit,
    ensures
        slot_sum(fresh_slots(units, unit, size)) == if unit < units {
            size as int
        } else {
            0
        },
    decreases units,
{
    if units > 0 {
        assert(fresh_slots(units, unit, size).drop_last() =~= fresh_slots((units - 1) as nat, unit, size));
        lemma_fresh_slots_sum((units - 1) as nat, unit, size);
    }
}

/// Abstract state of a counter table: its entries in order of creation, each a flow
/// and its per-unit slots; the most entries it takes; the number of units.
pub struct CounterTableView {
    pub entries: Seq<(FlowKey, Seq<u64>)>,
    pub capacity: nat,
    pub units: nat,
}

impl CounterTableView {
    pub open spec fn wf(self) -> bool {
        &&& self.entries.len() <= self.capacity
        &&& forall|i: int| 0 <= i < self.entries.len() ==> (#[trigger] self.entries[i]).1.len() == self.units
        &&& forall|i: int, j: int|
            0 <= i < j < self.entries.len() ==> (#[trigger] self.entries[i]).0 != (#[trigger] self.entries[j]).0
    }

    pub open spec fn has_key(self, key: FlowKey) -> bool {
        exists|i: int| 0 <= i < self.entries.len() && (#[trigger] self.entries[i]).0 == key
    }

    /// Position of the entry of `key`, where there is one.
    pub open spec fn index_of(self, key: FlowKey) -> int {
        choose|i: int| 0 <= i < self.entries.len() && (#[trigger] self.entries[i]).0 == key
    }

    /// The table after `size` bytes of flow `key` were counted on `unit`: the entry of
    /// `key` grows in that slot; a new flow gets an entry while there is room, and is
    /// dropped once the table is full. A unit out of range counts nothing.
    pub open spec fn increment(self, unit: int, key: FlowKey, size: u64) -> CounterTableView {
        if !(0 <= unit < self.units) {
            self
        } else if self.has_key(key) {
            let i = self.index_of(key);
            let slots = self.entries[i].1;
            CounterTableView {
                entries: self.entries.update(i, (key, slots.update(unit, sat_add(slots[unit], size)))),
                ..self
            }
        } else if self.entries.len() < self.capacity {
            CounterTableView {
                entries: self.entries.push((key, fresh_slots(self.units, unit, size))),
                ..self
            }
        } else {
            self
        }
    }

    /// What a drain hands out: one record per entry, its slots summed.
    pub open spec fn drain_records(self) -> Seq<FlowInfo> {
        Seq::new(
            self.entries.len(),
            |i: int| flow_record(self.entries[i].0, slot_total(self.entries[i].1)),
        )
    }

    /// The table after a drain: no entries left.
    pub open spec fn drained(self) -> CounterTableView {
        CounterTableView { entries: Seq::empty(), ..self }
    }
}

/// Draining a table twice, with nothing counted in between: the second drain hands out
/// nothing and leaves the table as the first left it.
pub proof fn lemma_drain_twice(t: CounterTableView)
    ensures
        t.drained().drain_records() == Seq::<FlowInfo>::empty(),
        t.drained().drained() == t.drained(),
{
    assert(t.drained().drain_records() =~= Seq::<FlowInfo>::empty());
}

/// The table after counting `size` bytes of flow `key` once on each of `units`, in turn.
pub open spec fn count_repeatedly(t: CounterTableView, units: Seq<int>, key: FlowKey, size: u64) -> CounterTableView
    decreases units.len(),
{
    if units.len() == 0 {
        t
    } else {
        count_repeatedly(t, units.drop_last(), key, size).increment(units.last(), key, size)
    }
}

proof fn lemma_count_repeatedly(t: CounterTableView, units: Seq<int>, key: FlowKey, size: u64)
    requires
        t.wf(),
        t.entries.len() == 0,
        t.capacity >= 1,
        units.len() > 0,
        forall|i: int| 0 <= i < units.len() ==> 0 <= #[trigger] units[i] < t.units,
        units.len() * size <= u64::MAX,
    ensures
        ({
            let r = count_repeatedly(t, units, key, size);
            &&& r.units == t.units
            &&& r.capacity == t.capacity
            &&& r.entries.len() == 1
            &&& r.entries[0].0 == key
            &&& r.entries[0].1.len() == t.units
            &&& slot_sum(r.entries[0].1) == units.len() * size
        }),
    decreases units.len(),
{
    let u = units.last();
    assert(units[units.len() - 1] == u);
    if units.len() == 1 {
        assert(units.drop_last().len() == 0);
        assert(!t.has_key(key));
        lemma_fresh_slots_sum(t.units, u, size);
        assert(units.len() * size == size) by (nonlinear_arith)
            requires
                units.len() == 1,
        ;
        assert(count_repeatedly(t, units.drop_last(), key, size) == t);
        let r = count_repeatedly(t, units, key, size);
        assert(r == t.increment(u, key, size));
        assert(r.entries =~= seq![(key, fresh_slots(t.units, u, size))]);
    } else {
        let prev = units.drop_last();
        assert forall|i: int| 0 <= i < prev.len() implies 0 <= #[trigger] prev[i] < t.units by {
            assert(prev[i] == units[i]);
        }
        assert(prev.len() * size <= units.len() * size) by (nonlinear_arith)
            requires
                prev.len() <= units.len(),
        ;
        lemma_count_repeatedly(t, prev, key, size);
        let p = count_repeatedly(t, prev, key, size);
        assert(p.entries[0].0 == key);
        assert(p.has_key(key));
        let slots = p.entries[0].1;
        lemma_slot_le_sum(slots, u);
        assert(prev.len() * size + size == units.len() * size) by (nonlinear_arith)
            requires
                prev.len() + 1 == units.len(),
        ;
        lemma_slot_sum_update(slots, u, sat_add(slots[u], size));
        assert(p.index_of(key) == 0);
        assert(sat_add(slots[u], size) == slots[u] + size);
        let r = count_repeatedly(t, units, key, size);
        assert(r == p.increment(u, key, size));
        assert(r.entries[0].1 == slots.update(u, sat_add(slots[u], size)));
    }
}

/// Counting `size` bytes of one flow on each of `units` into an empty table with room,
/// then draining it, hands out one record whose throughput is the sum over all of them.
pub proof fn lemma_round_trip(t: CounterTableView, units: Seq<int>, key: FlowKey, size: u64)
    requires
        t.wf(),
        t.entries.len() == 0,
        t.capacity >= 1,
        units.len() > 0,
        forall|i: int| 0 <= i < units.len() ==> 0 <= #[trigger] units[i] < t.units,
        units.len() * size <= u64::MAX,
    ensures
        count_repeatedly(t, units, key, size).drain_records() == seq![
            flow_record(key, (units.len() * size) as u64),
        ],
{
    lemma_count_repeatedly(t, units, key, size);
    assert(count_repeatedly(t, units, key, size).drain_records() =~= seq![
        flow_record(key, (units.len() * size) as u64),
    ]);
}

struct CounterEntry {
    key: FlowKey,
    slots: Vec<u64>,
}

/// Counts bytes per flow, one slot per execution unit, for at most `capacity` flows.
pub struct FlowCounterTable {
    entries: Vec<CounterEntry>,
    capacity: usize,
    units: usize,
}

impl View for FlowCounterTable {
    type V = CounterTableView;

    closed spec fn view(&self) -> CounterTableView {
        CounterTableView {
            entries: self.entries@.map_values(|e: CounterEntry| (e.key, e.slots@)),
            capacity: self.capacity as nat,
            units: self.units as nat,
        }
    }
}

impl FlowCounterTable {
    pub closed spec fn wf(&self) -> bool {
        self@.wf()
    }

    pub fn new(capacity: usize, units: usize) -> (r: Self)
        ensures
            r.wf(),
            r@.entries.len() == 0,
            r@.capacity == capacity,
            r@.units == units,
    {
        let r = FlowCounterTable { entries: Vec::new(), capacity, units };
        assert(r@.entries =~= Seq::<(FlowKey, Seq<u64>)>::empty());
        r
    }

    /// Number of flows held.
    pub fn len(&self) -> (r: usize)
        ensures
            r == self@.entries.len(),
    {
        self.entries.len()
    }

    fn find(&self, key: &FlowKey) -> (r: Option<usize>)
        requires
            self.wf(),
        ensures
            r matches Some(i) ==> i < self@.entries.len() && self@.index_of(*key) == i
                && self@.has_key(*key),
            r is None ==> !self@.has_key(*key),
    {
        let mut i: usize = 0;
        while i < self.entries.len()
            invariant
                self.wf(),
                i <= self.entries@.len(),
                forall|j: int| 0 <= j < i ==> (#[trigger] self.entries@[j]).key != *key,
            decreases self.entries@.len() - i,
        {
            if self.entries[i].key == *key {
                proof {
                    assert(self@.entries[i as int].0 == *key);
                    assert(self@.has_key(*key));
                    let j = self@.index_of(*key);
                    assert(0 <= j < self@.entries.len() && self@.entries[j].0 == *key);
                    if j != i {
                        if j < i {
                            assert(self@.entries[j].0 != self@.entries[i as int].0);
                        } else {
                            assert(self@.entries[i as int].0 != self@.entries[j].0);
                        }
                    }
                }
                return Some(i);
            }
            i += 1;
        }
        assert forall|j: int| 0 <= j < self@.entries.len() implies (#[trigger] self@.entries[j]).0 != *key by {
            assert(self.entries@[j].key != *key);
        }
        None
    }

    /// Counts `size` bytes of flow `key` on `unit`.
    #[verifier::loop_isolation(false)]
    pub fn increment(&mut self, unit: usize, key: &FlowKey, size: u64)
        requires
            old(self).wf(),
        ensures
            final(self).wf(),
            final(self)@ == old(self)@.increment(unit as int, *key, size),
    {
        if unit >= self.units {
            return;
        }
        match self.find(key) {
            Some(i) => {
                let ghost before = self@;
                let entry = &mut self.entries[i];
                let v = entry.slots[unit];
                entry.slots.set(unit, v.saturating_add(size));
                proof {
                    let slots = before.entries[i as int].1;
                    assert(self@.entries =~= before.entries.update(
                        i as int,
                        (*key, slots.update(unit as int, sat_add(slots[unit as int], size))),
                    ));
                    assert(before.has_key(*key));
                    assert(self@ == before.increment(unit as int, *key, size));
                }
            },
            None => {
                if self.entries.len() < self.capacity {
                    let ghost before = self@;
                    let mut slots: Vec<u64> = Vec::new();
                    let mut u: usize = 0;
                    while u < self.units
                        invariant
                            u <= self.units,
                            slots@.len() == u,
                            forall|k: int| 0 <= k < u ==> #[trigger] slots@[k] == (if k == unit { size } else { 0u64 }),
                        decreases self.units - u,
                    {
                        if u == unit {
                            slots.push(size);
                        } else {
                            slots.push(0);
                        }
                        u += 1;
                    }
                    let ghost new_slots = slots@;
                    self.entries.push(CounterEntry { key: *key, slots });
                    proof {
                        assert(new_slots =~= fresh_slots(before.units, unit as int, size));
                        assert forall|a: int, b: int| 0 <= a < b < self@.entries.len() implies
                            (#[trigger] self@.entries[a]).0 != (#[trigger] self@.entries[b]).0 by {
                            assert(self@.entries[a] == before.entries[a]);
                            if b == before.entries.len() {
                                assert(!before.has_key(*key));
                                assert(before.entries[a].0 != *key);
                            } else {
                                assert(self@.entries[b] == before.entries[b]);
                            }
                        }
                        assert(self@.entries =~~= before.increment(unit as int, *key, size).entries);
                    }
                }
            },
        }
    }

    /// Hands out one record per flow, its slots summed, and empties the table.
    pub fn drain(&mut self) -> (r: Vec<FlowInfo>)
        requires
            old(self).wf(),
        ensures
            final(self).wf(),
            r@ == old(self)@.drain_records(),
            final(self)@ == old(self)@.drained(),
    {
        let mut out: Vec<FlowInfo> = Vec::new();
        let mut i: usize = 0;
        while i < self.entries.len()
            invariant
                i <= self.entries@.len(),
                out@ =~= self@.drain_records().take(i as int),
            decreases self.entries@.len() - i,
        {
            let e = &self.entries[i];
            let total = sum_per_cpu(&e.slots);
            out.push(FlowInfo::new(&e.key, total));
            i += 1;
        }
        assert(self@.drain_records().take(i as int) =~= self@.drain_records());
        self.entries.clear();
        assert(self@.entries =~= Seq::<(FlowKey, Seq<u64>)>::empty());
        out
    }
}

} // verus!
