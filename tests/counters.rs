use flow_top_talker::counter_table::FlowCounterTable;
use flow_top_talker::{sum_per_cpu, FlowInfo, FlowKey};

#[test]
fn round_trip_sums_all_units() {
    let key = FlowKey::new(10, 20, 30, 40, 0);
    let mut table = FlowCounterTable::new(8, 4);
    for i in 0..6usize {
        table.increment(i % 4, &key, 1500);
    }
    assert_eq!(table.len(), 1);
    let recs = table.drain();
    assert_eq!(recs, vec![FlowInfo::new(&key, 9000)]);
}

#[test]
fn second_drain_is_empty() {
    let mut table = FlowCounterTable::new(8, 2);
    table.increment(0, &FlowKey::new(1, 2, 3, 4, 1), 10);
    table.increment(1, &FlowKey::new(5, 6, 7, 8, 1), 20);
    assert_eq!(table.drain().len(), 2);
    assert_eq!(table.len(), 0);
    assert!(table.drain().is_empty());
}

#[test]
fn full_table_drops_new_flows_only() {
    let a = FlowKey::new(1, 0, 0, 0, 0);
    let b = FlowKey::new(2, 0, 0, 0, 0);
    let mut table = FlowCounterTable::new(1, 1);
    table.increment(0, &a, 5);
    table.increment(0, &b, 7);
    table.increment(0, &a, 5);
    assert_eq!(table.drain(), vec![FlowInfo::new(&a, 10)]);
}

#[test]
fn unit_out_of_range_counts_nothing() {
    let mut table = FlowCounterTable::new(4, 2);
    table.increment(2, &FlowKey::new(1, 1, 1, 1, 0), 100);
    assert_eq!(table.len(), 0);
}

#[test]
fn drain_keeps_order_of_creation() {
    let a = FlowKey::new(1, 0, 0, 0, 0);
    let b = FlowKey::new(2, 0, 0, 0, 0);
    let mut table = FlowCounterTable::new(4, 2);
    table.increment(1, &b, 3);
    table.increment(0, &a, 4);
    table.increment(0, &b, 5);
    assert_eq!(table.drain(), vec![FlowInfo::new(&b, 8), FlowInfo::new(&a, 4)]);
}

#[test]
fn slot_counts_saturate() {
    let key = FlowKey::new(1, 0, 0, 0, 0);
    let mut table = FlowCounterTable::new(4, 2);
    table.increment(0, &key, u64::MAX - 1);
    table.increment(0, &key, 5);
    table.increment(1, &key, 5);
    assert_eq!(table.drain(), vec![FlowInfo::new(&key, u64::MAX)]);
}

#[test]
fn sum_per_cpu_adds_every_slot() {
    assert_eq!(sum_per_cpu(&vec![]), 0);
    assert_eq!(sum_per_cpu(&vec![7]), 7);
    assert_eq!(sum_per_cpu(&vec![1, 2, 3, 4]), 10);
    assert_eq!(sum_per_cpu(&vec![u64::MAX, 1]), u64::MAX);
}
