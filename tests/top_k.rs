use flow_top_talker::{FlowInfo, FlowKey, LimitedMaxHeap};

#[test]
fn add_data_to_heap_2() {
    let mut heap = LimitedMaxHeap::new(2);
    let key1 = FlowKey::new(0, 0, 0, 0, 1);
    let key2 = FlowKey::new(0, 1, 0, 1, 1);
    for t in 100..200 {
        let flow_key = if t % 2 == 0 { &key1 } else { &key2 };
        heap.add(flow_key, t);
    }

    assert_eq!(heap.len(), 2);
    assert_eq!(heap.pop().unwrap().throughput, 198);
    assert_eq!(heap.pop().unwrap().throughput, 199);
}

#[test]
fn add_data_to_heap_5() {
    let mut heap = LimitedMaxHeap::new(5);
    let key1 = FlowKey::new(0, 0, 0, 0, 1);
    let key2 = FlowKey::new(0, 1, 0, 1, 1);
    for t in 100..200 {
        let flow_key = if t % 2 == 0 { &key1 } else { &key2 };
        heap.add(flow_key, t);
    }

    assert_eq!(heap.len(), 5);
    assert_eq!(heap.pop().unwrap().throughput, 195);
    assert_eq!(heap.pop().unwrap().throughput, 196);
    assert_eq!(heap.pop().unwrap().throughput, 197);
    assert_eq!(heap.pop().unwrap().throughput, 198);
    assert_eq!(heap.pop().unwrap().throughput, 199);
}

#[test]
fn add_data_to_heap_higher_flow_key() {
    let mut heap = LimitedMaxHeap::new(3);
    let key1 = FlowKey::new(0, 0, 0, 0, 1);
    let key2 = FlowKey::new(100, 100, 1000, 1000, 10);
    for t in 100..200 {
        if t % 2 == 0 {
            heap.add(&key1, t);
        } else {
            heap.add(&key2, 1);
        };
    }

    assert_eq!(heap.len(), 3);
    assert_eq!(heap.pop().unwrap().throughput, 194);
    assert_eq!(heap.pop().unwrap().throughput, 196);
    assert_eq!(heap.pop().unwrap().throughput, 198);
}

#[test]
fn size_is_min_of_capacity_and_adds() {
    let key = FlowKey::new(1, 2, 3, 4, 0);
    let mut heap = LimitedMaxHeap::new(4);
    for (i, t) in [50u64, 10, 70, 30, 90, 20, 60].iter().enumerate() {
        heap.add(&key, *t);
        assert_eq!(heap.len(), std::cmp::min(4, i + 1));
    }
    let kept: Vec<u64> = heap.top_flows().iter().map(|f| f.throughput).collect();
    assert_eq!(kept, vec![90, 70, 60, 50]);
}

#[test]
fn zero_capacity_keeps_nothing() {
    let mut heap = LimitedMaxHeap::new(0);
    heap.add(&FlowKey::new(1, 1, 1, 1, 0), 1000);
    assert_eq!(heap.len(), 0);
    assert!(heap.pop().is_none());
}

#[test]
fn equal_throughput_does_not_evict() {
    let a = FlowKey::new(1, 0, 0, 0, 0);
    let b = FlowKey::new(2, 0, 0, 0, 0);
    let mut heap = LimitedMaxHeap::new(1);
    heap.add(&a, 500);
    heap.add(&b, 500);
    assert_eq!(heap.len(), 1);
    assert_eq!(heap.pop().unwrap().src_addr, 1);
}

#[test]
fn record_carries_key_fields() {
    let key = FlowKey::new(0x0a000001, 0x0a000002, 443, 51000, 0);
    let mut heap = LimitedMaxHeap::new(2);
    heap.add(&key, 77);
    assert_eq!(
        heap.pop().unwrap(),
        FlowInfo {
            throughput: 77,
            src_addr: 0x0a000001,
            dest_addr: 0x0a000002,
            src_port: 443,
            dest_port: 51000,
            protocol: 0,
        }
    );
    assert!(heap.pop().is_none());
}

#[test]
fn clear_empties_and_keeps_capacity() {
    let key = FlowKey::new(0, 0, 0, 0, 1);
    let mut heap = LimitedMaxHeap::new(2);
    heap.add(&key, 5);
    heap.add(&key, 6);
    heap.clear();
    assert_eq!(heap.len(), 0);
    heap.add(&key, 1);
    heap.add(&key, 2);
    heap.add(&key, 3);
    assert_eq!(heap.len(), 2);
}

#[test]
fn liter_walks_every_record_once() {
    let key = FlowKey::new(0, 0, 0, 0, 1);
    let mut heap = LimitedMaxHeap::new(3);
    for t in [4u64, 8, 6] {
        heap.add(&key, t);
    }
    let mut it = heap.liter();
    let mut seen = Vec::new();
    while let Some(f) = it.next() {
        seen.push(f.throughput);
    }
    seen.sort();
    assert_eq!(seen, vec![4, 6, 8]);
    assert_eq!(heap.len(), 3);
}

#[test]
fn add_records_offers_in_order() {
    let key = FlowKey::new(0, 0, 0, 0, 1);
    let recs: Vec<FlowInfo> = [3u64, 9, 1, 7]
        .iter()
        .map(|t| FlowInfo::new(&key, *t))
        .collect();
    let mut heap = LimitedMaxHeap::new(2);
    heap.add_records(&recs);
    let kept: Vec<u64> = heap.top_flows().iter().map(|f| f.throughput).collect();
    assert_eq!(kept, vec![9, 7]);
}
