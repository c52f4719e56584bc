use flow_top_talker::display::{protocol_label, throughput_level, Level};
use flow_top_talker::monitor::{
    check_flag_init, rotation_step, u16_from_be_bytes, u32_from_be_bytes, unwrap_flow_info,
    FlagCheck, AF_INET, AF_INET6,
};
use flow_top_talker::{
    Cli, ConfigKey, Direction, FilterConfig, FlowInfo, FlowKey, FlowMonitor, LimitedMaxHeap,
    ProbeEvent, TCP, UDP,
};

fn event(unit: usize, process_id: u32, thread_id: u32, len: u64) -> ProbeEvent {
    ProbeEvent {
        unit,
        family: AF_INET,
        process_id,
        thread_id,
        src_addr: [10, 0, 0, 1],
        dest_addr: [192, 168, 1, 20],
        src_port: [0x1f, 0x90],
        dest_port: [0x01, 0xbb],
        len,
    }
}

fn expected_key(protocol: u8) -> FlowKey {
    FlowKey::new(0x0a000001, 0xc0a80114, 8080, 443, protocol)
}

#[test]
fn network_order_bytes_are_read_big_endian() {
    assert_eq!(u32_from_be_bytes([0x12, 0x34, 0x56, 0x78]), 0x12345678);
    assert_eq!(u32_from_be_bytes([0xff, 0xff, 0xff, 0xff]), u32::MAX);
    assert_eq!(u16_from_be_bytes([0x01, 0xbb]), 443);
}

#[test]
fn ipv4_call_yields_its_flow() {
    let filter = FilterConfig::new(None, None);
    let r = unwrap_flow_info(&filter, &event(0, 7, 8, 1200), UDP);
    assert_eq!(r, Some((expected_key(UDP), 1200)));
}

#[test]
fn ipv6_and_other_families_are_skipped() {
    let filter = FilterConfig::new(None, None);
    let mut ev = event(0, 7, 8, 1200);
    ev.family = AF_INET6;
    assert_eq!(unwrap_flow_info(&filter, &ev, TCP), None);
    ev.family = 1;
    assert_eq!(unwrap_flow_info(&filter, &ev, TCP), None);
}

#[test]
fn process_filter_turns_other_callers_away() {
    let mut m = FlowMonitor::new(16, 2);
    m.configure(ConfigKey::PID, 42);
    m.probe(&event(0, 41, 41, 500), Direction::Egress, TCP);
    m.probe(&event(1, 42, 43, 300), Direction::Egress, TCP);
    let mut ingress = LimitedMaxHeap::new(5);
    let mut egress = LimitedMaxHeap::new(5);
    m.rotate(&mut ingress, &mut egress);
    assert_eq!(ingress.len(), 0);
    assert_eq!(egress.top_flows(), vec![FlowInfo::new(&expected_key(TCP), 300)]);
}

#[test]
fn thread_filter_turns_other_threads_away() {
    let filter = FilterConfig::new(None, Some(9));
    assert_eq!(unwrap_flow_info(&filter, &event(0, 1, 8, 10), TCP), None);
    assert!(unwrap_flow_info(&filter, &event(0, 1, 9, 10), TCP).is_some());
}

#[test]
fn rotation_drains_the_frozen_generation_only() {
    let mut m = FlowMonitor::new(16, 2);
    assert_eq!(m.flag(), 0);
    m.probe(&event(0, 1, 1, 100), Direction::Ingress, TCP);
    m.probe(&event(1, 1, 1, 50), Direction::Ingress, TCP);
    m.probe(&event(0, 1, 1, 70), Direction::Egress, UDP);
    let mut ingress = LimitedMaxHeap::new(5);
    let mut egress = LimitedMaxHeap::new(5);
    m.rotate(&mut ingress, &mut egress);
    assert_eq!(m.flag(), 1);
    assert_eq!(ingress.top_flows(), vec![FlowInfo::new(&expected_key(TCP), 150)]);
    assert_eq!(egress.top_flows(), vec![FlowInfo::new(&expected_key(UDP), 70)]);

    // Written while generation 1 is live; the next rotation drains it.
    m.probe(&event(0, 1, 1, 30), Direction::Ingress, TCP);
    ingress.clear();
    egress.clear();
    m.rotate(&mut ingress, &mut egress);
    assert_eq!(m.flag(), 0);
    assert_eq!(ingress.top_flows(), vec![FlowInfo::new(&expected_key(TCP), 30)]);
    assert_eq!(egress.len(), 0);

    // Nothing written since: generation 0 drains empty.
    ingress.clear();
    m.rotate(&mut ingress, &mut egress);
    assert_eq!(ingress.len(), 0);
}

#[test]
fn rotation_step_flips_and_freezes() {
    assert_eq!(rotation_step(0), (1, 0));
    assert_eq!(rotation_step(1), (0, 1));
    assert_eq!(rotation_step(7), (0, 1));
}

#[test]
fn filter_entries_follow_options() {
    let cli = Cli { top_n: 10, pid: Some(100), tid: None, host_name: false };
    assert_eq!(cli.filter().entries(), vec![(ConfigKey::PID, 100)]);
    let both = FilterConfig::new(Some(3), Some(4));
    assert_eq!(both.entries(), vec![(ConfigKey::PID, 3), (ConfigKey::TID, 4)]);
    assert!(FilterConfig::new(None, None).entries().is_empty());
    let mut f = FilterConfig::new(None, None);
    f.set(ConfigKey::TID, 12);
    f.set(ConfigKey::TID, 13);
    assert_eq!(f, FilterConfig::new(None, Some(13)));
}

#[test]
fn flag_init_retries_then_fails() {
    assert_eq!(check_flag_init(0, 0), FlagCheck::Ready);
    assert_eq!(check_flag_init(0, 1), FlagCheck::Retry);
    assert_eq!(check_flag_init(3, 1), FlagCheck::Retry);
    assert_eq!(check_flag_init(4, 1), FlagCheck::Failed);
    assert_eq!(check_flag_init(4, 0), FlagCheck::Ready);
}

#[test]
fn throughput_levels_and_labels() {
    assert_eq!(throughput_level(100_001), Level::High);
    assert_eq!(throughput_level(100_000), Level::Medium);
    assert_eq!(throughput_level(10_001), Level::Medium);
    assert_eq!(throughput_level(10_000), Level::Normal);
    assert_eq!(protocol_label(TCP), "TCP");
    assert_eq!(protocol_label(UDP), "UDP");
}
