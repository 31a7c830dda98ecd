use perfo::gpu::{
    counter_delta, is_amd_vendor, is_busy_event, is_drm_card, parse_event_config, read_u32_from,
    read_u64_from, record_sample, CounterSample, PerfEventAttr, PERF_EVENT_ATTR_SIZE,
};

#[test]
fn drm_card_names_are_strict() {
    assert!(is_drm_card("card0"));
    assert!(is_drm_card("card12"));
    assert!(!is_drm_card("card"));
    assert!(!is_drm_card("card0-HDMI-A-1"));
}

fn read_percent_from(raw: &str) -> Option<f32> {
    let value = raw.trim().parse::<f32>().ok()?;
    value.is_finite().then(|| value.clamp(0.0, 100.0))
}

#[test]
fn percent_values_are_clamped() {
    assert_eq!(read_percent_from("55.5"), Some(55.5));
    assert_eq!(read_percent_from("150"), Some(100.0));
    assert_eq!(read_percent_from("bad"), None);
}

#[test]
fn event_config_reads_kernel_formats() {
    assert_eq!(parse_event_config("event=0x1234"), Some(0x1234));
    assert_eq!(parse_event_config("config=0x1234"), Some(0x1234));
    assert_eq!(parse_event_config("other=0x1234"), None);
}

#[test]
fn event_config_edge_cases() {
    assert_eq!(parse_event_config("event=ff"), Some(0xff));
    assert_eq!(parse_event_config("event=0x0xAb"), Some(0xab));
    assert_eq!(parse_event_config("event=0x"), None);
    assert_eq!(parse_event_config("event=0x10,umask=1"), None);
    assert_eq!(parse_event_config("event=0xffffffffffffffff"), Some(u64::MAX));
    assert_eq!(parse_event_config("event=0x10000000000000000"), None);
}

#[test]
fn perf_attribute_has_kernel_v0_size() {
    assert_eq!(
        std::mem::size_of::<PerfEventAttr>(),
        PERF_EVENT_ATTR_SIZE as usize
    );
}

#[test]
fn perf_attribute_asks_for_enabled_and_running_time() {
    let a = PerfEventAttr::new(17, 0x1234);
    assert_eq!(a.type_, 17);
    assert_eq!(a.config, 0x1234);
    assert_eq!(a.size, 64);
    assert_eq!(a.read_format, 3);
    assert_eq!(a.flags, 0);
}

#[test]
fn counter_delta_becomes_usage_input() {
    let old = CounterSample { count: 100, running: 100 };
    let new = CounterSample { count: 150, running: 200 };
    let d = counter_delta(old, new).unwrap();
    assert_eq!((d.count, d.running), (50, 100));
}

#[test]
fn idle_or_reset_counter_has_no_usage() {
    let s = CounterSample { count: 7, running: 9 };
    assert!(counter_delta(s, s).is_none());
    let back = CounterSample { count: 6, running: 20 };
    assert!(counter_delta(s, back).is_none());
}

#[test]
fn first_recorded_sample_has_no_delta() {
    let mut previous = None;
    assert!(record_sample(&mut previous, CounterSample { count: 10, running: 10 }).is_none());
    let d = record_sample(&mut previous, CounterSample { count: 30, running: 50 }).unwrap();
    assert_eq!((d.count, d.running), (20, 40));
    assert_eq!(previous.map(|p| p.count), Some(30));
}

#[test]
fn sysfs_numbers_are_trimmed() {
    assert_eq!(read_u64_from("8589934592\n"), Some(8589934592));
    assert_eq!(read_u64_from("  42  "), Some(42));
    assert_eq!(read_u64_from("+7"), Some(7));
    assert_eq!(read_u64_from("-7"), None);
    assert_eq!(read_u64_from(""), None);
    assert_eq!(read_u64_from("18446744073709551616"), None);
    assert_eq!(read_u32_from("4294967295\n"), Some(u32::MAX));
    assert_eq!(read_u32_from("4294967296"), None);
}

#[test]
fn amd_vendor_and_busy_events() {
    assert!(is_amd_vendor("0x1002\n"));
    assert!(!is_amd_vendor("0x8086\n"));
    assert!(is_busy_event("rcs0-busy"));
    assert!(!is_busy_event("rcs0-busy.unit"));
    assert!(!is_busy_event("busy"));
}
