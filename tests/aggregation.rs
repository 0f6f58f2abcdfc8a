use inverter_api::clock::{bucket_index, format_clock, ClockTime, BUCKET_SECONDS};
use inverter_api::history::{HistoryPoint, HistorySeries};
use inverter_api::poll::DevicePoller;
use inverter_api::power::{device_power, parse_milli, FieldLayout, PowerSample, PvChannel};
use inverter_api::store::{DeviceSnapshot, TelemetryStore};

fn full_fields() -> Vec<String> {
    let mut f: Vec<String> = (0..29).map(|_| "0".to_string()).collect();
    f[9] = "500".to_string();
    f[14] = "230.0".to_string();
    f[25] = "2.0".to_string();
    f[27] = "200.0".to_string();
    f[28] = "1.5".to_string();
    f
}

fn snap(fields: Vec<String>) -> DeviceSnapshot {
    DeviceSnapshot {
        label: "Unit".to_string(),
        raw_fields: fields,
        cached_energy: "0.00".to_string(),
        last_update: "00:00:00".to_string(),
    }
}

fn point(bucket: u32) -> HistoryPoint {
    HistoryPoint { bucket_index: bucket, pv_power: bucket as u128, load_power: 1 }
}

#[test]
fn decimal_readings_in_thousandths() {
    assert_eq!(parse_milli(b"230.5"), Some(230_500));
    assert_eq!(parse_milli(b"12"), Some(12_000));
    assert_eq!(parse_milli(b".5"), Some(500));
    assert_eq!(parse_milli(b"7."), Some(7_000));
    assert_eq!(parse_milli(b"1.23456"), Some(1_234));
    assert_eq!(parse_milli(b"0000"), Some(0));
    assert_eq!(parse_milli(b"999999999.999"), Some(999_999_999_999));
}

#[test]
fn decimal_readings_rejected() {
    assert_eq!(parse_milli(b""), None);
    assert_eq!(parse_milli(b"."), None);
    assert_eq!(parse_milli(b"abc"), None);
    assert_eq!(parse_milli(b"1.2.3"), None);
    assert_eq!(parse_milli(b"12a"), None);
    assert_eq!(parse_milli(b"1234567890"), None);
}

#[test]
fn device_power_from_standard_layout() {
    let layout = FieldLayout::parallel_status();
    let p = device_power(&full_fields(), &layout);
    // 230 V * 2 A + 200 V * 1.5 A = 760 W; load 500 W; in millionths
    assert_eq!(p, PowerSample { pv_power: 760_000_000, load_power: 500_000_000 });
}

#[test]
fn short_reply_contributes_nothing() {
    let layout = FieldLayout::parallel_status();
    let mut f = full_fields();
    f.truncate(28);
    assert_eq!(device_power(&f, &layout), PowerSample { pv_power: 0, load_power: 0 });
    assert_eq!(device_power(&Vec::new(), &layout), PowerSample { pv_power: 0, load_power: 0 });
}

#[test]
fn unparsable_field_counts_as_zero() {
    let layout = FieldLayout::parallel_status();
    let mut f = full_fields();
    f[25] = "NA".to_string();
    f[9] = "".to_string();
    let p = device_power(&f, &layout);
    assert_eq!(p, PowerSample { pv_power: 300_000_000, load_power: 0 });
}

#[test]
fn layout_validation() {
    let ch = PvChannel { voltage: 1, current: 2 };
    assert!(FieldLayout::new(vec![ch], 0, 3).is_some());
    assert!(FieldLayout::new(vec![ch], 3, 3).is_none());
    assert!(FieldLayout::new(vec![ch], 0, 2).is_none());
    assert!(FieldLayout::new(vec![ch; 9], 0, 3).is_none());
    let layout = FieldLayout::new(vec![PvChannel { voltage: 0, current: 1 }], 2, 3).unwrap();
    let f = vec!["10".to_string(), "0.5".to_string(), "7".to_string()];
    assert_eq!(device_power(&f, &layout), PowerSample { pv_power: 5_000_000, load_power: 7_000_000 });
}

#[test]
fn short_device_excluded_from_store_totals() {
    let layout = FieldLayout::parallel_status();
    let mut store = TelemetryStore::new();
    store.commit(1, snap(full_fields()));
    let mut short = full_fields();
    short.truncate(10);
    store.commit(2, snap(short));
    let t = store.total_power(&layout);
    assert_eq!(t, PowerSample { pv_power: 760_000_000, load_power: 500_000_000 });
    store.commit(3, snap(full_fields()));
    let t = store.total_power(&layout);
    assert_eq!(t, PowerSample { pv_power: 1_520_000_000, load_power: 1_000_000_000 });
}

#[test]
fn store_commit_replaces_whole_snapshot() {
    let mut store = TelemetryStore::new();
    assert!(store.get(1).is_none());
    store.commit(1, snap(vec!["a".to_string()]));
    store.commit(1, snap(vec!["b".to_string(), "c".to_string()]));
    assert_eq!(store.get(1).unwrap().raw_fields, vec!["b".to_string(), "c".to_string()]);
    assert!(store.get(2).is_none());
    assert_eq!(store.total_power(&FieldLayout::parallel_status()), PowerSample { pv_power: 0, load_power: 0 });
}

#[test]
fn same_bucket_appends_once() {
    let mut h = HistorySeries::new();
    h.record(point(5));
    h.record(HistoryPoint { bucket_index: 5, pv_power: 99, load_power: 99 });
    assert_eq!(h.points(), &vec![point(5)]);
    assert!(!h.needs_sample(5));
    assert!(h.needs_sample(6));
}

#[test]
fn ticks_within_a_bucket_sample_once() {
    let layout = FieldLayout::parallel_status();
    let mut store = TelemetryStore::new();
    store.commit(1, snap(full_fields()));
    let mut h = HistorySeries::new();
    assert!(h.tick(7, &store, &layout));
    assert!(!h.tick(7, &store, &layout));
    assert!(h.tick(8, &store, &layout));
    let want = |b| HistoryPoint { bucket_index: b, pv_power: 760_000_000, load_power: 500_000_000 };
    assert_eq!(h.points(), &vec![want(7), want(8)]);
}

#[test]
fn first_bucket_of_day_clears_history() {
    let mut h = HistorySeries::new();
    h.record(point(100));
    h.record(point(2879));
    h.record(point(0));
    assert_eq!(h.points(), &vec![point(0)]);
    h.record(point(1));
    assert_eq!(h.points(), &vec![point(0), point(1)]);
}

#[test]
fn first_bucket_on_empty_series() {
    let mut h = HistorySeries::new();
    h.record(point(0));
    assert_eq!(h.points(), &vec![point(0)]);
}

#[test]
fn buckets_of_the_day() {
    let t = |h, m, s| ClockTime { hour: h, minute: m, second: s };
    assert_eq!(bucket_index(t(0, 0, 0), BUCKET_SECONDS), 0);
    assert_eq!(bucket_index(t(0, 0, 29), BUCKET_SECONDS), 0);
    assert_eq!(bucket_index(t(0, 0, 30), BUCKET_SECONDS), 1);
    assert_eq!(bucket_index(t(23, 59, 59), BUCKET_SECONDS), 2879);
    assert_eq!(bucket_index(t(23, 59, 59), 60), 1439);
}

#[test]
fn clock_text() {
    assert_eq!(format_clock(ClockTime { hour: 7, minute: 5, second: 3 }), "07:05:03");
    assert_eq!(format_clock(ClockTime { hour: 23, minute: 59, second: 0 }), "23:59:00");
}

fn energy_reply(digits: &[u8]) -> Vec<u8> {
    let mut r = vec![0x28u8];
    r.extend_from_slice(&inverter_api::frame::frame_command(digits));
    r
}

#[test]
fn poller_energy_throttle_and_cache() {
    let mut p = DevicePoller::new(1, "Master".to_string());
    assert_eq!(p.cached_energy(), "0.00");
    assert_eq!(p.status_query(), b"QPGS1".to_vec());
    assert!(p.energy_query_due(0));
    assert!(p.record_energy_reply(1_000, Some(energy_reply(b"01234560"))));
    assert_eq!(p.cached_energy(), "1234.56");
    assert!(!p.energy_query_due(301_000));
    assert!(p.energy_query_due(301_001));
    // a failed query keeps the cached value and the throttle
    assert!(!p.record_energy_reply(400_000, Some(b"garbage".to_vec())));
    assert!(!p.record_energy_reply(400_000, None));
    assert_eq!(p.cached_energy(), "1234.56");
    assert!(p.energy_query_due(400_000));
}

#[test]
fn poller_takes_short_energy_total() {
    let mut p = DevicePoller::new(1, "Master".to_string());
    assert!(p.record_energy_reply(0, Some(energy_reply(b"123"))));
    assert_eq!(p.cached_energy(), "0.12");
}

#[test]
fn poller_snapshot_commits_cycle() {
    let p = DevicePoller::new(2, "Slave".to_string());
    let s = p.snapshot(vec!["1".to_string()], ClockTime { hour: 12, minute: 0, second: 9 });
    assert_eq!(s.label, "Slave");
    assert_eq!(s.raw_fields, vec!["1".to_string()]);
    assert_eq!(s.cached_energy, "0.00");
    assert_eq!(s.last_update, "12:00:09");
    assert_eq!(p.id(), 2);
    assert_eq!(p.label(), "Slave");
}

#[test]
fn store_holds_lowest_and_highest_ids() {
    let layout = FieldLayout::parallel_status();
    let mut store = TelemetryStore::new();
    store.commit(0, snap(full_fields()));
    store.commit(255, snap(full_fields()));
    assert!(store.get(0).is_some());
    assert!(store.get(255).is_some());
    assert!(store.get(128).is_none());
    assert_eq!(store.total_power(&layout).pv_power, 1_520_000_000);
}
