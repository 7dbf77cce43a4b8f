use miner_scanner::history::{HashratePoint, KeyedHistory};
use miner_scanner::ip::{IpAddress, IpRange};
use miner_scanner::models::{MinerInfo, MinerMetrics, SavedRange};
use miner_scanner::progress::ScanProgress;
use miner_scanner::registry::MinerRegistry;
use miner_scanner::scan::{
    begin_scan, finish_scan, ranges_of_saved, record_device, record_range_done,
    record_range_failed, total_ips_of_ranges,
};

fn metrics(hashrate: Option<u64>) -> MinerMetrics {
    MinerMetrics {
        mac: None,
        hashrate_centi_ths: hashrate,
        wattage_watts: Some(3400),
        efficiency_centi: None,
        avg_temp_centi: None,
        board_hashrate_centi: vec![],
        board_temp_centi: vec![],
        fan_rpm: vec![],
    }
}

fn device(d: u8, hostname: &str, hashrate: Option<u64>) -> MinerInfo {
    MinerInfo::from_metrics(
        IpAddress { a: 10, b: 0, c: 81, d },
        hostname.to_string(),
        "M".to_string(),
        "fw".to_string(),
        "cb".to_string(),
        "pool".to_string(),
        "w".to_string(),
        false,
        metrics(hashrate),
    )
}

fn range(start: u8, end: u8) -> IpRange {
    IpRange { a: 10, b: 0, c: 81, start, end }
}

#[test]
fn total_ips_sums_over_ranges() {
    assert_eq!(total_ips_of_ranges(&vec![range(0, 255), range(1, 10)]), 266);
    assert_eq!(total_ips_of_ranges(&vec![]), 0);
}

#[test]
fn saved_ranges_parse_back_and_bad_encodings_are_skipped() {
    let saved = vec![
        SavedRange { name: "a".to_string(), range: "10.0.81.0-255".to_string() },
        SavedRange { name: "bad".to_string(), range: "nonsense".to_string() },
        SavedRange { name: "b".to_string(), range: "10.0.82.1-10".to_string() },
    ];
    let ranges = ranges_of_saved(&saved);
    assert_eq!(ranges.len(), 2);
    assert_eq!(ranges[0], range(0, 255));
    assert_eq!(ranges[1], IpRange { a: 10, b: 0, c: 82, start: 1, end: 10 });
}

#[test]
fn pass_tracks_progress_and_ends_idle() {
    // After a finished pass over T addresses: scanned <= T and the
    // running flag is down.
    let ranges = vec![range(0, 9)];
    let mut progress = ScanProgress::new();
    let mut coarse: KeyedHistory<HashratePoint> = KeyedHistory::new(288);
    let mut registry = MinerRegistry::new();
    let mut pass = begin_scan(&ranges, 1000, &mut progress);
    assert!(progress.scanning);
    assert_eq!(progress.total_ips, 10);
    assert_eq!(progress.total_ranges, 1);
    record_device(&mut pass, device(1, "h1", Some(1200)), 1001, &mut progress, &mut coarse);
    record_device(&mut pass, device(2, "h2", Some(1300)), 1002, &mut progress, &mut coarse);
    assert_eq!(progress.scanned_ips, 2);
    assert_eq!(progress.current_ip, "10.0.81.2");
    assert_eq!(progress.found_miners, 2);
    record_range_done(&mut pass, &mut progress);
    finish_scan(pass, 7, &mut registry, &mut progress);
    assert!(!progress.scanning);
    assert_eq!(progress.current_ip, "");
    assert!(progress.scanned_ips <= progress.total_ips);
    assert_eq!(progress.scan_duration_secs, 7);
    assert_eq!(registry.len(), 2);
}

#[test]
fn same_address_discovered_twice_keeps_the_later_reading() {
    // Overlapping ranges revisit 10.0.81.5: the registry ends with one
    // entry for it, carrying the second discovery.
    let ranges = vec![range(0, 9), range(5, 9)];
    let mut progress = ScanProgress::new();
    let mut coarse: KeyedHistory<HashratePoint> = KeyedHistory::new(288);
    let mut registry = MinerRegistry::new();
    let mut pass = begin_scan(&ranges, 0, &mut progress);
    record_device(&mut pass, device(5, "first", Some(1000)), 1, &mut progress, &mut coarse);
    let staged = record_device(&mut pass, device(5, "second", Some(2000)), 2, &mut progress, &mut coarse);
    assert_eq!(staged, 1);
    assert_eq!(progress.found_miners, 1);
    finish_scan(pass, 0, &mut registry, &mut progress);
    assert_eq!(registry.len(), 1);
    assert_eq!(registry.get(0).hostname, "second");
    assert_eq!(registry.get(0).ip, IpAddress { a: 10, b: 0, c: 81, d: 5 });
}

#[test]
fn failing_range_does_not_block_later_ranges() {
    // The first range's enumeration fails; a device found in the second
    // range is still discovered and registered.
    let ranges = vec![range(0, 9), range(10, 19)];
    let mut progress = ScanProgress::new();
    let mut coarse: KeyedHistory<HashratePoint> = KeyedHistory::new(288);
    let mut registry = MinerRegistry::new();
    let mut pass = begin_scan(&ranges, 0, &mut progress);
    record_range_failed(&mut pass, &mut progress);
    assert_eq!(progress.scanned_ranges, 1);
    record_device(&mut pass, device(12, "late", Some(900)), 3, &mut progress, &mut coarse);
    record_range_done(&mut pass, &mut progress);
    finish_scan(pass, 0, &mut registry, &mut progress);
    assert_eq!(registry.len(), 1);
    assert_eq!(registry.get(0).hostname, "late");
    assert!(!progress.scanning);
}

#[test]
fn finished_pass_replaces_the_previous_registry_wholesale() {
    let ranges = vec![range(0, 9)];
    let mut progress = ScanProgress::new();
    let mut coarse: KeyedHistory<HashratePoint> = KeyedHistory::new(288);
    let mut registry = MinerRegistry::new();
    let mut pass = begin_scan(&ranges, 0, &mut progress);
    record_device(&mut pass, device(1, "old", None), 1, &mut progress, &mut coarse);
    finish_scan(pass, 0, &mut registry, &mut progress);
    assert_eq!(registry.len(), 1);
    let mut pass = begin_scan(&ranges, 10, &mut progress);
    record_device(&mut pass, device(2, "new", None), 11, &mut progress, &mut coarse);
    finish_scan(pass, 0, &mut registry, &mut progress);
    assert_eq!(registry.len(), 1);
    assert_eq!(registry.get(0).hostname, "new");
}

#[test]
fn discovery_appends_coarse_history_only_with_a_hashrate() {
    let ranges = vec![range(0, 9)];
    let mut progress = ScanProgress::new();
    let mut coarse: KeyedHistory<HashratePoint> = KeyedHistory::new(288);
    let mut registry = MinerRegistry::new();
    let mut pass = begin_scan(&ranges, 0, &mut progress);
    record_device(&mut pass, device(1, "h1", Some(1234)), 5, &mut progress, &mut coarse);
    record_device(&mut pass, device(2, "h2", None), 6, &mut progress, &mut coarse);
    let ip1 = IpAddress { a: 10, b: 0, c: 81, d: 1 };
    let ip2 = IpAddress { a: 10, b: 0, c: 81, d: 2 };
    let log = coarse.buffers.get(&ip1).unwrap();
    assert_eq!(log.points.len(), 1);
    assert_eq!(log.points[0], HashratePoint { timestamp: 5, hashrate_centi_ths: 1234 });
    assert!(coarse.buffers.get(&ip2).is_none());
    finish_scan(pass, 0, &mut registry, &mut progress);
}
