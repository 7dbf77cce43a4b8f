use miner_scanner::history::{BoundedLog, FleetPoint};
use miner_scanner::ip::IpAddress;
use miner_scanner::models::{MinerInfo, MinerMetrics};
use miner_scanner::registry::MinerRegistry;
use miner_scanner::sampling::{fine_point_of, maybe_refresh, sample_fleet};
use miner_scanner::store::AddrStore;

fn metrics() -> MinerMetrics {
    MinerMetrics {
        mac: None,
        hashrate_centi_ths: Some(1234),
        wattage_watts: Some(3400),
        efficiency_centi: Some(2345),
        avg_temp_centi: Some(6540),
        board_hashrate_centi: vec![Some(617), None, Some(620)],
        board_temp_centi: vec![Some(6000), Some(7000), None],
        fan_rpm: vec![Some(4980)],
    }
}

fn device(d: u8, hashrate: Option<u64>) -> MinerInfo {
    let mut m = metrics();
    m.hashrate_centi_ths = hashrate;
    MinerInfo::from_metrics(
        IpAddress { a: 10, b: 0, c: 81, d },
        "h".to_string(),
        "M".to_string(),
        "fw".to_string(),
        "cb".to_string(),
        "p".to_string(),
        "w".to_string(),
        false,
        m,
    )
}

#[test]
fn refresh_triggers_first_time_then_waits_for_the_interval() {
    let ip = IpAddress { a: 10, b: 0, c: 81, d: 1 };
    let mut times: AddrStore<u64> = AddrStore::new();
    assert!(maybe_refresh(&mut times, ip, 1000, 10));
    assert!(!maybe_refresh(&mut times, ip, 1005, 10));
    assert!(!maybe_refresh(&mut times, ip, 1009, 10));
    assert!(maybe_refresh(&mut times, ip, 1010, 10));
    assert!(!maybe_refresh(&mut times, ip, 1011, 10));
}

#[test]
fn each_address_has_its_own_clock() {
    let a = IpAddress { a: 10, b: 0, c: 81, d: 1 };
    let b = IpAddress { a: 10, b: 0, c: 81, d: 2 };
    let mut times: AddrStore<u64> = AddrStore::new();
    assert!(maybe_refresh(&mut times, a, 1000, 10));
    assert!(maybe_refresh(&mut times, b, 1003, 10));
    assert!(maybe_refresh(&mut times, a, 1010, 10));
    assert!(!maybe_refresh(&mut times, b, 1010, 10));
}

#[test]
fn fine_point_samples_present_boards_and_averages_temps() {
    let m = device(1, Some(1234));
    let p = fine_point_of(&m, 500).unwrap();
    assert_eq!(p.timestamp, 500);
    assert_eq!(p.total_hashrate_centi, 1234);
    assert_eq!(p.power_watts, 3400);
    assert_eq!(p.board_hashrate_centi, vec![617, 620]);
    assert_eq!(p.board_temp_centi, vec![6000, 7000]);
    assert_eq!(p.avg_temp_centi, 6500);
    let mut bare = m.clone();
    bare.metrics = None;
    assert!(fine_point_of(&bare, 500).is_none());
}

#[test]
fn fine_point_writes_zero_for_missing_whole_device_readings() {
    let p = fine_point_of(&device(1, None), 0).unwrap();
    assert_eq!(p.total_hashrate_centi, 0);
}

#[test]
fn fleet_sampling_skips_an_empty_registry() {
    let registry = MinerRegistry::new();
    let mut buf: BoundedLog<FleetPoint> = BoundedLog::new(4);
    assert!(!sample_fleet(&mut buf, &registry, 100));
    assert_eq!(buf.len(), 0);
}

#[test]
fn fleet_sampling_sums_the_registry_hashrate() {
    let mut registry = MinerRegistry::new();
    registry.replace_all(vec![device(1, Some(1200)), device(2, None), device(3, Some(345))]);
    let mut buf: BoundedLog<FleetPoint> = BoundedLog::new(2);
    assert!(sample_fleet(&mut buf, &registry, 100));
    assert!(sample_fleet(&mut buf, &registry, 200));
    assert!(sample_fleet(&mut buf, &registry, 300));
    assert_eq!(buf.len(), 2);
    assert_eq!(buf.points[0], FleetPoint { timestamp: 200, total_hashrate_centi: 1545 });
    assert_eq!(buf.points[1], FleetPoint { timestamp: 300, total_hashrate_centi: 1545 });
}
