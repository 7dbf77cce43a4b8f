use miner_scanner::ip::IpAddress;
use miner_scanner::models::{MinerInfo, MinerMetrics};
use miner_scanner::registry::MinerRegistry;

fn metrics(hashrate: Option<u64>) -> MinerMetrics {
    MinerMetrics {
        mac: None,
        hashrate_centi_ths: hashrate,
        wattage_watts: None,
        efficiency_centi: None,
        avg_temp_centi: None,
        board_hashrate_centi: vec![],
        board_temp_centi: vec![],
        fan_rpm: vec![],
    }
}

fn device(d: u8, hostname: &str, hashrate: Option<u64>) -> MinerInfo {
    MinerInfo::from_metrics(
        IpAddress { a: 10, b: 0, c: 81, d },
        hostname.to_string(),
        "M".to_string(),
        "fw".to_string(),
        "cb".to_string(),
        "pool".to_string(),
        "w".to_string(),
        false,
        metrics(hashrate),
    )
}

#[test]
fn update_one_on_an_absent_address_is_a_no_op() {
    let mut reg = MinerRegistry::new();
    reg.replace_all(vec![device(1, "h1", None), device(2, "h2", None)]);
    let absent = IpAddress { a: 10, b: 0, c: 81, d: 9 };
    let updated = reg.update_one(absent, device(9, "ghost", None));
    assert!(!updated);
    assert_eq!(reg.len(), 2);
    assert_eq!(reg.get(0).hostname, "h1");
    assert_eq!(reg.get(1).hostname, "h2");
}

#[test]
fn update_one_replaces_the_entry_wholesale() {
    let mut reg = MinerRegistry::new();
    reg.replace_all(vec![device(1, "h1", Some(100)), device(2, "h2", None)]);
    let ip = IpAddress { a: 10, b: 0, c: 81, d: 1 };
    let updated = reg.update_one(ip, device(1, "h1-refreshed", Some(200)));
    assert!(updated);
    assert_eq!(reg.len(), 2);
    assert_eq!(reg.get(0).hostname, "h1-refreshed");
    assert_eq!(reg.get(0).metrics.as_ref().unwrap().hashrate_centi_ths, Some(200));
    assert_eq!(reg.get(1).hostname, "h2");
}

#[test]
fn total_hashrate_saturates_at_the_largest_value() {
    let mut reg = MinerRegistry::new();
    reg.replace_all(vec![device(1, "h1", Some(u64::MAX)), device(2, "h2", Some(7))]);
    assert_eq!(reg.total_hashrate_centi(), u64::MAX);
}

#[test]
fn find_locates_entries_by_address() {
    let mut reg = MinerRegistry::new();
    reg.replace_all(vec![device(1, "h1", None), device(2, "h2", None)]);
    assert_eq!(reg.find(&IpAddress { a: 10, b: 0, c: 81, d: 2 }), Some(1));
    assert_eq!(reg.find(&IpAddress { a: 10, b: 0, c: 81, d: 3 }), None);
}

#[test]
fn total_hashrate_sums_known_readings() {
    let mut reg = MinerRegistry::new();
    assert_eq!(reg.total_hashrate_centi(), 0);
    reg.replace_all(vec![
        device(1, "h1", Some(1200)),
        device(2, "h2", None),
        device(3, "h3", Some(345)),
    ]);
    assert_eq!(reg.total_hashrate_centi(), 1545);
}
