use miner_scanner::ip::IpAddress;
use miner_scanner::models::{MinerInfo, MinerMetrics};
use miner_scanner::registry::MinerRegistry;
use miner_scanner::search::{filter_miners, matches_search};
use miner_scanner::stats::fleet_stats;

fn metrics(hashrate: Option<u64>, wattage: Option<u64>, temp: Option<u64>, eff: Option<u64>) -> MinerMetrics {
    MinerMetrics {
        mac: None,
        hashrate_centi_ths: hashrate,
        wattage_watts: wattage,
        efficiency_centi: eff,
        avg_temp_centi: temp,
        board_hashrate_centi: vec![],
        board_temp_centi: vec![],
        fan_rpm: vec![],
    }
}

fn device(d: u8, hostname: &str, model: &str) -> MinerInfo {
    MinerInfo::from_metrics(
        IpAddress { a: 10, b: 0, c: 81, d },
        hostname.to_string(),
        model.to_string(),
        "fw2.1".to_string(),
        "cb".to_string(),
        "stratum+tcp://pool.example".to_string(),
        "w".to_string(),
        false,
        metrics(None, None, None, None),
    )
}

#[test]
fn search_is_case_insensitive_across_fields() {
    let m = device(7, "Rack-3-Unit", "Antminer S19");
    assert!(matches_search(&m, "rack-3"));
    assert!(matches_search(&m, "RACK-3"));
    assert!(matches_search(&m, "antminer s19"));
    assert!(matches_search(&m, "ANTMINER"));
    assert!(matches_search(&m, "10.0.81.7"));
    assert!(matches_search(&m, "FW2"));
    assert!(matches_search(&m, "POOL.EXAMPLE"));
    assert!(!matches_search(&m, "whatsminer"));
    assert!(!matches_search(&m, "10.0.81.8"));
}

#[test]
fn empty_query_matches_everything() {
    let m = device(7, "h", "M");
    assert!(matches_search(&m, ""));
}

#[test]
fn filter_returns_matching_indices_in_order() {
    let mut reg = MinerRegistry::new();
    reg.replace_all(vec![
        device(1, "alpha", "S19"),
        device(2, "beta", "M30"),
        device(3, "alphabet", "S19"),
    ]);
    assert_eq!(filter_miners(&reg, "alpha"), vec![0, 2]);
    assert_eq!(filter_miners(&reg, "s19"), vec![0, 2]);
    assert_eq!(filter_miners(&reg, "BETA"), vec![1]);
    assert_eq!(filter_miners(&reg, ""), vec![0, 1, 2]);
    assert_eq!(filter_miners(&reg, "zzz"), Vec::<usize>::new());
}

fn stat_device(d: u8, hashrate: Option<u64>, wattage: Option<u64>, temp: Option<u64>, eff: Option<u64>) -> MinerInfo {
    MinerInfo::from_metrics(
        IpAddress { a: 10, b: 0, c: 81, d },
        "h".to_string(),
        "M".to_string(),
        "fw".to_string(),
        "cb".to_string(),
        "p".to_string(),
        "w".to_string(),
        false,
        metrics(hashrate, wattage, temp, eff),
    )
}

#[test]
fn fleet_stats_average_only_the_devices_that_report() {
    let mut reg = MinerRegistry::new();
    reg.replace_all(vec![
        stat_device(1, Some(1000), Some(3000), Some(6000), Some(2000)),
        stat_device(2, Some(2000), None, Some(7000), None),
        stat_device(3, None, Some(400), None, None),
    ]);
    let stats = fleet_stats(&reg);
    assert_eq!(stats.miner_count, 3);
    assert_eq!(stats.total_hashrate_centi, 3000);
    assert_eq!(stats.avg_hashrate_centi, 1500);
    assert_eq!(stats.total_wattage_watts, 3400);
    assert_eq!(stats.avg_temp_centi, 6500);
    assert_eq!(stats.avg_efficiency_centi, 2000);
}

#[test]
fn fleet_stats_of_an_empty_registry_are_zero() {
    let reg = MinerRegistry::new();
    let stats = fleet_stats(&reg);
    assert_eq!(stats.miner_count, 0);
    assert_eq!(stats.total_hashrate_centi, 0);
    assert_eq!(stats.avg_hashrate_centi, 0);
    assert_eq!(stats.total_wattage_watts, 0);
    assert_eq!(stats.avg_temp_centi, 0);
    assert_eq!(stats.avg_efficiency_centi, 0);
}
