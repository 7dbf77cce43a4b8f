use miner_scanner::ip::IpAddress;
use miner_scanner::models::{MinerInfo, MinerMetrics, SortColumn, SortDirection};
use miner_scanner::registry::MinerRegistry;

fn device(d: u8, hostname: &str) -> MinerInfo {
    MinerInfo::from_metrics(
        IpAddress { a: 10, b: 0, c: 81, d },
        hostname.to_string(),
        "M".to_string(),
        "fw".to_string(),
        "cb".to_string(),
        "p".to_string(),
        "w".to_string(),
        false,
        MinerMetrics {
            mac: None,
            hashrate_centi_ths: None,
            wattage_watts: None,
            efficiency_centi: None,
            avg_temp_centi: None,
            board_hashrate_centi: vec![],
            board_temp_centi: vec![],
            fan_rpm: vec![],
        },
    )
}

fn hostnames(reg: &MinerRegistry) -> Vec<String> {
    (0..reg.len()).map(|i| reg.get(i).hostname.clone()).collect()
}

#[test]
fn sorting_ascending_orders_by_the_column_text() {
    let mut reg = MinerRegistry::new();
    reg.replace_all(vec![device(1, "charlie"), device(2, "alpha"), device(3, "bravo")]);
    reg.sort_miners(SortColumn::Hostname, SortDirection::Ascending);
    assert_eq!(hostnames(&reg), vec!["alpha", "bravo", "charlie"]);
}

#[test]
fn sorting_descending_reverses_the_order() {
    let mut reg = MinerRegistry::new();
    reg.replace_all(vec![device(1, "charlie"), device(2, "alpha"), device(3, "bravo")]);
    reg.sort_miners(SortColumn::Hostname, SortDirection::Descending);
    assert_eq!(hostnames(&reg), vec!["charlie", "bravo", "alpha"]);
}

#[test]
fn address_ordering_is_by_text_not_by_value() {
    // The column holds text, so "10.0.81.10" sorts before "10.0.81.2".
    let mut reg = MinerRegistry::new();
    reg.replace_all(vec![device(2, "h2"), device(10, "h10"), device(1, "h1")]);
    reg.sort_miners(SortColumn::Ip, SortDirection::Ascending);
    assert_eq!(hostnames(&reg), vec!["h1", "h10", "h2"]);
}

#[test]
fn sorting_is_stable_for_equal_keys() {
    // Three entries share the hostname; sorting by hostname moves the
    // distinct one but keeps the equal-keyed entries in their original
    // relative order (distinguished here by address).
    let mut reg = MinerRegistry::new();
    reg.replace_all(vec![device(3, "same"), device(1, "same"), device(2, "aaa"), device(9, "same")]);
    reg.sort_miners(SortColumn::Hostname, SortDirection::Ascending);
    assert_eq!(hostnames(&reg), vec!["aaa", "same", "same", "same"]);
    assert_eq!(reg.get(1).ip.d, 3);
    assert_eq!(reg.get(2).ip.d, 1);
    assert_eq!(reg.get(3).ip.d, 9);
}

#[test]
fn sorting_keeps_every_entry() {
    let mut reg = MinerRegistry::new();
    reg.replace_all(vec![device(5, "e"), device(4, "d"), device(3, "c"), device(2, "b")]);
    reg.sort_miners(SortColumn::Hostname, SortDirection::Ascending);
    assert_eq!(reg.len(), 4);
    let mut names = hostnames(&reg);
    names.sort();
    assert_eq!(names, vec!["b", "c", "d", "e"]);
}
