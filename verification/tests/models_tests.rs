use miner_scanner::control::{trimmed, ScanControlState};
use miner_scanner::ip::IpAddress;
use miner_scanner::models::{
    default_auto_scan_interval, default_refresh_interval, derived_efficiency_centi,
    efficiency_display, fan_display, hashrate_display, temperature_display, toggle_sort,
    wattage_display, AppConfig, MinerInfo, MinerMetrics, SavedRange, SortColumn, SortDirection,
};

fn sample_metrics() -> MinerMetrics {
    MinerMetrics {
        mac: Some("AA:BB:CC:DD:EE:FF".to_string()),
        hashrate_centi_ths: Some(1234),
        wattage_watts: Some(3400),
        efficiency_centi: Some(2345),
        avg_temp_centi: Some(6540),
        board_hashrate_centi: vec![Some(617), None],
        board_temp_centi: vec![Some(6540), Some(6000)],
        fan_rpm: vec![Some(4980), Some(5100)],
    }
}

#[test]
fn display_strings_have_fixed_precision_and_units() {
    assert_eq!(hashrate_display(&Some(1234)), "12.34 TH/s");
    assert_eq!(hashrate_display(&Some(5)), "0.05 TH/s");
    assert_eq!(hashrate_display(&None), "N/A");
    assert_eq!(wattage_display(&Some(3400)), "3400 W");
    assert_eq!(wattage_display(&None), "N/A");
    assert_eq!(efficiency_display(&Some(2345)), "23.4");
    assert_eq!(efficiency_display(&None), "N/A");
    assert_eq!(temperature_display(&Some(6540)), "65.4°C");
    assert_eq!(temperature_display(&None), "N/A");
    assert_eq!(fan_display(&vec![Some(4980), Some(5100)]), "4980 RPM");
    assert_eq!(fan_display(&vec![None, Some(5100)]), "N/A");
    assert_eq!(fan_display(&vec![]), "N/A");
}

#[test]
fn entry_derives_its_display_fields_from_the_reading() {
    let m = MinerInfo::from_metrics(
        IpAddress { a: 10, b: 0, c: 81, d: 7 },
        "host1".to_string(),
        "ModelX".to_string(),
        "fw1".to_string(),
        "cb1".to_string(),
        "stratum+tcp://pool".to_string(),
        "worker1".to_string(),
        false,
        sample_metrics(),
    );
    assert_eq!(m.hashrate, "12.34 TH/s");
    assert_eq!(m.wattage, "3400 W");
    assert_eq!(m.efficiency, "23.4");
    assert_eq!(m.temperature, "65.4°C");
    assert_eq!(m.fan_speed, "4980 RPM");
    assert_eq!(m.hostname, "host1");
    assert!(!m.light_flashing);
    assert!(m.metrics.is_some());
}

#[test]
fn derived_efficiency_divides_power_by_hashrate() {
    // 3400 W at 123.45 TH/s is 27.54... W/TH, held as hundredths.
    assert_eq!(derived_efficiency_centi(3400, 12345), Some(2754));
    assert_eq!(derived_efficiency_centi(3400, 0), None);
    assert_eq!(derived_efficiency_centi(0, 100), Some(0));
}

#[test]
fn derived_efficiency_saturates_at_the_largest_value() {
    assert_eq!(derived_efficiency_centi(u64::MAX, 1), Some(u64::MAX));
}

#[test]
fn displays_render_the_extremes() {
    assert_eq!(hashrate_display(&Some(0)), "0.00 TH/s");
    assert_eq!(hashrate_display(&Some(u64::MAX)), "184467440737095516.15 TH/s");
    assert_eq!(wattage_display(&Some(0)), "0 W");
    assert_eq!(temperature_display(&Some(9)), "0.0°C");
}

#[test]
fn config_defaults() {
    let c = AppConfig::default();
    assert_eq!(c.saved_ranges.len(), 0);
    assert_eq!(c.detail_refresh_interval_secs, 10);
    assert_eq!(c.auto_scan_interval_secs, 120);
    assert_eq!(c.identification_timeout_secs, 5);
    assert_eq!(c.connectivity_timeout_secs, 1);
    assert_eq!(c.connectivity_retries, 2);
    assert_eq!(default_refresh_interval(), 10);
    assert_eq!(default_auto_scan_interval(), 120);
}

#[test]
fn toggling_a_sorted_column_flips_direction() {
    let (c, d) = toggle_sort(None, SortDirection::Ascending, SortColumn::Model);
    assert!(c == Some(SortColumn::Model));
    assert!(d == SortDirection::Ascending);
    let (c, d) = toggle_sort(Some(SortColumn::Model), SortDirection::Ascending, SortColumn::Model);
    assert!(c == Some(SortColumn::Model));
    assert!(d == SortDirection::Descending);
    let (c, d) = toggle_sort(Some(SortColumn::Model), SortDirection::Descending, SortColumn::Ip);
    assert!(c == Some(SortColumn::Ip));
    assert!(d == SortDirection::Ascending);
}

#[test]
fn trimmed_strips_blank_edges() {
    assert_eq!(trimmed("  Main Site \t"), "Main Site");
    assert_eq!(trimmed(""), "");
    assert_eq!(trimmed(" \t\r\n "), "");
    assert_eq!(trimmed("x"), "x");
}

fn control_state(name: &str) -> ScanControlState {
    ScanControlState {
        ip_range_start: "10.0.81.0".to_string(),
        ip_range_end: "10.0.81.255".to_string(),
        new_range_name: name.to_string(),
        auto_scan_enabled: true,
        auto_scan_interval_secs: 120,
        last_scan_time: None,
    }
}

#[test]
fn adding_a_saved_range_stores_the_trimmed_name_and_encoding() {
    let mut state = control_state("  Main Site ");
    let mut saved: Vec<SavedRange> = Vec::new();
    let r = state.add_saved_range(&mut saved);
    assert_eq!(r, Ok(true));
    assert_eq!(saved.len(), 1);
    assert_eq!(saved[0].name, "Main Site");
    assert_eq!(saved[0].range, "10.0.81.0-255");
    assert_eq!(state.new_range_name, "");
}

#[test]
fn adding_with_a_blank_name_does_nothing() {
    let mut state = control_state("   ");
    let mut saved: Vec<SavedRange> = Vec::new();
    assert_eq!(state.add_saved_range(&mut saved), Ok(false));
    assert_eq!(saved.len(), 0);
}

#[test]
fn adding_an_invalid_range_reports_the_validation_error() {
    let mut state = control_state("site");
    state.ip_range_end = "10.0.82.5".to_string();
    let mut saved: Vec<SavedRange> = Vec::new();
    let r = state.add_saved_range(&mut saved);
    assert_eq!(r, Err("IP ranges must be in the same subnet (first 3 octets must match)".to_string()));
    assert_eq!(saved.len(), 0);
    assert_eq!(state.new_range_name, "site");
}

#[test]
fn removing_a_saved_range_drops_only_that_entry() {
    let mut state = control_state("");
    let mut saved = vec![
        SavedRange { name: "a".to_string(), range: "10.0.81.0-255".to_string() },
        SavedRange { name: "b".to_string(), range: "10.0.82.0-255".to_string() },
    ];
    assert!(state.remove_saved_range(&mut saved, 0));
    assert_eq!(saved.len(), 1);
    assert_eq!(saved[0].name, "b");
    assert!(!state.remove_saved_range(&mut saved, 5));
    assert_eq!(saved.len(), 1);
}

#[test]
fn loading_a_saved_range_fills_the_entry_fields() {
    let mut state = control_state("");
    let range = SavedRange { name: "site".to_string(), range: "192.168.1.5-90".to_string() };
    state.load_saved_range(&range);
    assert_eq!(state.ip_range_start, "192.168.1.5");
    assert_eq!(state.ip_range_end, "192.168.1.90");
}

#[test]
fn auto_scan_waits_for_interval_and_idle_scanner() {
    let state = ScanControlState { last_scan_time: Some(1000), ..control_state("") };
    assert!(state.should_auto_scan(1120, false, true));
    assert!(!state.should_auto_scan(1119, false, true));
    assert!(!state.should_auto_scan(1120, true, true));
    assert!(!state.should_auto_scan(1120, false, false));
    let fresh = control_state("");
    assert!(fresh.should_auto_scan(0, false, true));
}
