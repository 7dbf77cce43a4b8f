use miner_scanner::export::export_miners_to_csv;
use miner_scanner::ip::IpAddress;
use miner_scanner::models::{MinerInfo, MinerMetrics};
use miner_scanner::registry::MinerRegistry;

fn full_device() -> MinerInfo {
    MinerInfo::from_metrics(
        IpAddress { a: 10, b: 0, c: 81, d: 7 },
        "host1".to_string(),
        "ModelX".to_string(),
        "fw1".to_string(),
        "cb1".to_string(),
        "stratum+tcp://pool".to_string(),
        "worker1".to_string(),
        false,
        MinerMetrics {
            mac: Some("AA:BB".to_string()),
            hashrate_centi_ths: Some(1234),
            wattage_watts: Some(3400),
            efficiency_centi: Some(2345),
            avg_temp_centi: Some(6540),
            board_hashrate_centi: vec![Some(617)],
            board_temp_centi: vec![Some(6540)],
            fan_rpm: vec![Some(4980)],
        },
    )
}

fn bare_device() -> MinerInfo {
    MinerInfo::from_metrics(
        IpAddress { a: 10, b: 0, c: 81, d: 8 },
        "host2".to_string(),
        "ModelY".to_string(),
        "fw2".to_string(),
        "cb2".to_string(),
        "p2".to_string(),
        "w2".to_string(),
        true,
        MinerMetrics {
            mac: None,
            hashrate_centi_ths: None,
            wattage_watts: None,
            efficiency_centi: None,
            avg_temp_centi: None,
            board_hashrate_centi: vec![],
            board_temp_centi: vec![],
            fan_rpm: vec![],
        },
    )
}

#[test]
fn empty_registry_exports_nothing() {
    let registry = MinerRegistry::new();
    assert!(export_miners_to_csv(&registry).is_none());
}

#[test]
fn snapshot_has_the_documented_header_and_one_line_per_device() {
    let mut registry = MinerRegistry::new();
    registry.replace_all(vec![full_device(), bare_device()]);
    let content = export_miners_to_csv(&registry).unwrap();
    let expected = "Address,Hostname,Model,Firmware,ControlBoard,Hashrate(TH/s),Wattage(W),\
                    Efficiency(W/TH),Temperature(°C),FanSpeed(RPM),Pool,Worker\n\
                    10.0.81.7,host1,ModelX,fw1,cb1,12.34,3400,23.4,65.4,4980,stratum+tcp://pool,worker1\n\
                    10.0.81.8,host2,ModelY,fw2,cb2,N/A,N/A,N/A,N/A,N/A,p2,w2\n";
    assert_eq!(content, expected);
}
