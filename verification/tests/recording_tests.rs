use miner_scanner::ip::IpAddress;
use miner_scanner::models::{MinerInfo, MinerMetrics};
use miner_scanner::recording::{
    append_data_point, format_data_row, recording_file_name, recording_header, start_recording,
    stop_recording,
};

fn metrics_with_topology(boards: usize, fans: usize) -> MinerMetrics {
    MinerMetrics {
        mac: Some("AA:BB:CC:DD:EE:FF".to_string()),
        hashrate_centi_ths: Some(1234),
        wattage_watts: Some(3400),
        efficiency_centi: Some(2345),
        avg_temp_centi: Some(6540),
        board_hashrate_centi: vec![Some(617); boards],
        board_temp_centi: vec![Some(6540); boards],
        fan_rpm: vec![Some(4980); fans],
    }
}

fn device_with_topology(boards: usize, fans: usize) -> MinerInfo {
    MinerInfo::from_metrics(
        IpAddress { a: 10, b: 0, c: 81, d: 7 },
        "host1".to_string(),
        "Model X1".to_string(),
        "fw1".to_string(),
        "cb1".to_string(),
        "pool".to_string(),
        "w".to_string(),
        false,
        metrics_with_topology(boards, fans),
    )
}

#[test]
fn header_is_sized_to_the_topology() {
    let h = recording_header(2, 3);
    assert_eq!(
        h,
        "DeviceAddress,HardwareId,Model,Firmware,Timestamp,TotalHashrate(TH/s),Power(W),\
         Efficiency(W/TH),AvgTemperature(°C),Board0Hashrate,Board1Hashrate,Board0Temp,\
         Board1Temp,Fan1RPM,Fan2RPM,Fan3RPM"
    );
}

#[test]
fn start_fixes_the_schema_from_the_current_topology() {
    let miner = device_with_topology(3, 2);
    let (state, header) = start_recording(&miner, "r.csv".to_string(), 42);
    assert_eq!(state.board_columns, 3);
    assert_eq!(state.fan_columns, 2);
    assert_eq!(state.row_count, 0);
    assert!(state.is_recording);
    assert_eq!(state.file_path, "r.csv");
    assert_eq!(state.start_time, 42);
    assert_eq!(header.matches(',').count(), 8 + 3 + 3 + 2);
    assert!(header.starts_with("DeviceAddress,"));
}

#[test]
fn rows_carry_the_reading_at_fixed_precision() {
    let miner = device_with_topology(1, 1);
    let (state, _) = start_recording(&miner, "r.csv".to_string(), 0);
    let row = format_data_row(&state, &miner, "2024-01-01 00:00:00");
    assert_eq!(
        row,
        "10.0.81.7,AA:BB:CC:DD:EE:FF,Model X1,fw1,2024-01-01 00:00:00,12.34,3400,23.4,65.4,6.17,65.4,4980"
    );
}

#[test]
fn missing_readings_are_written_as_zero() {
    let mut m = metrics_with_topology(2, 1);
    m.hashrate_centi_ths = None;
    m.wattage_watts = None;
    m.board_hashrate_centi[1] = None;
    let miner = MinerInfo::from_metrics(
        IpAddress { a: 10, b: 0, c: 81, d: 7 },
        "h".to_string(),
        "M".to_string(),
        "fw".to_string(),
        "cb".to_string(),
        "p".to_string(),
        "w".to_string(),
        false,
        m,
    );
    let (state, _) = start_recording(&miner, "r.csv".to_string(), 0);
    let row = format_data_row(&state, &miner, "t");
    assert_eq!(row, "10.0.81.7,AA:BB:CC:DD:EE:FF,M,fw,t,0.00,0,23.4,65.4,6.17,0.00,65.4,65.4,4980");
}

#[test]
fn schema_shapes_every_row_despite_topology_changes() {
    // The schema is fixed at start: 2 board columns, 1 fan column. A
    // later reading with 4 boards and 3 fans still yields a row of
    // exactly 9 + 2 + 2 + 1 cells.
    let miner = device_with_topology(2, 1);
    let (mut state, _) = start_recording(&miner, "r.csv".to_string(), 0);
    let grown = device_with_topology(4, 3);
    let row = append_data_point(&mut state, &grown).unwrap();
    assert_eq!(row.matches(',').count(), 8 + 2 + 2 + 1);
    assert_eq!(state.row_count, 1);
    let shrunk = device_with_topology(0, 0);
    let row = append_data_point(&mut state, &shrunk).unwrap();
    assert_eq!(row.matches(',').count(), 8 + 2 + 2 + 1);
    assert_eq!(state.row_count, 2);
    // Columns beyond the reported topology are written as zero.
    let cells: Vec<&str> = row.split(',').collect();
    assert_eq!(cells[9], "0.00");
    assert_eq!(cells[11], "0.0");
    assert_eq!(cells[13], "0");
}

#[test]
fn append_is_a_no_op_while_stopped_or_without_a_reading() {
    let miner = device_with_topology(1, 1);
    let (mut state, _) = start_recording(&miner, "r.csv".to_string(), 0);
    stop_recording(&mut state);
    assert!(!state.is_recording);
    assert_eq!(append_data_point(&mut state, &miner), None);
    assert_eq!(state.row_count, 0);
    let mut live = state.clone();
    live.is_recording = true;
    let mut bare = miner.clone();
    bare.metrics = None;
    assert_eq!(append_data_point(&mut live, &bare), None);
    assert_eq!(live.row_count, 0);
}

#[test]
fn recording_file_name_carries_address_model_and_hardware_id() {
    let miner = device_with_topology(1, 1);
    let name = recording_file_name(&miner);
    assert!(name.starts_with("recording_10.0.81.7_ModelX1_AA:BB:CC:DD:EE:FF_"));
    assert!(name.ends_with(".csv"));
    assert!(!name.contains(' '));
}

#[test]
fn mac_address_reads_from_the_detailed_reading() {
    let miner = device_with_topology(1, 1);
    assert_eq!(miner.mac_address(), Some("AA:BB:CC:DD:EE:FF".to_string()));
    let mut bare = miner.clone();
    bare.metrics = None;
    assert_eq!(bare.mac_address(), None);
}
