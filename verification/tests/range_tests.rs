use miner_scanner::ip::{calculate_total_ips, parse_ip, parse_ip_range, parse_range_encoding, IpAddress, IpRange};

#[test]
fn valid_range_parses_and_counts() {
    let enc = parse_ip_range("10.0.81.0", "10.0.81.255").unwrap();
    assert_eq!(enc, "10.0.81.0-255");
    assert_eq!(calculate_total_ips(&enc), 256);
}

#[test]
fn single_address_range_counts_one() {
    let enc = parse_ip_range("192.168.1.7", "192.168.1.7").unwrap();
    assert_eq!(enc, "192.168.1.7-7");
    assert_eq!(calculate_total_ips(&enc), 1);
}

#[test]
fn subnet_mismatch_is_rejected() {
    let err = parse_ip_range("10.0.81.0", "10.0.82.10").unwrap_err();
    assert_eq!(err, "IP ranges must be in the same subnet (first 3 octets must match)");
}

#[test]
fn inverted_range_is_rejected() {
    let err = parse_ip_range("10.0.81.200", "10.0.81.5").unwrap_err();
    assert_eq!(err, "Start IP must be less than or equal to end IP");
}

#[test]
fn malformed_addresses_are_rejected() {
    assert_eq!(parse_ip_range("10.0.81", "10.0.81.5").unwrap_err(), "Invalid IP address format");
    assert_eq!(parse_ip_range("10.0.81.0", "10.0.81").unwrap_err(), "Invalid IP address format");
    assert_eq!(parse_ip_range("abc.def.ghi.jkl", "abc.def.ghi.jkl").unwrap_err(), "Invalid IP address format");
    assert_eq!(parse_ip_range("10.0.81.256", "10.0.81.255").unwrap_err(), "Invalid IP address format");
    assert_eq!(parse_ip_range("", "").unwrap_err(), "Invalid IP address format");
    assert_eq!(parse_ip_range("10.0.81.0.1", "10.0.81.0.2").unwrap_err(), "Invalid IP address format");
}

#[test]
fn malformedness_is_reported_before_ordering() {
    let err = parse_ip_range("10.0.82.200", "10.0.81.5").unwrap_err();
    assert_eq!(err, "IP ranges must be in the same subnet (first 3 octets must match)");
    let err = parse_ip_range("10.0.81.300", "10.0.82.5").unwrap_err();
    assert_eq!(err, "Invalid IP address format");
}

#[test]
fn leading_zeros_parse_to_the_same_octets() {
    let enc = parse_ip_range("010.0.81.007", "10.0.81.009").unwrap();
    assert_eq!(enc, "10.0.81.7-9");
    assert_eq!(calculate_total_ips(&enc), 3);
}

#[test]
fn count_of_malformed_encoding_is_zero() {
    assert_eq!(calculate_total_ips(""), 0);
    assert_eq!(calculate_total_ips("10.0.81.0"), 0);
    assert_eq!(calculate_total_ips("not a range"), 0);
    assert_eq!(calculate_total_ips("10.0.81.9-"), 0);
    assert_eq!(calculate_total_ips("10.0.81.-5"), 0);
    assert_eq!(calculate_total_ips("10.0.300.1-5"), 0);
}

#[test]
fn count_of_inverted_encoding_is_zero() {
    assert_eq!(calculate_total_ips("10.0.81.9-5"), 0);
}

#[test]
fn parse_ip_reads_octets() {
    let ip = parse_ip("172.16.254.1").unwrap();
    assert_eq!(ip, IpAddress { a: 172, b: 16, c: 254, d: 1 });
    assert!(parse_ip("172.16.254").is_none());
    assert!(parse_ip("172.16.254.1.2").is_none());
    assert!(parse_ip("172.16.254.x").is_none());
    assert!(parse_ip("172.16.254.999").is_none());
}

#[test]
fn range_encoding_round_trips() {
    let rg = parse_range_encoding("192.168.1.1-254").unwrap();
    assert_eq!(rg, IpRange { a: 192, b: 168, c: 1, start: 1, end: 254 });
    assert_eq!(calculate_total_ips("192.168.1.1-254"), 254);
}
