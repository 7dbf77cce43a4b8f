use miner_scanner::history::{BoundedLog, HashratePoint, KeyedHistory, FINE_HISTORY_POINTS, MAX_HISTORY_POINTS};
use miner_scanner::ip::IpAddress;

fn pt(i: u64) -> HashratePoint {
    HashratePoint { timestamp: i, hashrate_centi_ths: 100 * i }
}

#[test]
fn buffer_capacities_match_the_two_horizons() {
    assert_eq!(MAX_HISTORY_POINTS, 288);
    assert_eq!(FINE_HISTORY_POINTS, 9000);
}

#[test]
fn pushing_beyond_capacity_keeps_the_last_window() {
    // Capacity 3, 5 insertions: the size stays at 3 and the oldest
    // retained point is the third inserted (N - C + 1 = 3).
    let mut log: BoundedLog<HashratePoint> = BoundedLog::new(3);
    for i in 1..=5 {
        log.push(pt(i));
    }
    assert_eq!(log.len(), 3);
    assert_eq!(log.points[0], pt(3));
    assert_eq!(log.points[1], pt(4));
    assert_eq!(log.points[2], pt(5));
}

#[test]
fn pushing_within_capacity_keeps_everything() {
    let mut log: BoundedLog<HashratePoint> = BoundedLog::new(3);
    log.push(pt(1));
    log.push(pt(2));
    assert_eq!(log.len(), 2);
    assert_eq!(log.points[0], pt(1));
    assert_eq!(log.points[1], pt(2));
}

#[test]
fn capacity_one_keeps_only_the_latest_point() {
    let mut log: BoundedLog<HashratePoint> = BoundedLog::new(1);
    log.push(pt(1));
    log.push(pt(2));
    assert_eq!(log.len(), 1);
    assert_eq!(log.points[0], pt(2));
}

#[test]
fn keyed_buffers_are_independent_per_device() {
    let a = IpAddress { a: 10, b: 0, c: 81, d: 1 };
    let b = IpAddress { a: 10, b: 0, c: 81, d: 2 };
    let mut hist: KeyedHistory<HashratePoint> = KeyedHistory::new(2);
    hist.append(a, pt(1));
    hist.append(a, pt(2));
    hist.append(a, pt(3));
    hist.append(b, pt(9));
    let log_a = hist.buffers.get(&a).unwrap();
    assert_eq!(log_a.points, vec![pt(2), pt(3)]);
    let log_b = hist.buffers.get(&b).unwrap();
    assert_eq!(log_b.points, vec![pt(9)]);
    let c = IpAddress { a: 10, b: 0, c: 81, d: 3 };
    assert!(hist.buffers.get(&c).is_none());
}
