//! The two clocks of the scanner, decoupled on purpose: the acquisition
//! cadence, on which real device reads are fetched, and the much faster
//! visualization cadence, on which the latest cached reading is copied
//! into the fine and fleet buffers for smooth plots.

use vstd::prelude::*;

use crate::control::elapsed_at_least;
use crate::history::{push_spec, BoundedLog, FleetPoint, MetricsPoint};
use crate::ip::IpAddress;
use crate::models::MinerInfo;
use crate::registry::{sum_hashrate, MinerRegistry};
use crate::store::AddrStore;

verus! {

/// The time an address was last triggered at, if it ever was.
pub open spec fn last_of(times: AddrStore<u64>, ip: IpAddress) -> Option<u64> {
    if times.to_map().contains_key(ip) {
        Some(times.to_map()[ip])
    } else {
        None
    }
}

/// Decides whether an address's interval has passed — an address never
/// triggered is due at once — and, when it has, marks the address
/// triggered now. The same decision drives the slow acquisition timer
/// and the fast sampling timer, each with its own table and interval.
pub fn maybe_refresh(
    times: &mut AddrStore<u64>,
    ip: IpAddress,
    now: u64,
    interval: u64,
) -> (triggered: bool)
    requires
        old(times).wf(),
    ensures
        final(times).wf(),
        triggered == elapsed_at_least(last_of(*old(times), ip), now, interval),
        triggered ==> final(times).to_map() == old(times).to_map().insert(ip, now),
        !triggered ==> *final(times) == *old(times),
{
    let due = match times.get(&ip) {
        Some(t) => now >= *t && now - *t >= interval,
        None => true,
    };
    if due {
        times.upsert(ip, now);
    }
    due
}

/// How many values are present among the option slots.
pub open spec fn somes(s: Seq<Option<u64>>) -> Seq<u64>
    decreases s.len(),
{
    if s.len() == 0 {
        Seq::empty()
    } else {
        somes(s.drop_last()) + (match s.last() {
            Some(v) => seq![v],
            None => Seq::empty(),
        })
    }
}

pub open spec fn sum_u64(s: Seq<u64>) -> nat
    decreases s.len(),
{
    if s.len() == 0 {
        0
    } else {
        sum_u64(s.drop_last()) + s.last() as nat
    }
}

/// The mean written on a fine point: the present board temperatures
/// averaged (the sum saturating), or zero with none present.
pub open spec fn mean_temp(s: Seq<u64>) -> nat {
    if s.len() == 0 {
        0
    } else if sum_u64(s) <= u64::MAX {
        sum_u64(s) / s.len()
    } else {
        (u64::MAX as nat) / s.len()
    }
}

/// Collects the present values among the option slots, in order.
fn collect_somes(s: &Vec<Option<u64>>) -> (r: Vec<u64>)
    ensures
        r@ == somes(s@),
{
    let n = s.len();
    let mut out: Vec<u64> = Vec::new();
    let mut i: usize = 0;
    while i < n
        invariant
            0 <= i <= n,
            n == s@.len(),
            out@ == somes(s@.subrange(0, i as int)),
        decreases n - i,
    {
        proof {
            assert(s@.subrange(0, i + 1).drop_last() =~= s@.subrange(0, i as int));
            assert(s@.subrange(0, i + 1).last() == s@[i as int]);
        }
        match s[i] {
            Some(v) => {
                out.push(v);
            },
            None => {},
        }
        i = i + 1;
    }
    proof {
        assert(s@.subrange(0, n as int) =~= s@);
    }
    out
}

/// Sums the values, saturating at the largest representable total.
fn sum_saturating(s: &Vec<u64>) -> (r: u64)
    ensures
        sum_u64(s@) <= u64::MAX ==> r == sum_u64(s@),
        sum_u64(s@) > u64::MAX ==> r == u64::MAX,
{
    let n = s.len();
    let mut acc: u64 = 0;
    let mut i: usize = 0;
    while i < n
        invariant
            0 <= i <= n,
            n == s@.len(),
            sum_u64(s@.subrange(0, i as int)) <= u64::MAX ==> acc == sum_u64(
                s@.subrange(0, i as int),
            ),
            sum_u64(s@.subrange(0, i as int)) > u64::MAX ==> acc == u64::MAX,
        decreases n - i,
    {
        proof {
            assert(s@.subrange(0, i + 1).drop_last() =~= s@.subrange(0, i as int));
            assert(s@.subrange(0, i + 1).last() == s@[i as int]);
        }
        let v = s[i];
        acc = if u64::MAX - acc < v {
            u64::MAX
        } else {
            acc + v
        };
        i = i + 1;
    }
    proof {
        assert(s@.subrange(0, n as int) =~= s@);
    }
    acc
}

/// Builds the fine-buffer sample of a device's latest cached reading:
/// whole-device readings written as zero when missing, the per-board
/// series holding only the boards that reported, and the average of the
/// reported board temperatures. Without a detailed reading there is
/// nothing to sample.
pub fn fine_point_of(m: &MinerInfo, now_ms: u64) -> (r: Option<MetricsPoint>)
    ensures
        r is Some <==> m.metrics is Some,
        r matches Some(p) ==> {
            &&& p.timestamp == now_ms
            &&& p.total_hashrate_centi == crate::recording::or_zero(
                m.metrics->0.hashrate_centi_ths,
            )
            &&& p.power_watts == crate::recording::or_zero(m.metrics->0.wattage_watts)
            &&& p.board_hashrate_centi@ == somes(m.metrics->0.board_hashrate_centi@)
            &&& p.board_temp_centi@ == somes(m.metrics->0.board_temp_centi@)
            &&& p.avg_temp_centi == mean_temp(somes(m.metrics->0.board_temp_centi@))
        },
{
    match &m.metrics {
        Some(mm) => {
            let total = match mm.hashrate_centi_ths {
                Some(v) => v,
                None => 0,
            };
            let power = match mm.wattage_watts {
                Some(v) => v,
                None => 0,
            };
            let board_hash = collect_somes(&mm.board_hashrate_centi);
            let board_temp = collect_somes(&mm.board_temp_centi);
            let avg = if board_temp.len() == 0 {
                0
            } else {
                let total_temp = sum_saturating(&board_temp);
                total_temp / (board_temp.len() as u64)
            };
            Some(
                MetricsPoint {
                    timestamp: now_ms,
                    total_hashrate_centi: total,
                    power_watts: power,
                    board_hashrate_centi: board_hash,
                    avg_temp_centi: avg,
                    board_temp_centi: board_temp,
                },
            )
        },
        None => None,
    }
}

/// Samples the fleet-wide hashrate into the fleet buffer — skipped
/// entirely while the registry is empty.
pub fn sample_fleet(
    buf: &mut BoundedLog<FleetPoint>,
    registry: &MinerRegistry,
    now_ms: u64,
) -> (sampled: bool)
    requires
        old(buf).wf(),
    ensures
        final(buf).wf(),
        final(buf).capacity == old(buf).capacity,
        sampled == (registry.miners@.len() > 0),
        sampled ==> final(buf).points@ == push_spec(
            old(buf).points@,
            old(buf).capacity as nat,
            FleetPoint {
                timestamp: now_ms,
                total_hashrate_centi: if sum_hashrate(registry.miners@) <= u64::MAX {
                    sum_hashrate(registry.miners@) as u64
                } else {
                    u64::MAX
                },
            },
        ),
        !sampled ==> *final(buf) == *old(buf),
{
    if registry.is_empty() {
        return false;
    }
    let total = registry.total_hashrate_centi();
    buf.push(FleetPoint { timestamp: now_ms, total_hashrate_centi: total });
    true
}

} // verus!
