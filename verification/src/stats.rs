//! The fleet overview numbers: totals and averages over the devices
//! whose latest reading carries the metric, each sum saturating at the
//! largest representable value.

use vstd::prelude::*;

use crate::models::{MinerInfo, MinerMetrics};
use crate::registry::MinerRegistry;

verus! {

/// A metric read out of an entry, absent when the entry has no reading
/// or the reading lacks it.
pub open spec fn metric_of(m: MinerInfo, f: spec_fn(MinerMetrics) -> Option<u64>) -> Option<u64> {
    match m.metrics {
        Some(mm) => f(mm),
        None => None,
    }
}

/// The sum of a metric over the entries that carry it.
pub open spec fn sum_metric(s: Seq<MinerInfo>, f: spec_fn(MinerMetrics) -> Option<u64>) -> nat
    decreases s.len(),
{
    if s.len() == 0 {
        0
    } else {
        sum_metric(s.drop_last(), f) + (match metric_of(s.last(), f) {
            Some(v) => v as nat,
            None => 0,
        })
    }
}

/// How many entries carry a metric.
pub open spec fn count_metric(s: Seq<MinerInfo>, f: spec_fn(MinerMetrics) -> Option<u64>) -> nat
    decreases s.len(),
{
    if s.len() == 0 {
        0
    } else {
        count_metric(s.drop_last(), f) + (if metric_of(s.last(), f) is Some {
            1nat
        } else {
            0nat
        })
    }
}

/// A sum clipped to what a counter can hold.
pub open spec fn clip(n: nat) -> nat {
    if n <= u64::MAX {
        n
    } else {
        u64::MAX as nat
    }
}

/// The average of a metric over the entries that carry it, the clipped
/// sum divided by their number; zero with none.
pub open spec fn avg_metric(s: Seq<MinerInfo>, f: spec_fn(MinerMetrics) -> Option<u64>) -> nat {
    if count_metric(s, f) == 0 {
        0
    } else {
        clip(sum_metric(s, f)) / count_metric(s, f)
    }
}

pub open spec fn hashrate_metric() -> spec_fn(MinerMetrics) -> Option<u64> {
    |mm: MinerMetrics| mm.hashrate_centi_ths
}

pub open spec fn wattage_metric() -> spec_fn(MinerMetrics) -> Option<u64> {
    |mm: MinerMetrics| mm.wattage_watts
}

pub open spec fn temp_metric() -> spec_fn(MinerMetrics) -> Option<u64> {
    |mm: MinerMetrics| mm.avg_temp_centi
}

pub open spec fn efficiency_metric() -> spec_fn(MinerMetrics) -> Option<u64> {
    |mm: MinerMetrics| mm.efficiency_centi
}

/// The fleet overview: device count, hashrate and power totals, and the
/// averages shown beside them.
pub struct FleetStats {
    pub miner_count: usize,
    pub total_hashrate_centi: u64,
    pub avg_hashrate_centi: u64,
    pub total_wattage_watts: u64,
    pub avg_temp_centi: u64,
    pub avg_efficiency_centi: u64,
}

impl FleetStats {
    pub open spec fn matches(self, s: Seq<MinerInfo>) -> bool {
        &&& self.miner_count == s.len()
        &&& self.total_hashrate_centi == clip(sum_metric(s, hashrate_metric()))
        &&& self.avg_hashrate_centi == avg_metric(s, hashrate_metric())
        &&& self.total_wattage_watts == clip(sum_metric(s, wattage_metric()))
        &&& self.avg_temp_centi == avg_metric(s, temp_metric())
        &&& self.avg_efficiency_centi == avg_metric(s, efficiency_metric())
    }
}

fn add_metric(acc: u64, v: &Option<u64>, count: usize) -> (r: (u64, usize))
    ensures
        r.0 == (if acc + (match *v {
            Some(x) => x as nat,
            None => 0nat,
        }) <= u64::MAX {
            acc + (match *v {
                Some(x) => x as int,
                None => 0,
            })
        } else {
            u64::MAX as int
        }),
        r.1 == (if *v is Some && count < usize::MAX {
            count + 1
        } else {
            count as int
        }),
{
    match v {
        Some(x) => {
            let total = if u64::MAX - acc < *x {
                u64::MAX
            } else {
                acc + *x
            };
            let c = if count < usize::MAX {
                count + 1
            } else {
                count
            };
            (total, c)
        },
        None => (acc, count),
    }
}

/// Computes the fleet overview in one walk over the registry.
pub fn fleet_stats(registry: &MinerRegistry) -> (r: FleetStats)
    requires
        registry.miners@.len() < usize::MAX,
    ensures
        r.matches(registry.miners@),
{
    let n = registry.len();
    let mut hr_sum: u64 = 0;
    let mut hr_count: usize = 0;
    let mut watt_sum: u64 = 0;
    let mut temp_sum: u64 = 0;
    let mut temp_count: usize = 0;
    let mut eff_sum: u64 = 0;
    let mut eff_count: usize = 0;
    let mut i: usize = 0;
    while i < n
        invariant
            0 <= i <= n,
            n == registry.miners@.len(),
            n < usize::MAX,
            hr_sum == clip(sum_metric(registry.miners@.subrange(0, i as int), hashrate_metric())),
            hr_count == count_metric(registry.miners@.subrange(0, i as int), hashrate_metric()),
            watt_sum == clip(sum_metric(registry.miners@.subrange(0, i as int), wattage_metric())),
            temp_sum == clip(sum_metric(registry.miners@.subrange(0, i as int), temp_metric())),
            temp_count == count_metric(registry.miners@.subrange(0, i as int), temp_metric()),
            eff_sum == clip(
                sum_metric(registry.miners@.subrange(0, i as int), efficiency_metric()),
            ),
            eff_count == count_metric(registry.miners@.subrange(0, i as int), efficiency_metric()),
        decreases n - i,
    {
        proof {
            assert(registry.miners@.subrange(0, i + 1).drop_last() =~= registry.miners@.subrange(
                0,
                i as int,
            ));
            assert(registry.miners@.subrange(0, i + 1).last() == registry.miners@[i as int]);
            assert(count_metric(registry.miners@.subrange(0, i as int), hashrate_metric()) <= i)
                by {
                lemma_count_le_len(registry.miners@.subrange(0, i as int), hashrate_metric());
            }
            assert(count_metric(registry.miners@.subrange(0, i as int), temp_metric()) <= i) by {
                lemma_count_le_len(registry.miners@.subrange(0, i as int), temp_metric());
            }
            assert(count_metric(registry.miners@.subrange(0, i as int), efficiency_metric()) <= i)
                by {
                lemma_count_le_len(registry.miners@.subrange(0, i as int), efficiency_metric());
            }
        }
        let entry = registry.get(i);
        let (hashrate, wattage, temp, eff): (Option<u64>, Option<u64>, Option<u64>, Option<u64>) =
            match &entry.metrics {
            Some(mm) => (mm.hashrate_centi_ths, mm.wattage_watts, mm.avg_temp_centi, mm.efficiency_centi),
            None => (None, None, None, None),
        };
        let (s, c) = add_metric(hr_sum, &hashrate, hr_count);
        hr_sum = s;
        hr_count = c;
        let (s, _) = add_metric(watt_sum, &wattage, 0);
        watt_sum = s;
        let (s, c) = add_metric(temp_sum, &temp, temp_count);
        temp_sum = s;
        temp_count = c;
        let (s, c) = add_metric(eff_sum, &eff, eff_count);
        eff_sum = s;
        eff_count = c;
        i = i + 1;
    }
    proof {
        assert(registry.miners@.subrange(0, n as int) =~= registry.miners@);
    }
    FleetStats {
        miner_count: n,
        total_hashrate_centi: hr_sum,
        avg_hashrate_centi: if hr_count == 0 {
            0
        } else {
            hr_sum / (hr_count as u64)
        },
        total_wattage_watts: watt_sum,
        avg_temp_centi: if temp_count == 0 {
            0
        } else {
            temp_sum / (temp_count as u64)
        },
        avg_efficiency_centi: if eff_count == 0 {
            0
        } else {
            eff_sum / (eff_count as u64)
        },
    }
}

proof fn lemma_count_le_len(s: Seq<MinerInfo>, f: spec_fn(MinerMetrics) -> Option<u64>)
    ensures
        count_metric(s, f) <= s.len(),
    decreases s.len(),
{
    if s.len() > 0 {
        lemma_count_le_len(s.drop_last(), f);
    }
}

} // verus!
