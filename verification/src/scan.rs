//! One scan pass over a list of ranges. Discoveries are staged into a
//! pass-local map — never the live registry — and the registry is
//! swapped wholesale when the pass finishes, so readers see either the
//! previous complete pass or the next, never a half-filled one.

use vstd::prelude::*;

use crate::history::{push_spec, HashratePoint, KeyedHistory};
use crate::ip::{ip_rep, is_range_literal, range_of, IpAddress, IpRange};
use crate::models::{MinerInfo, SavedRange};
use crate::progress::ScanProgress;
use crate::registry::{unique_ips, MinerRegistry};
use crate::store::{lemma_map_of_contains, lemma_map_of_value, values_of, AddrStore};

verus! {

/// How many addresses a range covers, or 0 for an inverted one.
pub open spec fn range_count_or_zero(r: IpRange) -> nat {
    if r.start <= r.end {
        (r.end - r.start + 1) as nat
    } else {
        0
    }
}

/// The total address count of a list of ranges.
pub open spec fn sum_counts(s: Seq<IpRange>) -> nat
    decreases s.len(),
{
    if s.len() == 0 {
        0
    } else {
        sum_counts(s.drop_last()) + range_count_or_zero(s.last())
    }
}

/// The ranges denoted by the well-formed encodings in a saved list,
/// in order; entries whose encoding does not read back are passed over.
pub open spec fn parsed_ranges(s: Seq<SavedRange>) -> Seq<IpRange>
    decreases s.len(),
{
    if s.len() == 0 {
        Seq::empty()
    } else if is_range_literal(s.last().range@) {
        parsed_ranges(s.drop_last()).push(range_of(s.last().range@))
    } else {
        parsed_ranges(s.drop_last())
    }
}

/// Reads every saved range's encoding back; one that does not parse is
/// passed over rather than failing the pass.
pub fn ranges_of_saved(saved: &Vec<SavedRange>) -> (r: Vec<IpRange>)
    ensures
        r@ == parsed_ranges(saved@),
{
    let n = saved.len();
    let mut out: Vec<IpRange> = Vec::new();
    let mut i: usize = 0;
    while i < n
        invariant
            0 <= i <= n,
            n == saved@.len(),
            out@ == parsed_ranges(saved@.subrange(0, i as int)),
        decreases n - i,
    {
        proof {
            assert(saved@.subrange(0, i + 1).drop_last() =~= saved@.subrange(0, i as int));
            assert(saved@.subrange(0, i + 1).last() == saved@[i as int]);
        }
        match crate::ip::parse_range_encoding(saved[i].range.as_str()) {
            Some(rg) => {
                out.push(rg);
            },
            None => {},
        }
        i = i + 1;
    }
    proof {
        assert(saved@.subrange(0, n as int) =~= saved@);
    }
    out
}

/// Adds up the address counts of the ranges, saturating at the largest
/// representable total.
pub fn total_ips_of_ranges(ranges: &Vec<IpRange>) -> (r: usize)
    ensures
        sum_counts(ranges@) <= usize::MAX ==> r == sum_counts(ranges@),
        sum_counts(ranges@) > usize::MAX ==> r == usize::MAX,
{
    let n = ranges.len();
    let mut acc: usize = 0;
    let mut i: usize = 0;
    while i < n
        invariant
            0 <= i <= n,
            n == ranges@.len(),
            sum_counts(ranges@.subrange(0, i as int)) <= usize::MAX ==> acc == sum_counts(
                ranges@.subrange(0, i as int),
            ),
            sum_counts(ranges@.subrange(0, i as int)) > usize::MAX ==> acc == usize::MAX,
        decreases n - i,
    {
        let rg = &ranges[i];
        let c: usize = if rg.start <= rg.end {
            (rg.end as usize) - (rg.start as usize) + 1
        } else {
            0
        };
        proof {
            assert(ranges@.subrange(0, i + 1).drop_last() =~= ranges@.subrange(0, i as int));
            assert(ranges@.subrange(0, i + 1).last() == ranges@[i as int]);
            assert(c == range_count_or_zero(ranges@[i as int]));
        }
        acc = if usize::MAX - acc < c {
            usize::MAX
        } else {
            acc + c
        };
        i = i + 1;
    }
    proof {
        assert(ranges@.subrange(0, n as int) =~= ranges@);
    }
    acc
}

/// The pass-local staging area: the devices found so far, one per
/// address, the later discovery winning.
pub struct ScanPass {
    pub staged: AddrStore<MinerInfo>,
}

impl ScanPass {
    pub open spec fn wf(self) -> bool {
        &&& self.staged.wf()
        &&& forall|i: int|
            0 <= i < self.staged.entries@.len() ==> (#[trigger] self.staged.entries@[i]).1.ip
                == self.staged.entries@[i].0
    }

    /// The staged devices as a map from address to reading.
    pub open spec fn staged_map(self) -> Map<IpAddress, MinerInfo> {
        self.staged.to_map()
    }
}

/// Starts a pass: registers its scope — the range count and the summed
/// address count — with the tracker and raises the running flag, then
/// hands back an empty staging area.
pub fn begin_scan(ranges: &Vec<IpRange>, now: u64, progress: &mut ScanProgress) -> (pass: ScanPass)
    ensures
        pass.wf(),
        pass.staged_map() == Map::<IpAddress, MinerInfo>::empty(),
        pass.staged.entries@.len() == 0,
        final(progress).wf(),
        final(progress).scanning,
        final(progress).scanned_ips == 0,
        sum_counts(ranges@) <= usize::MAX ==> final(progress).total_ips == sum_counts(ranges@),
        sum_counts(ranges@) > usize::MAX ==> final(progress).total_ips == usize::MAX,
        final(progress).total_ranges == ranges@.len(),
        final(progress).scan_start_time == Some(now),
        final(progress).found_miners == 0,
{
    let total = total_ips_of_ranges(ranges);
    progress.begin_pass(total, ranges.len(), now);
    ScanPass { staged: AddrStore::new() }
}

/// Records one discovered device: the tracker notes the address and one
/// more scanned step, the device's hashrate (when it reported one) goes
/// on its coarse history, and the reading is staged over any earlier
/// reading for the same address — the later discovery wins.
pub fn record_device(
    pass: &mut ScanPass,
    info: MinerInfo,
    now: u64,
    progress: &mut ScanProgress,
    coarse: &mut KeyedHistory<HashratePoint>,
) -> (staged_count: usize)
    requires
        old(pass).wf(),
        old(progress).wf(),
        old(coarse).wf(),
    ensures
        final(pass).wf(),
        final(pass).staged_map() == old(pass).staged_map().insert(info.ip, info),
        staged_count == final(pass).staged.entries@.len(),
        final(progress).wf(),
        final(progress).scanning == old(progress).scanning,
        final(progress).current_ip@ == ip_rep(info.ip),
        final(progress).scanned_ips == if old(progress).scanned_ips < old(progress).total_ips {
            old(progress).scanned_ips + 1
        } else {
            old(progress).scanned_ips as int
        },
        final(progress).found_miners == staged_count,
        final(progress).total_ips == old(progress).total_ips,
        final(progress).total_ranges == old(progress).total_ranges,
        final(progress).scan_start_time == old(progress).scan_start_time,
        final(coarse).wf(),
        final(coarse).capacity == old(coarse).capacity,
        match info.metrics {
            Some(mm) => match mm.hashrate_centi_ths {
                Some(h) => final(coarse).points_of(info.ip) == push_spec(
                    old(coarse).points_of(info.ip),
                    old(coarse).capacity as nat,
                    HashratePoint { timestamp: now, hashrate_centi_ths: h },
                ) && forall|k: IpAddress|
                    k != info.ip ==> final(coarse).points_of(k) == old(coarse).points_of(k),
                None => *final(coarse) == *old(coarse),
            },
            None => *final(coarse) == *old(coarse),
        },
{
    progress.note_device(&info.ip);
    let hashrate: Option<u64> = match &info.metrics {
        Some(mm) => mm.hashrate_centi_ths,
        None => None,
    };
    match hashrate {
        Some(h) => {
            coarse.append(info.ip, HashratePoint { timestamp: now, hashrate_centi_ths: h });
        },
        None => {},
    }
    let ghost old_entries = pass.staged.entries@;
    let ip = info.ip;
    pass.staged.upsert(ip, info);
    proof {
        assert forall|i: int|
            0 <= i < pass.staged.entries@.len() implies (#[trigger] pass.staged.entries@[i]).1.ip
            == pass.staged.entries@[i].0 by {
            if old(pass).staged_map().contains_key(ip) {
                let fi = crate::store::find_key(old_entries, ip, 0);
                lemma_map_of_contains(old_entries, ip);
                crate::store::lemma_find_key_bounds(old_entries, ip, 0);
                assert(0 <= fi < old_entries.len());
                if i != fi {
                    assert(pass.staged.entries@[i] == old_entries[i]);
                }
            } else {
                if i < old_entries.len() {
                    assert(pass.staged.entries@[i] == old_entries[i]);
                }
            }
        }
    }
    let count = pass.staged.len();
    progress.set_found(count);
    count
}

/// A range whose enumeration failed is passed over: the pass itself —
/// the devices staged from other ranges — is untouched, and only the
/// tracker's range counter moves on, so devices in later ranges are
/// discovered and registered as if no range had failed.
pub fn record_range_failed(pass: &mut ScanPass, progress: &mut ScanProgress)
    requires
        old(progress).wf(),
    ensures
        *final(pass) == *old(pass),
        final(progress).wf(),
        final(progress).scanning == old(progress).scanning,
        final(progress).current_ip == old(progress).current_ip,
        final(progress).total_ips == old(progress).total_ips,
        final(progress).scanned_ips == old(progress).scanned_ips,
        final(progress).found_miners == old(progress).found_miners,
        final(progress).scan_start_time == old(progress).scan_start_time,
        final(progress).total_ranges == old(progress).total_ranges,
        final(progress).scanned_ranges == if old(progress).scanned_ranges < old(
            progress,
        ).total_ranges {
            old(progress).scanned_ranges + 1
        } else {
            old(progress).scanned_ranges as int
        },
{
    progress.note_range_done();
}

/// Notes a range enumerated to the end, moving the tracker's range
/// counter on.
pub fn record_range_done(pass: &mut ScanPass, progress: &mut ScanProgress)
    requires
        old(progress).wf(),
    ensures
        *final(pass) == *old(pass),
        final(progress).wf(),
        final(progress).scanning == old(progress).scanning,
        final(progress).current_ip == old(progress).current_ip,
        final(progress).total_ips == old(progress).total_ips,
        final(progress).scanned_ips == old(progress).scanned_ips,
        final(progress).found_miners == old(progress).found_miners,
        final(progress).scan_start_time == old(progress).scan_start_time,
        final(progress).total_ranges == old(progress).total_ranges,
        final(progress).scanned_ranges == if old(progress).scanned_ranges < old(
            progress,
        ).total_ranges {
            old(progress).scanned_ranges + 1
        } else {
            old(progress).scanned_ranges as int
        },
{
    progress.note_range_done();
}

/// Ends the pass: the staged devices replace the registry's contents
/// wholesale — an address absent from this pass is dropped, the latest
/// pass being the ground truth — and the running flag falls. However the
/// pass went, no more addresses are counted scanned than the pass
/// registered at its start.
pub fn finish_scan(
    pass: ScanPass,
    duration_secs: u64,
    registry: &mut MinerRegistry,
    progress: &mut ScanProgress,
)
    requires
        pass.wf(),
        old(progress).wf(),
    ensures
        final(registry).wf(),
        final(registry).miners@ == values_of(pass.staged.entries@),
        final(registry).miners@.len() == pass.staged.entries@.len(),
        forall|k: IpAddress|
            #[trigger] pass.staged_map().contains_key(k) ==> exists|i: int|
                0 <= i < final(registry).miners@.len()
                && (#[trigger] final(registry).miners@[i]).ip == k
                && final(registry).miners@[i] == pass.staged_map()[k],
        final(progress).wf(),
        !final(progress).scanning,
        final(progress).current_ip@.len() == 0,
        final(progress).scanned_ips == old(progress).scanned_ips,
        final(progress).scanned_ips <= final(progress).total_ips,
        final(progress).total_ips == old(progress).total_ips,
        final(progress).found_miners == old(progress).found_miners,
        final(progress).scan_duration_secs == duration_secs,
{
    let ghost entries = pass.staged.entries@;
    let miners = pass.staged.into_values();
    proof {
        assert(unique_ips(miners@)) by {
            assert forall|i: int, j: int| 0 <= i < j < miners@.len() implies (
            #[trigger] miners@[i]).ip != (#[trigger] miners@[j]).ip by {
                assert(miners@[i] == entries[i].1 && miners@[j] == entries[j].1);
                assert(entries[i].1.ip == entries[i].0 && entries[j].1.ip == entries[j].0);
                assert(entries[i].0 != entries[j].0);
            }
        }
    }
    registry.replace_all(miners);
    proof {
        assert forall|k: IpAddress| #[trigger] pass.staged_map().contains_key(k) implies (exists|
            i: int
        |
            0 <= i < registry.miners@.len() && (#[trigger] registry.miners@[i]).ip == k
                && registry.miners@[i] == pass.staged_map()[k]) by {
            lemma_map_of_contains(entries, k);
            let j = choose|j: int| 0 <= j < entries.len() && (#[trigger] entries[j]).0 == k;
            lemma_map_of_value(entries, j);
            assert(registry.miners@[j] == entries[j].1);
            assert(registry.miners@[j].ip == k);
        }
    }
    progress.finish_pass(duration_secs);
}

/// Two discoveries of one address within a pass stage a single entry:
/// the staging map after both holds the later reading alone, whatever
/// was staged before.
pub proof fn lemma_stage_dedup(
    m: Map<IpAddress, MinerInfo>,
    first: MinerInfo,
    second: MinerInfo,
)
    requires
        first.ip == second.ip,
    ensures
        m.insert(first.ip, first).insert(second.ip, second) == m.insert(second.ip, second),
{
    assert(m.insert(first.ip, first).insert(second.ip, second) =~= m.insert(second.ip, second));
}

} // verus!
