//! The authoritative list of known devices: at most one entry per
//! address, replaced wholesale by a finished scan pass and refreshed in
//! place one device at a time.

use vstd::prelude::*;

use crate::fmt::{dec_rep, fixed1_rep, fixed2_rep, fixed1_to_string, fixed2_to_string, u64_to_string};
use crate::ip::{ip_rep, ip_to_string, IpAddress};
use crate::models::{na_rep, MinerInfo, MinerMetrics};

verus! {

/// No address appears twice among the entries.
pub open spec fn unique_ips(s: Seq<MinerInfo>) -> bool {
    forall|i: int, j: int| 0 <= i < j < s.len() ==> (#[trigger] s[i]).ip != (#[trigger] s[j]).ip
}

/// First index at or after `i` holding the address, or the length if
/// there is none.
pub open spec fn find_ip(s: Seq<MinerInfo>, ip: IpAddress, i: int) -> int
    decreases s.len() - i,
{
    if i < 0 {
        find_ip(s, ip, 0)
    } else if i >= s.len() {
        s.len() as int
    } else if s[i].ip == ip {
        i
    } else {
        find_ip(s, ip, i + 1)
    }
}

pub proof fn lemma_find_ip_bounds(s: Seq<MinerInfo>, ip: IpAddress, i: int)
    requires
        0 <= i <= s.len(),
    ensures
        i <= find_ip(s, ip, i) <= s.len(),
        find_ip(s, ip, i) < s.len() ==> s[find_ip(s, ip, i)].ip == ip,
        forall|j: int| i <= j < find_ip(s, ip, i) ==> (#[trigger] s[j]).ip != ip,
    decreases s.len() - i,
{
    if i < s.len() && s[i].ip != ip {
        lemma_find_ip_bounds(s, ip, i + 1);
    }
}

/// The hashrate a registry entry contributes to the fleet total, in
/// hundredths of a TH/s; an entry without a reading contributes nothing.
pub open spec fn entry_hashrate(m: MinerInfo) -> nat {
    match m.metrics {
        Some(mm) => match mm.hashrate_centi_ths {
            Some(h) => h as nat,
            None => 0,
        },
        None => 0,
    }
}

/// The fleet-wide hashrate: the sum of every entry's contribution.
pub open spec fn sum_hashrate(s: Seq<MinerInfo>) -> nat
    decreases s.len(),
{
    if s.len() == 0 {
        0
    } else {
        sum_hashrate(s.drop_last()) + entry_hashrate(s.last())
    }
}

pub struct MinerRegistry {
    pub miners: Vec<MinerInfo>,
}

impl MinerRegistry {
    pub open spec fn wf(self) -> bool {
        unique_ips(self.miners@)
    }

    pub fn new() -> (r: MinerRegistry)
        ensures
            r.wf(),
            r.miners@.len() == 0,
    {
        MinerRegistry { miners: Vec::new() }
    }

    pub fn len(&self) -> (r: usize)
        ensures
            r == self.miners@.len(),
    {
        self.miners.len()
    }

    pub fn is_empty(&self) -> (r: bool)
        ensures
            r == (self.miners@.len() == 0),
    {
        self.miners.len() == 0
    }

    pub fn get(&self, i: usize) -> (r: &MinerInfo)
        requires
            i < self.miners@.len(),
        ensures
            *r == self.miners@[i as int],
    {
        &self.miners[i]
    }

    /// Index of the entry for an address, if the device is known.
    pub fn find(&self, ip: &IpAddress) -> (r: Option<usize>)
        ensures
            match r {
                Some(i) => i < self.miners@.len() && self.miners@[i as int].ip == *ip && find_ip(
                    self.miners@,
                    *ip,
                    0,
                ) == i,
                None => find_ip(self.miners@, *ip, 0) == self.miners@.len() && forall|j: int|
                    0 <= j < self.miners@.len() ==> (#[trigger] self.miners@[j]).ip != *ip,
            },
    {
        proof {
            lemma_find_ip_bounds(self.miners@, *ip, 0);
        }
        let n = self.miners.len();
        let mut i: usize = 0;
        while i < n
            invariant
                0 <= i <= n,
                n == self.miners@.len(),
                find_ip(self.miners@, *ip, 0) == find_ip(self.miners@, *ip, i as int),
            decreases n - i,
        {
            if self.miners[i].ip == *ip {
                return Some(i);
            }
            proof {
                assert(find_ip(self.miners@, *ip, i as int) == find_ip(self.miners@, *ip, i + 1));
            }
            i = i + 1;
        }
        None
    }

    /// Replaces the whole contents with a finished pass's devices: the
    /// swap, never a merge, so readers see only complete passes.
    pub fn replace_all(&mut self, miners: Vec<MinerInfo>)
        requires
            unique_ips(miners@),
        ensures
            final(self).wf(),
            final(self).miners@ == miners@,
    {
        self.miners = miners;
    }

    /// Refreshes the entry for one address with a new reading. On an
    /// address the registry does not hold this is a no-op: a refresh
    /// cannot insert devices, only a scan pass can.
    pub fn update_one(&mut self, ip: IpAddress, info: MinerInfo) -> (updated: bool)
        requires
            old(self).wf(),
            info.ip == ip,
        ensures
            final(self).wf(),
            updated == (find_ip(old(self).miners@, ip, 0) < old(self).miners@.len()),
            updated ==> final(self).miners@ == old(self).miners@.update(
                find_ip(old(self).miners@, ip, 0),
                info,
            ),
            !updated ==> final(self).miners@ == old(self).miners@,
            final(self).miners@.len() == old(self).miners@.len(),
    {
        proof {
            lemma_find_ip_bounds(self.miners@, ip, 0);
        }
        match self.find(&ip) {
            Some(i) => {
                self.miners[i] = info;
                proof {
                    let s = old(self).miners@;
                    let s2 = self.miners@;
                    assert forall|p: int, q: int| 0 <= p < q < s2.len() implies (
                    #[trigger] s2[p]).ip != (#[trigger] s2[q]).ip by {
                        assert(s2[p].ip == s[p].ip && s2[q].ip == s[q].ip);
                    }
                }
                true
            },
            None => false,
        }
    }

    /// The fleet-wide hashrate in hundredths of a TH/s, saturating at
    /// the largest representable value.
    pub fn total_hashrate_centi(&self) -> (r: u64)
        ensures
            sum_hashrate(self.miners@) <= u64::MAX ==> r == sum_hashrate(self.miners@),
            sum_hashrate(self.miners@) > u64::MAX ==> r == u64::MAX,
    {
        let n = self.miners.len();
        let mut acc: u64 = 0;
        let mut i: usize = 0;
        while i < n
            invariant
                0 <= i <= n,
                n == self.miners@.len(),
                sum_hashrate(self.miners@.subrange(0, i as int)) <= u64::MAX ==> acc
                    == sum_hashrate(self.miners@.subrange(0, i as int)),
                sum_hashrate(self.miners@.subrange(0, i as int)) > u64::MAX ==> acc == u64::MAX,
            decreases n - i,
        {
            let h: u64 = match &self.miners[i].metrics {
                Some(mm) => match mm.hashrate_centi_ths {
                    Some(v) => v,
                    None => 0,
                },
                None => 0,
            };
            proof {
                assert(self.miners@.subrange(0, i + 1).drop_last() =~= self.miners@.subrange(
                    0,
                    i as int,
                ));
                assert(self.miners@.subrange(0, i + 1).last() == self.miners@[i as int]);
                assert(h == entry_hashrate(self.miners@[i as int]));
            }
            acc = if u64::MAX - acc < h {
                u64::MAX
            } else {
                acc + h
            };
            i = i + 1;
        }
        proof {
            assert(self.miners@.subrange(0, n as int) =~= self.miners@);
        }
        acc
    }
}

} // verus!
