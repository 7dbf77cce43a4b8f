//! Bounded history buffers: capacity-bounded FIFOs of time-stamped
//! points, kept per device for the coarse and fine plots and fleet-wide
//! for the aggregate plot. A buffer keeps its points in append order;
//! callers stamp each point with the wall clock at append time, so the
//! order is timestamp order exactly as far as that clock is monotonic —
//! a property of the environment, not provable here.

use vstd::prelude::*;

use crate::ip::IpAddress;
use crate::store::AddrStore;

verus! {

/// Points kept in a coarse per-device buffer: one per scan-pass
/// discovery, covering a long horizon.
pub const MAX_HISTORY_POINTS: usize = 288;

/// Points kept in a fine per-device or fleet buffer: sampled at the
/// visualization cadence, covering a short horizon.
pub const FINE_HISTORY_POINTS: usize = 9000;

/// A coarse history point. The timestamp is epoch seconds.
#[derive(Clone, Copy, PartialEq, Eq, Structural, Debug)]
pub struct HashratePoint {
    pub timestamp: u64,
    pub hashrate_centi_ths: u64,
}

/// A fine history point: everything one smooth-plot sample needs.
/// The timestamp is epoch milliseconds.
#[derive(Clone, Debug)]
pub struct MetricsPoint {
    pub timestamp: u64,
    pub total_hashrate_centi: u64,
    pub power_watts: u64,
    pub board_hashrate_centi: Vec<u64>,
    pub avg_temp_centi: u64,
    pub board_temp_centi: Vec<u64>,
}

/// A fleet-wide history point. The timestamp is epoch milliseconds.
#[derive(Clone, Copy, PartialEq, Eq, Structural, Debug)]
pub struct FleetPoint {
    pub timestamp: u64,
    pub total_hashrate_centi: u64,
}

/// What one append does to a buffer's contents: the point goes on the
/// back, and at capacity the front point falls off.
pub open spec fn push_spec<T>(s: Seq<T>, cap: nat, t: T) -> Seq<T> {
    if s.len() < cap {
        s.push(t)
    } else {
        s.subrange(1, s.len() as int).push(t)
    }
}

/// The contents after appending each of `xs` in order to an empty
/// buffer of capacity `cap`.
pub open spec fn fill_spec<T>(cap: nat, xs: Seq<T>) -> Seq<T>
    decreases xs.len(),
{
    if xs.len() == 0 {
        Seq::empty()
    } else {
        push_spec(fill_spec(cap, xs.drop_last()), cap, xs.last())
    }
}

/// A capacity-bounded FIFO of points.
pub struct BoundedLog<T> {
    pub capacity: usize,
    pub points: Vec<T>,
}

impl<T> BoundedLog<T> {
    pub open spec fn wf(self) -> bool {
        1 <= self.capacity && self.points@.len() <= self.capacity
    }

    pub fn new(capacity: usize) -> (r: BoundedLog<T>)
        requires
            capacity >= 1,
        ensures
            r.wf(),
            r.capacity == capacity,
            r.points@ == Seq::<T>::empty(),
    {
        BoundedLog { capacity, points: Vec::new() }
    }

    pub fn len(&self) -> (r: usize)
        ensures
            r == self.points@.len(),
    {
        self.points.len()
    }

    /// Appends a point, evicting the oldest when at capacity.
    pub fn push(&mut self, t: T)
        requires
            old(self).wf(),
        ensures
            final(self).wf(),
            final(self).capacity == old(self).capacity,
            final(self).points@ == push_spec(old(self).points@, old(self).capacity as nat, t),
    {
        if self.points.len() == self.capacity {
            self.points.remove(0);
            proof {
                assert(self.points@ =~= old(self).points@.subrange(
                    1,
                    old(self).points@.len() as int,
                ));
            }
        }
        self.points.push(t);
    }
}

/// Filling an empty buffer with `n` points retains exactly the last
/// `min(n, capacity)` of them: the size never passes the capacity, and
/// once it would, the oldest retained point after `n` appends is the
/// `(n - capacity + 1)`-th appended.
pub proof fn lemma_fill_window<T>(cap: nat, xs: Seq<T>)
    requires
        cap >= 1,
    ensures
        xs.len() <= cap ==> fill_spec(cap, xs) == xs,
        xs.len() > cap ==> fill_spec(cap, xs) == xs.subrange(
            xs.len() - cap,
            xs.len() as int,
        ),
    decreases xs.len(),
{
    if xs.len() == 0 {
        assert(fill_spec(cap, xs) =~= xs);
    } else {
        let prefix = xs.drop_last();
        lemma_fill_window(cap, prefix);
        if xs.len() <= cap {
            assert(fill_spec(cap, xs) =~= xs);
        } else if xs.len() == cap + 1 {
            assert(fill_spec(cap, prefix) == prefix);
            assert(fill_spec(cap, xs) =~= xs.subrange(xs.len() - cap, xs.len() as int));
        } else {
            assert(fill_spec(cap, prefix) == prefix.subrange(
                prefix.len() - cap,
                prefix.len() as int,
            ));
            assert(fill_spec(cap, xs) =~= xs.subrange(xs.len() - cap, xs.len() as int));
        }
    }
}

/// A family of bounded buffers keyed by device address, all of one
/// capacity.
pub struct KeyedHistory<T> {
    pub capacity: usize,
    pub buffers: AddrStore<BoundedLog<T>>,
}

impl<T> KeyedHistory<T> {
    pub open spec fn wf(self) -> bool {
        &&& self.capacity >= 1
        &&& self.buffers.wf()
        &&& forall|k: IpAddress|
            self.buffers.to_map().contains_key(k) ==> (#[trigger] self.buffers.to_map()[k]).wf()
                && self.buffers.to_map()[k].capacity == self.capacity
    }

    /// The device's points, empty when none were recorded yet.
    pub open spec fn points_of(self, ip: IpAddress) -> Seq<T> {
        if self.buffers.to_map().contains_key(ip) {
            self.buffers.to_map()[ip].points@
        } else {
            Seq::empty()
        }
    }

    pub fn new(capacity: usize) -> (r: KeyedHistory<T>)
        requires
            capacity >= 1,
        ensures
            r.wf(),
            r.capacity == capacity,
            forall|k: IpAddress| r.points_of(k) == Seq::<T>::empty(),
    {
        KeyedHistory { capacity, buffers: AddrStore::new() }
    }

    /// Appends a point to the device's buffer, creating the buffer on
    /// first use and evicting its oldest point at capacity.
    pub fn append(&mut self, ip: IpAddress, t: T)
        requires
            old(self).wf(),
        ensures
            final(self).wf(),
            final(self).capacity == old(self).capacity,
            final(self).points_of(ip) == push_spec(
                old(self).points_of(ip),
                old(self).capacity as nat,
                t,
            ),
            forall|k: IpAddress| k != ip ==> final(self).points_of(k) == old(self).points_of(k),
    {
        let mut log = match self.buffers.take(&ip) {
            Some(l) => l,
            None => BoundedLog::new(self.capacity),
        };
        log.push(t);
        self.buffers.upsert(ip, log);
    }
}

} // verus!
