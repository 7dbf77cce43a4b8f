//! Shared counters describing the scan pass in flight or just finished.

use vstd::prelude::*;

use crate::ip::{ip_rep, ip_to_string, IpAddress};

verus! {

/// Progress of one scan pass. All times are epoch seconds; elapsed time
/// is derived by readers from `scan_start_time`.
pub struct ScanProgress {
    pub scanning: bool,
    pub current_ip: String,
    pub total_ips: usize,
    pub scanned_ips: usize,
    pub found_miners: usize,
    pub scan_start_time: Option<u64>,
    pub total_ranges: usize,
    pub scanned_ranges: usize,
    pub scan_duration_secs: u64,
}

impl ScanProgress {
    /// Never claims more addresses scanned than the pass covers.
    pub open spec fn wf(self) -> bool {
        self.scanned_ips <= self.total_ips
    }

    pub fn new() -> (r: ScanProgress)
        ensures
            r.wf(),
            !r.scanning,
            r.current_ip@.len() == 0,
            r.total_ips == 0,
            r.scanned_ips == 0,
            r.found_miners == 0,
            r.scan_start_time is None,
            r.total_ranges == 0,
            r.scanned_ranges == 0,
            r.scan_duration_secs == 0,
    {
        ScanProgress {
            scanning: false,
            current_ip: String::new(),
            total_ips: 0,
            scanned_ips: 0,
            found_miners: 0,
            scan_start_time: None,
            total_ranges: 0,
            scanned_ranges: 0,
            scan_duration_secs: 0,
        }
    }

    /// Marks the start of a pass over `total_ranges` ranges covering
    /// `total_ips` addresses. The caller registers the scope before the
    /// pass runs, so readers never see stale totals against a running
    /// flag.
    pub fn begin_pass(&mut self, total_ips: usize, total_ranges: usize, now: u64)
        ensures
            final(self).wf(),
            final(self).scanning,
            final(self).current_ip@.len() == 0,
            final(self).total_ips == total_ips,
            final(self).scanned_ips == 0,
            final(self).found_miners == 0,
            final(self).scan_start_time == Some(now),
            final(self).total_ranges == total_ranges,
            final(self).scanned_ranges == 0,
            final(self).scan_duration_secs == 0,
    {
        self.scanning = true;
        self.current_ip = String::new();
        self.total_ips = total_ips;
        self.scanned_ips = 0;
        self.found_miners = 0;
        self.scan_start_time = Some(now);
        self.total_ranges = total_ranges;
        self.scanned_ranges = 0;
        self.scan_duration_secs = 0;
    }

    /// Notes one more address visited: the scanned count grows by one but
    /// never past the pass's total, and the address becomes the current
    /// one.
    pub fn note_device(&mut self, ip: &IpAddress)
        requires
            old(self).wf(),
        ensures
            final(self).wf(),
            final(self).scanned_ips == if old(self).scanned_ips < old(self).total_ips {
                old(self).scanned_ips + 1
            } else {
                old(self).scanned_ips as int
            },
            final(self).scanned_ips >= old(self).scanned_ips,
            final(self).current_ip@ == ip_rep(*ip),
            final(self).scanning == old(self).scanning,
            final(self).total_ips == old(self).total_ips,
            final(self).found_miners == old(self).found_miners,
            final(self).scan_start_time == old(self).scan_start_time,
            final(self).total_ranges == old(self).total_ranges,
            final(self).scanned_ranges == old(self).scanned_ranges,
            final(self).scan_duration_secs == old(self).scan_duration_secs,
    {
        self.current_ip = ip_to_string(ip);
        if self.scanned_ips < self.total_ips {
            self.scanned_ips = self.scanned_ips + 1;
        }
    }

    /// Publishes how many devices the pass has staged so far.
    pub fn set_found(&mut self, found: usize)
        requires
            old(self).wf(),
        ensures
            final(self).wf(),
            final(self).found_miners == found,
            final(self).scanning == old(self).scanning,
            final(self).current_ip == old(self).current_ip,
            final(self).total_ips == old(self).total_ips,
            final(self).scanned_ips == old(self).scanned_ips,
            final(self).scan_start_time == old(self).scan_start_time,
            final(self).total_ranges == old(self).total_ranges,
            final(self).scanned_ranges == old(self).scanned_ranges,
            final(self).scan_duration_secs == old(self).scan_duration_secs,
    {
        self.found_miners = found;
    }

    /// Notes one range finished (found devices or failed alike), never
    /// counting past the pass's range total.
    pub fn note_range_done(&mut self)
        requires
            old(self).wf(),
        ensures
            final(self).wf(),
            final(self).scanned_ranges == if old(self).scanned_ranges < old(self).total_ranges {
                old(self).scanned_ranges + 1
            } else {
                old(self).scanned_ranges as int
            },
            final(self).scanning == old(self).scanning,
            final(self).current_ip == old(self).current_ip,
            final(self).total_ips == old(self).total_ips,
            final(self).scanned_ips == old(self).scanned_ips,
            final(self).found_miners == old(self).found_miners,
            final(self).scan_start_time == old(self).scan_start_time,
            final(self).total_ranges == old(self).total_ranges,
            final(self).scan_duration_secs == old(self).scan_duration_secs,
    {
        if self.scanned_ranges < self.total_ranges {
            self.scanned_ranges = self.scanned_ranges + 1;
        }
    }

    /// Marks the pass over: the flag drops and the current address
    /// clears; the counters stay for readers of the finished pass.
    pub fn finish_pass(&mut self, duration_secs: u64)
        requires
            old(self).wf(),
        ensures
            final(self).wf(),
            !final(self).scanning,
            final(self).current_ip@.len() == 0,
            final(self).scan_duration_secs == duration_secs,
            final(self).total_ips == old(self).total_ips,
            final(self).scanned_ips == old(self).scanned_ips,
            final(self).found_miners == old(self).found_miners,
            final(self).scan_start_time == old(self).scan_start_time,
            final(self).total_ranges == old(self).total_ranges,
            final(self).scanned_ranges == old(self).scanned_ranges,
    {
        self.scanning = false;
        self.current_ip = String::new();
        self.scan_duration_secs = duration_secs;
    }
}

} // verus!
