//! Operator scan-control state: the range entry fields, the saved-range
//! list, and the automatic-scan trigger.

use vstd::prelude::*;

use crate::ip::{
    ip_of, ip_rep, ip_to_string, is_ip_literal, is_range_literal, lemma_ip_rep_parses,
    pair_err_rep, pair_range, parse_ip_range, parse_range_encoding, range_of, range_pair_ok,
    range_rep, IpAddress,
};
use crate::models::SavedRange;

verus! {

pub open spec fn is_space(c: char) -> bool {
    c == ' ' || c == '\t' || c == '\n' || c == '\r'
}

/// First index at or after `i` holding a non-blank character, or the
/// length if there is none.
pub open spec fn skip_ws(s: Seq<char>, i: int) -> int
    decreases s.len() - i,
{
    if i < 0 {
        skip_ws(s, 0)
    } else if i >= s.len() {
        s.len() as int
    } else if is_space(s[i]) {
        skip_ws(s, i + 1)
    } else {
        i
    }
}

/// One past the last index at or below `i` holding a non-blank
/// character, or 0 if there is none.
pub open spec fn rskip_ws(s: Seq<char>, i: int) -> int
    decreases i + 1,
{
    if i < 0 || i >= s.len() {
        if i >= s.len() && s.len() > 0 {
            rskip_ws(s, s.len() - 1)
        } else {
            0
        }
    } else if is_space(s[i]) {
        rskip_ws(s, i - 1)
    } else {
        i + 1
    }
}

/// The string with blank characters removed from both ends.
pub open spec fn trim_rep(s: Seq<char>) -> Seq<char> {
    let a = skip_ws(s, 0);
    let b = rskip_ws(s, s.len() - 1);
    if a < b {
        s.subrange(a, b)
    } else {
        Seq::empty()
    }
}

proof fn lemma_skip_ws_bounds(s: Seq<char>, i: int)
    requires
        0 <= i <= s.len(),
    ensures
        i <= skip_ws(s, i) <= s.len(),
        skip_ws(s, i) < s.len() ==> !is_space(s[skip_ws(s, i)]),
        forall|j: int| i <= j < skip_ws(s, i) ==> is_space(s[j]),
    decreases s.len() - i,
{
    if i < s.len() && is_space(s[i]) {
        lemma_skip_ws_bounds(s, i + 1);
    }
}

proof fn lemma_rskip_ws_bounds(s: Seq<char>, i: int)
    requires
        -1 <= i < s.len(),
    ensures
        0 <= rskip_ws(s, i) <= i + 1,
        rskip_ws(s, i) > 0 ==> !is_space(s[rskip_ws(s, i) - 1]),
        forall|j: int| rskip_ws(s, i) <= j <= i ==> is_space(s[j]),
    decreases i + 1,
{
    if i >= 0 && is_space(s[i]) {
        lemma_rskip_ws_bounds(s, i - 1);
    }
}

/// Removes blank characters from both ends.
pub fn trimmed(s: &str) -> (r: String)
    ensures
        r@ == trim_rep(s@),
{
    let len = s.unicode_len();
    let mut a: usize = 0;
    loop
        invariant
            0 <= a <= len,
            len == s@.len(),
            skip_ws(s@, 0) == skip_ws(s@, a as int),
        ensures
            0 <= a <= len,
            skip_ws(s@, 0) == skip_ws(s@, a as int),
            a == len || !is_space(s@[a as int]),
        decreases len - a,
    {
        if a == len {
            break ;
        }
        let c = s.get_char(a);
        if !(c == ' ' || c == '\t' || c == '\n' || c == '\r') {
            break ;
        }
        a = a + 1;
    }
    proof {
        lemma_skip_ws_bounds(s@, a as int);
        assert(skip_ws(s@, 0) == a as int);
    }
    let mut b: usize = len;
    loop
        invariant
            0 <= b <= len,
            len == s@.len(),
            rskip_ws(s@, len - 1) == rskip_ws(s@, b - 1),
        ensures
            0 <= b <= len,
            rskip_ws(s@, len - 1) == rskip_ws(s@, b - 1),
            b == 0 || !is_space(s@[b - 1]),
        decreases b,
    {
        if b == 0 {
            break ;
        }
        let c = s.get_char(b - 1);
        if !(c == ' ' || c == '\t' || c == '\n' || c == '\r') {
            break ;
        }
        b = b - 1;
    }
    proof {
        lemma_rskip_ws_bounds(s@, b - 1);
        assert(rskip_ws(s@, len - 1) == b as int);
    }
    if a < b {
        let part = s.substring_char(a, b);
        part.to_owned()
    } else {
        String::new()
    }
}

/// The state behind the scan-control card: the range being typed, the
/// name for saving it, and the automatic-scan settings. Times are epoch
/// seconds.
pub struct ScanControlState {
    pub ip_range_start: String,
    pub ip_range_end: String,
    pub new_range_name: String,
    pub auto_scan_enabled: bool,
    pub auto_scan_interval_secs: u64,
    pub last_scan_time: Option<u64>,
}

/// Whether an interval has passed since a recorded time; an unset time
/// counts as long ago.
pub open spec fn elapsed_at_least(last: Option<u64>, now: u64, interval: u64) -> bool {
    match last {
        None => true,
        Some(t) => t + interval <= now,
    }
}

/// Decides whether an interval has passed since `last`; a `last` in the
/// future has not elapsed.
pub fn interval_elapsed(last: &Option<u64>, now: u64, interval: u64) -> (r: bool)
    ensures
        r == elapsed_at_least(*last, now, interval),
{
    match last {
        None => true,
        Some(t) => now >= *t && now - *t >= interval,
    }
}

impl ScanControlState {
    /// Whether an automatic pass is due: enabled, something to scan, the
    /// interval has passed, and — the guard against racing passes — no
    /// pass is already running.
    pub fn should_auto_scan(&self, now: u64, scanning: bool, have_ranges: bool) -> (r: bool)
        ensures
            r == (self.auto_scan_enabled && have_ranges && !scanning && elapsed_at_least(
                self.last_scan_time,
                now,
                self.auto_scan_interval_secs,
            )),
    {
        self.auto_scan_enabled && have_ranges && !scanning && interval_elapsed(
            &self.last_scan_time,
            now,
            self.auto_scan_interval_secs,
        )
    }

    /// Saves the range currently typed under the trimmed name. With a
    /// blank name nothing happens; with an invalid range the list is
    /// untouched and the validation message is returned.
    pub fn add_saved_range(&mut self, saved: &mut Vec<SavedRange>) -> (r: Result<bool, String>)
        ensures
            trim_rep(old(self).new_range_name@).len() == 0 ==> r == Ok::<bool, String>(false),
            r == Ok::<bool, String>(false) ==> *final(self) == *old(self) && final(saved)@ == old(saved)@,
            r matches Err(m) ==> {
                &&& trim_rep(old(self).new_range_name@).len() > 0
                &&& !range_pair_ok(old(self).ip_range_start@, old(self).ip_range_end@)
                &&& m@ == pair_err_rep(old(self).ip_range_start@, old(self).ip_range_end@)
                &&& *final(self) == *old(self)
                &&& final(saved)@ == old(saved)@
            },
            r == Ok::<bool, String>(true) <==> (trim_rep(old(self).new_range_name@).len() > 0
                && range_pair_ok(old(self).ip_range_start@, old(self).ip_range_end@)),
            r == Ok::<bool, String>(true) ==> {
                &&& final(saved)@.len() == old(saved)@.len() + 1
                &&& forall|j: int| 0 <= j < old(saved)@.len() ==> final(saved)@[j] == old(saved)@[j]
                &&& final(saved)@.last().name@ == trim_rep(old(self).new_range_name@)
                &&& final(saved)@.last().range@ == range_rep(
                    pair_range(old(self).ip_range_start@, old(self).ip_range_end@),
                )
                &&& final(self).new_range_name@.len() == 0
                &&& final(self).ip_range_start == old(self).ip_range_start
                &&& final(self).ip_range_end == old(self).ip_range_end
                &&& final(self).auto_scan_enabled == old(self).auto_scan_enabled
                &&& final(self).auto_scan_interval_secs == old(self).auto_scan_interval_secs
                &&& final(self).last_scan_time == old(self).last_scan_time
            },
    {
        let name = trimmed(self.new_range_name.as_str());
        if name.as_str().is_empty() {
            return Ok(false);
        }
        match parse_ip_range(self.ip_range_start.as_str(), self.ip_range_end.as_str()) {
            Ok(range) => {
                saved.push(SavedRange { name, range });
                self.new_range_name = String::new();
                Ok(true)
            },
            Err(m) => Err(m),
        }
    }

    /// Drops a saved range by its position; an index past the end is
    /// ignored.
    pub fn remove_saved_range(&mut self, saved: &mut Vec<SavedRange>, index: usize) -> (removed:
        bool)
        ensures
            *final(self) == *old(self),
            removed == (index < old(saved)@.len()),
            removed ==> final(saved)@ == old(saved)@.remove(index as int),
            !removed ==> final(saved)@ == old(saved)@,
    {
        if index < saved.len() {
            saved.remove(index);
            true
        } else {
            false
        }
    }

    /// Loads a saved range back into the start and end entry fields; a
    /// range that does not read back leaves the fields alone.
    pub fn load_saved_range(&mut self, range: &SavedRange)
        ensures
            is_range_literal(range.range@) ==> {
                &&& final(self).ip_range_start@ == ip_rep(
                    IpAddress {
                        a: range_of(range.range@).a,
                        b: range_of(range.range@).b,
                        c: range_of(range.range@).c,
                        d: range_of(range.range@).start,
                    },
                )
                &&& final(self).ip_range_end@ == ip_rep(
                    IpAddress {
                        a: range_of(range.range@).a,
                        b: range_of(range.range@).b,
                        c: range_of(range.range@).c,
                        d: range_of(range.range@).end,
                    },
                )
                &&& is_ip_literal(final(self).ip_range_start@)
                &&& is_ip_literal(final(self).ip_range_end@)
                &&& ip_of(final(self).ip_range_start@).d == range_of(range.range@).start
                &&& ip_of(final(self).ip_range_end@).d == range_of(range.range@).end
            },
            !is_range_literal(range.range@) ==> final(self).ip_range_start == old(
                self,
            ).ip_range_start && final(self).ip_range_end == old(self).ip_range_end,
            final(self).new_range_name == old(self).new_range_name,
            final(self).auto_scan_enabled == old(self).auto_scan_enabled,
            final(self).auto_scan_interval_secs == old(self).auto_scan_interval_secs,
            final(self).last_scan_time == old(self).last_scan_time,
    {
        match parse_range_encoding(range.range.as_str()) {
            Some(rg) => {
                let start = IpAddress { a: rg.a, b: rg.b, c: rg.c, d: rg.start };
                let end = IpAddress { a: rg.a, b: rg.b, c: rg.c, d: rg.end };
                self.ip_range_start = ip_to_string(&start);
                self.ip_range_end = ip_to_string(&end);
                proof {
                    lemma_ip_rep_parses(start);
                    lemma_ip_rep_parses(end);
                }
            },
            None => {},
        }
    }
}

} // verus!
