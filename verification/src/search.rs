//! The table's search filter: a device matches when the query occurs,
//! case-insensitively, in its address, hostname, model, firmware or
//! pool.

use vstd::prelude::*;

use crate::ip::{ip_rep, ip_to_string};
use crate::models::MinerInfo;
use crate::registry::MinerRegistry;

verus! {

/// What lowercasing a string yields; the result depends on the
/// characters alone.
pub uninterp spec fn lower_of(s: Seq<char>) -> Seq<char>;

/// Relies on str::to_lowercase: the Unicode lowercase mapping of the
/// characters, nothing else; an empty string stays empty.
#[verifier::external_body]
fn lowercase(s: &str) -> (r: String)
    ensures
        r@ == lower_of(s@),
        s@.len() == 0 ==> r@.len() == 0,
{
    s.to_lowercase()
}

/// Whether `needle` occurs contiguously in `hay`; the empty needle
/// occurs in anything.
pub open spec fn is_substring(hay: Seq<char>, needle: Seq<char>) -> bool {
    exists|i: int|
        0 <= i <= hay.len() - needle.len() && #[trigger] hay.subrange(i, i + needle.len())
            == needle
}

/// Whether `needle` starts at position `i` of `hay`.
spec fn matches_at(hay: Seq<char>, needle: Seq<char>, i: int) -> bool {
    0 <= i <= hay.len() - needle.len() && hay.subrange(i, i + needle.len()) == needle
}

fn contains_sub(hay: &str, needle: &str) -> (r: bool)
    ensures
        r == is_substring(hay@, needle@),
{
    let hay_len = hay.unicode_len();
    let needle_len = needle.unicode_len();
    if needle_len == 0 {
        proof {
            assert(is_substring(hay@, needle@)) by {
                let w: int = 0;
                assert(hay@.subrange(w, w + needle@.len()) =~= needle@);
            }
        }
        return true;
    }
    if needle_len > hay_len {
        proof {
            assert(!is_substring(hay@, needle@)) by {
                if is_substring(hay@, needle@) {
                    let w = choose|w: int|
                        0 <= w <= hay@.len() - needle@.len() && #[trigger] hay@.subrange(
                            w,
                            w + needle@.len(),
                        ) == needle@;
                    assert(false);
                }
            }
        }
        return false;
    }
    let mut i: usize = 0;
    while i <= hay_len - needle_len
        invariant
            1 <= needle_len <= hay_len,
            hay_len == hay@.len(),
            needle_len == needle@.len(),
            0 <= i <= hay_len - needle_len + 1,
            forall|k: int| 0 <= k < i ==> !matches_at(hay@, needle@, k),
        decreases hay_len - needle_len - i + 1,
    {
        let mut j: usize = 0;
        let mut hit = true;
        while j < needle_len
            invariant
                hay_len == hay@.len(),
                needle_len == needle@.len(),
                0 <= i <= hay_len - needle_len,
                0 <= j <= needle_len,
                hit ==> forall|k: int| 0 <= k < j ==> hay@[i + k] == needle@[k],
                !hit ==> !matches_at(hay@, needle@, i as int),
            decreases needle_len - j,
        {
            let hc = hay.get_char(i + j);
            let nc = needle.get_char(j);
            if hc != nc {
                proof {
                    if matches_at(hay@, needle@, i as int) {
                        assert(hay@.subrange(i as int, i + needle@.len())[j as int]
                            == needle@[j as int]);
                    }
                }
                hit = false;
                j = needle_len;
            } else {
                j = j + 1;
            }
        }
        if hit {
            proof {
                assert(hay@.subrange(i as int, i + needle@.len()) =~= needle@);
            }
            return true;
        }
        i = i + 1;
    }
    proof {
        assert(!is_substring(hay@, needle@)) by {
            if is_substring(hay@, needle@) {
                let w = choose|w: int|
                    0 <= w <= hay@.len() - needle@.len() && #[trigger] hay@.subrange(
                        w,
                        w + needle@.len(),
                    ) == needle@;
                assert(matches_at(hay@, needle@, w));
                assert(!matches_at(hay@, needle@, w));
            }
        }
    }
    false
}

/// Whether a device matches a search query: the lowercased query occurs
/// in the lowercased address, hostname, model, firmware or pool field.
pub open spec fn matches_query(m: MinerInfo, query: Seq<char>) -> bool {
    ||| is_substring(lower_of(ip_rep(m.ip)), lower_of(query))
    ||| is_substring(lower_of(m.hostname@), lower_of(query))
    ||| is_substring(lower_of(m.model@), lower_of(query))
    ||| is_substring(lower_of(m.firmware_version@), lower_of(query))
    ||| is_substring(lower_of(m.pool@), lower_of(query))
}

pub fn matches_search(m: &MinerInfo, query: &str) -> (r: bool)
    ensures
        r == matches_query(*m, query@),
{
    let q = lowercase(query);
    let ip_string = ip_to_string(&m.ip);
    let hay = lowercase(ip_string.as_str());
    if contains_sub(hay.as_str(), q.as_str()) {
        return true;
    }
    let hay = lowercase(m.hostname.as_str());
    if contains_sub(hay.as_str(), q.as_str()) {
        return true;
    }
    let hay = lowercase(m.model.as_str());
    if contains_sub(hay.as_str(), q.as_str()) {
        return true;
    }
    let hay = lowercase(m.firmware_version.as_str());
    if contains_sub(hay.as_str(), q.as_str()) {
        return true;
    }
    let hay = lowercase(m.pool.as_str());
    contains_sub(hay.as_str(), q.as_str())
}

/// The indices of the registry entries a query matches, in registry
/// order; the empty query matches every entry.
pub open spec fn matching_indices(ms: Seq<MinerInfo>, query: Seq<char>, n: int) -> Seq<int>
    decreases n,
{
    if n <= 0 {
        Seq::empty()
    } else if query.len() == 0 || matches_query(ms[n - 1], query) {
        matching_indices(ms, query, n - 1).push(n - 1)
    } else {
        matching_indices(ms, query, n - 1)
    }
}

/// Filters the registry by a query, returning the indices of the
/// matching entries in order.
pub fn filter_miners(registry: &MinerRegistry, query: &str) -> (r: Vec<usize>)
    ensures
        r@.map_values(|v: usize| v as int) == matching_indices(
            registry.miners@,
            query@,
            registry.miners@.len() as int,
        ),
{
    let n = registry.len();
    let mut out: Vec<usize> = Vec::new();
    let empty_query = query.is_empty();
    let mut i: usize = 0;
    while i < n
        invariant
            0 <= i <= n,
            n == registry.miners@.len(),
            empty_query == (query@.len() == 0),
            out@.map_values(|v: usize| v as int) == matching_indices(
                registry.miners@,
                query@,
                i as int,
            ),
        decreases n - i,
    {
        let keep = if empty_query {
            true
        } else {
            matches_search(registry.get(i), query)
        };
        if keep {
            out.push(i);
            proof {
                assert(out@.map_values(|v: usize| v as int) =~= matching_indices(
                    registry.miners@,
                    query@,
                    i + 1,
                ));
            }
        }
        i = i + 1;
    }
    out
}

} // verus!
