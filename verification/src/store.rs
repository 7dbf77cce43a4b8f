//! An address-keyed store: an association list with unique keys,
//! abstracted as a `Map` from address to value.

use vstd::prelude::*;

use crate::ip::IpAddress;

verus! {

/// No address appears twice among the entries.
pub open spec fn unique_keys<V>(s: Seq<(IpAddress, V)>) -> bool {
    forall|i: int, j: int| 0 <= i < j < s.len() ==> (#[trigger] s[i]).0 != (#[trigger] s[j]).0
}

/// First index at or after `i` whose entry carries `ip`, or the length
/// if there is none.
pub open spec fn find_key<V>(s: Seq<(IpAddress, V)>, ip: IpAddress, i: int) -> int
    decreases s.len() - i,
{
    if i < 0 {
        find_key(s, ip, 0)
    } else if i >= s.len() {
        s.len() as int
    } else if s[i].0 == ip {
        i
    } else {
        find_key(s, ip, i + 1)
    }
}

pub proof fn lemma_find_key_bounds<V>(s: Seq<(IpAddress, V)>, ip: IpAddress, i: int)
    requires
        0 <= i <= s.len(),
    ensures
        i <= find_key(s, ip, i) <= s.len(),
        find_key(s, ip, i) < s.len() ==> s[find_key(s, ip, i)].0 == ip,
        forall|j: int| i <= j < find_key(s, ip, i) ==> (#[trigger] s[j]).0 != ip,
    decreases s.len() - i,
{
    if i < s.len() && s[i].0 != ip {
        lemma_find_key_bounds(s, ip, i + 1);
    }
}

/// The entries read as a map, later entries winning.
pub open spec fn map_of<V>(s: Seq<(IpAddress, V)>) -> Map<IpAddress, V>
    decreases s.len(),
{
    if s.len() == 0 {
        Map::empty()
    } else {
        map_of(s.drop_last()).insert(s.last().0, s.last().1)
    }
}

/// The values of the entries, in entry order.
pub open spec fn values_of<V>(s: Seq<(IpAddress, V)>) -> Seq<V> {
    s.map_values(|e: (IpAddress, V)| e.1)
}

pub proof fn lemma_map_of_contains<V>(s: Seq<(IpAddress, V)>, ip: IpAddress)
    ensures
        map_of(s).contains_key(ip) <==> exists|i: int|
            0 <= i < s.len() && (#[trigger] s[i]).0 == ip,
    decreases s.len(),
{
    if s.len() > 0 {
        lemma_map_of_contains(s.drop_last(), ip);
        if map_of(s).contains_key(ip) {
            if s.last().0 == ip {
                assert(s[s.len() - 1].0 == ip);
            } else {
                let i = choose|i: int|
                    0 <= i < s.drop_last().len() && (#[trigger] s.drop_last()[i]).0 == ip;
                assert(s[i].0 == ip);
            }
        }
        if exists|i: int| 0 <= i < s.len() && (#[trigger] s[i]).0 == ip {
            let i = choose|i: int| 0 <= i < s.len() && (#[trigger] s[i]).0 == ip;
            if i < s.len() - 1 {
                assert(s.drop_last()[i].0 == ip);
            }
        }
    }
}

/// With unique keys, the map reads each entry's value at its key.
pub proof fn lemma_map_of_value<V>(s: Seq<(IpAddress, V)>, i: int)
    requires
        unique_keys(s),
        0 <= i < s.len(),
    ensures
        map_of(s).contains_key(s[i].0),
        map_of(s)[s[i].0] == s[i].1,
    decreases s.len(),
{
    if i == s.len() - 1 {
    } else {
        assert(s.drop_last()[i] == s[i]);
        lemma_map_of_value(s.drop_last(), i);
        assert(s[i].0 != s.last().0);
    }
}

/// Replacing the value at one key updates the map at that key alone.
pub proof fn lemma_map_of_update<V>(s: Seq<(IpAddress, V)>, i: int, v: V)
    requires
        unique_keys(s),
        0 <= i < s.len(),
    ensures
        map_of(s.update(i, (s[i].0, v))) == map_of(s).insert(s[i].0, v),
{
    let s2 = s.update(i, (s[i].0, v));
    assert(unique_keys(s2)) by {
        assert forall|p: int, q: int| 0 <= p < q < s2.len() implies (#[trigger] s2[p]).0 != (
        #[trigger] s2[q]).0 by {
            assert(s2[p].0 == s[p].0 && s2[q].0 == s[q].0);
        }
    }
    assert forall|k: IpAddress|
        map_of(s2).contains_key(k) == map_of(s).insert(s[i].0, v).contains_key(k) by {
        lemma_map_of_contains(s2, k);
        lemma_map_of_contains(s, k);
        if exists|j: int| 0 <= j < s.len() && (#[trigger] s[j]).0 == k {
            let j = choose|j: int| 0 <= j < s.len() && (#[trigger] s[j]).0 == k;
            assert(s2[j].0 == k);
        }
        if exists|j: int| 0 <= j < s2.len() && (#[trigger] s2[j]).0 == k {
            let j = choose|j: int| 0 <= j < s2.len() && (#[trigger] s2[j]).0 == k;
            assert(s[j].0 == k);
        }
    }
    assert forall|k: IpAddress| map_of(s2).contains_key(k) implies map_of(s2)[k] == map_of(
        s,
    ).insert(s[i].0, v)[k] by {
        lemma_map_of_contains(s2, k);
        let j = choose|j: int| 0 <= j < s2.len() && (#[trigger] s2[j]).0 == k;
        lemma_map_of_value(s2, j);
        if k == s[i].0 {
            assert(j == i) by {
                if j != i {
                    assert(s2[j].0 == s[j].0);
                }
            }
        } else {
            assert(j != i);
            assert(s2[j] == s[j]);
            lemma_map_of_value(s, j);
        }
    }
    assert(map_of(s2) =~= map_of(s).insert(s[i].0, v));
}

/// Appending a fresh entry inserts its pair into the map.
pub proof fn lemma_map_of_push<V>(s: Seq<(IpAddress, V)>, p: (IpAddress, V))
    ensures
        map_of(s.push(p)) == map_of(s).insert(p.0, p.1),
{
    assert(s.push(p).drop_last() =~= s);
    assert(s.push(p).last() == p);
}

/// An address-keyed store with at most one entry per address.
pub struct AddrStore<V> {
    pub entries: Vec<(IpAddress, V)>,
}

impl<V> AddrStore<V> {
    pub open spec fn wf(self) -> bool {
        unique_keys(self.entries@)
    }

    /// The store read as a map.
    pub open spec fn to_map(self) -> Map<IpAddress, V> {
        map_of(self.entries@)
    }

    pub fn new() -> (r: AddrStore<V>)
        ensures
            r.wf(),
            r.to_map() == Map::<IpAddress, V>::empty(),
            r.entries@.len() == 0,
    {
        AddrStore { entries: Vec::new() }
    }

    pub fn len(&self) -> (r: usize)
        ensures
            r == self.entries@.len(),
    {
        self.entries.len()
    }

    /// Index of the entry keyed by `ip`, if one is there.
    fn index_of(&self, ip: &IpAddress) -> (r: Option<usize>)
        ensures
            match r {
                Some(i) => i < self.entries@.len() && self.entries@[i as int].0 == *ip
                    && find_key(self.entries@, *ip, 0) == i,
                None => find_key(self.entries@, *ip, 0) == self.entries@.len(),
            },
    {
        let n = self.entries.len();
        let mut i: usize = 0;
        while i < n
            invariant
                0 <= i <= n,
                n == self.entries@.len(),
                find_key(self.entries@, *ip, 0) == find_key(self.entries@, *ip, i as int),
            decreases n - i,
        {
            if self.entries[i].0 == *ip {
                return Some(i);
            }
            proof {
                assert(find_key(self.entries@, *ip, i as int) == find_key(
                    self.entries@,
                    *ip,
                    i + 1,
                ));
            }
            i = i + 1;
        }
        None
    }

    pub fn contains(&self, ip: &IpAddress) -> (r: bool)
        ensures
            r == self.to_map().contains_key(*ip),
    {
        proof {
            lemma_map_of_contains(self.entries@, *ip);
            lemma_find_key_bounds(self.entries@, *ip, 0);
        }
        match self.index_of(ip) {
            Some(_) => true,
            None => false,
        }
    }

    pub fn get(&self, ip: &IpAddress) -> (r: Option<&V>)
        requires
            self.wf(),
        ensures
            match r {
                Some(v) => self.to_map().contains_key(*ip) && *v == self.to_map()[*ip],
                None => !self.to_map().contains_key(*ip),
            },
    {
        proof {
            lemma_map_of_contains(self.entries@, *ip);
            lemma_find_key_bounds(self.entries@, *ip, 0);
        }
        match self.index_of(ip) {
            Some(i) => {
                proof {
                    lemma_map_of_value(self.entries@, i as int);
                }
                Some(&self.entries[i].1)
            },
            None => None,
        }
    }

    /// Sets the value at `ip`, replacing the one already there or
    /// appending a fresh entry.
    pub fn upsert(&mut self, ip: IpAddress, v: V)
        requires
            old(self).wf(),
        ensures
            final(self).wf(),
            final(self).to_map() == old(self).to_map().insert(ip, v),
            old(self).to_map().contains_key(ip) ==> final(self).entries@ == old(
                self,
            ).entries@.update(find_key(old(self).entries@, ip, 0), (ip, v)),
            !old(self).to_map().contains_key(ip) ==> final(self).entries@ == old(
                self,
            ).entries@.push((ip, v)),
            old(self).to_map().contains_key(ip) ==> final(self).entries@.len() == old(
                self,
            ).entries@.len(),
            !old(self).to_map().contains_key(ip) ==> final(self).entries@.len() == old(
                self,
            ).entries@.len() + 1,
    {
        proof {
            lemma_map_of_contains(self.entries@, ip);
            lemma_find_key_bounds(self.entries@, ip, 0);
        }
        match self.index_of(&ip) {
            Some(i) => {
                proof {
                    lemma_map_of_update(self.entries@, i as int, v);
                }
                self.entries[i] = (ip, v);
            },
            None => {
                proof {
                    lemma_map_of_push(self.entries@, (ip, v));
                }
                self.entries.push((ip, v));
                proof {
                    assert forall|p: int, q: int|
                        0 <= p < q < self.entries@.len() implies (#[trigger] self.entries@[p]).0
                        != (#[trigger] self.entries@[q]).0 by {
                        if q < self.entries@.len() - 1 {
                        } else {
                            assert(old(self).entries@[p].0 != ip);
                        }
                    }
                }
            },
        }
    }

    /// Takes the value at `ip` out of the store, if one is there.
    pub fn take(&mut self, ip: &IpAddress) -> (r: Option<V>)
        requires
            old(self).wf(),
        ensures
            final(self).wf(),
            final(self).to_map() == old(self).to_map().remove(*ip),
            match r {
                Some(v) => old(self).to_map().contains_key(*ip) && v == old(self).to_map()[*ip],
                None => !old(self).to_map().contains_key(*ip),
            },
    {
        proof {
            lemma_map_of_contains(self.entries@, *ip);
            lemma_find_key_bounds(self.entries@, *ip, 0);
        }
        match self.index_of(ip) {
            Some(i) => {
                proof {
                    lemma_map_of_value(self.entries@, i as int);
                    lemma_map_of_remove(self.entries@, i as int);
                }
                let e = self.entries.remove(i);
                Some(e.1)
            },
            None => {
                proof {
                    assert forall|k: IpAddress|
                        map_of(self.entries@).contains_key(k) == old(self).to_map().remove(
                            *ip,
                        ).contains_key(k) by {
                        lemma_map_of_contains(self.entries@, k);
                    }
                    assert(map_of(self.entries@) =~= old(self).to_map().remove(*ip));
                }
                None
            },
        }
    }

    /// Hands the values out, in entry order, consuming the store.
    pub fn into_values(self) -> (r: Vec<V>)
        ensures
            r@ == values_of(self.entries@),
    {
        let ghost orig = self.entries@;
        let n = self.entries.len();
        let mut entries = self.entries;
        let mut rev: Vec<V> = Vec::new();
        loop
            invariant
                entries@.len() + rev@.len() == n,
                n == orig.len(),
                entries@ =~= orig.subrange(0, entries@.len() as int),
                forall|i: int| 0 <= i < rev@.len() ==> rev@[i] == (#[trigger] orig[n - 1 - i]).1,
            ensures
                rev@.len() == n,
                n == orig.len(),
                forall|i: int| 0 <= i < rev@.len() ==> rev@[i] == (#[trigger] orig[n - 1 - i]).1,
            decreases entries@.len(),
        {
            match entries.pop() {
                Some(e) => {
                    proof {
                        assert(entries@ =~= orig.subrange(0, entries@.len() as int));
                        assert(e == orig[entries@.len() as int]);
                    }
                    rev.push(e.1);
                },
                None => {
                    break ;
                },
            }
        }
        let mut out: Vec<V> = Vec::new();
        loop
            invariant
                out@.len() + rev@.len() == n,
                n == orig.len(),
                forall|i: int| 0 <= i < rev@.len() ==> rev@[i] == (#[trigger] orig[n - 1 - i]).1,
                forall|i: int| 0 <= i < out@.len() ==> out@[i] == (#[trigger] orig[i]).1,
            ensures
                out@.len() == n,
                forall|i: int| 0 <= i < out@.len() ==> out@[i] == (#[trigger] orig[i]).1,
            decreases rev@.len(),
        {
            match rev.pop() {
                Some(v) => {
                    proof {
                        assert(v == orig[n - 1 - rev@.len()].1);
                        assert(out@.len() == n - 1 - rev@.len());
                    }
                    out.push(v);
                },
                None => {
                    break ;
                },
            }
        }
        proof {
            assert(out@ =~= values_of(orig));
        }
        out
    }

    /// Drops the entry at `ip`, if one is there.
    pub fn remove_entry(&mut self, ip: &IpAddress)
        requires
            old(self).wf(),
        ensures
            final(self).wf(),
            final(self).to_map() == old(self).to_map().remove(*ip),
    {
        proof {
            lemma_map_of_contains(self.entries@, *ip);
            lemma_find_key_bounds(self.entries@, *ip, 0);
        }
        match self.index_of(ip) {
            Some(i) => {
                proof {
                    lemma_map_of_remove(self.entries@, i as int);
                }
                self.entries.remove(i);
            },
            None => {
                proof {
                    assert forall|k: IpAddress|
                        map_of(self.entries@).contains_key(k) == old(self).to_map().remove(
                            *ip,
                        ).contains_key(k) by {
                        lemma_map_of_contains(self.entries@, k);
                    }
                    assert(map_of(self.entries@) =~= old(self).to_map().remove(*ip));
                }
            },
        }
    }
}

/// Dropping one entry removes its key from the map and leaves the rest.
pub proof fn lemma_map_of_remove<V>(s: Seq<(IpAddress, V)>, i: int)
    requires
        unique_keys(s),
        0 <= i < s.len(),
    ensures
        unique_keys(s.remove(i)),
        map_of(s.remove(i)) == map_of(s).remove(s[i].0),
{
    let s2 = s.remove(i);
    assert(unique_keys(s2)) by {
        assert forall|p: int, q: int| 0 <= p < q < s2.len() implies (#[trigger] s2[p]).0 != (
        #[trigger] s2[q]).0 by {
            let p0 = if p < i {
                p
            } else {
                p + 1
            };
            let q0 = if q < i {
                q
            } else {
                q + 1
            };
            assert(s2[p] == s[p0] && s2[q] == s[q0]);
        }
    }
    assert forall|k: IpAddress|
        map_of(s2).contains_key(k) == map_of(s).remove(s[i].0).contains_key(k) by {
        lemma_map_of_contains(s2, k);
        lemma_map_of_contains(s, k);
        if exists|j: int| 0 <= j < s2.len() && (#[trigger] s2[j]).0 == k {
            let j = choose|j: int| 0 <= j < s2.len() && (#[trigger] s2[j]).0 == k;
            let j0 = if j < i {
                j
            } else {
                j + 1
            };
            assert(s[j0].0 == k);
            assert(k != s[i].0);
        }
        if map_of(s).remove(s[i].0).contains_key(k) {
            let j = choose|j: int| 0 <= j < s.len() && (#[trigger] s[j]).0 == k;
            if j < i {
                assert(s2[j].0 == k);
            } else {
                assert(j != i);
                assert(s2[j - 1].0 == k);
            }
        }
    }
    assert forall|k: IpAddress| map_of(s2).contains_key(k) implies map_of(s2)[k] == map_of(
        s,
    ).remove(s[i].0)[k] by {
        lemma_map_of_contains(s2, k);
        let j = choose|j: int| 0 <= j < s2.len() && (#[trigger] s2[j]).0 == k;
        lemma_map_of_value(s2, j);
        let j0 = if j < i {
            j
        } else {
            j + 1
        };
        assert(s2[j] == s[j0]);
        lemma_map_of_value(s, j0);
    }
    assert(map_of(s2) =~= map_of(s).remove(s[i].0));
}

} // verus!
