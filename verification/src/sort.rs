//! Ordering the registry by a table column: entries are compared by the
//! chosen column's text, code point by code point, and the list is
//! rearranged in place — the same devices, in the requested order.

use vstd::prelude::*;
use vstd::seq_lib::group_to_multiset_ensures;

use crate::ip::{ip_rep, ip_to_string};
use crate::models::{MinerInfo, SortColumn, SortDirection};
use crate::registry::MinerRegistry;

verus! {

broadcast use group_to_multiset_ensures;

/// Lexicographic order on strings, by code point; the order Rust's own
/// string comparison gives.
pub open spec fn seq_le(a: Seq<char>, b: Seq<char>) -> bool
    decreases a.len(),
{
    if a.len() == 0 {
        true
    } else if b.len() == 0 {
        false
    } else if (a[0] as u32) < (b[0] as u32) {
        true
    } else if (a[0] as u32) > (b[0] as u32) {
        false
    } else {
        seq_le(a.subrange(1, a.len() as int), b.subrange(1, b.len() as int))
    }
}

/// Any two strings compare some way round.
pub proof fn lemma_seq_le_total(a: Seq<char>, b: Seq<char>)
    ensures
        seq_le(a, b) || seq_le(b, a),
    decreases a.len(),
{
    if a.len() > 0 && b.len() > 0 && (a[0] as u32) == (b[0] as u32) {
        lemma_seq_le_total(a.subrange(1, a.len() as int), b.subrange(1, b.len() as int));
    }
}

pub proof fn lemma_seq_le_trans(a: Seq<char>, b: Seq<char>, c: Seq<char>)
    requires
        seq_le(a, b),
        seq_le(b, c),
    ensures
        seq_le(a, c),
    decreases a.len(),
{
    if a.len() > 0 && c.len() > 0 {
        assert(b.len() > 0);
        if (a[0] as u32) == (b[0] as u32) && (b[0] as u32) == (c[0] as u32) {
            lemma_seq_le_trans(
                a.subrange(1, a.len() as int),
                b.subrange(1, b.len() as int),
                c.subrange(1, c.len() as int),
            );
        }
    }
}

/// A string compares at or before itself.
pub proof fn lemma_seq_le_refl(a: Seq<char>)
    ensures
        seq_le(a, a),
    decreases a.len(),
{
    if a.len() > 0 {
        lemma_seq_le_refl(a.subrange(1, a.len() as int));
    }
}

/// Compares two strings lexicographically by code point.
fn str_le(a: &str, b: &str) -> (r: bool)
    ensures
        r == seq_le(a@, b@),
    decreases a@.len(),
{
    let alen = a.unicode_len();
    let blen = b.unicode_len();
    if alen == 0 {
        true
    } else if blen == 0 {
        false
    } else {
        let ca = a.get_char(0);
        let cb = b.get_char(0);
        let ua = ca as u32;
        let ub = cb as u32;
        if ua < ub {
            true
        } else if ua > ub {
            false
        } else {
            let ta = a.substring_char(1, alen);
            let tb = b.substring_char(1, blen);
            str_le(ta, tb)
        }
    }
}

/// The text an entry is ordered by under a column.
pub open spec fn sort_key(m: MinerInfo, column: SortColumn) -> Seq<char> {
    match column {
        SortColumn::Ip => ip_rep(m.ip),
        SortColumn::Hostname => m.hostname@,
        SortColumn::Model => m.model@,
        SortColumn::Firmware => m.firmware_version@,
        SortColumn::ControlBoard => m.control_board@,
        SortColumn::Hashrate => m.hashrate@,
        SortColumn::Wattage => m.wattage@,
        SortColumn::Efficiency => m.efficiency@,
        SortColumn::Temperature => m.temperature@,
        SortColumn::FanSpeed => m.fan_speed@,
        SortColumn::Pool => m.pool@,
        SortColumn::Worker => m.worker@,
    }
}

fn key_string(m: &MinerInfo, column: SortColumn) -> (r: String)
    ensures
        r@ == sort_key(*m, column),
{
    match column {
        SortColumn::Ip => ip_to_string(&m.ip),
        SortColumn::Hostname => m.hostname.clone(),
        SortColumn::Model => m.model.clone(),
        SortColumn::Firmware => m.firmware_version.clone(),
        SortColumn::ControlBoard => m.control_board.clone(),
        SortColumn::Hashrate => m.hashrate.clone(),
        SortColumn::Wattage => m.wattage.clone(),
        SortColumn::Efficiency => m.efficiency.clone(),
        SortColumn::Temperature => m.temperature.clone(),
        SortColumn::FanSpeed => m.fan_speed.clone(),
        SortColumn::Pool => m.pool.clone(),
        SortColumn::Worker => m.worker.clone(),
    }
}

/// Whether `a` may stand before `b` under a column and direction.
pub open spec fn in_order(
    a: MinerInfo,
    b: MinerInfo,
    column: SortColumn,
    direction: SortDirection,
) -> bool {
    match direction {
        SortDirection::Ascending => seq_le(sort_key(a, column), sort_key(b, column)),
        SortDirection::Descending => seq_le(sort_key(b, column), sort_key(a, column)),
    }
}

proof fn lemma_in_order_total(a: MinerInfo, b: MinerInfo, c: SortColumn, d: SortDirection)
    ensures
        in_order(a, b, c, d) || in_order(b, a, c, d),
{
    lemma_seq_le_total(sort_key(a, c), sort_key(b, c));
    lemma_seq_le_total(sort_key(b, c), sort_key(a, c));
}

proof fn lemma_in_order_trans(
    a: MinerInfo,
    b: MinerInfo,
    c: MinerInfo,
    col: SortColumn,
    d: SortDirection,
)
    requires
        in_order(a, b, col, d),
        in_order(b, c, col, d),
    ensures
        in_order(a, c, col, d),
{
    match d {
        SortDirection::Ascending => lemma_seq_le_trans(
            sort_key(a, col),
            sort_key(b, col),
            sort_key(c, col),
        ),
        SortDirection::Descending => lemma_seq_le_trans(
            sort_key(c, col),
            sort_key(b, col),
            sort_key(a, col),
        ),
    }
}

/// Every pair of entries stands in order.
pub open spec fn sorted_by(s: Seq<MinerInfo>, column: SortColumn, direction: SortDirection) -> bool {
    forall|p: int, q: int|
        0 <= p < q < s.len() ==> in_order(#[trigger] s[p], #[trigger] s[q], column, direction)
}

/// The predicate selecting entries whose key under `column` is `k`.
pub open spec fn key_pred(column: SortColumn, k: Seq<char>) -> spec_fn(MinerInfo) -> bool {
    |m: MinerInfo| sort_key(m, column) == k
}

/// The entries carrying key `k`, in their current relative order.
pub open spec fn with_key(s: Seq<MinerInfo>, column: SortColumn, k: Seq<char>) -> Seq<MinerInfo> {
    s.filter(key_pred(column, k))
}

/// Filtering a two-entry sequence ignores the order of the two when at
/// most one of them passes.
proof fn lemma_filter_two(a: MinerInfo, b: MinerInfo, pred: spec_fn(MinerInfo) -> bool)
    requires
        !(pred(a) && pred(b)),
    ensures
        seq![a, b].filter(pred) == seq![b, a].filter(pred),
{
    reveal_with_fuel(Seq::<MinerInfo>::filter, 4);
    assert(seq![a, b].drop_last() =~= seq![a]);
    assert(seq![b, a].drop_last() =~= seq![b]);
    assert(seq![a].drop_last() =~= Seq::<MinerInfo>::empty());
    assert(seq![b].drop_last() =~= Seq::<MinerInfo>::empty());
    if pred(a) {
        assert(seq![a, b].filter(pred) =~= seq![a]);
        assert(seq![b, a].filter(pred) =~= seq![a]);
    } else if pred(b) {
        assert(seq![a, b].filter(pred) =~= seq![b]);
        assert(seq![b, a].filter(pred) =~= seq![b]);
    } else {
        assert(seq![a, b].filter(pred) =~= Seq::<MinerInfo>::empty());
        assert(seq![b, a].filter(pred) =~= Seq::<MinerInfo>::empty());
    }
}

/// Transposing two adjacent entries with different keys leaves every
/// key's subsequence — and so the relative order of equal-key entries —
/// unchanged.
proof fn lemma_swap_keeps_key_subseqs(prev: Seq<MinerInfo>, j: int, column: SortColumn)
    requires
        1 <= j < prev.len(),
        sort_key(prev[j - 1], column) != sort_key(prev[j], column),
    ensures
        forall|k: Seq<char>|
            #[trigger] with_key(
                prev.update(j - 1, prev[j]).update(j, prev[j - 1]),
                column,
                k,
            ) == with_key(prev, column, k),
{
    let cur = prev.update(j - 1, prev[j]).update(j, prev[j - 1]);
    let a = prev[j - 1];
    let b = prev[j];
    let x = prev.subrange(0, j - 1);
    let y = prev.subrange(j + 1, prev.len() as int);
    assert(prev =~= x + seq![a, b] + y);
    assert(cur =~= x + seq![b, a] + y);
    assert forall|k: Seq<char>| #[trigger] with_key(cur, column, k) == with_key(
        prev,
        column,
        k,
    ) by {
        let pred = key_pred(column, k);
        Seq::<MinerInfo>::filter_distributes_over_add(x + seq![a, b], y, pred);
        Seq::<MinerInfo>::filter_distributes_over_add(x, seq![a, b], pred);
        Seq::<MinerInfo>::filter_distributes_over_add(x + seq![b, a], y, pred);
        Seq::<MinerInfo>::filter_distributes_over_add(x, seq![b, a], pred);
        assert(!(pred(a) && pred(b)));
        lemma_filter_two(a, b, pred);
    }
}

fn in_order_exec(a: &MinerInfo, b: &MinerInfo, column: SortColumn, direction: SortDirection) -> (r:
    bool)
    ensures
        r == in_order(*a, *b, column, direction),
{
    let ka = key_string(a, column);
    let kb = key_string(b, column);
    match direction {
        SortDirection::Ascending => str_le(ka.as_str(), kb.as_str()),
        SortDirection::Descending => str_le(kb.as_str(), ka.as_str()),
    }
}

impl MinerRegistry {
    /// Rearranges the entries by the chosen column and direction: the
    /// same devices — the multiset of entries is untouched — in sorted
    /// order, stably: entries whose column text compares equal keep
    /// their relative order (each key's subsequence is unchanged).
    pub fn sort_miners(&mut self, column: SortColumn, direction: SortDirection)
        requires
            old(self).wf(),
        ensures
            final(self).wf(),
            final(self).miners@.len() == old(self).miners@.len(),
            final(self).miners@.to_multiset() == old(self).miners@.to_multiset(),
            sorted_by(final(self).miners@, column, direction),
            forall|k: Seq<char>|
                #[trigger] with_key(final(self).miners@, column, k) == with_key(
                    old(self).miners@,
                    column,
                    k,
                ),
    {
        let ghost orig = self.miners@;
        let n = self.miners.len();
        let mut i: usize = 1;
        while i < n
            invariant
                1 <= i <= n || (n == 0 && i == 1),
                n == self.miners@.len(),
                crate::registry::unique_ips(self.miners@),
                self.miners@.to_multiset() == orig.to_multiset(),
                forall|k: Seq<char>|
                    #[trigger] with_key(self.miners@, column, k) == with_key(orig, column, k),
                forall|p: int, q: int|
                    0 <= p < q < i ==> in_order(
                        #[trigger] self.miners@[p],
                        #[trigger] self.miners@[q],
                        column,
                        direction,
                    ),
            decreases n - i,
        {
            let mut j: usize = i;
            loop
                invariant
                    0 <= j <= i < n,
                    n == self.miners@.len(),
                    crate::registry::unique_ips(self.miners@),
                    self.miners@.to_multiset() == orig.to_multiset(),
                    forall|k: Seq<char>|
                        #[trigger] with_key(self.miners@, column, k) == with_key(orig, column, k),
                    forall|p: int, q: int|
                        0 <= p < q <= i && p != j && q != j ==> in_order(
                            #[trigger] self.miners@[p],
                            #[trigger] self.miners@[q],
                            column,
                            direction,
                        ),
                    forall|q: int|
                        j < q <= i ==> in_order(
                            self.miners@[j as int],
                            #[trigger] self.miners@[q],
                            column,
                            direction,
                        ),
                ensures
                    0 <= j <= i < n,
                    n == self.miners@.len(),
                    crate::registry::unique_ips(self.miners@),
                    self.miners@.to_multiset() == orig.to_multiset(),
                    forall|k: Seq<char>|
                        #[trigger] with_key(self.miners@, column, k) == with_key(orig, column, k),
                    forall|p: int, q: int|
                        0 <= p < q <= i && p != j && q != j ==> in_order(
                            #[trigger] self.miners@[p],
                            #[trigger] self.miners@[q],
                            column,
                            direction,
                        ),
                    forall|q: int|
                        j < q <= i ==> in_order(
                            self.miners@[j as int],
                            #[trigger] self.miners@[q],
                            column,
                            direction,
                        ),
                    j == 0 || in_order(
                        self.miners@[j - 1],
                        self.miners@[j as int],
                        column,
                        direction,
                    ),
                decreases j,
            {
                if j == 0 {
                    break ;
                }
                let settled = in_order_exec(&self.miners[j - 1], &self.miners[j], column, direction);
                if settled {
                    break ;
                }
                let ghost prev = self.miners@;
                proof {
                    lemma_in_order_total(prev[j - 1], prev[j as int], column, direction);
                    assert(sort_key(prev[j - 1], column) != sort_key(prev[j as int], column)) by {
                        if sort_key(prev[j - 1], column) == sort_key(prev[j as int], column) {
                            lemma_seq_le_refl(sort_key(prev[j - 1], column));
                        }
                    }
                }
                let x = self.miners.remove(j);
                self.miners.insert(j - 1, x);
                proof {
                    let cur = self.miners@;
                    assert(cur =~= prev.update(j - 1, prev[j as int]).update(j as int, prev[j - 1]));
                    lemma_swap_keeps_key_subseqs(prev, j as int, column);
                    assert forall|k: Seq<char>|
                        #[trigger] with_key(cur, column, k) == with_key(orig, column, k) by {
                        assert(with_key(cur, column, k) == with_key(prev, column, k));
                    }
                    assert(cur.to_multiset() == orig.to_multiset()) by {
                        assert(prev.remove(j as int).to_multiset() == prev.to_multiset().remove(
                            prev[j as int],
                        ));
                        assert(cur.to_multiset() == prev.remove(j as int).to_multiset().insert(
                            prev[j as int],
                        ));
                        assert(prev.contains(prev[j as int]));
                        assert(prev.to_multiset().count(prev[j as int]) > 0);
                        assert(cur.to_multiset() =~= prev.to_multiset());
                    }
                    assert(crate::registry::unique_ips(cur)) by {
                        assert forall|p: int, q: int| 0 <= p < q < cur.len() implies (
                        #[trigger] cur[p]).ip != (#[trigger] cur[q]).ip by {
                            let p0: int = if p == j - 1 {
                                j as int
                            } else if p == j {
                                j - 1
                            } else {
                                p
                            };
                            let q0: int = if q == j - 1 {
                                j as int
                            } else if q == j {
                                j - 1
                            } else {
                                q
                            };
                            assert(cur[p] == prev[p0] && cur[q] == prev[q0]);
                            assert(prev[p0].ip != prev[q0].ip);
                        }
                    }
                    assert forall|p: int, q: int|
                        0 <= p < q <= i && p != j - 1 && q != j - 1 implies in_order(
                        #[trigger] cur[p],
                        #[trigger] cur[q],
                        column,
                        direction,
                    ) by {
                        if q == j {
                            assert(cur[q] == prev[j - 1]);
                            assert(p < j - 1);
                            assert(in_order(prev[p], prev[j - 1], column, direction));
                        } else if p == j {
                            assert(cur[p] == prev[j - 1]);
                            assert(in_order(prev[j - 1], prev[q], column, direction));
                        } else {
                            assert(cur[p] == prev[p] && cur[q] == prev[q]);
                        }
                    }
                    assert forall|q: int| j - 1 < q <= i implies in_order(
                        cur[j - 1],
                        #[trigger] cur[q],
                        column,
                        direction,
                    ) by {
                        assert(cur[j - 1] == prev[j as int]);
                        if q == j {
                            assert(cur[q] == prev[j - 1]);
                        } else {
                            assert(cur[q] == prev[q]);
                        }
                    }
                }
                j = j - 1;
            }
            proof {
                let cur = self.miners@;
                assert forall|p: int, q: int| 0 <= p < q <= i implies in_order(
                    #[trigger] cur[p],
                    #[trigger] cur[q],
                    column,
                    direction,
                ) by {
                    if q == j {
                        if p == j - 1 {
                        } else {
                            assert(in_order(cur[p], cur[j - 1], column, direction));
                            assert(in_order(cur[j - 1], cur[j as int], column, direction));
                            lemma_in_order_trans(
                                cur[p],
                                cur[j - 1],
                                cur[j as int],
                                column,
                                direction,
                            );
                        }
                    } else if p == j {
                    } else {
                    }
                }
            }
            i = i + 1;
        }
    }
}

} // verus!
