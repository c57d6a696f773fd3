//! Sums over finite maps of balances, and how they change when one entry
//! is written or removed.
use vstd::prelude::*;

verus! {

/// The sum of all values of a finite map.
pub open spec fn map_sum<K>(m: Map<K, u128>) -> int
    decreases m.dom().len(),
    when m.dom().finite()
{
    if m.dom().len() == 0 {
        0
    } else {
        let k = m.dom().choose();
        m[k] + map_sum(m.remove(k))
    }
}

/// A sum of balances is never negative.
pub proof fn lemma_map_sum_nonneg<K>(m: Map<K, u128>)
    requires
        m.dom().finite(),
    ensures
        map_sum(m) >= 0,
    decreases m.dom().len(),
{
    if m.dom().len() != 0 {
        let k = m.dom().choose();
        lemma_map_sum_nonneg(m.remove(k));
    }
}

/// Taking out any one entry: the sum is that entry plus the sum of the rest.
pub proof fn lemma_map_sum_remove<K>(m: Map<K, u128>, k: K)
    requires
        m.dom().finite(),
        m.dom().contains(k),
    ensures
        map_sum(m) == m[k] + map_sum(m.remove(k)),
    decreases m.dom().len(),
{
    let c = m.dom().choose();
    if c != k {
        let mc = m.remove(c);
        let mk = m.remove(k);
        lemma_map_sum_remove(mc, k);
        lemma_map_sum_remove(mk, c);
        assert(mc.remove(k) =~= mk.remove(c));
    } else {
        assert(m.remove(c) =~= m.remove(k));
    }
}

/// Writing `v` at `k` replaces the old entry of `k` (zero if absent) in the sum.
pub proof fn lemma_map_sum_insert<K>(m: Map<K, u128>, k: K, v: u128)
    requires
        m.dom().finite(),
    ensures
        map_sum(m.insert(k, v)) == map_sum(m) - (if m.dom().contains(k) { m[k] as int } else { 0 }) + v,
{
    let mi = m.insert(k, v);
    lemma_map_sum_remove(mi, k);
    if m.dom().contains(k) {
        lemma_map_sum_remove(m, k);
        assert(mi.remove(k) =~= m.remove(k));
    } else {
        assert(mi.remove(k) =~= m);
    }
}

/// Any single entry is bounded by the sum.
pub proof fn lemma_map_sum_entry_le<K>(m: Map<K, u128>, k: K)
    requires
        m.dom().finite(),
        m.dom().contains(k),
    ensures
        m[k] <= map_sum(m),
{
    lemma_map_sum_remove(m, k);
    lemma_map_sum_nonneg(m.remove(k));
}

} // verus!
