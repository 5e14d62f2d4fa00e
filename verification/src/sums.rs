//! The sum of the amounts that a finite map records, and how it moves when
//! one entry is written or taken out.

use vstd::prelude::*;

verus! {

/// The sum of all amounts in `m`. It is meant for maps with finitely many
/// keys.
pub open spec fn sum_of<K>(m: Map<K, u64>) -> nat
    decreases m.dom().len(),
    when m.dom().finite()
{
    if m.dom().len() == 0 {
        0
    } else {
        let k = m.dom().choose();
        m[k] as nat + sum_of(m.remove(k))
    }
}

/// Any one entry can be split off the sum, not only the one the
/// definition happens to pick.
pub proof fn lemma_sum_of_remove<K>(m: Map<K, u64>, k: K)
    requires
        m.dom().finite(),
        m.dom().contains(k),
    ensures
        sum_of(m) == m[k] as nat + sum_of(m.remove(k)),
    decreases m.dom().len(),
{
    let c = m.dom().choose();
    if c != k {
        lemma_sum_of_remove(m.remove(c), k);
        lemma_sum_of_remove(m.remove(k), c);
        assert(m.remove(c).remove(k) =~= m.remove(k).remove(c));
    }
}

/// Writing an entry replaces what the key held before, if anything, by
/// the new amount.
pub proof fn lemma_sum_of_insert<K>(m: Map<K, u64>, k: K, v: u64)
    requires
        m.dom().finite(),
    ensures
        m.dom().contains(k) ==> sum_of(m.insert(k, v)) + m[k] == sum_of(m) + v,
        !m.dom().contains(k) ==> sum_of(m.insert(k, v)) == sum_of(m) + v,
{
    lemma_sum_of_remove(m.insert(k, v), k);
    assert(m.insert(k, v).remove(k) =~= m.remove(k));
    if m.dom().contains(k) {
        lemma_sum_of_remove(m, k);
    } else {
        assert(m.remove(k) =~= m);
    }
}

/// No entry is larger than the sum.
pub proof fn lemma_sum_of_bounds_one<K>(m: Map<K, u64>, k: K)
    requires
        m.dom().finite(),
        m.dom().contains(k),
    ensures
        m[k] <= sum_of(m),
{
    lemma_sum_of_remove(m, k);
}

/// No two entries together are larger than the sum.
pub proof fn lemma_sum_of_bounds_two<K>(m: Map<K, u64>, j: K, k: K)
    requires
        m.dom().finite(),
        m.dom().contains(j),
        m.dom().contains(k),
        j != k,
    ensures
        m[j] + m[k] <= sum_of(m),
{
    lemma_sum_of_remove(m, j);
    lemma_sum_of_remove(m.remove(j), k);
}

} // verus!
