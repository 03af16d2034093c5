//! Counting over sequences: occurrences of a value, and sums of counts.

use vstd::prelude::*;

verus! {

/// How many times `j` occurs in `s`.
pub open spec fn count_in(s: Seq<int>, j: int) -> nat
    decreases s.len(),
{
    if s.len() == 0 {
        0
    } else {
        count_in(s.drop_last(), j) + if s.last() == j {
            1nat
        } else {
            0nat
        }
    }
}

/// The sum of a sequence of counts.
pub open spec fn total(s: Seq<u64>) -> int
    decreases s.len(),
{
    if s.len() == 0 {
        0
    } else {
        total(s.drop_last()) + s.last()
    }
}

/// A value that occurs is at some index.
pub proof fn lemma_count_pos(s: Seq<int>, j: int)
    requires
        count_in(s, j) > 0,
    ensures
        exists|k: int| 0 <= k < s.len() && s[k] == j,
    decreases s.len(),
{
    if s.last() != j {
        lemma_count_pos(s.drop_last(), j);
        let k = choose|k: int| 0 <= k < s.drop_last().len() && s.drop_last()[k] == j;
        assert(s[k] == j);
    }
}

/// A sequence whose every item is `j` holds it `len` times.
pub proof fn lemma_count_constant(s: Seq<int>, j: int, i: int)
    requires
        forall|k: int| 0 <= k < s.len() ==> s[k] == j,
    ensures
        count_in(s, i) == if i == j {
            s.len()
        } else {
            0
        },
    decreases s.len(),
{
    if s.len() > 0 {
        lemma_count_constant(s.drop_last(), j, i);
    }
}

/// Changing one count changes the total by the difference.
pub proof fn lemma_total_update(s: Seq<u64>, k: int, v: u64)
    requires
        0 <= k < s.len(),
    ensures
        total(s.update(k, v)) == total(s) - s[k] + v,
    decreases s.len(),
{
    if k < s.len() - 1 {
        assert(s.update(k, v).drop_last() == s.drop_last().update(k, v));
        lemma_total_update(s.drop_last(), k, v);
    } else {
        assert(s.update(k, v).drop_last() == s.drop_last());
    }
}

/// A total of counts is never negative.
pub proof fn lemma_total_nonneg(s: Seq<u64>)
    ensures
        total(s) >= 0,
    decreases s.len(),
{
    if s.len() > 0 {
        lemma_total_nonneg(s.drop_last());
    }
}

/// No count exceeds the total.
pub proof fn lemma_total_bounds(s: Seq<u64>, k: int)
    requires
        0 <= k < s.len(),
    ensures
        s[k] <= total(s),
    decreases s.len(),
{
    lemma_total_nonneg(s.drop_last());
    if k < s.len() - 1 {
        lemma_total_bounds(s.drop_last(), k);
    }
}

/// The total of `n` zeros is zero.
pub proof fn lemma_total_zeros(s: Seq<u64>)
    requires
        forall|k: int| 0 <= k < s.len() ==> s[k] == 0,
    ensures
        total(s) == 0,
    decreases s.len(),
{
    if s.len() > 0 {
        lemma_total_zeros(s.drop_last());
    }
}

/// The total of a prefix one longer adds the next count.
pub proof fn lemma_total_prefix(s: Seq<u64>, k: int)
    requires
        0 <= k < s.len(),
    ensures
        total(s.take(k + 1)) == total(s.take(k)) + s[k],
{
    assert(s.take(k + 1).drop_last() == s.take(k));
}

/// Removing the item at `k` takes one occurrence of it away.
pub proof fn lemma_count_remove(s: Seq<int>, k: int, j: int)
    requires
        0 <= k < s.len(),
    ensures
        count_in(s, j) == count_in(s.remove(k), j) + if s[k] == j {
            1nat
        } else {
            0nat
        },
    decreases s.len(),
{
    if k == s.len() - 1 {
        assert(s.remove(k) == s.drop_last());
    } else {
        assert(s.remove(k).drop_last() == s.drop_last().remove(k));
        assert(s.remove(k).last() == s.last());
        lemma_count_remove(s.drop_last(), k, j);
    }
}

/// How often a mapped value occurs depends only on the multiset of items.
pub proof fn lemma_count_map_perm<A>(a: Seq<A>, b: Seq<A>, g: spec_fn(A) -> int, j: int)
    requires
        a.to_multiset() == b.to_multiset(),
    ensures
        count_in(a.map_values(g), j) == count_in(b.map_values(g), j),
    decreases a.len(),
{
    a.to_multiset_ensures();
    b.to_multiset_ensures();
    if a.len() == 0 {
        assert(b.len() == 0);
        assert(a.map_values(g).len() == 0 && b.map_values(g).len() == 0);
    } else {
        let x = a.last();
        let a1 = a.drop_last();
        assert(a1.push(x) == a);
        a1.to_multiset_ensures();
        assert(a.contains(x));
        assert(b.to_multiset().count(x) > 0);
        assert(b.contains(x));
        let k = choose|k: int| 0 <= k < b.len() && b[k] == x;
        let b1 = b.remove(k);
        assert(b1.to_multiset() == b.to_multiset().remove(x));
        assert(a1.to_multiset() =~= a1.to_multiset().insert(x).remove(x));
        lemma_count_map_perm(a1, b1, g, j);
        assert(a.map_values(g).drop_last() == a1.map_values(g));
        assert(b.map_values(g).remove(k) == b1.map_values(g));
        lemma_count_remove(b.map_values(g), k, j);
    }
}

/// The sum of a sequence of integers.
pub open spec fn sum_of(s: Seq<int>) -> int
    decreases s.len(),
{
    if s.len() == 0 {
        0
    } else {
        sum_of(s.drop_last()) + s.last()
    }
}

/// Removing the item at `k` takes it out of the sum.
pub proof fn lemma_sum_remove(s: Seq<int>, k: int)
    requires
        0 <= k < s.len(),
    ensures
        sum_of(s) == sum_of(s.remove(k)) + s[k],
    decreases s.len(),
{
    if k == s.len() - 1 {
        assert(s.remove(k) == s.drop_last());
    } else {
        assert(s.remove(k).drop_last() == s.drop_last().remove(k));
        assert(s.remove(k).last() == s.last());
        lemma_sum_remove(s.drop_last(), k);
    }
}

/// The sum of mapped values depends only on the multiset of items.
pub proof fn lemma_sum_map_perm<A>(a: Seq<A>, b: Seq<A>, g: spec_fn(A) -> int)
    requires
        a.to_multiset() == b.to_multiset(),
    ensures
        sum_of(a.map_values(g)) == sum_of(b.map_values(g)),
    decreases a.len(),
{
    a.to_multiset_ensures();
    b.to_multiset_ensures();
    if a.len() == 0 {
        assert(b.len() == 0);
        assert(a.map_values(g).len() == 0 && b.map_values(g).len() == 0);
    } else {
        let x = a.last();
        let a1 = a.drop_last();
        assert(a1.push(x) == a);
        a1.to_multiset_ensures();
        assert(a.contains(x));
        assert(b.to_multiset().count(x) > 0);
        assert(b.contains(x));
        let k = choose|k: int| 0 <= k < b.len() && b[k] == x;
        let b1 = b.remove(k);
        assert(b1.to_multiset() == b.to_multiset().remove(x));
        assert(a1.to_multiset() =~= a1.to_multiset().insert(x).remove(x));
        lemma_sum_map_perm(a1, b1, g);
        assert(a.map_values(g).drop_last() == a1.map_values(g));
        assert(b.map_values(g).remove(k) == b1.map_values(g));
        lemma_sum_remove(b.map_values(g), k);
    }
}

} // verus!
