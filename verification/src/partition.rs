//! Partitioning of the candidate index space `[0, total)` into contiguous,
//! disjoint worker ranges whose union is the whole space.

use vstd::prelude::*;
use vstd::arithmetic::div_mod::lemma_fundamental_div_mod;
use vstd::arithmetic::mul::{
    lemma_mul_inequality, lemma_mul_is_commutative, lemma_mul_is_distributive_add_other_way,
};
use vstd::math::min;

verus! {

/// Size owed to worker `k` when `total` indices are split over `workers`
/// workers as evenly as possible: the first `total % workers` workers take
/// one extra index.
pub open spec fn share_size(total: u64, workers: u64, k: int) -> int {
    total as int / workers as int + if k < total as int % workers as int {
        1int
    } else {
        0int
    }
}

/// The ranges form a chain from 0 to `total`: each starts where the previous
/// one ends. Disjointness and full coverage follow from this shape alone.
pub open spec fn contiguous_cover(parts: Seq<(u64, u64)>, total: u64) -> bool {
    &&& parts.len() >= 1
    &&& parts[0].0 == 0
    &&& parts[parts.len() - 1].1 == total
    &&& forall|k: int| 0 <= k < parts.len() ==> (#[trigger] parts[k]).0 <= parts[k].1
    &&& forall|k: int| 0 <= k < parts.len() - 1 ==> (#[trigger] parts[k]).1 == parts[k + 1].0
}

/// Splits `[0, total)` into `workers` contiguous half-open ranges
/// `(start, end)`, as close to equal in size as possible.
pub fn partition_space(total: u64, workers: u64) -> (r: Vec<(u64, u64)>)
    requires
        workers >= 1,
    ensures
        r@.len() == workers,
        contiguous_cover(r@, total),
        forall|k: int|
            0 <= k < workers ==> (#[trigger] r@[k]).1 - r@[k].0 == share_size(total, workers, k),
{
    let base = total / workers;
    let rem = total % workers;
    let ghost basei = base as int;
    let mut r: Vec<(u64, u64)> = Vec::new();
    let mut start: u64 = 0;
    let mut k: u64 = 0;
    proof {
        lemma_fundamental_div_mod(total as int, workers as int);
        lemma_mul_is_commutative(workers as int, basei);
    }
    while k < workers
        invariant
            workers >= 1,
            k <= workers,
            base == total / workers,
            rem == total % workers,
            basei == base as int,
            total as int == workers as int * basei + rem as int,
            r@.len() == k,
            start as int == k as int * basei + min(k as int, rem as int),
            start <= total,
            k > 0 ==> r@[0].0 == 0,
            k > 0 ==> r@[k as int - 1].1 == start,
            forall|j: int| 0 <= j < k ==> (#[trigger] r@[j]).0 <= r@[j].1,
            forall|j: int| 0 <= j < k as int - 1 ==> (#[trigger] r@[j]).1 == r@[j + 1].0,
            forall|j: int|
                0 <= j < k ==> (#[trigger] r@[j]).1 - r@[j].0 == share_size(total, workers, j),
        decreases workers - k,
    {
        let extra: u64 = if k < rem {
            1
        } else {
            0
        };
        proof {
            // The next start still fits below `total`.
            lemma_mul_is_distributive_add_other_way(basei, k as int, 1);
            lemma_mul_inequality(k as int + 1, workers as int, basei);
            lemma_mul_is_commutative(workers as int, basei);
            lemma_mul_is_commutative(k as int + 1, basei);
        }
        let end = start + base + extra;
        r.push((start, end));
        start = end;
        k = k + 1;
    }
    proof {
        assert(start as int == workers as int * basei + rem as int) by {
            lemma_mul_is_commutative(workers as int, basei);
        }
    }
    r
}

/// Earlier ranges of a chain end no later than later ranges begin.
proof fn lemma_chain_monotone(parts: Seq<(u64, u64)>, total: u64, k1: int, k2: int)
    requires
        contiguous_cover(parts, total),
        0 <= k1 < k2 < parts.len(),
    ensures
        parts[k1].1 <= parts[k2].0,
    decreases k2 - k1,
{
    if k1 + 1 < k2 {
        lemma_chain_monotone(parts, total, k1 + 1, k2);
    }
}

/// Every range of a chain ends no later than the chain's total.
pub proof fn lemma_chain_end_bounded(parts: Seq<(u64, u64)>, total: u64, k: int)
    requires
        contiguous_cover(parts, total),
        0 <= k < parts.len(),
    ensures
        parts[k].1 <= total,
{
    if k < parts.len() - 1 {
        lemma_chain_monotone(parts, total, k, parts.len() - 1);
    }
}

proof fn lemma_cover_search(parts: Seq<(u64, u64)>, total: u64, g: u64, k: int)
    requires
        contiguous_cover(parts, total),
        g < total,
        0 <= k < parts.len(),
        parts[k].0 <= g,
    ensures
        exists|j: int| 0 <= j < parts.len() && (#[trigger] parts[j]).0 <= g < parts[j].1,
    decreases parts.len() - k,
{
    if g < parts[k].1 {
        assert(parts[k].0 <= g < parts[k].1);
    } else {
        assert(k < parts.len() - 1);
        lemma_cover_search(parts, total, g, k + 1);
    }
}

/// Contiguous chained ranges partition the space: every index below `total`
/// falls inside exactly one range.
pub proof fn lemma_partition_covers(parts: Seq<(u64, u64)>, total: u64, g: u64)
    requires
        contiguous_cover(parts, total),
        g < total,
    ensures
        exists|j: int| 0 <= j < parts.len() && (#[trigger] parts[j]).0 <= g < parts[j].1,
        forall|j1: int, j2: int|
            #![trigger parts[j1], parts[j2]]
            (0 <= j1 < parts.len() && 0 <= j2 < parts.len() && parts[j1].0 <= g < parts[j1].1
                && parts[j2].0 <= g < parts[j2].1) ==> j1 == j2,
{
    lemma_cover_search(parts, total, g, 0);
    assert forall|j1: int, j2: int|
        #![trigger parts[j1], parts[j2]]
        (0 <= j1 < parts.len() && 0 <= j2 < parts.len() && parts[j1].0 <= g < parts[j1].1
            && parts[j2].0 <= g < parts[j2].1) implies j1 == j2 by {
        if j1 < j2 {
            lemma_chain_monotone(parts, total, j1, j2);
        } else if j2 < j1 {
            lemma_chain_monotone(parts, total, j2, j1);
        }
    }
}

} // verus!
