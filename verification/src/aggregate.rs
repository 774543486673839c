//! Per-trial outcomes and their aggregation into summary counts.
//!
//! Rates are ratios of the counts recorded here: the success rate is
//! `success_count / times`, the baseline rate `closest_success_count / times`,
//! the stall rate `total_stalled / (times * tries_per_time)`, and the mean
//! try count among successes `tries_sum / success_count`.

use vstd::prelude::*;

verus! {

/// The outcome of one trial: whether the structural baseline group already
/// had a quorum, the 1-based try index of the first adversarial success (if
/// any), and how many tries could be stalled.
#[derive(Clone, Copy)]
pub struct TrialResult {
    /// The close group around the all-zero point had an adversarial quorum.
    pub is_closest_to_prefix: bool,
    /// 1-based index of the first try whose close group had an adversarial
    /// quorum; `None` if the try budget was exhausted without one.
    pub hash_num_tries: Option<usize>,
    /// Number of tries whose close group the adversary could stall.
    pub num_stalled: usize,
}

/// A trial outcome consistent with a budget of `tries` tries.
pub open spec fn trial_wf(t: TrialResult, tries: int) -> bool {
    &&& (t.hash_num_tries matches Some(k) ==> 1 <= k <= tries)
    &&& t.num_stalled <= tries
}

/// Number of trials whose adversarial search succeeded.
pub open spec fn count_successes(rs: Seq<TrialResult>) -> int
    decreases rs.len(),
{
    if rs.len() == 0 {
        0
    } else {
        count_successes(rs.drop_last()) + if rs.last().hash_num_tries is Some {
            1int
        } else {
            0int
        }
    }
}

/// Number of trials whose structural baseline group had a quorum.
pub open spec fn count_prefix_successes(rs: Seq<TrialResult>) -> int
    decreases rs.len(),
{
    if rs.len() == 0 {
        0
    } else {
        count_prefix_successes(rs.drop_last()) + if rs.last().is_closest_to_prefix {
            1int
        } else {
            0int
        }
    }
}

/// Total number of stalled tries over all trials.
pub open spec fn sum_stalled(rs: Seq<TrialResult>) -> int
    decreases rs.len(),
{
    if rs.len() == 0 {
        0
    } else {
        sum_stalled(rs.drop_last()) + rs.last().num_stalled
    }
}

/// Sum of the first-success try indices over the successful trials.
pub open spec fn sum_tries(rs: Seq<TrialResult>) -> int
    decreases rs.len(),
{
    if rs.len() == 0 {
        0
    } else {
        sum_tries(rs.drop_last()) + match rs.last().hash_num_tries {
            Some(k) => k as int,
            None => 0,
        }
    }
}

/// Number of trials whose first success came at exactly try `k`.
pub open spec fn count_at(rs: Seq<TrialResult>, k: int) -> int
    decreases rs.len(),
{
    if rs.len() == 0 {
        0
    } else {
        count_at(rs.drop_last(), k) + match rs.last().hash_num_tries {
            Some(j) => if j == k {
                1int
            } else {
                0int
            },
            None => 0int,
        }
    }
}

/// Number of trials whose first success came at a try in `[lo, hi)`.
pub open spec fn count_in_range(rs: Seq<TrialResult>, lo: int, hi: int) -> int
    decreases hi - lo,
{
    if lo >= hi {
        0
    } else {
        count_at(rs, lo) + count_in_range(rs, lo + 1, hi)
    }
}

/// Sum of the counts an ascending try-count table records for key `k`.
pub open spec fn map_count(m: Seq<(usize, usize)>, k: int) -> int
    decreases m.len(),
{
    if m.len() == 0 {
        0
    } else {
        map_count(m.drop_last(), k) + if m.last().0 == k {
            m.last().1 as int
        } else {
            0int
        }
    }
}

/// Sum of all counts a try-count table records.
pub open spec fn map_total(m: Seq<(usize, usize)>) -> int
    decreases m.len(),
{
    if m.len() == 0 {
        0
    } else {
        map_total(m.drop_last()) + m.last().1
    }
}

/// The table's keys are strictly ascending.
pub open spec fn keys_ascending(m: Seq<(usize, usize)>) -> bool {
    forall|i: int, j: int| 0 <= i < j < m.len() ==> (#[trigger] m[i]).0 < (#[trigger] m[j]).0
}

/// A table whose keys are all different from `k` records nothing for `k`.
proof fn lemma_map_count_absent(m: Seq<(usize, usize)>, k: int)
    requires
        forall|i: int| 0 <= i < m.len() ==> (#[trigger] m[i]).0 != k,
    ensures
        map_count(m, k) == 0,
    decreases m.len(),
{
    if m.len() > 0 {
        lemma_map_count_absent(m.drop_last(), k);
    }
}

/// No trial succeeds at a try index outside `[1, tries]`.
proof fn lemma_count_at_outside(rs: Seq<TrialResult>, tries: int, k: int)
    requires
        forall|i: int| 0 <= i < rs.len() ==> trial_wf(#[trigger] rs[i], tries),
        k < 1 || k > tries,
    ensures
        count_at(rs, k) == 0,
    decreases rs.len(),
{
    if rs.len() > 0 {
        assert(trial_wf(rs[rs.len() - 1], tries));
        lemma_count_at_outside(rs.drop_last(), tries, k);
    }
}

/// Widening a count range by one key adds that key's count.
proof fn lemma_count_range_snoc(rs: Seq<TrialResult>, lo: int, hi: int)
    requires
        lo <= hi,
    ensures
        count_in_range(rs, lo, hi + 1) == count_in_range(rs, lo, hi) + count_at(rs, hi),
    decreases hi - lo,
{
    if lo < hi {
        lemma_count_range_snoc(rs, lo + 1, hi);
    } else {
        assert(count_in_range(rs, lo, hi + 1) == count_at(rs, lo) + count_in_range(
            rs,
            lo + 1,
            hi + 1,
        ));
        assert(count_in_range(rs, lo + 1, hi + 1) == 0);
        assert(count_in_range(rs, lo, hi) == 0);
    }
}

/// Appending one trial adds at most one to a count range.
proof fn lemma_count_range_drop_last(rs: Seq<TrialResult>, lo: int, hi: int)
    requires
        rs.len() > 0,
    ensures
        count_in_range(rs, lo, hi) == count_in_range(rs.drop_last(), lo, hi) + (
        match rs.last().hash_num_tries {
            Some(j) => if lo <= j < hi {
                1int
            } else {
                0int
            },
            None => 0int,
        }),
    decreases hi - lo,
{
    if lo < hi {
        lemma_count_range_drop_last(rs, lo + 1, hi);
    }
}

/// Every successful trial succeeds at exactly one try index in `[1, tries]`,
/// so the per-index counts over that range sum to the success count.
pub proof fn lemma_counts_partition_successes(rs: Seq<TrialResult>, tries: int)
    requires
        forall|i: int| 0 <= i < rs.len() ==> trial_wf(#[trigger] rs[i], tries),
        tries >= 0,
    ensures
        count_in_range(rs, 1, tries + 1) == count_successes(rs),
    decreases rs.len(),
{
    if rs.len() == 0 {
        lemma_count_range_empty(rs, 1, tries + 1);
    } else {
        assert(trial_wf(rs[rs.len() - 1], tries));
        assert(forall|i: int|
            0 <= i < rs.drop_last().len() ==> trial_wf(#[trigger] rs.drop_last()[i], tries));
        lemma_counts_partition_successes(rs.drop_last(), tries);
        lemma_count_range_drop_last(rs, 1, tries + 1);
    }
}

/// An empty trial list counts nothing in any range.
proof fn lemma_count_range_empty(rs: Seq<TrialResult>, lo: int, hi: int)
    requires
        rs.len() == 0,
    ensures
        count_in_range(rs, lo, hi) == 0,
    decreases hi - lo,
{
    if lo < hi {
        lemma_count_range_empty(rs, lo + 1, hi);
    }
}

/// Sum over the try indices in `[lo, hi)` of the index weighted by how many
/// trials first succeeded there.
pub open spec fn weighted_count_in_range(rs: Seq<TrialResult>, lo: int, hi: int) -> int
    decreases hi - lo,
{
    if lo >= hi {
        0
    } else {
        lo * count_at(rs, lo) + weighted_count_in_range(rs, lo + 1, hi)
    }
}

/// An empty trial list weighs nothing in any range.
proof fn lemma_weighted_range_empty(rs: Seq<TrialResult>, lo: int, hi: int)
    requires
        rs.len() == 0,
    ensures
        weighted_count_in_range(rs, lo, hi) == 0,
    decreases hi - lo,
{
    if lo < hi {
        lemma_weighted_range_empty(rs, lo + 1, hi);
    }
}

/// Appending one trial adds its try index to a weighted count range when the
/// index falls inside the range.
proof fn lemma_weighted_range_drop_last(rs: Seq<TrialResult>, lo: int, hi: int)
    requires
        rs.len() > 0,
    ensures
        weighted_count_in_range(rs, lo, hi) == weighted_count_in_range(rs.drop_last(), lo, hi) + (
        match rs.last().hash_num_tries {
            Some(j) => if lo <= j < hi {
                j as int
            } else {
                0int
            },
            None => 0int,
        }),
    decreases hi - lo,
{
    if lo < hi {
        lemma_weighted_range_drop_last(rs, lo + 1, hi);
        let c_old = count_at(rs.drop_last(), lo);
        match rs.last().hash_num_tries {
            Some(j) => {
                if j == lo {
                    assert(count_at(rs, lo) == c_old + 1);
                    assert(lo * (c_old + 1) == lo * c_old + lo) by (nonlinear_arith);
                } else {
                    assert(count_at(rs, lo) == c_old);
                }
            },
            None => {
                assert(count_at(rs, lo) == c_old);
            },
        }
    }
}

/// Every successful trial contributes its try index exactly once, so the
/// per-index counts weighted by their index sum, over the whole budget, to
/// the total of the first-success try indices.
pub proof fn lemma_weighted_counts_sum_tries(rs: Seq<TrialResult>, tries: int)
    requires
        forall|i: int| 0 <= i < rs.len() ==> trial_wf(#[trigger] rs[i], tries),
        tries >= 0,
    ensures
        weighted_count_in_range(rs, 1, tries + 1) == sum_tries(rs),
    decreases rs.len(),
{
    if rs.len() == 0 {
        lemma_weighted_range_empty(rs, 1, tries + 1);
    } else {
        assert(trial_wf(rs[rs.len() - 1], tries));
        assert(forall|i: int|
            0 <= i < rs.drop_last().len() ==> trial_wf(#[trigger] rs.drop_last()[i], tries));
        lemma_weighted_counts_sum_tries(rs.drop_last(), tries);
        lemma_weighted_range_drop_last(rs, 1, tries + 1);
    }
}

/// The summary counts of a run of trials. `times` trials ran, each with
/// `tries_per_time` adversarial tries; the other fields aggregate the
/// per-trial outcomes as the field of `aggregate` states.
pub struct SimResult {
    /// Number of trials.
    pub times: usize,
    /// Adversarial tries per trial.
    pub tries_per_time: usize,
    /// Trials whose adversarial search succeeded.
    pub success_count: usize,
    /// Trials whose structural baseline group already had a quorum.
    pub closest_success_count: usize,
    /// Stalled tries, over all trials.
    pub total_stalled: u128,
    /// Sum of first-success try indices over successful trials.
    pub tries_sum: u128,
    /// For each try index with at least one success, how many trials first
    /// succeeded at exactly that index; ascending by try index.
    pub tries_map: Vec<(usize, usize)>,
}

/// `res` records exactly the summary counts of the trial outcomes `rs`.
pub open spec fn is_aggregate_of(res: SimResult, rs: Seq<TrialResult>, tries: int) -> bool {
    &&& res.times == rs.len()
    &&& res.tries_per_time == tries
    &&& res.success_count == count_successes(rs)
    &&& res.closest_success_count == count_prefix_successes(rs)
    &&& res.total_stalled == sum_stalled(rs)
    &&& res.tries_sum == sum_tries(rs)
    &&& keys_ascending(res.tries_map@)
    &&& forall|k: int| map_count(res.tries_map@, k) == count_at(rs, k)
    &&& map_total(res.tries_map@) == count_successes(rs)
    &&& forall|i: int|
        0 <= i < res.tries_map@.len() ==> 1 <= (#[trigger] res.tries_map@[i]).0 <= tries
            && res.tries_map@[i].1 >= 1
    &&& res.success_count <= res.times
    &&& res.closest_success_count <= res.times
    &&& res.total_stalled <= (rs.len() as int) * tries
    &&& res.tries_sum <= (count_successes(rs)) * tries
    &&& res.tries_sum >= count_successes(rs)
}

/// Aggregates per-trial outcomes into summary counts: how many trials
/// succeeded and at which try, how many baseline groups already had a
/// quorum, and how many tries could be stalled.
pub fn aggregate(results: &Vec<TrialResult>, tries_per_time: usize) -> (r: SimResult)
    requires
        forall|i: int| 0 <= i < results@.len() ==> trial_wf(#[trigger] results@[i], tries_per_time as int),
    ensures
        is_aggregate_of(r, results@, tries_per_time as int),
{
    let ghost rs = results@;
    let n = results.len();
    let mut success_count: usize = 0;
    let mut closest_success_count: usize = 0;
    let mut total_stalled: u128 = 0;
    let mut tries_sum: u128 = 0;
    let mut i: usize = 0;
    proof {
        assert(rs.take(0) =~= Seq::<TrialResult>::empty());
    }
    while i < n
        invariant
            i <= n,
            n == rs.len(),
            rs == results@,
            forall|j: int| 0 <= j < rs.len() ==> trial_wf(#[trigger] rs[j], tries_per_time as int),
            success_count as int == count_successes(rs.take(i as int)),
            closest_success_count as int == count_prefix_successes(rs.take(i as int)),
            total_stalled as int == sum_stalled(rs.take(i as int)),
            tries_sum as int == sum_tries(rs.take(i as int)),
            success_count <= i,
            closest_success_count <= i,
            total_stalled <= (i as u128) * (tries_per_time as u128),
            tries_sum <= (success_count as u128) * (tries_per_time as u128),
            tries_sum >= success_count as u128,
        decreases n - i,
    {
        let t = results[i];
        proof {
            assert(rs.take(i as int + 1).drop_last() =~= rs.take(i as int));
            assert(rs.take(i as int + 1).last() == rs[i as int]);
            assert(trial_wf(rs[i as int], tries_per_time as int));
            assert((i as u128 + 1) * (tries_per_time as u128) == (i as u128) * (
            tries_per_time as u128) + (tries_per_time as u128)) by (nonlinear_arith);
            assert((success_count as u128 + 1) * (tries_per_time as u128) == (
            success_count as u128) * (tries_per_time as u128) + (
            tries_per_time as u128)) by (nonlinear_arith);
            assert((i as u128) * (tries_per_time as u128) <= (u64::MAX as u128) * (
            u64::MAX as u128)) by (nonlinear_arith)
                requires
                    i <= u64::MAX && tries_per_time <= u64::MAX,
            ;
            assert((success_count as u128) * (tries_per_time as u128) <= (u64::MAX as u128) * (
            u64::MAX as u128)) by (nonlinear_arith)
                requires
                    success_count <= u64::MAX && tries_per_time <= u64::MAX,
            ;
        }
        match t.hash_num_tries {
            Some(k) => {
                success_count = success_count + 1;
                tries_sum = tries_sum + k as u128;
            },
            None => {},
        }
        if t.is_closest_to_prefix {
            closest_success_count = closest_success_count + 1;
        }
        total_stalled = total_stalled + t.num_stalled as u128;
        i = i + 1;
    }
    proof {
        assert(rs.take(n as int) =~= rs);
    }
    let mut tries_map: Vec<(usize, usize)> = Vec::new();
    let mut k: u128 = 1;
    proof {
        assert(map_total(tries_map@) == count_in_range(rs, 1, 1));
    }
    while k <= tries_per_time as u128
        invariant
            1 <= k,
            k <= tries_per_time as u128 + 1,
            n == rs.len(),
            rs == results@,
            forall|j: int| 0 <= j < rs.len() ==> trial_wf(#[trigger] rs[j], tries_per_time as int),
            keys_ascending(tries_map@),
            forall|i2: int|
                0 <= i2 < tries_map@.len() ==> 1 <= (#[trigger] tries_map@[i2]).0 < k
                    && tries_map@[i2].1 >= 1,
            forall|k2: int| 1 <= k2 < k ==> map_count(tries_map@, k2) == count_at(rs, k2),
            map_total(tries_map@) == count_in_range(rs, 1, k as int),
        decreases tries_per_time - k + 1,
    {
        let mut c: usize = 0;
        let mut j: usize = 0;
        proof {
            assert(rs.take(0) =~= Seq::<TrialResult>::empty());
        }
        while j < n
            invariant
                j <= n,
                n == rs.len(),
                rs == results@,
                c <= j,
                c as int == count_at(rs.take(j as int), k as int),
            decreases n - j,
        {
            let t = results[j];
            proof {
                assert(rs.take(j as int + 1).drop_last() =~= rs.take(j as int));
                assert(rs.take(j as int + 1).last() == rs[j as int]);
            }
            match t.hash_num_tries {
                Some(idx) => {
                    if idx as u128 == k {
                        c = c + 1;
                    }
                },
                None => {},
            }
            j = j + 1;
        }
        proof {
            assert(rs.take(n as int) =~= rs);
        }
        let ghost old_map = tries_map@;
        if c > 0 {
            tries_map.push((k as usize, c));
        }
        proof {
            lemma_count_range_snoc(rs, 1, k as int);
            if c > 0 {
                assert(tries_map@.drop_last() =~= old_map);
                assert forall|k2: int| 1 <= k2 < k + 1 implies map_count(tries_map@, k2)
                    == count_at(rs, k2) by {
                    if k2 < k {
                        assert(map_count(old_map, k2) == count_at(rs, k2));
                    } else {
                        assert(map_count(old_map, k2) == 0) by {
                            lemma_map_count_absent(old_map, k2);
                        }
                    }
                }
            } else {
                assert forall|k2: int| 1 <= k2 < k + 1 implies map_count(tries_map@, k2)
                    == count_at(rs, k2) by {
                    if k2 == k {
                        assert(map_count(old_map, k2) == 0) by {
                            lemma_map_count_absent(old_map, k2);
                        }
                    }
                }
            }
        }
        k = k + 1;
    }
    proof {
        lemma_counts_partition_successes(rs, tries_per_time as int);
        assert forall|k2: int| map_count(tries_map@, k2) == count_at(rs, k2) by {
            if !(1 <= k2 && k2 <= tries_per_time) {
                lemma_map_count_absent(tries_map@, k2);
                lemma_count_at_outside(rs, tries_per_time as int, k2);
            }
        }
    }
    SimResult {
        times: n,
        tries_per_time,
        success_count,
        closest_success_count,
        total_stalled,
        tries_sum,
        tries_map,
    }
}

} // verus!
