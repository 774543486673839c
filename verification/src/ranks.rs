//! The age-rank weighted policy: group members are ranked ascending by age
//! (ties broken by ascending distance to the all-zero point, which is the
//! identifier's own value), and the adversary must hold both a raw majority
//! and a rank sum above a weight limit to force the outcome.

use vstd::prelude::*;
use crate::id::{U256, lex_lt};
use crate::model::{
    id_seq, id_set, unique_ids, ids_sized, clone_id_vec, lemma_unique_id_set_len,
    lemma_id_set_take_push, lemma_unique_take_not_contains, set_sum, lemma_set_sum_empty,
    lemma_set_sum_insert, age_of_in, lookup_age,
};
use crate::policy::{
    SectionData, contains_id, count_ids_in, count_malicious_ids, strict_majority, half_or_more,
};
use crate::gen::{gen_names, gen_malicious, gen_ages};

verus! {

/// A generated section whose members carry churn-based ages, with quorum
/// weighted by the adversarial share of the group's age-rank positions.
/// Every operation requires the well-formedness stated by `wf`, which the
/// generating constructor establishes.
pub struct NodeAgeingIndexWeights {
    /// Close-group cardinality used by the selector.
    pub group_size: usize,
    /// The section's members, unique identifiers.
    pub section: Vec<U256>,
    /// The age of each section member, aligned with `section`.
    pub ages: Vec<u8>,
    /// The adversarial subset, drawn from the section.
    pub malicious: Vec<U256>,
}

impl NodeAgeingIndexWeights {
    /// The age of an identifier: its entry in the section's age table, or
    /// zero for identifiers outside the section.
    pub open spec fn spec_age_of(&self, x: Seq<u8>) -> int {
        age_of_in(self.section@, self.ages@, x)
    }

    /// The ranking order: ascending by age, ties broken by ascending
    /// identifier value (the distance to the all-zero point).
    pub open spec fn spec_key_lt(&self, a: Seq<u8>, b: Seq<u8>) -> bool {
        ||| self.spec_age_of(a) < self.spec_age_of(b)
        ||| (self.spec_age_of(a) == self.spec_age_of(b) && lex_lt(a, b))
    }

    /// The 0-based rank of a group member: how many members of the group
    /// precede it in the ranking order.
    pub open spec fn spec_rank(&self, g: Set<Seq<u8>>, x: Seq<u8>) -> int {
        g.filter(|y: Seq<u8>| self.spec_key_lt(y, x)).len() as int
    }

    /// The summed ranks of the group's adversarial members.
    pub open spec fn spec_rank_sum(&self, g: Set<Seq<u8>>) -> int {
        set_sum(g.intersect(id_set(self.malicious@)), |x: Seq<u8>| self.spec_rank(g, x))
    }

    /// The rank-sum threshold for a quorum: with `t` three quarters of the
    /// configured group size, the sum of the `t` lowest ranks.
    pub open spec fn spec_weight_limit(&self) -> int {
        let t = 3 * (self.group_size as int) / 4;
        t * (t - 1) / 2
    }

    /// The largest possible rank sum over a full group.
    pub open spec fn spec_total_indices(&self) -> int {
        (self.group_size as int) * ((self.group_size as int) - 1) / 2
    }

    /// Generates a section of `size` unique identifiers with ages and an
    /// adversarial subset of `n_malicious` of them; `None` if random
    /// sampling exhausts its retry budget.
    pub fn new(
        rng: &mut rand::rngs::ThreadRng,
        group_size: usize,
        size: usize,
        n_malicious: usize,
    ) -> (r: Option<NodeAgeingIndexWeights>)
        requires
            n_malicious <= size,
            1 <= size <= usize::MAX / 5,
        ensures
            r matches Some(d) ==> d.wf() && d.spec_group_size() == group_size
                && d.spec_section().len() == size && d.spec_malicious().len() == n_malicious,
    {
        let section = match gen_names(rng, size) {
            Some(v) => v,
            None => {
                return None;
            },
        };
        let malicious = match gen_malicious(rng, &section, n_malicious) {
            Some(v) => v,
            None => {
                return None;
            },
        };
        let ages = gen_ages(rng, &section);
        proof {
            lemma_unique_id_set_len(malicious@);
        }
        Some(NodeAgeingIndexWeights { group_size, section, ages, malicious })
    }

    /// Whether `a` precedes `b` in the ranking order.
    fn key_lt(&self, a: &U256, b: &U256) -> (r: bool)
        requires
            self.wf(),
        ensures
            r == self.spec_key_lt(a@, b@),
    {
        let aa = lookup_age(&self.section, &self.ages, a);
        let ab = lookup_age(&self.section, &self.ages, b);
        aa < ab || (aa == ab && crate::id::id_le(a, b) && !a.equals(b))
    }

    /// The 0-based rank of `x` within the group.
    fn rank_of(&self, group: &Vec<U256>, x: &U256) -> (r: usize)
        requires
            self.wf(),
            unique_ids(group@),
        ensures
            r as int == self.spec_rank(id_set(group@), x@),
            r <= group@.len(),
    {
        broadcast use vstd::set::group_set_axioms;

        let ghost pred = |y: Seq<u8>| self.spec_key_lt(y, x@);
        let mut count: usize = 0;
        let mut j: usize = 0;
        proof {
            assert(id_seq(group@.take(0)) =~= Seq::<Seq<u8>>::empty());
            assert(id_set(group@.take(0)).filter(pred) =~= Set::<Seq<u8>>::empty());
        }
        while j < group.len()
            invariant
                self.wf(),
                unique_ids(group@),
                j <= group@.len(),
                count <= j,
                pred == (|y: Seq<u8>| self.spec_key_lt(y, x@)),
                id_set(group@.take(j as int)).filter(pred).finite(),
                count as int == id_set(group@.take(j as int)).filter(pred).len(),
            decreases group@.len() - j,
        {
            let ghost pre = id_set(group@.take(j as int));
            let ghost y = group@[j as int]@;
            let below = self.key_lt(&group[j], x);
            proof {
                lemma_id_set_take_push(group@, j as int);
                lemma_unique_take_not_contains(group@, j as int);
                if below {
                    assert(pre.insert(y).filter(pred) =~= pre.filter(pred).insert(y));
                } else {
                    assert(pre.insert(y).filter(pred) =~= pre.filter(pred));
                }
            }
            if below {
                count = count + 1;
            }
            j = j + 1;
        }
        proof {
            assert(group@.take(group@.len() as int) =~= group@);
        }
        count
    }

    /// Sums the ranks of the group's adversarial members.
    fn sum_indices_malicious(&self, group: &Vec<U256>) -> (r: u128)
        requires
            self.wf(),
            unique_ids(group@),
        ensures
            r as int == self.spec_rank_sum(id_set(group@)),
    {
        broadcast use vstd::set::group_set_axioms;

        let ghost gset = id_set(group@);
        let ghost f = |x: Seq<u8>| self.spec_rank(gset, x);
        let ghost mal = id_set(self.malicious@);
        let n = group.len();
        let mut sum: u128 = 0;
        let mut i: usize = 0;
        proof {
            assert(id_seq(group@.take(0)) =~= Seq::<Seq<u8>>::empty());
            assert(id_set(group@.take(0)).intersect(mal) =~= Set::<Seq<u8>>::empty());
            lemma_set_sum_empty(f);
            assert((n as int) * (n as int) <= u128::MAX) by (nonlinear_arith)
                requires
                    n <= u64::MAX,
            ;
        }
        while i < n
            invariant
                self.wf(),
                unique_ids(group@),
                i <= n,
                n == group@.len(),
                gset == id_set(group@),
                f == (|x: Seq<u8>| self.spec_rank(gset, x)),
                mal == id_set(self.malicious@),
                id_set(group@.take(i as int)).intersect(mal).finite(),
                sum as int == set_sum(id_set(group@.take(i as int)).intersect(mal), f),
                sum <= (i as u128) * (n as u128),
                (n as int) * (n as int) <= u128::MAX,
            decreases n - i,
    {
            let ghost pre = id_set(group@.take(i as int));
            let ghost x = group@[i as int]@;
            let m = contains_id(&self.malicious, &group[i]);
            proof {
                lemma_id_set_take_push(group@, i as int);
                lemma_unique_take_not_contains(group@, i as int);
                if m {
                    assert(pre.insert(x).intersect(mal) =~= pre.intersect(mal).insert(x));
                    lemma_set_sum_insert(pre.intersect(mal), f, x);
                } else {
                    assert(pre.insert(x).intersect(mal) =~= pre.intersect(mal));
                }
                assert((i as u128 + 1) * (n as u128) == (i as u128) * (n as u128) + (
                n as u128)) by (nonlinear_arith);
                assert((i as u128 + 1) * (n as u128) <= (n as u128) * (n as u128))
                    by (nonlinear_arith)
                    requires
                        i + 1 <= n,
                ;
            }
            if m {
                let rk = self.rank_of(group, &group[i]);
                sum = sum + rk as u128;
            }
            i = i + 1;
        }
        proof {
            assert(group@.take(group@.len() as int) =~= group@);
        }
        sum
    }

    /// Computes the rank-sum threshold for a quorum.
    fn weight_limit(&self) -> (r: u128)
        ensures
            r as int == self.spec_weight_limit(),
    {
        let gs: u128 = self.group_size as u128;
        let t: u128 = gs * 3 / 4;
        proof {
            assert(t <= gs);
            if t >= 1 {
                assert(t * (t - 1) <= u128::MAX) by (nonlinear_arith)
                    requires
                        1 <= t <= 0xffff_ffff_ffff_ffffu128,
                ;
            }
        }
        if t == 0 {
            0
        } else {
            t * (t - 1) / 2
        }
    }
}

impl SectionData for NodeAgeingIndexWeights {
    open spec fn wf(&self) -> bool {
        &&& unique_ids(self.section@)
        &&& ids_sized(self.section@)
        &&& self.ages@.len() == self.section@.len()
        &&& unique_ids(self.malicious@)
        &&& id_set(self.malicious@).subset_of(id_set(self.section@))
    }

    open spec fn spec_section(&self) -> Seq<U256> {
        self.section@
    }

    open spec fn spec_malicious(&self) -> Set<Seq<u8>> {
        id_set(self.malicious@)
    }

    open spec fn spec_group_size(&self) -> int {
        self.group_size as int
    }

    open spec fn spec_has_quorum(&self, g: Set<Seq<u8>>) -> bool {
        &&& strict_majority(count_malicious_ids(g, self.spec_malicious()), g.len() as int)
        &&& self.spec_rank_sum(g) > self.spec_weight_limit()
    }

    open spec fn spec_can_stall(&self, g: Set<Seq<u8>>) -> bool {
        ||| half_or_more(count_malicious_ids(g, self.spec_malicious()), g.len() as int)
        ||| self.spec_rank_sum(g) >= self.spec_total_indices() - self.spec_weight_limit()
    }

    proof fn lemma_malicious_subset(&self) {
        crate::model::lemma_id_set_basics(self.malicious@);
    }

    proof fn lemma_quorum_implies_stall(&self, g: Set<Seq<u8>>) {
    }

    fn group_size(&self) -> (r: usize) {
        self.group_size
    }

    fn section(&self) -> (r: Vec<U256>) {
        clone_id_vec(&self.section)
    }

    fn is_malicious(&self, name: &U256) -> (r: bool) {
        contains_id(&self.malicious, name)
    }

    fn has_malicious_quorum(&self, group: &Vec<U256>) -> (r: bool) {
        let c = count_ids_in(group, &self.malicious);
        let n = group.len();
        let rs = self.sum_indices_malicious(group);
        let wl = self.weight_limit();
        proof {
            lemma_unique_id_set_len(group@);
        }
        c > n / 2 && rs > wl
    }

    fn can_stall(&self, group: &Vec<U256>) -> (r: bool) {
        let c = count_ids_in(group, &self.malicious);
        let n = group.len();
        let rs = self.sum_indices_malicious(group);
        let wl = self.weight_limit();
        let gs: u128 = self.group_size as u128;
        let total: u128 = if gs == 0 {
            0
        } else {
            proof {
                assert(gs * (gs - 1) <= u128::MAX) by (nonlinear_arith)
                    requires
                        1 <= gs <= u64::MAX,
                ;
            }
            gs * (gs - 1) / 2
        };
        proof {
            lemma_unique_id_set_len(group@);
            lemma_weight_limit_le_total(self.group_size as int);
            assert(wl <= total);
        }
        c > (n - 1) / 2 || rs >= total - wl
    }
}

/// Three quarters of the group size rank no higher in total than the whole
/// group: the weight limit never exceeds the total possible rank sum.
proof fn lemma_weight_limit_le_total(gs: int)
    requires
        gs >= 0,
    ensures
        (3 * gs / 4) * (3 * gs / 4 - 1) / 2 <= gs * (gs - 1) / 2,
{
    let t = 3 * gs / 4;
    assert(t <= gs);
    assert(t * (t - 1) <= gs * (gs - 1)) by (nonlinear_arith)
        requires
            0 <= t <= gs,
    ;
}

} // verus!
