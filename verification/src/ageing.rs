//! The age-weighted sum policy: beyond a raw majority, the adversary must
//! hold strictly more than half of the group's total age to force the
//! outcome, and at least half of it (or a raw stall majority) to stall.

use vstd::prelude::*;
use crate::id::U256;
use crate::model::{
    id_seq, id_set, unique_ids, ids_sized, clone_id_vec, lemma_unique_id_set_len,
    lemma_id_set_take_push, lemma_unique_take_not_contains, set_sum, lemma_set_sum_empty,
    lemma_set_sum_insert, age_of_in, lookup_age,
};
use crate::policy::{
    SectionData, contains_id, count_ids_in, count_malicious_ids, strict_majority, half_or_more,
};
use crate::gen::{gen_names, gen_malicious, gen_ages};

verus! {

/// A generated section whose members carry churn-based ages, with quorum
/// weighted by the adversarial share of the group's total age.
/// Every operation requires the well-formedness stated by `wf`, which the
/// generating constructor establishes.
pub struct NodeAgeingSectionData {
    /// Close-group cardinality used by the selector.
    pub group_size: usize,
    /// The section's members, unique identifiers.
    pub section: Vec<U256>,
    /// The age of each section member, aligned with `section`.
    pub ages: Vec<u8>,
    /// The adversarial subset, drawn from the section.
    pub malicious: Vec<U256>,
}

impl NodeAgeingSectionData {
    /// The age of an identifier: its entry in the section's age table, or
    /// zero for identifiers outside the section.
    pub open spec fn spec_age_of(&self, x: Seq<u8>) -> int {
        age_of_in(self.section@, self.ages@, x)
    }

    /// The summed ages of a group's members.
    pub open spec fn spec_total_age(&self, g: Set<Seq<u8>>) -> int {
        set_sum(g, |x: Seq<u8>| self.spec_age_of(x))
    }

    /// The summed ages of a group's adversarial members.
    pub open spec fn spec_malicious_age(&self, g: Set<Seq<u8>>) -> int {
        set_sum(g.intersect(id_set(self.malicious@)), |x: Seq<u8>| self.spec_age_of(x))
    }

    /// Generates a section of `size` unique identifiers with ages and an
    /// adversarial subset of `n_malicious` of them; `None` if random
    /// sampling exhausts its retry budget.
    pub fn new(
        rng: &mut rand::rngs::ThreadRng,
        group_size: usize,
        size: usize,
        n_malicious: usize,
    ) -> (r: Option<NodeAgeingSectionData>)
        requires
            n_malicious <= size,
            1 <= size <= usize::MAX / 5,
        ensures
            r matches Some(d) ==> d.wf() && d.spec_group_size() == group_size
                && d.spec_section().len() == size && d.spec_malicious().len() == n_malicious,
    {
        let section = match gen_names(rng, size) {
            Some(v) => v,
            None => {
                return None;
            },
        };
        let malicious = match gen_malicious(rng, &section, n_malicious) {
            Some(v) => v,
            None => {
                return None;
            },
        };
        let ages = gen_ages(rng, &section);
        proof {
            lemma_unique_id_set_len(malicious@);
        }
        Some(NodeAgeingSectionData { group_size, section, ages, malicious })
    }

    /// Looks an identifier's age up in the section's age table; zero for
    /// identifiers outside the section.
    fn age_of(&self, name: &U256) -> (r: u8)
        requires
            self.wf(),
        ensures
            r as int == self.spec_age_of(name@),
    {
        lookup_age(&self.section, &self.ages, name)
    }

    /// Sums the ages of all group members.
    fn total_age(&self, group: &Vec<U256>) -> (r: u128)
        requires
            self.wf(),
            unique_ids(group@),
        ensures
            r as int == self.spec_total_age(id_set(group@)),
            r <= 255 * group@.len(),
    {
        let ghost f = |x: Seq<u8>| self.spec_age_of(x);
        let mut sum: u128 = 0;
        let mut i: usize = 0;
        proof {
            assert(id_seq(group@.take(0)) =~= Seq::<Seq<u8>>::empty());
            assert(id_set(group@.take(0)) =~= Set::<Seq<u8>>::empty());
            lemma_set_sum_empty(f);
        }
        while i < group.len()
            invariant
                self.wf(),
                unique_ids(group@),
                i <= group@.len(),
                f == (|x: Seq<u8>| self.spec_age_of(x)),
                id_set(group@.take(i as int)).finite(),
                sum as int == set_sum(id_set(group@.take(i as int)), f),
                sum <= 255 * i,
            decreases group@.len() - i,
        {
            let a = self.age_of(&group[i]);
            proof {
                lemma_id_set_take_push(group@, i as int);
                lemma_unique_take_not_contains(group@, i as int);
                lemma_set_sum_insert(id_set(group@.take(i as int)), f, group@[i as int]@);
            }
            sum = sum + a as u128;
            i = i + 1;
        }
        proof {
            assert(group@.take(group@.len() as int) =~= group@);
        }
        sum
    }

    /// Sums the ages of the group's adversarial members.
    fn malicious_age(&self, group: &Vec<U256>) -> (r: u128)
        requires
            self.wf(),
            unique_ids(group@),
        ensures
            r as int == self.spec_malicious_age(id_set(group@)),
            r <= 255 * group@.len(),
    {
        broadcast use vstd::set::group_set_axioms;

        let ghost f = |x: Seq<u8>| self.spec_age_of(x);
        let ghost mal = id_set(self.malicious@);
        let mut sum: u128 = 0;
        let mut i: usize = 0;
        proof {
            assert(id_seq(group@.take(0)) =~= Seq::<Seq<u8>>::empty());
            assert(id_set(group@.take(0)).intersect(mal) =~= Set::<Seq<u8>>::empty());
            lemma_set_sum_empty(f);
        }
        while i < group.len()
            invariant
                self.wf(),
                unique_ids(group@),
                i <= group@.len(),
                f == (|x: Seq<u8>| self.spec_age_of(x)),
                mal == id_set(self.malicious@),
                id_set(group@.take(i as int)).intersect(mal).finite(),
                sum as int == set_sum(id_set(group@.take(i as int)).intersect(mal), f),
                sum <= 255 * i,
            decreases group@.len() - i,
        {
            let ghost pre = id_set(group@.take(i as int));
            let ghost x = group@[i as int]@;
            let m = contains_id(&self.malicious, &group[i]);
            proof {
                lemma_id_set_take_push(group@, i as int);
                lemma_unique_take_not_contains(group@, i as int);
                if m {
                    assert(pre.insert(x).intersect(mal) =~= pre.intersect(mal).insert(x));
                    lemma_set_sum_insert(pre.intersect(mal), f, x);
                } else {
                    assert(pre.insert(x).intersect(mal) =~= pre.intersect(mal));
                }
            }
            if m {
                let a = self.age_of(&group[i]);
                sum = sum + a as u128;
            }
            i = i + 1;
        }
        proof {
            assert(group@.take(group@.len() as int) =~= group@);
        }
        sum
    }
}

impl SectionData for NodeAgeingSectionData {
    open spec fn wf(&self) -> bool {
        &&& unique_ids(self.section@)
        &&& ids_sized(self.section@)
        &&& self.ages@.len() == self.section@.len()
        &&& unique_ids(self.malicious@)
        &&& id_set(self.malicious@).subset_of(id_set(self.section@))
    }

    open spec fn spec_section(&self) -> Seq<U256> {
        self.section@
    }

    open spec fn spec_malicious(&self) -> Set<Seq<u8>> {
        id_set(self.malicious@)
    }

    open spec fn spec_group_size(&self) -> int {
        self.group_size as int
    }

    open spec fn spec_has_quorum(&self, g: Set<Seq<u8>>) -> bool {
        &&& strict_majority(count_malicious_ids(g, self.spec_malicious()), g.len() as int)
        &&& 2 * self.spec_malicious_age(g) > self.spec_total_age(g)
    }

    open spec fn spec_can_stall(&self, g: Set<Seq<u8>>) -> bool {
        ||| half_or_more(count_malicious_ids(g, self.spec_malicious()), g.len() as int)
        ||| 2 * self.spec_malicious_age(g) >= self.spec_total_age(g)
    }

    proof fn lemma_malicious_subset(&self) {
        crate::model::lemma_id_set_basics(self.malicious@);
    }

    proof fn lemma_quorum_implies_stall(&self, g: Set<Seq<u8>>) {
    }

    fn group_size(&self) -> (r: usize) {
        self.group_size
    }

    fn section(&self) -> (r: Vec<U256>) {
        clone_id_vec(&self.section)
    }

    fn is_malicious(&self, name: &U256) -> (r: bool) {
        contains_id(&self.malicious, name)
    }

    fn has_malicious_quorum(&self, group: &Vec<U256>) -> (r: bool) {
        let c = count_ids_in(group, &self.malicious);
        let n = group.len();
        let ma = self.malicious_age(group);
        let ta = self.total_age(group);
        proof {
            lemma_unique_id_set_len(group@);
        }
        c > n / 2 && ma * 2 > ta
    }

    fn can_stall(&self, group: &Vec<U256>) -> (r: bool) {
        let c = count_ids_in(group, &self.malicious);
        let n = group.len();
        let ma = self.malicious_age(group);
        let ta = self.total_age(group);
        proof {
            lemma_unique_id_set_len(group@);
        }
        c > (n - 1) / 2 || ma * 2 >= ta
    }
}

/// A group whose adversarial age sum is exactly half of its total age sum
/// never meets the age-weighted quorum predicate: its age condition is a
/// strict inequality.
pub proof fn lemma_age_tie_is_no_quorum(d: &NodeAgeingSectionData, g: Set<Seq<u8>>)
    requires
        2 * d.spec_malicious_age(g) == d.spec_total_age(g),
    ensures
        !d.spec_has_quorum(g),
{
}

} // verus!
