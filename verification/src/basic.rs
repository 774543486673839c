//! The basic majority policy: the adversary forces the outcome with strictly
//! more than half of a group, and stalls it with at least half.

use vstd::prelude::*;
use crate::id::U256;
use crate::model::{id_seq, id_set, unique_ids, ids_sized, clone_id_vec, lemma_unique_id_set_len};
use crate::policy::{
    SectionData, contains_id, count_ids_in, count_malicious_ids, strict_majority, half_or_more,
};
use crate::gen::{gen_names, gen_malicious};

verus! {

/// A generated section with its adversarial subset, judged by raw headcount.
/// Every operation requires the well-formedness stated by `wf`, which the
/// generating constructor establishes.
pub struct BasicSectionData {
    /// Close-group cardinality used by the selector.
    pub group_size: usize,
    /// The section's members, unique identifiers.
    pub section: Vec<U256>,
    /// The adversarial subset, drawn from the section.
    pub malicious: Vec<U256>,
}

impl BasicSectionData {
    /// Generates a section of `size` unique identifiers and an adversarial
    /// subset of `n_malicious` of them; `None` if random sampling exhausts
    /// its retry budget.
    pub fn new(
        rng: &mut rand::rngs::ThreadRng,
        group_size: usize,
        size: usize,
        n_malicious: usize,
    ) -> (r: Option<BasicSectionData>)
        requires
            n_malicious <= size,
        ensures
            r matches Some(d) ==> d.wf() && d.spec_group_size() == group_size
                && d.spec_section().len() == size && d.spec_malicious().len() == n_malicious,
    {
        let section = match gen_names(rng, size) {
            Some(v) => v,
            None => {
                return None;
            },
        };
        let malicious = match gen_malicious(rng, &section, n_malicious) {
            Some(v) => v,
            None => {
                return None;
            },
        };
        proof {
            lemma_unique_id_set_len(malicious@);
        }
        Some(BasicSectionData { group_size, section, malicious })
    }
}

impl SectionData for BasicSectionData {
    open spec fn wf(&self) -> bool {
        &&& unique_ids(self.section@)
        &&& ids_sized(self.section@)
        &&& unique_ids(self.malicious@)
        &&& id_set(self.malicious@).subset_of(id_set(self.section@))
    }

    open spec fn spec_section(&self) -> Seq<U256> {
        self.section@
    }

    open spec fn spec_malicious(&self) -> Set<Seq<u8>> {
        id_set(self.malicious@)
    }

    open spec fn spec_group_size(&self) -> int {
        self.group_size as int
    }

    open spec fn spec_has_quorum(&self, g: Set<Seq<u8>>) -> bool {
        strict_majority(count_malicious_ids(g, self.spec_malicious()), g.len() as int)
    }

    open spec fn spec_can_stall(&self, g: Set<Seq<u8>>) -> bool {
        half_or_more(count_malicious_ids(g, self.spec_malicious()), g.len() as int)
    }

    proof fn lemma_malicious_subset(&self) {
        crate::model::lemma_id_set_basics(self.malicious@);
    }

    proof fn lemma_quorum_implies_stall(&self, g: Set<Seq<u8>>) {
    }

    fn group_size(&self) -> (r: usize) {
        self.group_size
    }

    fn section(&self) -> (r: Vec<U256>) {
        clone_id_vec(&self.section)
    }

    fn is_malicious(&self, name: &U256) -> (r: bool) {
        contains_id(&self.malicious, name)
    }

    fn has_malicious_quorum(&self, group: &Vec<U256>) -> (r: bool) {
        let c = count_ids_in(group, &self.malicious);
        let n = group.len();
        proof {
            lemma_unique_id_set_len(group@);
        }
        c > n / 2
    }

    fn can_stall(&self, group: &Vec<U256>) -> (r: bool) {
        let c = count_ids_in(group, &self.malicious);
        let n = group.len();
        proof {
            lemma_unique_id_set_len(group@);
        }
        c > (n - 1) / 2
    }
}

} // verus!
