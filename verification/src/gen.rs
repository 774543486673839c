//! Section generation: unique random identifiers, a random adversarial
//! subset drawn from them, and churn-based ages for the ageing policies.
//!
//! Identifier sampling may collide, so the generators redraw until the
//! requested unique count is reached; a retry budget caps the redraws, and a
//! generator reports failure rather than looping without bound.

use vstd::prelude::*;
use vstd::arithmetic::power2::{pow2, lemma2_to64, lemma_pow2_unfold};
use crate::id::{U256, ID_BYTES};
use crate::model::{id_seq, id_set, unique_ids};
use crate::rng::{rng_fill, rng_range};

verus! {

/// Retries allowed per requested item before a generator gives up.
pub const RETRIES_PER_ITEM: u64 = 64;

/// Extra retries allowed regardless of the requested count.
pub const RETRY_FLOOR: u64 = 1000;

/// The floor of the base-two logarithm; zero for inputs below two.
pub open spec fn log2_floor_spec(n: nat) -> nat
    decreases n,
{
    if n < 2 {
        0
    } else {
        1 + log2_floor_spec(n / 2)
    }
}

/// The logarithm of anything below `pow2(k)` is below `k`.
proof fn lemma_log2_floor_bound(n: nat, k: nat)
    requires
        k >= 1,
        n < pow2(k),
    ensures
        log2_floor_spec(n) < k,
    decreases n,
{
    if n >= 2 {
        lemma_pow2_unfold(k);
        if k == 1 {
            assert(pow2(1) == 2) by {
                lemma2_to64();
            }
            assert(false);
        } else {
            lemma_log2_floor_bound(n / 2, (k - 1) as nat);
        }
    }
}

/// Computes the floor of the base-two logarithm; zero for inputs below two.
pub fn log2_floor(n: usize) -> (r: u8)
    ensures
        r as nat == log2_floor_spec(n as nat),
        r < 64,
    decreases n,
{
    proof {
        lemma2_to64();
        lemma_log2_floor_bound(n as nat, 64);
    }
    if n < 2 {
        0
    } else {
        let sub = log2_floor(n / 2);
        sub + 1
    }
}

/// Draws one uniformly random identifier.
fn random_id(rng: &mut rand::rngs::ThreadRng) -> (r: U256)
{
    let mut buf: Vec<u8> = Vec::new();
    let mut i: usize = 0;
    while i < ID_BYTES
        invariant
            buf@.len() == i,
            i <= ID_BYTES,
        decreases ID_BYTES - i,
    {
        buf.push(0u8);
        i = i + 1;
    }
    rng_fill(rng, &mut buf);
    U256::from_bytes(buf).unwrap()
}

/// Generates exactly `size` unique random identifiers, redrawing on
/// collisions; `None` once the retry budget is exhausted.
pub fn gen_names(rng: &mut rand::rngs::ThreadRng, size: usize) -> (r: Option<Vec<U256>>)
    ensures
        r matches Some(v) ==> v@.len() == size && unique_ids(v@) && crate::model::ids_sized(v@),
{
    let mut names: Vec<U256> = Vec::new();
    let budget: u128 = size as u128 * RETRIES_PER_ITEM as u128 + RETRY_FLOOR as u128;
    let mut attempts: u128 = 0;
    proof {
        assert(id_seq(names@) =~= Seq::<Seq<u8>>::empty());
    }
    while names.len() < size && attempts < budget
        invariant
            attempts <= budget,
            names@.len() <= size,
            unique_ids(names@),
            crate::model::ids_sized(names@),
        decreases budget - attempts,
    {
        attempts = attempts + 1;
        let id = random_id(rng);
        if !crate::policy::contains_id(&names, &id) {
            proof {
                use_type_invariant(&id);
                crate::model::lemma_unique_push(names@, id);
            }
            names.push(id);
        }
    }
    if names.len() == size {
        Some(names)
    } else {
        None
    }
}

/// Draws exactly `n_malicious` distinct members of the section, uniformly at
/// random; `None` once the retry budget is exhausted.
pub fn gen_malicious(
    rng: &mut rand::rngs::ThreadRng,
    section: &Vec<U256>,
    n_malicious: usize,
) -> (r: Option<Vec<U256>>)
    requires
        n_malicious <= section@.len(),
    ensures
        r matches Some(m) ==> m@.len() == n_malicious && unique_ids(m@) && id_set(
            m@,
        ).subset_of(id_set(section@)) && crate::model::ids_sized(m@),
{
    broadcast use vstd::set::group_set_axioms;

    let mut malicious: Vec<U256> = Vec::new();
    let budget: u128 = n_malicious as u128 * RETRIES_PER_ITEM as u128 + RETRY_FLOOR as u128;
    let mut attempts: u128 = 0;
    proof {
        assert(id_seq(malicious@) =~= Seq::<Seq<u8>>::empty());
    }
    while malicious.len() < n_malicious && attempts < budget
        invariant
            attempts <= budget,
            malicious@.len() <= n_malicious,
            n_malicious <= section@.len(),
            unique_ids(malicious@),
            crate::model::ids_sized(malicious@),
            forall|j: int|
                0 <= j < malicious@.len() ==> id_seq(section@).contains(
                    #[trigger] malicious@[j]@,
                ),
        decreases budget - attempts,
    {
        attempts = attempts + 1;
        let index = rng_range(rng, 0, section.len());
        let pick = section[index].clone();
        if !crate::policy::contains_id(&malicious, &pick) {
            proof {
                use_type_invariant(&pick);
                crate::model::lemma_unique_push(malicious@, pick);
                assert(id_seq(section@).contains(pick@)) by {
                    assert(id_seq(section@)[index as int] == pick@);
                }
            }
            malicious.push(pick);
        }
    }
    if malicious.len() == n_malicious {
        proof {
            assert forall|x: Seq<u8>| id_set(malicious@).contains(x) implies id_set(
                section@,
            ).contains(x) by {
                let j = choose|j: int|
                    0 <= j < id_seq(malicious@).len() && #[trigger] (id_seq(malicious@)[j]) == x;
                assert(malicious@[j]@ == x);
            }
        }
        Some(malicious)
    } else {
        None
    }
}

/// Assigns every section member a churn-based age: a random churn step is
/// drawn uniformly below a per-section churn count (itself drawn uniformly
/// from 1.5 to 2.5 times the section size), and the age is the floor of the
/// base-two logarithm of that step.
pub fn gen_ages(rng: &mut rand::rngs::ThreadRng, section: &Vec<U256>) -> (r: Vec<u8>)
    requires
        section@.len() >= 1,
        section@.len() <= usize::MAX / 5,
    ensures
        r@.len() == section@.len(),
        forall|i: int| 0 <= i < r@.len() ==> r@[i] < 64,
{
    let size = section.len();
    let lo = size * 3 / 2;
    let hi = size * 5 / 2;
    proof {
        assert(lo < hi) by {
            assert(size * 5 == size * 3 + 2 * size) by (nonlinear_arith);
            assert((size * 3 + 2 * size) / 2 == size * 3 / 2 + size);
        }
    }
    proof {
        assert(lo >= 1);
    }
    let churn_events = rng_range(rng, lo, hi);
    let mut ages: Vec<u8> = Vec::new();
    let mut i: usize = 0;
    while i < size
        invariant
            i <= size,
            ages@.len() == i,
            churn_events >= 1,
            forall|j: int| 0 <= j < i ==> ages@[j] < 64,
        decreases size - i,
    {
        let churn_step = rng_range(rng, 0, churn_events);
        let age = log2_floor(churn_step);
        ages.push(age);
        i = i + 1;
    }
    ages
}

} // verus!
