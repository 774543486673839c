//! The Monte Carlo trial driver: generates one section per trial, searches
//! for an adversarial input whose hash selects a quorum-controlled close
//! group, counts stallable tries, and aggregates all trials.

use vstd::prelude::*;
use crate::aggregate::{TrialResult, SimResult, trial_wf, is_aggregate_of, aggregate};
use crate::basic::BasicSectionData;
use crate::ageing::NodeAgeingSectionData;
use crate::ranks::NodeAgeingIndexWeights;
use crate::policy::{
    SectionData, has_malicious_prefix_close_group, has_malicious_close_group, can_stall_data,
};
use crate::group::is_close_group;
use crate::model::{id_seq, id_set, unique_ids};
use crate::gen::{gen_names, gen_malicious};
use crate::id::U256;
use crate::rng::new_rng;

verus! {

/// Bytes of fresh random input hashed to obtain each try's search point.
pub const SEARCH_INPUT_LEN: usize = 1000;

/// The quorum-weighting policy a run evaluates.
#[derive(Clone, Copy, PartialEq, Eq, Structural)]
pub enum Strategy {
    /// Raw majority headcount.
    Basic,
    /// Majority weighted by summed ages.
    NodeAgeingQuorum,
    /// Majority weighted by age-rank positions.
    NodeAgeingIndexWeights,
}

/// Why a simulation could not run.
#[derive(Clone, Copy, PartialEq, Eq, Structural, Debug)]
pub enum SimError {
    /// The population size is zero.
    ZeroPopulation,
    /// The adversarial subset would be larger than the population.
    AdversaryTooLarge,
    /// The close group would be larger than the population.
    GroupTooLarge,
    /// Random sampling exhausted its retry budget while generating a section.
    GenerationFailed,
}

/// A simulation configuration: close-group size, population size, and
/// adversarial-subset size.
#[derive(Clone, Copy, Debug)]
pub struct Simulation {
    /// Close-group cardinality used by the selector.
    pub group_size: usize,
    /// Number of identifiers in each generated section.
    pub network_size: usize,
    /// Number of adversarial members in each generated section.
    pub quorum_size: usize,
}

/// A valid configuration: a non-empty population not exceeded by the
/// adversarial subset or the close group.
pub open spec fn config_valid(group_size: int, network_size: int, quorum_size: int) -> bool {
    &&& network_size >= 1
    &&& quorum_size <= network_size
    &&& group_size <= network_size
}

impl Simulation {
    /// Validates and builds a configuration. Rejects a zero population, an
    /// adversarial subset larger than the population, and a close group
    /// larger than the population, in that order of checks.
    pub fn new(group_size: usize, network_size: usize, quorum_size: usize) -> (r: Result<
        Simulation,
        SimError,
    >)
        ensures
            config_valid(group_size as int, network_size as int, quorum_size as int)
                <==> (r matches Ok(s) && s.group_size == group_size && s.network_size
                == network_size && s.quorum_size == quorum_size),
            network_size == 0 ==> r == Result::<Simulation, SimError>::Err(
                SimError::ZeroPopulation,
            ),
            network_size >= 1 && quorum_size > network_size ==> r == Result::<
                Simulation,
                SimError,
            >::Err(SimError::AdversaryTooLarge),
            network_size >= 1 && quorum_size <= network_size && group_size > network_size ==> r
                == Result::<Simulation, SimError>::Err(SimError::GroupTooLarge),
    {
        if network_size == 0 {
            Err(SimError::ZeroPopulation)
        } else if quorum_size > network_size {
            Err(SimError::AdversaryTooLarge)
        } else if group_size > network_size {
            Err(SimError::GroupTooLarge)
        } else {
            Ok(Simulation { group_size, network_size, quorum_size })
        }
    }

    /// The close group of a section around a point, of this configuration's
    /// group size.
    pub fn close_group(&self, section: &Vec<U256>, point: &U256) -> (r: Vec<U256>)
        requires
            unique_ids(section@),
        ensures
            is_close_group(id_seq(section@), point@, self.group_size as int, id_seq(r@)),
            unique_ids(r@),
    {
        crate::group::close_group(section, point, self.group_size)
    }

    /// Generates one section and its adversarial subset; `None` if random
    /// sampling exhausts its retry budget.
    pub fn generate_section(&self, rng: &mut rand::rngs::ThreadRng) -> (r: Option<
        (Vec<U256>, Vec<U256>),
    >)
        requires
            self.quorum_size <= self.network_size,
        ensures
            r matches Some(p) ==> p.0@.len() == self.network_size && unique_ids(p.0@)
                && p.1@.len() == self.quorum_size && unique_ids(p.1@) && id_set(
                p.1@,
            ).subset_of(id_set(p.0@)),
    {
        let section = match gen_names(rng, self.network_size) {
            Some(v) => v,
            None => {
                return None;
            },
        };
        let malicious = match gen_malicious(rng, &section, self.quorum_size) {
            Some(v) => v,
            None => {
                return None;
            },
        };
        Some((section, malicious))
    }

    /// Runs `times` independent trials of `tries_per_time` adversarial tries
    /// each, in parallel, and aggregates their outcomes. Fails only when a
    /// trial's random sampling exhausts its retry budget.
    pub fn run(&self, times: usize, tries_per_time: usize, strategy: Strategy) -> (r: Result<
        SimResult,
        SimError,
    >)
        requires
            config_valid(
                self.group_size as int,
                self.network_size as int,
                self.quorum_size as int,
            ),
            self.group_size >= 1,
            self.network_size <= usize::MAX / 5,
        ensures
            r matches Ok(res) ==> exists|rs: Seq<TrialResult>|
                rs.len() == times && (forall|i: int|
                    0 <= i < rs.len() ==> trial_wf(#[trigger] rs[i], tries_per_time as int)
                        && trial_for_strategy(
                        self.group_size as int,
                        self.network_size as int,
                        self.quorum_size as int,
                        tries_per_time as int,
                        strategy,
                        rs[i],
                    )) && is_aggregate_of(res, rs, tries_per_time as int),
            r matches Err(e) ==> e == SimError::GenerationFailed,
            times == 0 ==> r is Ok,
    {
        let outcomes = run_trials_parallel(
            self.group_size,
            self.network_size,
            self.quorum_size,
            times,
            tries_per_time,
            strategy,
        );
        let mut results: Vec<TrialResult> = Vec::new();
        let mut i: usize = 0;
        while i < times
            invariant
                i <= times,
                outcomes@.len() == times,
                forall|j: int|
                    0 <= j < outcomes@.len() ==> trial_output_ok(
                        #[trigger] outcomes@[j],
                        self.group_size as int,
                        self.network_size as int,
                        self.quorum_size as int,
                        tries_per_time as int,
                        strategy,
                    ),
                results@.len() == i,
                forall|j: int|
                    0 <= j < results@.len() ==> trial_wf(
                        #[trigger] results@[j],
                        tries_per_time as int,
                    ) && trial_for_strategy(
                        self.group_size as int,
                        self.network_size as int,
                        self.quorum_size as int,
                        tries_per_time as int,
                        strategy,
                        results@[j],
                    ),
            decreases times - i,
        {
            match outcomes[i] {
                Some(t) => {
                    results.push(t);
                },
                None => {
                    return Err(SimError::GenerationFailed);
                },
            }
            i = i + 1;
        }
        let res = aggregate(&results, tries_per_time);
        Ok(res)
    }
}

/// The drawn search inputs of one trial: one fresh buffer per try, each of
/// the fixed search-input length.
pub open spec fn search_inputs_wf(inputs: Seq<Seq<u8>>, tries: int) -> bool {
    &&& inputs.len() == tries
    &&& forall|j: int| 0 <= j < inputs.len() ==> (#[trigger] inputs[j]).len() == SEARCH_INPUT_LEN
}

/// How many of the drawn inputs hash to a point whose close group the
/// adversary can stall.
pub open spec fn spec_stall_count<S: SectionData>(data: &S, inputs: Seq<Seq<u8>>) -> int
    decreases inputs.len(),
{
    if inputs.len() == 0 {
        0
    } else {
        spec_stall_count(data, inputs.drop_last()) + if crate::policy::spec_stall_at(
            data,
            crate::hash::sha3_of(inputs.last()),
        ) {
            1int
        } else {
            0int
        }
    }
}

/// `r` records one trial of `data` over the drawn inputs exactly as the
/// engine evaluates them: the baseline flag is the quorum verdict on the
/// close group around the all-zero point; the recorded try index is the
/// first whose hashed point has a quorum verdict, and `None` when no try
/// has one; the stall counter counts exactly the tries whose hashed point
/// has a stall verdict.
pub open spec fn is_trial_of<S: SectionData>(
    data: &S,
    inputs: Seq<Seq<u8>>,
    r: TrialResult,
) -> bool {
    &&& r.is_closest_to_prefix == crate::policy::spec_quorum_at(data, crate::id::zero_id())
    &&& match r.hash_num_tries {
        Some(k) => {
            &&& 1 <= k <= inputs.len()
            &&& crate::policy::spec_quorum_at(data, crate::hash::sha3_of(inputs[k as int - 1]))
            &&& forall|j: int|
                0 <= j < k as int - 1 ==> !crate::policy::spec_quorum_at(
                    data,
                    crate::hash::sha3_of(#[trigger] inputs[j]),
                )
        },
        None => forall|j: int|
            0 <= j < inputs.len() ==> !crate::policy::spec_quorum_at(
                data,
                crate::hash::sha3_of(#[trigger] inputs[j]),
            ),
    }
    &&& r.num_stalled == spec_stall_count(data, inputs)
}

/// The generated data one trial ran on: well-formed, with the configured
/// group size, population size, and adversary count.
pub open spec fn section_data_ok<S: SectionData>(
    data: &S,
    group_size: int,
    network_size: int,
    quorum_size: int,
) -> bool {
    &&& data.wf()
    &&& data.spec_group_size() == group_size
    &&& data.spec_section().len() == network_size
    &&& data.spec_malicious().len() == quorum_size
}

/// `t` is a faithful trial outcome for the strategy at this configuration:
/// some well-formed generated section of the configured sizes, and some
/// drawn inputs, one per try, that `t` records exactly.
pub open spec fn trial_for_strategy(
    group_size: int,
    network_size: int,
    quorum_size: int,
    tries: int,
    strategy: Strategy,
    t: TrialResult,
) -> bool {
    match strategy {
        Strategy::Basic => exists|d: BasicSectionData, inputs: Seq<Seq<u8>>|
            section_data_ok(&d, group_size, network_size, quorum_size) && search_inputs_wf(
                inputs,
                tries,
            ) && #[trigger] is_trial_of(&d, inputs, t),
        Strategy::NodeAgeingQuorum => exists|d: NodeAgeingSectionData, inputs: Seq<Seq<u8>>|
            section_data_ok(&d, group_size, network_size, quorum_size) && search_inputs_wf(
                inputs,
                tries,
            ) && #[trigger] is_trial_of(&d, inputs, t),
        Strategy::NodeAgeingIndexWeights => exists|d: NodeAgeingIndexWeights, inputs: Seq<Seq<u8>>|
            section_data_ok(&d, group_size, network_size, quorum_size) && search_inputs_wf(
                inputs,
                tries,
            ) && #[trigger] is_trial_of(&d, inputs, t),
    }
}

/// The configurations a single trial accepts: a valid configuration with a
/// non-empty close group and a population within the churn sampler's range.
pub open spec fn one_trial_config_ok(group_size: int, network_size: int, quorum_size: int) -> bool {
    &&& config_valid(group_size, network_size, quorum_size)
    &&& group_size >= 1
    &&& network_size <= usize::MAX as int / 5
}

/// Whether a trial outcome is consistent with the try budget and faithful to
/// the strategy at this configuration; holds of every element the parallel
/// driver hands back.
pub open spec fn trial_output_ok(
    o: Option<TrialResult>,
    group_size: int,
    network_size: int,
    quorum_size: int,
    tries: int,
    strategy: Strategy,
) -> bool {
    o matches Some(t) ==> trial_wf(t, tries) && trial_for_strategy(
        group_size,
        network_size,
        quorum_size,
        tries,
        strategy,
        t,
    )
}

/// Relies on rayon's parallel iterator: `map` applies the verified
/// `run_one_trial` to each of `times` independent trial indices and `collect`
/// returns the outputs in order, one per trial.
#[verifier::external_body]
fn run_trials_parallel(
    group_size: usize,
    network_size: usize,
    quorum_size: usize,
    times: usize,
    tries: usize,
    strategy: Strategy,
) -> (r: Vec<Option<TrialResult>>)
    ensures
        r@.len() == times,
        forall|i: int|
            0 <= i < r@.len() ==> trial_output_ok(
                #[trigger] r@[i],
                group_size as int,
                network_size as int,
                quorum_size as int,
                tries as int,
                strategy,
            ),
{
    rayon::iter::ParallelIterator::collect(
        rayon::iter::ParallelIterator::map(
            rayon::iter::IntoParallelIterator::into_par_iter(0..times),
            |_| run_one_trial(group_size, network_size, quorum_size, tries, strategy),
        ),
    )
}

/// Runs one self-contained trial with its own random source: generates a
/// section under the chosen strategy and searches it. `None` when the
/// configuration is invalid or random sampling exhausts its retry budget.
pub fn run_one_trial(
    group_size: usize,
    network_size: usize,
    quorum_size: usize,
    tries: usize,
    strategy: Strategy,
) -> (r: Option<TrialResult>)
    ensures
        trial_output_ok(
            r,
            group_size as int,
            network_size as int,
            quorum_size as int,
            tries as int,
            strategy,
        ),
        !one_trial_config_ok(group_size as int, network_size as int, quorum_size as int) ==> r
            is None,
{
    if network_size == 0 || quorum_size > network_size || group_size > network_size || group_size
        == 0 || network_size > usize::MAX / 5 {
        return None;
    }
    let mut rng = new_rng();
    match strategy {
        Strategy::Basic => {
            let data = match BasicSectionData::new(&mut rng, group_size, network_size, quorum_size) {
                Some(d) => d,
                None => {
                    return None;
                },
            };
            let t = run_trial_core(&data, &mut rng, tries);
            proof {
                let inputs = choose|inputs: Seq<Seq<u8>>|
                    search_inputs_wf(inputs, tries as int) && #[trigger] is_trial_of(
                        &data,
                        inputs,
                        t,
                    );
                assert(section_data_ok(
                    &data,
                    group_size as int,
                    network_size as int,
                    quorum_size as int,
                ) && search_inputs_wf(inputs, tries as int) && is_trial_of(&data, inputs, t));
            }
            Some(t)
        },
        Strategy::NodeAgeingQuorum => {
            let data = match NodeAgeingSectionData::new(
                &mut rng,
                group_size,
                network_size,
                quorum_size,
            ) {
                Some(d) => d,
                None => {
                    return None;
                },
            };
            let t = run_trial_core(&data, &mut rng, tries);
            proof {
                let inputs = choose|inputs: Seq<Seq<u8>>|
                    search_inputs_wf(inputs, tries as int) && #[trigger] is_trial_of(
                        &data,
                        inputs,
                        t,
                    );
                assert(section_data_ok(
                    &data,
                    group_size as int,
                    network_size as int,
                    quorum_size as int,
                ) && search_inputs_wf(inputs, tries as int) && is_trial_of(&data, inputs, t));
            }
            Some(t)
        },
        Strategy::NodeAgeingIndexWeights => {
            let data = match NodeAgeingIndexWeights::new(
                &mut rng,
                group_size,
                network_size,
                quorum_size,
            ) {
                Some(d) => d,
                None => {
                    return None;
                },
            };
            let t = run_trial_core(&data, &mut rng, tries);
            proof {
                let inputs = choose|inputs: Seq<Seq<u8>>|
                    search_inputs_wf(inputs, tries as int) && #[trigger] is_trial_of(
                        &data,
                        inputs,
                        t,
                    );
                assert(section_data_ok(
                    &data,
                    group_size as int,
                    network_size as int,
                    quorum_size as int,
                ) && search_inputs_wf(inputs, tries as int) && is_trial_of(&data, inputs, t));
            }
            Some(t)
        },
    }
}

/// Searches one generated section: evaluates the structural baseline around
/// the all-zero point, then draws `tries` random inputs, hashes each to a
/// search point, records the first try whose close group has an adversarial
/// quorum, and counts every try whose close group the adversary can stall.
pub fn run_trial_core<S: SectionData>(
    data: &S,
    rng: &mut rand::rngs::ThreadRng,
    tries: usize,
) -> (r: TrialResult)
    requires
        data.wf(),
        data.spec_group_size() >= 1,
        data.spec_section().len() >= 1,
    ensures
        trial_wf(r, tries as int),
        r.is_closest_to_prefix == crate::policy::spec_quorum_at(data, crate::id::zero_id()),
        exists|inputs: Seq<Seq<u8>>|
            search_inputs_wf(inputs, tries as int) && #[trigger] is_trial_of(data, inputs, r),
        tries == 0 ==> r.hash_num_tries is None && r.num_stalled == 0,
{
    let is_closest_to_prefix = has_malicious_prefix_close_group(data);
    let mut hash_num_tries: Option<usize> = None;
    let mut num_stalled: usize = 0;
    let mut t: usize = 0;
    let ghost mut inputs: Seq<Seq<u8>> = Seq::empty();
    while t < tries
        invariant
            data.wf(),
            data.spec_group_size() >= 1,
            data.spec_section().len() >= 1,
            t <= tries,
            inputs.len() == t,
            forall|j: int|
                0 <= j < inputs.len() ==> (#[trigger] inputs[j]).len() == SEARCH_INPUT_LEN,
            num_stalled <= t,
            num_stalled == spec_stall_count(data, inputs),
            match hash_num_tries {
                Some(k) => {
                    &&& 1 <= k <= t
                    &&& crate::policy::spec_quorum_at(
                        data,
                        crate::hash::sha3_of(inputs[k as int - 1]),
                    )
                    &&& forall|j: int|
                        0 <= j < k as int - 1 ==> !crate::policy::spec_quorum_at(
                            data,
                            crate::hash::sha3_of(#[trigger] inputs[j]),
                        )
                },
                None => forall|j: int|
                    0 <= j < inputs.len() ==> !crate::policy::spec_quorum_at(
                        data,
                        crate::hash::sha3_of(#[trigger] inputs[j]),
                    ),
            },
        decreases tries - t,
    {
        let mut input: Vec<u8> = Vec::new();
        let mut b: usize = 0;
        while b < SEARCH_INPUT_LEN
            invariant
                input@.len() == b,
                b <= SEARCH_INPUT_LEN,
            decreases SEARCH_INPUT_LEN - b,
        {
            input.push(0u8);
            b = b + 1;
        }
        crate::rng::rng_fill(rng, &mut input);
        let ghost prev = inputs;
        proof {
            inputs = inputs.push(input@);
            assert(inputs.drop_last() =~= prev);
            assert(inputs.last() == input@);
        }
        let point = crate::hash::sha3_256(input.as_slice());
        let quorum = has_malicious_close_group(data, &point);
        let stall = can_stall_data(data, &point);
        proof {
            assert(spec_stall_count(data, inputs) == spec_stall_count(data, prev) + if stall {
                1int
            } else {
                0int
            });
        }
        if quorum && hash_num_tries.is_none() {
            hash_num_tries = Some(t + 1);
        }
        if stall {
            num_stalled = num_stalled + 1;
        }
        t = t + 1;
    }
    let r = TrialResult { is_closest_to_prefix, hash_num_tries, num_stalled };
    proof {
        assert(search_inputs_wf(inputs, tries as int) && is_trial_of(data, inputs, r));
    }
    r
}

/// A configuration holder for driving basic-policy simulations.
#[derive(Clone, Copy)]
pub struct SimStruct {
    /// Close-group cardinality used by the selector.
    pub group_size: usize,
    /// Number of identifiers in each generated section.
    pub network_size: usize,
    /// Number of adversarial members in each generated section.
    pub quorum_size: usize,
}

impl SimStruct {
    /// Builds the configuration holder.
    pub fn new(group_size: usize, network_size: usize, quorum_size: usize) -> (r: SimStruct)
        ensures
            r.group_size == group_size,
            r.network_size == network_size,
            r.quorum_size == quorum_size,
    {
        SimStruct { group_size, network_size, quorum_size }
    }

    /// Generates one basic-policy section under this configuration; `None`
    /// if random sampling exhausts its retry budget.
    pub fn generate_section(&self, rng: &mut rand::rngs::ThreadRng) -> (r: Option<
        BasicSectionData,
    >)
        requires
            self.quorum_size <= self.network_size,
        ensures
            r matches Some(d) ==> d.wf() && d.spec_group_size() == self.group_size
                && d.spec_section().len() == self.network_size && d.spec_malicious().len()
                == self.quorum_size,
    {
        BasicSectionData::new(rng, self.group_size, self.network_size, self.quorum_size)
    }
}

} // verus!
