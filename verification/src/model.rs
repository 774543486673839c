//! Mathematical model of identifier collections: the sequence and set of
//! identifier values carried by a vector, and sums of weights over such sets.

use vstd::prelude::*;
use crate::id::{U256, ID_BYTES};

verus! {

/// Every identifier in the vector holds exactly 32 bytes.
pub open spec fn ids_sized(v: Seq<U256>) -> bool {
    forall|i: int| 0 <= i < v.len() ==> (#[trigger] v[i]@).len() == ID_BYTES
}

/// Copies a vector of identifiers, value for value.
pub fn clone_id_vec(v: &Vec<U256>) -> (r: Vec<U256>)
    ensures
        id_seq(r@) == id_seq(v@),
        r@.len() == v@.len(),
{
    let mut r: Vec<U256> = Vec::new();
    let mut i: usize = 0;
    while i < v.len()
        invariant
            i <= v@.len(),
            r@.len() == i,
            forall|j: int| 0 <= j < i ==> (#[trigger] r@[j]@) == v@[j]@,
        decreases v@.len() - i,
    {
        let x = v[i].clone();
        r.push(x);
        i = i + 1;
    }
    proof {
        assert(id_seq(r@) =~= id_seq(v@));
    }
    r
}

/// The identifier values of a vector of identifiers, in order.
pub open spec fn id_seq(v: Seq<U256>) -> Seq<Seq<u8>> {
    v.map_values(|x: U256| x@)
}

/// The set of identifier values of a vector of identifiers.
pub open spec fn id_set(v: Seq<U256>) -> Set<Seq<u8>> {
    id_seq(v).to_set()
}

/// No two entries of the vector hold the same identifier value.
pub open spec fn unique_ids(v: Seq<U256>) -> bool {
    id_seq(v).no_duplicates()
}

/// The set view is finite, no larger than the vector, and membership in it is
/// membership in the sequence.
pub broadcast proof fn lemma_id_set_basics(v: Seq<U256>)
    ensures
        #[trigger] id_set(v).finite(),
        id_set(v).len() <= v.len(),
        forall|x: Seq<u8>|
            id_set(v).contains(x) <==> exists|i: int|
                0 <= i < v.len() && #[trigger] (v[i]@) == x,
{
    broadcast use vstd::seq_lib::seq_to_set_is_finite;

    id_seq(v).lemma_cardinality_of_set();
    assert forall|x: Seq<u8>| #[trigger]
        id_set(v).contains(x) implies exists|i: int| 0 <= i < v.len() && #[trigger] (v[i]@)
        == x by {
        let i = choose|i: int| 0 <= i < id_seq(v).len() && id_seq(v)[i] == x;
        assert(v[i]@ == x);
    }
    assert forall|x: Seq<u8>| (exists|i: int| 0 <= i < v.len() && #[trigger] (v[i]@) == x)
        implies id_set(v).contains(x) by {
        let i = choose|i: int| 0 <= i < v.len() && #[trigger] (v[i]@) == x;
        assert(id_seq(v)[i] == x);
        assert(id_seq(v).contains(x));
    }
}

/// A vector of unique identifiers has exactly as many identifier values.
pub proof fn lemma_unique_id_set_len(v: Seq<U256>)
    requires
        unique_ids(v),
    ensures
        id_set(v).len() == v.len(),
{
    id_seq(v).unique_seq_to_set();
}

/// Growing the vector by one entry grows its sequence of values by one.
pub broadcast proof fn lemma_id_seq_push(v: Seq<U256>, x: U256)
    ensures
        #[trigger] id_seq(v.push(x)) =~= id_seq(v).push(x@),
{
}

/// The set of values of a one-longer prefix is the old set plus the new value.
pub proof fn lemma_id_set_take_push(v: Seq<U256>, i: int)
    requires
        0 <= i < v.len(),
    ensures
        id_set(v.take(i + 1)) =~= id_set(v.take(i)).insert(v[i]@),
{
    assert(v.take(i + 1) =~= v.take(i).push(v[i]));
    lemma_id_seq_push(v.take(i), v[i]);
    assert forall|x: Seq<u8>| #[trigger]
        id_set(v.take(i + 1)).contains(x) implies id_set(v.take(i)).insert(v[i]@).contains(
        x,
    ) by {
        let j = choose|j: int|
            0 <= j < id_seq(v.take(i + 1)).len() && #[trigger] (id_seq(v.take(i + 1))[j]) == x;
        if j < i {
            assert(id_seq(v.take(i))[j] == x);
            assert(id_seq(v.take(i)).contains(x));
        }
    }
    assert forall|x: Seq<u8>| id_set(v.take(i)).insert(v[i]@).contains(x) implies #[trigger]
        id_set(v.take(i + 1)).contains(x) by {
        if id_set(v.take(i)).contains(x) {
            let j = choose|j: int| 0 <= j < id_seq(v.take(i)).len() && id_seq(v.take(i))[j] == x;
            assert(id_seq(v.take(i + 1))[j] == x);
        } else {
            assert(id_seq(v.take(i + 1))[i] == v[i]@);
        }
        assert(id_seq(v.take(i + 1)).contains(x));
    }
}

/// In a vector of unique identifiers, the value at a position is not among
/// the values before it.
pub proof fn lemma_unique_take_not_contains(v: Seq<U256>, i: int)
    requires
        unique_ids(v),
        0 <= i < v.len(),
    ensures
        !id_set(v.take(i)).contains(v[i]@),
{
    if id_set(v.take(i)).contains(v[i]@) {
        let j = choose|j: int| 0 <= j < id_seq(v.take(i)).len() && id_seq(v.take(i))[j] == v[i]@;
        assert(id_seq(v)[j] == id_seq(v)[i]);
    }
}

/// Appending a fresh identifier keeps a vector's identifiers unique.
pub proof fn lemma_unique_push(v: Seq<U256>, x: U256)
    requires
        unique_ids(v),
        !id_set(v).contains(x@),
    ensures
        unique_ids(v.push(x)),
{
    broadcast use vstd::set::group_set_axioms;

    lemma_id_seq_push(v, x);
    assert forall|a: int, b: int| 0 <= a < b < id_seq(v.push(x)).len() implies id_seq(v.push(x))[a]
        != id_seq(v.push(x))[b] by {
        if b == id_seq(v).len() {
            if id_seq(v.push(x))[a] == x@ {
                assert(id_seq(v).contains(x@)) by {
                    assert(id_seq(v)[a] == x@);
                }
            }
        }
    }
}

/// The age a section's age table assigns to an identifier: the entry aligned
/// with the identifier's position among the section's members, or zero for
/// identifiers outside the section.
pub open spec fn age_of_in(section: Seq<U256>, ages: Seq<u8>, x: Seq<u8>) -> int {
    if id_seq(section).contains(x) {
        let i = choose|i: int| 0 <= i < section.len() && #[trigger] (section[i]@) == x;
        ages[i] as int
    } else {
        0
    }
}

/// Looks an identifier's age up in a section's age table; zero for
/// identifiers outside the section.
pub fn lookup_age(section: &Vec<U256>, ages: &Vec<u8>, name: &U256) -> (r: u8)
    requires
        unique_ids(section@),
        ages@.len() == section@.len(),
    ensures
        r as int == age_of_in(section@, ages@, name@),
{
    let mut i: usize = 0;
    while i < section.len()
        invariant
            unique_ids(section@),
            ages@.len() == section@.len(),
            i <= section@.len(),
            forall|j: int| 0 <= j < i ==> (#[trigger] section@[j]@) != name@,
        decreases section@.len() - i,
    {
        if section[i].equals(name) {
            proof {
                assert(id_seq(section@).contains(name@)) by {
                    assert(id_seq(section@)[i as int] == name@);
                }
                let k = choose|k: int|
                    0 <= k < section@.len() && #[trigger] (section@[k]@) == name@;
                assert(id_seq(section@)[k] == id_seq(section@)[i as int]);
                assert(k == i);
            }
            return ages[i];
        }
        i = i + 1;
    }
    proof {
        if id_seq(section@).contains(name@) {
            let j = choose|j: int|
                0 <= j < id_seq(section@).len() && #[trigger] (id_seq(section@)[j]) == name@;
            assert(section@[j]@ == name@);
            assert(false);
        }
    }
    0
}

/// Sum of a weight function over a finite set of identifier values.
pub open spec fn set_sum(s: Set<Seq<u8>>, f: spec_fn(Seq<u8>) -> int) -> int
    recommends
        s.finite(),
{
    s.fold(0, |acc: int, id: Seq<u8>| acc + f(id))
}

/// The sum over the empty set is zero.
pub proof fn lemma_set_sum_empty(f: spec_fn(Seq<u8>) -> int)
    ensures
        set_sum(Set::<Seq<u8>>::empty(), f) == 0,
{
    vstd::set::fold::lemma_fold_empty(0, |acc: int, id: Seq<u8>| acc + f(id));
}

/// Adding a fresh element adds its weight to the sum.
pub proof fn lemma_set_sum_insert(s: Set<Seq<u8>>, f: spec_fn(Seq<u8>) -> int, x: Seq<u8>)
    requires
        s.finite(),
        !s.contains(x),
    ensures
        set_sum(s.insert(x), f) == set_sum(s, f) + f(x),
{
    vstd::set::fold::lemma_fold_insert(s, 0, |acc: int, id: Seq<u8>| acc + f(id), x);
}

} // verus!
