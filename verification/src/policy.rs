//! The quorum-policy capability: a generated section with an adversarial
//! subset, evaluated over arbitrary groups of identifiers, together with the
//! derived operations shared by every policy.

use vstd::prelude::*;
use crate::id::{U256, ID_BYTES};
use crate::group::{close_group, is_close_group};
use crate::model::{
    id_seq, id_set, unique_ids, lemma_id_set_take_push, lemma_unique_take_not_contains,
};

verus! {

/// Number of identifiers of the group that are adversarial.
pub open spec fn count_malicious_ids(g: Set<Seq<u8>>, mal: Set<Seq<u8>>) -> int {
    g.intersect(mal).len() as int
}

/// Strictly more than half of `size`.
pub open spec fn strict_majority(count: int, size: int) -> bool {
    2 * count > size
}

/// At least half of `size`; the bar for blocking progress by raw headcount.
pub open spec fn half_or_more(count: int, size: int) -> bool {
    2 * count >= size
}

/// A quorum-weighting policy over one generated section: the section's
/// members, its adversarial subset, and the policy's own quorum and stall
/// predicates over any group of identifiers.
pub trait SectionData: Sized {
    /// The structural invariant of the generated data.
    spec fn wf(&self) -> bool;

    /// The section's members, in generation order.
    spec fn spec_section(&self) -> Seq<U256>;

    /// The identifier values of the adversarial subset.
    spec fn spec_malicious(&self) -> Set<Seq<u8>>;

    /// The close-group cardinality the policy was configured with.
    spec fn spec_group_size(&self) -> int;

    /// Whether the adversary controls enough of the group to force the
    /// policy's outcome.
    spec fn spec_has_quorum(&self, g: Set<Seq<u8>>) -> bool;

    /// Whether the adversary can block the group from making progress.
    spec fn spec_can_stall(&self, g: Set<Seq<u8>>) -> bool;

    /// The adversarial subset is drawn from the section, and the section's
    /// members are distinct 32-byte identifiers.
    proof fn lemma_malicious_subset(&self)
        requires
            self.wf(),
        ensures
            self.spec_malicious().finite(),
            self.spec_malicious().subset_of(id_set(self.spec_section())),
            unique_ids(self.spec_section()),
            forall|i: int|
                0 <= i < self.spec_section().len() ==> (#[trigger] self.spec_section()[i]@).len()
                    == ID_BYTES,
    ;

    /// Quorum control is at least as strong as stalling: a group the
    /// adversary holds a quorum in is a group it can stall.
    proof fn lemma_quorum_implies_stall(&self, g: Set<Seq<u8>>)
        requires
            self.wf(),
            g.finite(),
        ensures
            self.spec_has_quorum(g) ==> self.spec_can_stall(g),
    ;

    /// The configured close-group cardinality.
    fn group_size(&self) -> (r: usize)
        ensures
            r as int == self.spec_group_size(),
    ;

    /// The section's members.
    fn section(&self) -> (r: Vec<U256>)
        requires
            self.wf(),
        ensures
            id_seq(r@) == id_seq(self.spec_section()),
    ;

    /// Whether the named identifier belongs to the adversarial subset.
    fn is_malicious(&self, name: &U256) -> (r: bool)
        requires
            self.wf(),
        ensures
            r == self.spec_malicious().contains(name@),
    ;

    /// Evaluates the policy's quorum predicate on a group.
    fn has_malicious_quorum(&self, group: &Vec<U256>) -> (r: bool)
        requires
            self.wf(),
            unique_ids(group@),
        ensures
            r == self.spec_has_quorum(id_set(group@)),
    ;

    /// Evaluates the policy's stall predicate on a non-empty group.
    fn can_stall(&self, group: &Vec<U256>) -> (r: bool)
        requires
            self.wf(),
            unique_ids(group@),
            group@.len() >= 1,
        ensures
            r == self.spec_can_stall(id_set(group@)),
    ;
}

/// Whether a vector of identifiers holds the given identifier value.
pub fn contains_id(v: &Vec<U256>, id: &U256) -> (r: bool)
    ensures
        r == id_set(v@).contains(id@),
{
    broadcast use vstd::set::group_set_axioms;

    let mut i: usize = 0;
    while i < v.len()
        invariant
            i <= v@.len(),
            forall|j: int| 0 <= j < i ==> (#[trigger] v@[j]@) != id@,
        decreases v@.len() - i,
    {
        if v[i].equals(id) {
            proof {
                assert(id_seq(v@).contains(id@)) by {
                    assert(id_seq(v@)[i as int] == id@);
                }
            }
            return true;
        }
        i = i + 1;
    }
    proof {
        if id_seq(v@).contains(id@) {
            let j = choose|j: int| 0 <= j < id_seq(v@).len() && #[trigger] (id_seq(v@)[j]) == id@;
            assert(v@[j]@ == id@);
            assert(false);
        }
    }
    false
}

/// Counts the group members whose identifier is in the given vector: the
/// cardinality of the intersection of the two identifier sets.
pub fn count_ids_in(group: &Vec<U256>, among: &Vec<U256>) -> (r: usize)
    requires
        unique_ids(group@),
    ensures
        r as int == count_malicious_ids(id_set(group@), id_set(among@)),
        r <= group@.len(),
{
    broadcast use vstd::set::group_set_axioms;

    let ghost mal = id_set(among@);
    let mut count: usize = 0;
    let mut i: usize = 0;
    proof {
        assert(id_seq(group@.take(0)) =~= Seq::<Seq<u8>>::empty());
        assert(id_set(group@.take(0)).intersect(mal) =~= Set::<Seq<u8>>::empty());
    }
    while i < group.len()
        invariant
            i <= group@.len(),
            count <= i,
            unique_ids(group@),
            mal == id_set(among@),
            id_set(group@.take(i as int)).intersect(mal).finite(),
            count as int == id_set(group@.take(i as int)).intersect(mal).len(),
        decreases group@.len() - i,
    {
        let ghost pre = id_set(group@.take(i as int));
        let m = contains_id(among, &group[i]);
        proof {
            lemma_id_set_take_push(group@, i as int);
            lemma_unique_take_not_contains(group@, i as int);
            let x = group@[i as int]@;
            if m {
                assert(pre.insert(x).intersect(mal) =~= pre.intersect(mal).insert(x));
            } else {
                assert(pre.insert(x).intersect(mal) =~= pre.intersect(mal));
            }
        }
        if m {
            count = count + 1;
        }
        i = i + 1;
    }
    proof {
        assert(group@.take(group@.len() as int) =~= group@);
    }
    count
}

/// Counts the group members that are adversarial: the cardinality of the
/// group's intersection with the adversarial subset. Never exceeds the
/// group's size.
pub fn count_malicious<S: SectionData>(data: &S, group: &Vec<U256>) -> (r: usize)
    requires
        data.wf(),
        unique_ids(group@),
    ensures
        r as int == count_malicious_ids(id_set(group@), data.spec_malicious()),
        r <= group@.len(),
{
    broadcast use vstd::set::group_set_axioms;

    let mut count: usize = 0;
    let mut i: usize = 0;
    proof {
        assert(id_seq(group@.take(0)) =~= Seq::<Seq<u8>>::empty());
        assert(id_set(group@.take(0)).intersect(data.spec_malicious()) =~= Set::<Seq<
            u8,
        >>::empty());
    }
    while i < group.len()
        invariant
            i <= group@.len(),
            count <= i,
            data.wf(),
            unique_ids(group@),
            id_set(group@.take(i as int)).intersect(data.spec_malicious()).finite(),
            count as int == id_set(group@.take(i as int)).intersect(data.spec_malicious()).len(),
        decreases group@.len() - i,
    {
        let ghost pre = id_set(group@.take(i as int));
        let ghost mal = data.spec_malicious();
        let m = data.is_malicious(&group[i]);
        proof {
            lemma_id_set_take_push(group@, i as int);
            lemma_unique_take_not_contains(group@, i as int);
            let x = group@[i as int]@;
            if m {
                assert(pre.insert(x).intersect(mal) =~= pre.intersect(mal).insert(x));
            } else {
                assert(pre.insert(x).intersect(mal) =~= pre.intersect(mal));
            }
        }
        if m {
            count = count + 1;
        }
        i = i + 1;
    }
    proof {
        assert(group@.take(group@.len() as int) =~= group@);
    }
    count
}

/// The adversarial members of a group: exactly those whose identifier is in
/// the adversarial subset, in group order.
pub fn malicious_nodes<S: SectionData>(data: &S, group: &Vec<U256>) -> (r: Vec<U256>)
    requires
        data.wf(),
    ensures
        id_seq(r@) == id_seq(group@).filter(
            |x: Seq<u8>| data.spec_malicious().contains(x),
        ),
{
    let ghost pred = |x: Seq<u8>| data.spec_malicious().contains(x);
    let mut r: Vec<U256> = Vec::new();
    let mut i: usize = 0;
    proof {
        assert(id_seq(group@.take(0)) =~= Seq::<Seq<u8>>::empty());
        assert(id_seq(r@) =~= id_seq(group@.take(0)).filter(pred));
    }
    while i < group.len()
        invariant
            i <= group@.len(),
            data.wf(),
            pred == (|x: Seq<u8>| data.spec_malicious().contains(x)),
            id_seq(r@) == id_seq(group@.take(i as int)).filter(pred),
        decreases group@.len() - i,
    {
        let m = data.is_malicious(&group[i]);
        let ghost pre = id_seq(group@.take(i as int));
        let ghost x = group@[i as int]@;
        proof {
            assert(id_seq(group@.take(i as int + 1)) =~= pre.push(x)) by {
                assert(group@.take(i as int + 1) =~= group@.take(i as int).push(
                    group@[i as int],
                ));
                crate::model::lemma_id_seq_push(group@.take(i as int), group@[i as int]);
            }
            reveal_with_fuel(Seq::filter, 3);
            let single = seq![x];
            Seq::<Seq<u8>>::filter_distributes_over_add(pre, single, pred);
            assert(pre.push(x) =~= pre + single);
            assert(single.drop_last() =~= Seq::<Seq<u8>>::empty());
            assert(Seq::<Seq<u8>>::empty().filter(pred) =~= Seq::<Seq<u8>>::empty());
            assert(single.filter(pred) =~= if pred(x) {
                single
            } else {
                Seq::<Seq<u8>>::empty()
            });
            assert(pre.push(x).filter(pred) =~= if pred(x) {
                pre.filter(pred).push(x)
            } else {
                pre.filter(pred)
            });
        }
        if m {
            let ghost r_before = r@;
            let picked = group[i].clone();
            r.push(picked);
            proof {
                crate::model::lemma_id_seq_push(r_before, picked);
            }
        }
        i = i + 1;
    }
    proof {
        assert(group@.take(group@.len() as int) =~= group@);
    }
    r
}

/// The close group of the section around a point, of the policy's configured
/// cardinality.
pub fn close_group_of<S: SectionData>(data: &S, point: &U256) -> (r: Vec<U256>)
    requires
        data.wf(),
    ensures
        is_close_group(
            id_seq(data.spec_section()),
            point@,
            data.spec_group_size(),
            id_seq(r@),
        ),
        unique_ids(r@),
{
    let section = data.section();
    proof {
        data.lemma_malicious_subset();
        assert(unique_ids(section@));
    }
    let k = data.group_size();
    let r = close_group(&section, point, k);
    proof {
        assert(id_seq(section@) == id_seq(data.spec_section()));
    }
    r
}

/// The policy's quorum verdict on the close group around a point. The close
/// group is unique as a set of identifiers (`lemma_close_group_unique`), so
/// this is the verdict on "the" close group.
pub open spec fn spec_quorum_at<S: SectionData>(data: &S, point: Seq<u8>) -> bool {
    exists|g: Seq<Seq<u8>>|
        #[trigger] is_close_group(id_seq(data.spec_section()), point, data.spec_group_size(), g)
            && data.spec_has_quorum(g.to_set())
}

/// The policy's stall verdict on the close group around a point.
pub open spec fn spec_stall_at<S: SectionData>(data: &S, point: Seq<u8>) -> bool {
    exists|g: Seq<Seq<u8>>|
        #[trigger] is_close_group(id_seq(data.spec_section()), point, data.spec_group_size(), g)
            && data.spec_can_stall(g.to_set())
}

/// The id-value views of a well-formed policy's section members are distinct
/// 32-byte strings, as `lemma_close_group_unique` asks.
proof fn lemma_section_view_sized<S: SectionData>(data: &S)
    requires
        data.wf(),
    ensures
        forall|i: int|
            0 <= i < id_seq(data.spec_section()).len() ==> (#[trigger] id_seq(
                data.spec_section(),
            )[i]).len() == ID_BYTES,
{
    data.lemma_malicious_subset();
    assert forall|i: int|
        0 <= i < id_seq(data.spec_section()).len() implies (#[trigger] id_seq(
        data.spec_section(),
    )[i]).len() == ID_BYTES by {
        assert(id_seq(data.spec_section())[i] == data.spec_section()[i]@);
    }
}

/// Whether the adversary holds a quorum in the close group around a point.
pub fn has_malicious_close_group<S: SectionData>(data: &S, point: &U256) -> (r: bool)
    requires
        data.wf(),
    ensures
        r == spec_quorum_at(data, point@),
{
    let group = close_group_of(data, point);
    let r = data.has_malicious_quorum(&group);
    proof {
        let sec = id_seq(data.spec_section());
        let gs = data.spec_group_size();
        assert(id_set(group@) == id_seq(group@).to_set());
        use_type_invariant(point);
        lemma_section_view_sized(data);
        if r {
            assert(is_close_group(sec, point@, gs, id_seq(group@)));
        } else {
            assert forall|g: Seq<Seq<u8>>| #[trigger]
                is_close_group(sec, point@, gs, g) implies !data.spec_has_quorum(
                g.to_set(),
            ) by {
                crate::group::lemma_close_group_unique(sec, point@, gs, g, id_seq(group@));
            }
        }
    }
    r
}

/// Whether the adversary holds a quorum in the structural baseline group:
/// the close group around the all-zero point.
pub fn has_malicious_prefix_close_group<S: SectionData>(data: &S) -> (r: bool)
    requires
        data.wf(),
    ensures
        r == spec_quorum_at(data, crate::id::zero_id()),
{
    let zero = U256::zero();
    has_malicious_close_group(data, &zero)
}

/// Whether the adversary can stall the close group around a point.
pub fn can_stall_data<S: SectionData>(data: &S, point: &U256) -> (r: bool)
    requires
        data.wf(),
        data.spec_group_size() >= 1,
        data.spec_section().len() >= 1,
    ensures
        r == spec_stall_at(data, point@),
{
    let group = close_group_of(data, point);
    let r = data.can_stall(&group);
    proof {
        let sec = id_seq(data.spec_section());
        let gs = data.spec_group_size();
        assert(id_set(group@) == id_seq(group@).to_set());
        use_type_invariant(point);
        lemma_section_view_sized(data);
        if r {
            assert(is_close_group(sec, point@, gs, id_seq(group@)));
        } else {
            assert forall|g: Seq<Seq<u8>>| #[trigger]
                is_close_group(sec, point@, gs, g) implies !data.spec_can_stall(
                g.to_set(),
            ) by {
                crate::group::lemma_close_group_unique(sec, point@, gs, g, id_seq(group@));
            }
        }
    }
    r
}

/// In a well-formed policy, no group holds more adversarial identifiers than
/// members: the count is the cardinality of an intersection.
pub proof fn lemma_count_malicious_le_group(g: Set<Seq<u8>>, mal: Set<Seq<u8>>)
    requires
        g.finite(),
    ensures
        0 <= count_malicious_ids(g, mal) <= g.len(),
{
    vstd::set_lib::lemma_len_intersect(g, mal);
}

} // verus!
