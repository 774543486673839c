//! The close-group selector: the fixed-size subset of a section nearest a
//! target point under the XOR metric.

use vstd::prelude::*;
use crate::id::{U256, ID_BYTES, lex_le, xor_bytes};
use crate::model::{id_seq, unique_ids};

verus! {

/// Every identifier is within its own distance of any point.
pub proof fn lemma_dist_le_reflexive(point: Seq<u8>, a: Seq<u8>)
    ensures
        dist_le(point, a, a),
{
    crate::id::lemma_lex_le_reflexive(xor_bytes(a, point));
}

/// Distances of equal-length identifiers to a point compare one way or the
/// other.
pub proof fn lemma_dist_le_total(point: Seq<u8>, a: Seq<u8>, b: Seq<u8>)
    requires
        a.len() == b.len(),
    ensures
        dist_le(point, a, b) || dist_le(point, b, a),
{
    crate::id::lemma_lex_le_total(xor_bytes(a, point), xor_bytes(b, point));
}

/// The distance order on equal-length identifiers is transitive.
pub proof fn lemma_dist_le_transitive(point: Seq<u8>, a: Seq<u8>, b: Seq<u8>, c: Seq<u8>)
    requires
        a.len() == b.len(),
        b.len() == c.len(),
        dist_le(point, a, b),
        dist_le(point, b, c),
    ensures
        dist_le(point, a, c),
{
    crate::id::lemma_lex_le_transitive(
        xor_bytes(a, point),
        xor_bytes(b, point),
        xor_bytes(c, point),
    );
}

/// `a` is at most as far from `point` as `b` is, comparing XOR distances as
/// big-endian unsigned values.
pub open spec fn dist_le(point: Seq<u8>, a: Seq<u8>, b: Seq<u8>) -> bool {
    lex_le(xor_bytes(a, point), xor_bytes(b, point))
}

/// The identifiers appear in ascending distance from `point`.
pub open spec fn sorted_by_distance(v: Seq<U256>, point: Seq<u8>) -> bool {
    forall|i: int, j: int|
        0 <= i < j < v.len() ==> dist_le(point, #[trigger] v[i]@, #[trigger] v[j]@)
}

/// `g` is a close group of `section` around `point` with target size `k`:
/// it holds exactly `min(k, |section|)` distinct members of the section, and
/// every member is at most as far from the point as every non-member.
pub open spec fn is_close_group(
    section: Seq<Seq<u8>>,
    point: Seq<u8>,
    k: int,
    g: Seq<Seq<u8>>,
) -> bool {
    &&& g.len() == if k < section.len() {
        k
    } else {
        section.len() as int
    }
    &&& g.no_duplicates()
    &&& forall|i: int| 0 <= i < g.len() ==> section.contains(#[trigger] g[i])
    &&& forall|i: int, y: Seq<u8>|
        #![trigger g[i], section.contains(y)]
        0 <= i < g.len() && section.contains(y) && !g.contains(y) ==> dist_le(point, g[i], y)
}

/// The close group around a point is unique as a set of identifiers: any
/// two groups meeting `is_close_group` for the same section, point, and
/// target size hold exactly the same identifiers. Distances of distinct
/// identifiers to one point never tie, so the selection is unambiguous.
pub proof fn lemma_close_group_unique(
    section: Seq<Seq<u8>>,
    point: Seq<u8>,
    k: int,
    g1: Seq<Seq<u8>>,
    g2: Seq<Seq<u8>>,
)
    requires
        point.len() == ID_BYTES,
        forall|i: int| 0 <= i < section.len() ==> (#[trigger] section[i]).len() == ID_BYTES,
        is_close_group(section, point, k, g1),
        is_close_group(section, point, k, g2),
    ensures
        g1.to_set() == g2.to_set(),
{
    broadcast use vstd::set::group_set_axioms;
    broadcast use vstd::seq_lib::seq_to_set_is_finite;

    let s1 = g1.to_set();
    let s2 = g2.to_set();
    g1.unique_seq_to_set();
    g2.unique_seq_to_set();
    if s1 != s2 {
        assert(exists|x: Seq<u8>| s1.contains(x) != s2.contains(x)) by {
            if !(exists|x: Seq<u8>| s1.contains(x) != s2.contains(x)) {
                assert forall|x: Seq<u8>| #[trigger] s1.contains(x) == s2.contains(x) by {}
                assert(s1 =~= s2);
            }
        }
        let x = choose|x: Seq<u8>| s1.contains(x) != s2.contains(x);
        // By symmetry, name the group holding the extra element `a` and the
        // other `b`.
        let (a, b) = if s1.contains(x) {
            (g1, g2)
        } else {
            (g2, g1)
        };
        assert(a.to_set().contains(x) && !b.to_set().contains(x));
        // The other group must also hold an element the first lacks, since
        // both hold equally many.
        assert(exists|y: Seq<u8>| b.to_set().contains(y) && !a.to_set().contains(y)) by {
            if forall|y: Seq<u8>| b.to_set().contains(y) ==> #[trigger] a.to_set().contains(y) {
                assert(b.to_set().subset_of(a.to_set().remove(x)));
                vstd::set_lib::lemma_len_subset(b.to_set(), a.to_set().remove(x));
                assert(a.to_set().remove(x).len() < a.to_set().len());
                assert(false);
            }
        }
        let y = choose|y: Seq<u8>| b.to_set().contains(y) && !a.to_set().contains(y);
        // Each is a section member the other group left out, so the
        // boundary property runs both ways.
        let ia = choose|i: int| 0 <= i < a.len() && a[i] == x;
        let ib = choose|i: int| 0 <= i < b.len() && b[i] == y;
        assert(section.contains(y) && !a.contains(y));
        assert(section.contains(x) && !b.contains(x));
        assert(dist_le(point, a[ia], y));
        assert(dist_le(point, b[ib], x));
        let js = choose|j: int| 0 <= j < section.len() && section[j] == x;
        let ks = choose|j: int| 0 <= j < section.len() && section[j] == y;
        crate::id::lemma_lex_le_antisymmetric(xor_bytes(x, point), xor_bytes(y, point));
        crate::id::lemma_xor_injective(point, x, y);
        assert(false);
    }
}

/// Rearranges the section's identifiers into ascending distance from `point`.
fn sort_by_distance(section: &Vec<U256>, point: &U256) -> (r: Vec<U256>)
    ensures
        id_seq(r@).to_multiset() == id_seq(section@).to_multiset(),
        r@.len() == section@.len(),
        sorted_by_distance(r@, point@),
{
    broadcast use vstd::seq_lib::group_to_multiset_ensures;

    let mut rest: Vec<U256> = Vec::new();
    let mut dists: Vec<U256> = Vec::new();
    let mut i: usize = 0;
    while i < section.len()
        invariant
            i <= section@.len(),
            rest@.len() == i,
            dists@.len() == i,
            forall|j: int| 0 <= j < i ==> rest@[j]@ == section@[j]@,
            forall|j: int| 0 <= j < i ==> (#[trigger] rest@[j]@).len() == ID_BYTES,
            forall|j: int| 0 <= j < i ==> (#[trigger] dists@[j]@) == xor_bytes(rest@[j]@, point@),
        decreases section@.len() - i,
    {
        let x = section[i].clone();
        proof {
            use_type_invariant(&x);
        }
        let d = crate::id::distance(&x, point);
        rest.push(x);
        dists.push(d);
        i = i + 1;
    }
    proof {
        assert(id_seq(rest@) =~= id_seq(section@));
    }
    let ghost all: Seq<Seq<u8>> = id_seq(section@);
    let mut out: Vec<U256> = Vec::new();
    while rest.len() > 0
        invariant
            id_seq(out@).to_multiset().add(id_seq(rest@).to_multiset()) == all.to_multiset(),
            out@.len() + rest@.len() == all.len(),
            dists@.len() == rest@.len(),
            all == id_seq(section@),
            sorted_by_distance(out@, point@),
            forall|b: int| 0 <= b < rest@.len() ==> (#[trigger] rest@[b]@).len() == ID_BYTES,
            forall|b: int|
                0 <= b < rest@.len() ==> (#[trigger] dists@[b]@) == xor_bytes(rest@[b]@, point@),
            forall|a: int, b: int|
                0 <= a < out@.len() && 0 <= b < rest@.len() ==> dist_le(
                    point@,
                    #[trigger] out@[a]@,
                    #[trigger] rest@[b]@,
                ),
        decreases rest@.len(),
    {
        let mut m: usize = 0;
        let mut j: usize = 1;
        proof {
            lemma_dist_le_reflexive(point@, rest@[0]@);
        }
        while j < rest.len()
            invariant
                m < j <= rest@.len(),
                rest@.len() > 0,
                dists@.len() == rest@.len(),
                forall|b: int| 0 <= b < rest@.len() ==> (#[trigger] rest@[b]@).len() == ID_BYTES,
                forall|b: int|
                    0 <= b < rest@.len() ==> (#[trigger] dists@[b]@) == xor_bytes(
                        rest@[b]@,
                        point@,
                    ),
                forall|b: int|
                    0 <= b < j ==> dist_le(point@, rest@[m as int]@, #[trigger] rest@[b]@),
            decreases rest@.len() - j,
        {
            proof {
                lemma_dist_le_total(point@, rest@[m as int]@, rest@[j as int]@);
            }
            if !crate::id::id_le(&dists[m], &dists[j]) {
                proof {
                    assert forall|b: int| 0 <= b < j + 1 implies dist_le(
                        point@,
                        rest@[j as int]@,
                        #[trigger] rest@[b]@,
                    ) by {
                        if b < j {
                            lemma_dist_le_transitive(
                                point@,
                                rest@[j as int]@,
                                rest@[m as int]@,
                                rest@[b]@,
                            );
                        } else {
                            lemma_dist_le_reflexive(point@, rest@[j as int]@);
                        }
                    }
                }
                m = j;
            }
            j = j + 1;
        }
        let ghost old_out = out@;
        let ghost old_rest = rest@;
        let picked = rest.remove(m);
        dists.remove(m);
        out.push(picked);
        proof {
            assert forall|b: int| 0 <= b < rest@.len() implies (#[trigger] dists@[b]@)
                == xor_bytes(rest@[b]@, point@) by {
                assert(rest@[b] == if b < m { old_rest[b] } else { old_rest[b + 1] });
            }
            let or = id_seq(old_rest);
            let oo = id_seq(old_out);
            assert(id_seq(rest@) =~= or.remove(m as int));
            assert(id_seq(out@) =~= oo.push(picked@));
            assert(or[m as int] == picked@);
            or.to_multiset_ensures();
            oo.to_multiset_ensures();
            assert(or.remove(m as int).to_multiset() =~= or.to_multiset().remove(picked@));
            assert(oo.push(picked@).to_multiset() =~= oo.to_multiset().insert(picked@));
            assert(or.to_multiset().count(picked@) > 0) by {
                assert(or.contains(picked@));
            }
            assert(oo.to_multiset().insert(picked@).add(or.to_multiset().remove(picked@))
                =~= oo.to_multiset().add(or.to_multiset()));
            assert forall|b: int| 0 <= b < rest@.len() implies dist_le(
                point@,
                picked@,
                #[trigger] rest@[b]@,
            ) by {
                assert(rest@[b] == if b < m { old_rest[b] } else { old_rest[b + 1] });
            }
            assert forall|a: int, b: int|
                0 <= a < out@.len() && 0 <= b < rest@.len() implies dist_le(
                point@,
                #[trigger] out@[a]@,
                #[trigger] rest@[b]@,
            ) by {
                assert(rest@[b] == if b < m { old_rest[b] } else { old_rest[b + 1] });
                if a < old_out.len() {
                    assert(out@[a] == old_out[a]);
                }
            }
            assert forall|a: int, b: int| 0 <= a < b < out@.len() implies dist_le(
                point@,
                #[trigger] out@[a]@,
                #[trigger] out@[b]@,
            ) by {
                if b < old_out.len() {
                    assert(out@[a] == old_out[a] && out@[b] == old_out[b]);
                } else {
                    assert(out@[a] == old_out[a] && out@[b] == picked);
                    assert(old_rest[m as int] == picked);
                }
            }
        }
    }
    out
}

/// Selects the close group: the `group_size` identifiers of the section
/// nearest `point` (all of them, if the section is smaller), with every
/// selected member at most as far from the point as every unselected one.
pub fn close_group(section: &Vec<U256>, point: &U256, group_size: usize) -> (r: Vec<U256>)
    requires
        unique_ids(section@),
    ensures
        is_close_group(id_seq(section@), point@, group_size as int, id_seq(r@)),
        unique_ids(r@),
        sorted_by_distance(r@, point@),
        r@.len() == if group_size < section@.len() {
            group_size as int
        } else {
            section@.len() as int
        },
{
    broadcast use vstd::seq_lib::group_to_multiset_ensures;

    let mut sorted = sort_by_distance(section, point);
    let ghost full = sorted@;
    if group_size < sorted.len() {
        sorted.truncate(group_size);
    }
    proof {
        let s = id_seq(full);
        let sec = id_seq(section@);
        let g = id_seq(sorted@);
        assert(g =~= s.take(g.len() as int));
        sec.lemma_multiset_has_no_duplicates();
        s.lemma_multiset_has_no_duplicates_conv();
        assert forall|i: int| 0 <= i < g.len() implies sec.contains(#[trigger] g[i]) by {
            assert(s.contains(g[i])) by {
                assert(s[i] == g[i]);
            }
            assert(s.to_multiset().count(g[i]) > 0);
        }
        assert(g.no_duplicates()) by {
            assert forall|a: int, b: int| 0 <= a < b < g.len() implies g[a] != g[b] by {
                assert(s[a] == g[a] && s[b] == g[b]);
            }
        }
        assert forall|i: int, y: Seq<u8>|
            #![trigger g[i], sec.contains(y)]
            0 <= i < g.len() && sec.contains(y) && !g.contains(y) implies dist_le(
            point@,
            g[i],
            y,
        ) by {
            assert(s.to_multiset().count(y) > 0) by {
                assert(sec.to_multiset().count(y) > 0);
            }
            assert(s.contains(y));
            let j = choose|j: int| 0 <= j < s.len() && s[j] == y;
            assert(j >= g.len()) by {
                if j < g.len() {
                    assert(g[j] == y);
                }
            }
            assert(full[i]@ == g[i] && full[j]@ == y);
            assert(dist_le(point@, full[i]@, full[j]@));
        }
        assert(unique_ids(sorted@));
    }
    sorted
}

} // verus!
