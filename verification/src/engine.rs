//! The clustering engine: a deterministic, single-pass, first-match greedy
//! assignment of units to clusters, with the envelope of a cluster shrunk
//! to the intersection each time a member is added.

use vstd::prelude::*;
use vstd::multiset::Multiset;

use crate::geometry::Area;
use crate::geometry::ToleranceRange;
use crate::geometry::Unit;
use crate::geometry::area_fits;
use crate::geometry::overlaps;
use crate::geometry::spec_area_of;
use crate::geometry::spec_intersect;

verus! {

/// An ordered, non-empty run of units judged mutually compatible, together
/// with its current envelope: the running intersection of the members'
/// comparison regions.
#[derive(Debug, Clone, PartialEq, Eq)]
pub struct Cluster {
    pub area: Area,
    pub units: Vec<Unit>,
}

/// The mathematical image of a `Cluster`.
#[verifier::ext_equal]
pub struct ClusterModel {
    pub area: Area,
    pub units: Seq<Unit>,
}

impl View for Cluster {
    type V = ClusterModel;

    open spec fn view(&self) -> ClusterModel {
        ClusterModel { area: self.area, units: self.units@ }
    }
}

/// The mathematical image of a cluster sequence.
pub open spec fn view_of_clusters(cs: Seq<Cluster>) -> Seq<ClusterModel> {
    cs.map_values(|c: Cluster| c@)
}

/// The index of the first cluster, in creation order, whose envelope is
/// compatible with `a`; `cs.len()` when none is.
pub open spec fn first_match(cs: Seq<ClusterModel>, a: Area) -> int
    decreases cs.len(),
{
    if cs.len() == 0 {
        0
    } else if overlaps(cs[0].area, a) {
        0
    } else {
        1 + first_match(cs.drop_first(), a)
    }
}

/// One step of the engine: the unit joins the first compatible cluster,
/// whose envelope shrinks to the intersection; with no compatible cluster
/// a new singleton cluster is appended.
pub open spec fn add_unit(cs: Seq<ClusterModel>, u: Unit, tol: ToleranceRange) -> Seq<
    ClusterModel,
> {
    let a = spec_area_of(u, tol);
    let i = first_match(cs, a);
    if i < cs.len() {
        cs.update(
            i,
            (ClusterModel { area: spec_intersect(cs[i].area, a), units: cs[i].units.push(u) }),
        )
    } else {
        cs.push((ClusterModel { area: a, units: seq![u] }))
    }
}

/// The whole engine: the clusters produced by feeding `units` to
/// `add_unit` in input order, starting from no clusters.
pub open spec fn clusters_of(units: Seq<Unit>, tol: ToleranceRange) -> Seq<ClusterModel>
    decreases units.len(),
{
    if units.len() == 0 {
        Seq::empty()
    } else {
        add_unit(clusters_of(units.drop_last(), tol), units.last(), tol)
    }
}

/// The multiset of all members over a cluster sequence.
pub open spec fn members(cs: Seq<ClusterModel>) -> Multiset<Unit>
    decreases cs.len(),
{
    if cs.len() == 0 {
        Multiset::empty()
    } else {
        members(cs.drop_last()).add(cs.last().units.to_multiset())
    }
}

/// What `first_match` returns: an index no larger than the length, every
/// earlier cluster incompatible, and the indexed cluster compatible when
/// the index is in range.
pub proof fn lemma_first_match_props(cs: Seq<ClusterModel>, a: Area)
    ensures
        0 <= first_match(cs, a) <= cs.len(),
        forall|j: int| 0 <= j < first_match(cs, a) ==> !overlaps(cs[j].area, a),
        first_match(cs, a) < cs.len() ==> overlaps(cs[first_match(cs, a)].area, a),
    decreases cs.len(),
{
    if cs.len() == 0 {
    } else if overlaps(cs[0].area, a) {
    } else {
        lemma_first_match_props(cs.drop_first(), a);
        let fm = first_match(cs, a);
        assert forall|j: int| 0 <= j < fm implies !overlaps(cs[j].area, a) by {
            if j > 0 {
                assert(cs.drop_first()[j - 1] == cs[j]);
            }
        }
        if fm < cs.len() {
            assert(cs.drop_first()[fm - 1] == cs[fm]);
        }
    }
}

/// An index with the properties of `first_match` is `first_match`.
pub proof fn lemma_first_match_is(cs: Seq<ClusterModel>, a: Area, j: int)
    requires
        0 <= j <= cs.len(),
        forall|k: int| 0 <= k < j ==> !overlaps(cs[k].area, a),
        j < cs.len() ==> overlaps(cs[j].area, a),
    ensures
        first_match(cs, a) == j,
{
    lemma_first_match_props(cs, a);
    let fm = first_match(cs, a);
    if fm < j {
        assert(overlaps(cs[fm].area, a));
        assert(false);
    } else if j < fm {
        assert(!overlaps(cs[j].area, a));
        assert(false);
    }
}

/// Appending a unit to the cluster at `i` adds exactly that unit to the
/// member multiset, whatever the new envelope is.
proof fn lemma_members_update_push(cs: Seq<ClusterModel>, i: int, u: Unit, ar: Area)
    requires
        0 <= i < cs.len(),
    ensures
        members(cs.update(i, (ClusterModel { area: ar, units: cs[i].units.push(u) }))) =~= members(
            cs,
        ).insert(u),
    decreases cs.len(),
{
    broadcast use vstd::seq_lib::group_to_multiset_ensures;

    let c = ClusterModel { area: ar, units: cs[i].units.push(u) };
    let cs2 = cs.update(i, c);
    if i == cs.len() - 1 {
        assert(cs2.drop_last() =~= cs.drop_last());
        assert(cs2.last() == c);
        assert(c.units.to_multiset() =~= cs[i].units.to_multiset().insert(u));
    } else {
        assert(cs2.drop_last() =~= cs.drop_last().update(i, c));
        assert(cs.drop_last()[i] == cs[i]);
        lemma_members_update_push(cs.drop_last(), i, u, ar);
        assert(cs2.last() == cs.last());
    }
}

/// Partition law: the multiset union of all clusters' members is exactly
/// the input unit sequence — no unit lost, none duplicated.
pub proof fn lemma_partition(units: Seq<Unit>, tol: ToleranceRange)
    ensures
        members(clusters_of(units, tol)) =~= units.to_multiset(),
    decreases units.len(),
{
    broadcast use vstd::seq_lib::group_to_multiset_ensures;

    if units.len() == 0 {
        assert forall|u: Unit| units.to_multiset().count(u) == 0 by {
            assert(!units.contains(u));
        }
    } else {
        let prefix = units.drop_last();
        let u = units.last();
        lemma_partition(prefix, tol);
        let cs = clusters_of(prefix, tol);
        let a = spec_area_of(u, tol);
        lemma_first_match_props(cs, a);
        let i = first_match(cs, a);
        assert(prefix.push(u) =~= units);
        assert(units.to_multiset() =~= prefix.to_multiset().insert(u));
        if i < cs.len() {
            lemma_members_update_push(cs, i, u, spec_intersect(cs[i].area, a));
        } else {
            let c = ClusterModel { area: a, units: seq![u] };
            let cs2 = cs.push(c);
            assert(cs2.drop_last() =~= cs);
            assert(cs2.last() == c);
            assert(seq![u] =~= Seq::<Unit>::empty().push(u));
            assert forall|x: Unit| Seq::<Unit>::empty().to_multiset().count(x) == 0 by {
                assert(!Seq::<Unit>::empty().contains(x));
            }
            assert(c.units.to_multiset() =~= Multiset::empty().insert(u));
        }
    }
}

/// Partitions one identifier group's ordered units into clusters: each
/// unit, in input order, joins the first cluster in creation order whose
/// envelope is strictly compatible with the unit's comparison region
/// (shrinking that envelope to the intersection), or opens a new cluster.
/// The identifier is handed back untouched beside the clusters.
pub fn clustering_lazy<'a>(identifier: &'a str, units: &[Unit], offset: &ToleranceRange) -> (r: (
    &'a str,
    Vec<Cluster>,
))
    requires
        offset.wf(),
        forall|i: int| 0 <= i < units@.len() ==> area_fits(units@[i], *offset),
    ensures
        r.0 == identifier,
        view_of_clusters(r.1@) == clusters_of(units@, *offset),
{
    let mut clusters: Vec<Cluster> = Vec::new();
    let mut idx: usize = 0;
    while idx < units.len()
        invariant
            idx <= units.len(),
            offset.wf(),
            forall|i: int| 0 <= i < units@.len() ==> area_fits(units@[i], *offset),
            view_of_clusters(clusters@) =~= clusters_of(units@.take(idx as int), *offset),
        decreases units.len() - idx,
    {
        let current_unit = units[idx];
        let current_area = current_unit.get_area(offset);
        let ghost pre = clusters@;
        let ghost prem = view_of_clusters(clusters@);
        let ghost aa = spec_area_of(units@[idx as int], *offset);

        let mut j: usize = 0;
        let mut hit: Option<Area> = None;
        while j < clusters.len()
            invariant_except_break
                hit is None,
                j <= clusters.len(),
                clusters@ == pre,
                prem == view_of_clusters(pre),
                current_area == aa,
                forall|k: int| 0 <= k < j ==> !overlaps(prem[k].area, aa),
            ensures
                clusters@ == pre,
                hit is Some ==> j < pre.len() && overlaps(prem[j as int].area, aa) && hit
                    == Some(spec_intersect(prem[j as int].area, aa)) && forall|k: int|
                    0 <= k < j ==> !overlaps(prem[k].area, aa),
                hit is None ==> j == pre.len() && forall|k: int|
                    0 <= k < pre.len() ==> !overlaps(prem[k].area, aa),
            decreases clusters.len() - j,
        {
            let r = clusters[j].area.intersection(&current_area);
            proof {
                assert(prem[j as int].area == pre[j as int]@.area);
            }
            match r {
                Some(x) => {
                    hit = Some(x);
                    break ;
                },
                None => {
                    j = j + 1;
                },
            }
        }

        match hit {
            Some(x) => {
                proof {
                    lemma_first_match_is(prem, aa, j as int);
                }
                let mut c = clusters.remove(j);
                c.units.push(current_unit);
                c.area = x;
                clusters.insert(j, c);
                proof {
                    assert(clusters@ =~= pre.update(
                        j as int,
                        (Cluster {
                            area: spec_intersect(prem[j as int].area, aa),
                            units: c.units,
                        }),
                    ));
                    assert(view_of_clusters(clusters@) =~= prem.update(
                        j as int,
                        (ClusterModel {
                            area: spec_intersect(prem[j as int].area, aa),
                            units: prem[j as int].units.push(units@[idx as int]),
                        }),
                    ));
                }
            },
            None => {
                proof {
                    lemma_first_match_is(prem, aa, prem.len() as int);
                }
                let mut singleton: Vec<Unit> = Vec::new();
                singleton.push(current_unit);
                clusters.push(Cluster { area: current_area, units: singleton });
                proof {
                    assert(view_of_clusters(clusters@) =~= prem.push(
                        (ClusterModel { area: aa, units: seq![units@[idx as int]] }),
                    ));
                }
            },
        }
        proof {
            assert(units@.take(idx as int + 1).drop_last() =~= units@.take(idx as int));
            assert(units@.take(idx as int + 1).last() == units@[idx as int]);
            assert(view_of_clusters(clusters@) =~= add_unit(prem, units@[idx as int], *offset));
        }
        idx = idx + 1;
    }
    proof {
        assert(units@.take(units@.len() as int) =~= units@);
    }
    (identifier, clusters)
}

/// Two regions touch exactly at a boundary: one region's upper bound
/// meets the other's lower bound on some axis.
pub open spec fn touching(a: Area, b: Area) -> bool {
    ||| a.hi_width == b.lo_width
    ||| b.hi_width == a.lo_width
    ||| a.hi_height == b.lo_height
    ||| b.hi_height == a.lo_height
}

/// Strict-boundary law: over a two-unit input, regions that merely touch
/// at a boundary are not merged — two clusters come out; regions that
/// overlap strictly on both axes are merged into one cluster whose
/// envelope is their intersection. An overlap of positive width and
/// height on both axes is a strict overlap.
pub proof fn lemma_strict_boundary(u1: Unit, u2: Unit, tol: ToleranceRange)
    ensures
        touching(spec_area_of(u1, tol), spec_area_of(u2, tol)) ==> clusters_of(
            seq![u1, u2],
            tol,
        ) =~= seq![
            (ClusterModel { area: spec_area_of(u1, tol), units: seq![u1] }),
            (ClusterModel { area: spec_area_of(u2, tol), units: seq![u2] }),
        ],
        overlaps(spec_area_of(u1, tol), spec_area_of(u2, tol)) ==> clusters_of(
            seq![u1, u2],
            tol,
        ) =~= seq![
            (ClusterModel {
                area: spec_intersect(spec_area_of(u1, tol), spec_area_of(u2, tol)),
                units: seq![u1, u2],
            }),
        ],
{
    let a1 = spec_area_of(u1, tol);
    let a2 = spec_area_of(u2, tol);
    let s = seq![u1, u2];
    assert(s.drop_last() =~= seq![u1]);
    assert(seq![u1].drop_last() =~= Seq::<Unit>::empty());
    assert(clusters_of(Seq::<Unit>::empty(), tol) =~= Seq::<ClusterModel>::empty());
    assert(first_match(Seq::<ClusterModel>::empty(), a1) == 0);
    let c1 = ClusterModel { area: a1, units: seq![u1] };
    assert(clusters_of(seq![u1], tol) =~= seq![c1]);
    assert(clusters_of(s, tol) == add_unit(seq![c1], u2, tol));
    if overlaps(a1, a2) {
        lemma_first_match_is(seq![c1], a2, 0);
        assert(seq![u1].push(u2) =~= seq![u1, u2]);
        assert(seq![c1].update(
            0,
            (ClusterModel { area: spec_intersect(a1, a2), units: seq![u1].push(u2) }),
        ) =~= seq![(ClusterModel { area: spec_intersect(a1, a2), units: seq![u1, u2] })]);
    } else {
        lemma_first_match_is(seq![c1], a2, 1);
        assert(seq![c1].push((ClusterModel { area: a2, units: seq![u2] })) =~= seq![
            c1,
            (ClusterModel { area: a2, units: seq![u2] }),
        ]);
    }
    if touching(a1, a2) {
        assert(!overlaps(a1, a2));
    }
}

/// Degenerate-tolerance law: with `min == max` every comparison region
/// collapses to a point, no region is strictly compatible with any other,
/// and so every unit — distinct or duplicate — opens a cluster of its
/// own, in input order, with its point region as envelope.
pub proof fn lemma_degenerate_tolerance(units: Seq<Unit>, tol: ToleranceRange)
    requires
        tol.min == tol.max,
    ensures
        clusters_of(units, tol).len() == units.len(),
        forall|i: int|
            0 <= i < units.len() ==> clusters_of(units, tol)[i] == (ClusterModel {
                area: spec_area_of(units[i], tol),
                units: seq![units[i]],
            }),
    decreases units.len(),
{
    if units.len() == 0 {
    } else {
        let prefix = units.drop_last();
        lemma_degenerate_tolerance(prefix, tol);
        let cs = clusters_of(prefix, tol);
        let u = units.last();
        let a = spec_area_of(u, tol);
        assert(a.lo_width == a.hi_width && a.lo_height == a.hi_height);
        assert forall|j: int| 0 <= j < cs.len() implies !overlaps(cs[j].area, a) by {
            assert(prefix[j] == units[j]);
            assert(cs[j].area.lo_width == cs[j].area.hi_width);
        }
        lemma_first_match_is(cs, a, cs.len() as int);
        let c = ClusterModel { area: a, units: seq![u] };
        assert(clusters_of(units, tol) == cs.push(c));
        assert forall|i: int|
            0 <= i < units.len() implies clusters_of(units, tol)[i] == (ClusterModel {
                area: spec_area_of(units[i], tol),
                units: seq![units[i]],
            }) by {
            if i < units.len() - 1 {
                assert(cs.push(c)[i] == cs[i]);
                assert(prefix[i] == units[i]);
            } else {
                assert(cs.push(c)[i] == c);
            }
        }
    }
}

/// Every cluster the engine produces is non-empty.
pub proof fn lemma_clusters_nonempty(units: Seq<Unit>, tol: ToleranceRange)
    ensures
        forall|i: int|
            0 <= i < clusters_of(units, tol).len() ==> clusters_of(units, tol)[i].units.len() >= 1,
    decreases units.len(),
{
    if units.len() == 0 {
    } else {
        let prefix = units.drop_last();
        lemma_clusters_nonempty(prefix, tol);
        let cs = clusters_of(prefix, tol);
        let u = units.last();
        let a = spec_area_of(u, tol);
        lemma_first_match_props(cs, a);
    }
}

/// `s` can be read from `t` left to right, passing over elements: `s`
/// holds some of `t`'s elements in `t`'s order.
pub open spec fn subsequence_of(s: Seq<Unit>, t: Seq<Unit>) -> bool
    decreases t.len(),
{
    if s.len() == 0 {
        true
    } else if t.len() == 0 {
        false
    } else {
        ||| subsequence_of(s, t.drop_last())
        ||| (s.last() == t.last() && subsequence_of(s.drop_last(), t.drop_last()))
    }
}

/// A subsequence stays one when the longer sequence grows.
proof fn lemma_subseq_extend(s: Seq<Unit>, t: Seq<Unit>, x: Unit)
    requires
        subsequence_of(s, t),
    ensures
        subsequence_of(s, t.push(x)),
{
    assert(t.push(x).drop_last() =~= t);
}

/// Appending the same element to both sides keeps a subsequence.
proof fn lemma_subseq_push(s: Seq<Unit>, t: Seq<Unit>, x: Unit)
    requires
        subsequence_of(s, t),
    ensures
        subsequence_of(s.push(x), t.push(x)),
{
    assert(t.push(x).drop_last() =~= t);
    assert(s.push(x).drop_last() =~= s);
    assert(s.push(x).last() == t.push(x).last());
}

/// Membership-order law: each cluster's members appear in input order —
/// every cluster's unit sequence is a subsequence of the input.
pub proof fn lemma_members_in_input_order(units: Seq<Unit>, tol: ToleranceRange)
    ensures
        forall|c: int|
            0 <= c < clusters_of(units, tol).len() ==> subsequence_of(
                clusters_of(units, tol)[c].units,
                units,
            ),
    decreases units.len(),
{
    if units.len() == 0 {
    } else {
        let prefix = units.drop_last();
        let u = units.last();
        lemma_members_in_input_order(prefix, tol);
        let cs = clusters_of(prefix, tol);
        let a = spec_area_of(u, tol);
        lemma_first_match_props(cs, a);
        let i = first_match(cs, a);
        assert(prefix.push(u) =~= units);
        let result = clusters_of(units, tol);
        assert forall|c: int| 0 <= c < result.len() implies subsequence_of(
            result[c].units,
            units,
        ) by {
            if i < cs.len() {
                if c == i {
                    lemma_subseq_push(cs[i].units, prefix, u);
                    assert(result[c].units == cs[i].units.push(u));
                } else {
                    lemma_subseq_extend(cs[c].units, prefix, u);
                    assert(result[c].units == cs[c].units);
                }
            } else {
                if c < cs.len() {
                    lemma_subseq_extend(cs[c].units, prefix, u);
                    assert(result[c].units == cs[c].units);
                } else {
                    lemma_subseq_push(Seq::<Unit>::empty(), prefix, u);
                    assert(Seq::<Unit>::empty().push(u) =~= seq![u]);
                    assert(result[c].units == seq![u]);
                }
            }
        }
    }
}

/// Every envelope the engine produces is a well-formed rectangle: the
/// first member's region is one, and intersecting with a compatible
/// region keeps it one.
pub proof fn lemma_envelopes_wf(units: Seq<Unit>, tol: ToleranceRange)
    requires
        tol.wf(),
        forall|i: int| 0 <= i < units.len() ==> area_fits(units[i], tol),
    ensures
        forall|c: int| 0 <= c < clusters_of(units, tol).len() ==> clusters_of(units, tol)[c].area.wf(),
    decreases units.len(),
{
    if units.len() == 0 {
    } else {
        let prefix = units.drop_last();
        assert forall|i: int| 0 <= i < prefix.len() implies area_fits(prefix[i], tol) by {
            assert(prefix[i] == units[i]);
        }
        lemma_envelopes_wf(prefix, tol);
        let cs = clusters_of(prefix, tol);
        let u = units.last();
        let a = spec_area_of(u, tol);
        assert(area_fits(u, tol));
        crate::geometry::lemma_area_of_wf(u, tol);
        lemma_first_match_props(cs, a);
    }
}

/// Determinism law: the engine's outcome is a function of the input
/// sequence and the tolerance alone; two runs agree exactly.
pub proof fn lemma_deterministic(
    units: Seq<Unit>,
    tol: ToleranceRange,
    r1: Seq<ClusterModel>,
    r2: Seq<ClusterModel>,
)
    requires
        r1 == clusters_of(units, tol),
        r2 == clusters_of(units, tol),
    ensures
        r1 == r2,
{
}

} // verus!
