//! The group orchestrator: applies the clustering engine independently to
//! each identifier group, sharing nothing between groups but the
//! read-only tolerance.

use vstd::prelude::*;

use crate::engine::Cluster;
use crate::engine::clustering_lazy;
use crate::engine::clusters_of;
use crate::engine::view_of_clusters;
use crate::geometry::ToleranceRange;
use crate::geometry::Unit;
use crate::geometry::area_fits;

verus! {

/// Applies the engine to every identifier group independently: the result
/// pairs each group's identifier with exactly the clusters the engine
/// yields on that group's units, group for group. Because no state is
/// shared between groups, a caller may just as well fan the groups out to
/// independent workers and collect the same mapping.
pub fn cluster_all(groups: &Vec<(String, Vec<Unit>)>, tolerance: &ToleranceRange) -> (r: Vec<
    (String, Vec<Cluster>),
>)
    requires
        tolerance.wf(),
        forall|g: int, i: int|
            0 <= g < groups@.len() && 0 <= i < groups@[g].1@.len() ==> area_fits(
                groups@[g].1@[i],
                *tolerance,
            ),
    ensures
        r@.len() == groups@.len(),
        forall|g: int|
            0 <= g < groups@.len() ==> r@[g].0@ == groups@[g].0@ && view_of_clusters(r@[g].1@)
                == clusters_of(groups@[g].1@, *tolerance),
{
    let mut out: Vec<(String, Vec<Cluster>)> = Vec::new();
    let mut g: usize = 0;
    while g < groups.len()
        invariant
            g <= groups@.len(),
            tolerance.wf(),
            forall|gg: int, i: int|
                0 <= gg < groups@.len() && 0 <= i < groups@[gg].1@.len() ==> area_fits(
                    groups@[gg].1@[i],
                    *tolerance,
                ),
            out@.len() == g,
            forall|gg: int|
                0 <= gg < g ==> out@[gg].0@ == groups@[gg].0@ && view_of_clusters(out@[gg].1@)
                    == clusters_of(groups@[gg].1@, *tolerance),
        decreases groups@.len() - g,
    {
        let identifier: String = groups[g].0.clone();
        let (_, cs) = clustering_lazy(groups[g].0.as_str(), groups[g].1.as_slice(), tolerance);
        out.push((identifier, cs));
        g = g + 1;
    }
    out
}

} // verus!
