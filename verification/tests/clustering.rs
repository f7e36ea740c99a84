use grezzi::engine::clustering_lazy;
use grezzi::{Area, ToleranceRange, Unit};

fn tol(min: i64, max: i64) -> ToleranceRange {
    ToleranceRange::new(min, max).expect("tolerance must be valid")
}

fn units_of(dims: &[(i64, i64)]) -> Vec<Unit> {
    dims.iter().map(|&(w, h)| Unit { width: w, height: h }).collect()
}

fn member_dims(cluster: &grezzi::Cluster) -> Vec<(i64, i64)> {
    cluster.units.iter().map(|u| (u.width, u.height)).collect()
}

#[test]
fn empty_input_gives_no_clusters() {
    let (id, clusters) = clustering_lazy("k", &[], &tol(0, 2));
    assert_eq!(id, "k");
    assert!(clusters.is_empty());
}

#[test]
fn single_unit_forms_own_cluster_with_own_area() {
    let units = units_of(&[(10, 20)]);
    let (_, clusters) = clustering_lazy("k", &units, &tol(-1, 3));
    assert_eq!(clusters.len(), 1);
    assert_eq!(member_dims(&clusters[0]), vec![(10, 20)]);
    assert_eq!(
        clusters[0].area,
        Area { lo_width: 9, hi_width: 13, lo_height: 19, hi_height: 23 }
    );
}

#[test]
fn concrete_scenario_two_near_one_far() {
    // Units (10,10), (11,11), (50,50) with tolerance (0,2): the first two
    // merge, the third stands alone, in creation order.
    let units = units_of(&[(10, 10), (11, 11), (50, 50)]);
    let (_, clusters) = clustering_lazy("k", &units, &tol(0, 2));
    assert_eq!(clusters.len(), 2);
    assert_eq!(member_dims(&clusters[0]), vec![(10, 10), (11, 11)]);
    assert_eq!(member_dims(&clusters[1]), vec![(50, 50)]);
    // Envelope of the first cluster is the intersection of the two areas.
    assert_eq!(
        clusters[0].area,
        Area { lo_width: 11, hi_width: 12, lo_height: 11, hi_height: 12 }
    );
    assert_eq!(
        clusters[1].area,
        Area { lo_width: 50, hi_width: 52, lo_height: 50, hi_height: 52 }
    );
}

#[test]
fn envelope_shrinks_and_later_touching_unit_is_excluded() {
    // A=(10,10), B=(11,11), C=(12,12), tolerance (0,2). After A and B merge
    // the envelope shrinks to [11,12] per axis; C's region [12,14] only
    // touches it at 12, and touching regions are not compatible, so C
    // opens its own cluster: the first-match/shrinking-envelope outcome.
    let units = units_of(&[(10, 10), (11, 11), (12, 12)]);
    let (_, clusters) = clustering_lazy("k", &units, &tol(0, 2));
    assert_eq!(clusters.len(), 2);
    assert_eq!(member_dims(&clusters[0]), vec![(10, 10), (11, 11)]);
    assert_eq!(member_dims(&clusters[1]), vec![(12, 12)]);
    assert_eq!(
        clusters[0].area,
        Area { lo_width: 11, hi_width: 12, lo_height: 11, hi_height: 12 }
    );
}

#[test]
fn order_sensitivity_isolates_far_unit() {
    // A=(10,10), C=(12,12), B=(11,11) with tolerance (0,1): C's region is
    // disjoint from A's, and B's region only touches both envelopes, so
    // all three stay isolated.
    let units = units_of(&[(10, 10), (12, 12), (11, 11)]);
    let (_, clusters) = clustering_lazy("k", &units, &tol(0, 1));
    assert_eq!(clusters.len(), 3);
    assert_eq!(member_dims(&clusters[0]), vec![(10, 10)]);
    assert_eq!(member_dims(&clusters[1]), vec![(12, 12)]);
    assert_eq!(member_dims(&clusters[2]), vec![(11, 11)]);
}

#[test]
fn touching_areas_are_not_merged() {
    // Regions [10,12] and [12,14] per axis touch exactly at 12.
    let units = units_of(&[(10, 10), (12, 12)]);
    let (_, clusters) = clustering_lazy("k", &units, &tol(0, 2));
    assert_eq!(clusters.len(), 2);
}

#[test]
fn positively_overlapping_areas_are_merged() {
    // Regions [10,12] and [11,13] per axis overlap by a positive amount.
    let units = units_of(&[(10, 10), (11, 11)]);
    let (_, clusters) = clustering_lazy("k", &units, &tol(0, 2));
    assert_eq!(clusters.len(), 1);
    assert_eq!(member_dims(&clusters[0]), vec![(10, 10), (11, 11)]);
}

#[test]
fn first_match_wins_over_better_overlap() {
    // The third unit's region overlaps both earlier clusters; it joins
    // the first in creation order, not the later one it overlaps more.
    let units = units_of(&[(10, 10), (16, 16), (13, 13)]);
    let (_, clusters) = clustering_lazy("k", &units, &tol(0, 5));
    assert_eq!(clusters.len(), 2);
    assert_eq!(member_dims(&clusters[0]), vec![(10, 10), (13, 13)]);
    assert_eq!(member_dims(&clusters[1]), vec![(16, 16)]);
}

#[test]
fn degenerate_tolerance_gives_one_cluster_per_unit() {
    // With min == max == 0 every region collapses to a point and no two
    // regions are strictly compatible: every unit opens its own cluster.
    let units = units_of(&[(10, 10), (11, 11), (10, 10)]);
    let (_, clusters) = clustering_lazy("k", &units, &tol(0, 0));
    assert_eq!(clusters.len(), 3);
    assert_eq!(member_dims(&clusters[0]), vec![(10, 10)]);
    assert_eq!(member_dims(&clusters[1]), vec![(11, 11)]);
    assert_eq!(member_dims(&clusters[2]), vec![(10, 10)]);
    assert_eq!(
        clusters[0].area,
        Area { lo_width: 10, hi_width: 10, lo_height: 10, hi_height: 10 }
    );
}

#[test]
fn partition_no_unit_lost_or_duplicated() {
    let dims = [(10, 10), (11, 11), (50, 50), (10, 10), (49, 51), (30, 5)];
    let units = units_of(&dims);
    let (_, clusters) = clustering_lazy("k", &units, &tol(0, 2));
    let mut collected: Vec<(i64, i64)> = clusters.iter().flat_map(|c| member_dims(c)).collect();
    let mut expected: Vec<(i64, i64)> = dims.to_vec();
    collected.sort();
    expected.sort();
    assert_eq!(collected, expected);
    assert!(clusters.iter().all(|c| !c.units.is_empty()));
}

#[test]
fn clustering_is_deterministic() {
    let units = units_of(&[(10, 10), (11, 11), (50, 50), (12, 9), (48, 52)]);
    let t = tol(-1, 3);
    let (_, first) = clustering_lazy("k", &units, &t);
    let (_, second) = clustering_lazy("k", &units, &t);
    assert_eq!(first, second);
}

#[test]
fn negative_offsets_shift_region_below_dimensions() {
    let units = units_of(&[(10, 10)]);
    let (_, clusters) = clustering_lazy("k", &units, &tol(-5, -1));
    assert_eq!(
        clusters[0].area,
        Area { lo_width: 5, hi_width: 9, lo_height: 5, hi_height: 9 }
    );
}
