use grezzi::{Area, GrezziError, ToleranceRange, Unit};

#[test]
fn tolerance_new_accepts_ordered_pair() {
    let t = ToleranceRange::new(-2, 7).unwrap();
    assert_eq!(t.min, -2);
    assert_eq!(t.max, 7);
}

#[test]
fn tolerance_new_accepts_equal_pair() {
    let t = ToleranceRange::new(3, 3).unwrap();
    assert_eq!(t.min, 3);
    assert_eq!(t.max, 3);
}

#[test]
fn tolerance_new_rejects_min_above_max() {
    // Rejected before any unit is ingested or clustered.
    assert_eq!(ToleranceRange::new(5, 2), Err(GrezziError::InvalidTolerance));
}

#[test]
fn unit_new_puts_first_argument_in_height() {
    let u = Unit::new(3, 4);
    assert_eq!(u.height, 3);
    assert_eq!(u.width, 4);
}

#[test]
fn area_spans_tolerance_window_around_dimensions() {
    let u = Unit { width: 100, height: 40 };
    let t = ToleranceRange::new(10, 25).unwrap();
    let a = u.get_area(&t);
    assert_eq!(
        a,
        Area { lo_width: 110, hi_width: 125, lo_height: 50, hi_height: 65 }
    );
}

#[test]
fn degenerate_tolerance_collapses_area_to_point() {
    let u = Unit { width: 7, height: 9 };
    let t = ToleranceRange::new(2, 2).unwrap();
    let a = u.get_area(&t);
    assert_eq!(a, Area { lo_width: 9, hi_width: 9, lo_height: 11, hi_height: 11 });
}

#[test]
fn intersection_of_overlapping_areas() {
    let a = Area { lo_width: 10, hi_width: 12, lo_height: 10, hi_height: 12 };
    let b = Area { lo_width: 11, hi_width: 13, lo_height: 9, hi_height: 11 };
    assert_eq!(
        a.intersection(&b),
        Some(Area { lo_width: 11, hi_width: 12, lo_height: 10, hi_height: 11 })
    );
}

#[test]
fn intersection_is_symmetric_on_overlap() {
    let a = Area { lo_width: 10, hi_width: 12, lo_height: 10, hi_height: 12 };
    let b = Area { lo_width: 11, hi_width: 13, lo_height: 9, hi_height: 11 };
    assert_eq!(a.intersection(&b), b.intersection(&a));
}

#[test]
fn touching_areas_do_not_intersect() {
    // Upper bound of one meets lower bound of the other exactly.
    let a = Area { lo_width: 10, hi_width: 12, lo_height: 10, hi_height: 12 };
    let b = Area { lo_width: 12, hi_width: 14, lo_height: 10, hi_height: 12 };
    assert_eq!(a.intersection(&b), None);
    assert_eq!(b.intersection(&a), None);
}

#[test]
fn disjoint_on_one_axis_means_no_intersection() {
    // Overlapping widths but heights far apart.
    let a = Area { lo_width: 10, hi_width: 12, lo_height: 10, hi_height: 12 };
    let b = Area { lo_width: 10, hi_width: 12, lo_height: 30, hi_height: 32 };
    assert_eq!(a.intersection(&b), None);
}

#[test]
fn identical_point_areas_do_not_intersect() {
    // Strict bounds: even an exactly equal degenerate region is excluded.
    let p = Area { lo_width: 5, hi_width: 5, lo_height: 5, hi_height: 5 };
    assert_eq!(p.intersection(&p), None);
}
