//! Tolerance geometry: the comparison region of a unit under a tolerance
//! range, and the strict compatibility test between two regions.

use vstd::prelude::*;

verus! {

/// A measured unit: a width and a height, in fixed-point integer measure.
#[derive(Debug, Clone, Copy, PartialEq, Eq, Structural)]
pub struct Unit {
    pub width: i64,
    pub height: i64,
}

/// A pair of offsets `(min, max)` applied to a unit's dimensions to build
/// its comparison region. Only pairs with `min <= max` are meaningful;
/// `new` rejects the others.
#[derive(Debug, Clone, Copy, PartialEq, Eq, Structural)]
pub struct ToleranceRange {
    pub min: i64,
    pub max: i64,
}

/// The errors this library reports.
#[derive(Debug, Clone, Copy, PartialEq, Eq, Structural)]
pub enum GrezziError {
    /// A tolerance range with `min > max` was supplied.
    InvalidTolerance,
}

/// An axis-aligned comparison rectangle: a lower and an upper bound on each
/// axis. For a fresh unit it spans `[d + min, d + max]` on each dimension
/// `d`; inside a cluster it is the running intersection of the members'
/// rectangles.
#[derive(Debug, Clone, Copy, PartialEq, Eq, Structural)]
pub struct Area {
    pub lo_width: i64,
    pub hi_width: i64,
    pub lo_height: i64,
    pub hi_height: i64,
}

impl ToleranceRange {
    /// The invariant every usable tolerance range satisfies.
    pub open spec fn wf(self) -> bool {
        self.min <= self.max
    }

    /// Validates the offsets: `min > max` is rejected before any unit is
    /// looked at.
    pub fn new(min: i64, max: i64) -> (r: Result<ToleranceRange, GrezziError>)
        ensures
            min <= max ==> r == Ok::<ToleranceRange, GrezziError>(
                (ToleranceRange { min: min, max: max }),
            ),
            min > max ==> r == Err::<ToleranceRange, GrezziError>(GrezziError::InvalidTolerance),
    {
        if min <= max {
            Ok(ToleranceRange { min, max })
        } else {
            Err(GrezziError::InvalidTolerance)
        }
    }
}

/// The four sums that build a comparison region from `u` under `tol` stay
/// within `i64`. A machine limit, not a rule of the domain.
pub open spec fn area_fits(u: Unit, tol: ToleranceRange) -> bool {
    &&& i64::MIN <= u.width + tol.min
    &&& u.width + tol.max <= i64::MAX
    &&& i64::MIN <= u.height + tol.min
    &&& u.height + tol.max <= i64::MAX
}

/// The comparison region of `u` under `tol`: lower bound `(w+min, h+min)`,
/// upper bound `(w+max, h+max)`. With `min == max` it collapses to a point.
pub open spec fn spec_area_of(u: Unit, tol: ToleranceRange) -> Area {
    Area {
        lo_width: (u.width + tol.min) as i64,
        hi_width: (u.width + tol.max) as i64,
        lo_height: (u.height + tol.min) as i64,
        hi_height: (u.height + tol.max) as i64,
    }
}

/// Strict compatibility of two regions: the bounds overlap on both axes
/// with strict inequality. Regions that touch exactly at a boundary are
/// not compatible.
pub open spec fn overlaps(a: Area, b: Area) -> bool {
    &&& a.lo_width < b.hi_width
    &&& b.lo_width < a.hi_width
    &&& a.lo_height < b.hi_height
    &&& b.lo_height < a.hi_height
}

/// The overlapping rectangle of two compatible regions: the greater lower
/// bound and the smaller upper bound on each axis.
pub open spec fn spec_intersect(a: Area, b: Area) -> Area {
    Area {
        lo_width: if a.lo_width >= b.lo_width {
            a.lo_width
        } else {
            b.lo_width
        },
        hi_width: if a.hi_width <= b.hi_width {
            a.hi_width
        } else {
            b.hi_width
        },
        lo_height: if a.lo_height >= b.lo_height {
            a.lo_height
        } else {
            b.lo_height
        },
        hi_height: if a.hi_height <= b.hi_height {
            a.hi_height
        } else {
            b.hi_height
        },
    }
}

impl Unit {
    /// Builds a unit; the first argument lands in `height`, the second in
    /// `width`.
    pub fn new(x: i64, y: i64) -> (u: Unit)
        ensures
            u.height == x,
            u.width == y,
    {
        Unit { height: x, width: y }
    }

    /// The comparison region of this unit under `offset`.
    pub fn get_area(&self, offset: &ToleranceRange) -> (a: Area)
        requires
            offset.wf(),
            area_fits(*self, *offset),
        ensures
            a == spec_area_of(*self, *offset),
    {
        Area {
            lo_width: self.width + offset.min,
            hi_width: self.width + offset.max,
            lo_height: self.height + offset.min,
            hi_height: self.height + offset.max,
        }
    }
}

impl Area {
    /// A region's lower bound does not exceed its upper bound on either
    /// axis. Holds of every region a unit produces under a well-formed
    /// tolerance, and is preserved by intersection.
    pub open spec fn wf(self) -> bool {
        self.lo_width <= self.hi_width && self.lo_height <= self.hi_height
    }

    /// The overlapping rectangle of the two regions if they are strictly
    /// compatible on both axes, else `None`.
    pub fn intersection(&self, other: &Area) -> (r: Option<Area>)
        ensures
            r is Some <==> overlaps(*self, *other),
            overlaps(*self, *other) ==> r == Some(spec_intersect(*self, *other)),
            self.wf() && other.wf() && r is Some ==> r->Some_0.wf(),
    {
        if self.lo_width < other.hi_width && other.lo_width < self.hi_width
            && self.lo_height < other.hi_height && other.lo_height < self.hi_height {
            let lo_width = if self.lo_width >= other.lo_width {
                self.lo_width
            } else {
                other.lo_width
            };
            let hi_width = if self.hi_width <= other.hi_width {
                self.hi_width
            } else {
                other.hi_width
            };
            let lo_height = if self.lo_height >= other.lo_height {
                self.lo_height
            } else {
                other.lo_height
            };
            let hi_height = if self.hi_height <= other.hi_height {
                self.hi_height
            } else {
                other.hi_height
            };
            Some(Area { lo_width, hi_width, lo_height, hi_height })
        } else {
            None
        }
    }
}

/// A fresh region is a well-formed rectangle.
pub proof fn lemma_area_of_wf(u: Unit, tol: ToleranceRange)
    requires
        tol.wf(),
        area_fits(u, tol),
    ensures
        spec_area_of(u, tol).wf(),
{
}

} // verus!
