use vstd::prelude::*;

verus! {

use crate::math::{abs_i64, div_i64, div_t, dot, iabs, lemma_div_t_bound, spec_dot, Point,
    DIST_MAX, POINT_MAX, UNIT};
use crate::sdf::Sdf;

/// A half plane through the origin, bounded by the line perpendicular to
/// `normal`; points on the side the normal points to are outside.
#[derive(Clone, Copy, PartialEq, Eq, Structural, Debug)]
pub struct Plane {
    pub normal: Point,
}

impl Plane {
    pub fn new(normal: Point) -> (r: Plane)
        ensures
            r == (Plane { normal }),
    {
        Plane { normal }
    }

    /// The normal is a unit vector up to representation slack: each component
    /// has magnitude at most four world units.
    pub open spec fn wf(self) -> bool {
        self.normal.within(4 * UNIT as int)
    }

    pub proof fn lemma_sd_bound(self, p: Point)
        requires
            self.wf(),
            p.within(POINT_MAX as int),
        ensures
            iabs(div_t(spec_dot(self.normal, p), UNIT as int)) <= DIST_MAX as int,
            iabs(spec_dot(self.normal, p)) <= (UNIT as int) * (DIST_MAX as int),
    {
        assert(iabs(spec_dot(self.normal, p)) <= (UNIT as int) * (DIST_MAX as int))
            by (nonlinear_arith)
            requires
                iabs(self.normal.x as int) <= 4 * UNIT as int,
                iabs(self.normal.y as int) <= 4 * UNIT as int,
                iabs(p.x as int) <= POINT_MAX as int,
                iabs(p.y as int) <= POINT_MAX as int,
                UNIT == 65536i64,
                POINT_MAX == 3 * 67108864i64,
                DIST_MAX == 32 * 67108864i64,
        ;
        lemma_div_t_bound(spec_dot(self.normal, p), UNIT as int, DIST_MAX as int);
    }
}

impl Default for Plane {
    /// The lower half plane: the normal points along the positive y axis.
    fn default() -> (r: Plane)
        ensures
            r == (Plane { normal: Point { x: 0i64, y: 65536i64 } }),
    {
        Plane { normal: Point { x: 0, y: 65536 } }
    }
}

impl Sdf<i64> for Plane {
    open spec fn sd_req(&self, p: Point) -> bool {
        self.wf() && p.within(POINT_MAX as int)
    }

    /// The perpendicular distance: the dot product with the unit-scaled
    /// normal, brought back to whole units.
    open spec fn sd_spec(&self, p: Point) -> i64 {
        div_t(spec_dot(self.normal, p), UNIT as int) as i64
    }

    open spec fn dist_spec(&self, p: Point) -> i64 {
        iabs(div_t(spec_dot(self.normal, p), UNIT as int)) as i64
    }

    fn signed_distance(&self, p: Point) -> (r: i64) {
        proof {
            self.lemma_sd_bound(p);
        }
        div_i64(dot(self.normal, p), UNIT)
    }

    fn distance(&self, p: Point) -> (r: i64) {
        proof {
            self.lemma_sd_bound(p);
        }
        abs_i64(self.signed_distance(p))
    }
}

} // verus!
