use vstd::prelude::*;

verus! {

use super::disk::Disk;
use crate::math::{abs_i64, iabs, lemma_norm_bound, spec_norm, Point, COORD_MAX, DIST_MAX,
    POINT_MAX};
use crate::sdf::Sdf;

/// A ring centred on the origin: the tube of radius `minor_radius` around the
/// circle of radius `major_radius`.
#[derive(Clone, Copy, PartialEq, Eq, Structural, Debug)]
pub struct Torus {
    pub major_radius: i64,
    pub minor_radius: i64,
}

impl Torus {
    pub fn new(major_radius: i64, minor_radius: i64) -> (r: Torus)
        ensures
            r == (Torus { major_radius, minor_radius }),
    {
        Torus { major_radius, minor_radius }
    }

    /// Both radii are representable.
    pub open spec fn wf(self) -> bool {
        iabs(self.major_radius as int) <= COORD_MAX as int && iabs(self.minor_radius as int)
            <= COORD_MAX as int
    }

    pub proof fn lemma_sd_bound(self, p: Point)
        requires
            self.wf(),
            p.within(POINT_MAX as int),
        ensures
            iabs(iabs(spec_norm(p) - self.major_radius) - self.minor_radius) <= DIST_MAX as int,
    {
        lemma_norm_bound(p);
    }
}

impl Default for Torus {
    /// A ring of roughly two tenths of a world unit, one tenth thick.
    fn default() -> (r: Torus)
        ensures
            r == (Torus { major_radius: 13107i64, minor_radius: 6554i64 }),
    {
        Torus { major_radius: 13107, minor_radius: 6554 }
    }
}

impl Sdf<i64> for Torus {
    open spec fn sd_req(&self, p: Point) -> bool {
        self.wf() && p.within(POINT_MAX as int)
    }

    /// The unsigned distance to the major circle, minus the minor radius.
    open spec fn sd_spec(&self, p: Point) -> i64 {
        (iabs(spec_norm(p) - self.major_radius) - self.minor_radius) as i64
    }

    open spec fn dist_spec(&self, p: Point) -> i64 {
        iabs(iabs(spec_norm(p) - self.major_radius) - self.minor_radius) as i64
    }

    fn signed_distance(&self, p: Point) -> (r: i64) {
        proof {
            self.lemma_sd_bound(p);
            lemma_norm_bound(p);
        }
        Disk::new(self.major_radius).distance(p) - self.minor_radius
    }

    fn distance(&self, p: Point) -> (r: i64) {
        proof {
            self.lemma_sd_bound(p);
        }
        abs_i64(self.signed_distance(p))
    }
}

} // verus!
