use vstd::prelude::*;

verus! {

use crate::math::{abs_i64, iabs, lemma_norm_bound, norm, spec_norm, Point, COORD_MAX, DIST_MAX,
    POINT_MAX};
use crate::sdf::Sdf;

/// A disk centred on the origin.
#[derive(Clone, Copy, PartialEq, Eq, Structural, Debug)]
pub struct Disk {
    pub radius: i64,
}

impl Disk {
    pub fn new(radius: i64) -> (r: Disk)
        ensures
            r == (Disk { radius }),
    {
        Disk { radius }
    }

    /// The radius is representable: its magnitude is at most `COORD_MAX`.
    pub open spec fn wf(self) -> bool {
        iabs(self.radius as int) <= COORD_MAX as int
    }

    /// The distance to a disk never exceeds `DIST_MAX` on the query domain.
    pub proof fn lemma_sd_bound(self, p: Point)
        requires
            self.wf(),
            p.within(POINT_MAX as int),
        ensures
            iabs(spec_norm(p) - self.radius) <= DIST_MAX as int,
    {
        lemma_norm_bound(p);
    }
}

impl Default for Disk {
    /// A disk of roughly three tenths of a world unit.
    fn default() -> (r: Disk)
        ensures
            r == (Disk { radius: 19661i64 }),
    {
        Disk { radius: 19661 }
    }
}

impl Sdf<i64> for Disk {
    open spec fn sd_req(&self, p: Point) -> bool {
        self.wf() && p.within(POINT_MAX as int)
    }

    /// The distance from `p` to the origin, minus the radius.
    open spec fn sd_spec(&self, p: Point) -> i64 {
        (spec_norm(p) - self.radius) as i64
    }

    open spec fn dist_spec(&self, p: Point) -> i64 {
        iabs(spec_norm(p) - self.radius) as i64
    }

    fn signed_distance(&self, p: Point) -> (r: i64) {
        proof {
            self.lemma_sd_bound(p);
        }
        norm(p) - self.radius
    }

    fn distance(&self, p: Point) -> (r: i64) {
        proof {
            self.lemma_sd_bound(p);
        }
        abs_i64(self.signed_distance(p))
    }
}

} // verus!
