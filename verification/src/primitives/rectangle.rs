use vstd::prelude::*;

verus! {

use crate::math::{abs_i64, div_i64, div_t, iabs, imax, imin, lemma_div_t_nonincreasing,
    lemma_norm_bound, max_i64, min_i64, norm, spec_norm, Point, COORD_MAX, DIST_MAX, POINT_MAX};
use crate::sdf::Sdf;

/// An axis-aligned rectangle centred on the origin.
#[derive(Clone, Copy, PartialEq, Eq, Structural, Debug)]
pub struct Rectangle {
    pub width: i64,
    pub height: i64,
}

impl Rectangle {
    pub fn new(width: i64, height: i64) -> (r: Rectangle)
        ensures
            r == (Rectangle { width, height }),
    {
        Rectangle { width, height }
    }

    /// Both extents are representable.
    pub open spec fn wf(self) -> bool {
        iabs(self.width as int) <= COORD_MAX as int && iabs(self.height as int) <= COORD_MAX as int
    }

    /// The offset of `p`'s mirror image in the first quadrant from the
    /// rectangle's corner.
    pub open spec fn corner_offset(self, p: Point) -> (int, int) {
        (iabs(p.x as int) - div_t(self.width as int, 2), iabs(p.y as int) - div_t(
            self.height as int,
            2,
        ))
    }

    pub proof fn lemma_sd_bound(self, p: Point)
        requires
            self.wf(),
            p.within(POINT_MAX as int),
        ensures
            iabs(self.outside_part(p) + imin(imax(self.corner_offset(p).0, 0), 0)) <= (
            DIST_MAX as int),
            iabs(self.outside_part(p) - imin(
                imax(self.corner_offset(p).0, self.corner_offset(p).1),
                0,
            )) <= DIST_MAX as int,
            0 <= self.outside_part(p) <= 2 * (POINT_MAX as int + COORD_MAX as int),
    {
        lemma_div_t_nonincreasing(self.width as int, 2);
        lemma_div_t_nonincreasing(self.height as int, 2);
        let (qx, qy) = self.corner_offset(p);
        lemma_norm_bound(Point { x: imax(qx, 0) as i64, y: imax(qy, 0) as i64 });
    }

    /// The distance contributed outside the rectangle: the norm of the
    /// componentwise-positive part of the corner offset.
    pub open spec fn outside_part(self, p: Point) -> int {
        let (qx, qy) = self.corner_offset(p);
        spec_norm(Point { x: imax(qx, 0) as i64, y: imax(qy, 0) as i64 })
    }
}

impl Default for Rectangle {
    /// Half a world unit wide and three tenths high, roughly.
    fn default() -> (r: Rectangle)
        ensures
            r == (Rectangle { width: 32768i64, height: 19661i64 }),
    {
        Rectangle { width: 32768, height: 19661 }
    }
}

impl Sdf<i64> for Rectangle {
    open spec fn sd_req(&self, p: Point) -> bool {
        self.wf() && p.within(POINT_MAX as int)
    }

    /// Outside, the distance to the nearest corner-clamped boundary point;
    /// inside, the largest (negative) component of the corner offset.
    open spec fn sd_spec(&self, p: Point) -> i64 {
        let (qx, qy) = self.corner_offset(p);
        (self.outside_part(p) + imin(imax(qx, qy), 0)) as i64
    }

    /// The same split with the inner part's sign flipped, so the result is
    /// non-negative everywhere.
    open spec fn dist_spec(&self, p: Point) -> i64 {
        let (qx, qy) = self.corner_offset(p);
        (self.outside_part(p) - imin(imax(qx, qy), 0)) as i64
    }

    fn signed_distance(&self, p: Point) -> (r: i64) {
        proof {
            self.lemma_sd_bound(p);
            lemma_div_t_nonincreasing(self.width as int, 2);
            lemma_div_t_nonincreasing(self.height as int, 2);
        }
        let qx = abs_i64(p.x) - div_i64(self.width, 2);
        let qy = abs_i64(p.y) - div_i64(self.height, 2);
        let outside = norm(Point { x: max_i64(qx, 0), y: max_i64(qy, 0) });
        outside + min_i64(max_i64(qx, qy), 0)
    }

    fn distance(&self, p: Point) -> (r: i64) {
        proof {
            self.lemma_sd_bound(p);
            lemma_div_t_nonincreasing(self.width as int, 2);
            lemma_div_t_nonincreasing(self.height as int, 2);
        }
        let qx = abs_i64(p.x) - div_i64(self.width, 2);
        let qy = abs_i64(p.y) - div_i64(self.height, 2);
        let outside = norm(Point { x: max_i64(qx, 0), y: max_i64(qy, 0) });
        outside - min_i64(max_i64(qx, qy), 0)
    }
}

} // verus!
