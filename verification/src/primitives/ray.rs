use vstd::prelude::*;

verus! {

use crate::math::{div_t, dot, iabs, imax, lemma_div_t_bound, lemma_mul_abs_bound,
    lemma_norm_bound, max_i64, mul_div_i64, norm, point_sub, spec_dot, spec_norm, spec_sub, Point,
    DIST_MAX, POINT_MAX, UNIT};
use crate::sdf::Sdf;

/// A half line out of the origin along `direction`.
#[derive(Clone, Copy, PartialEq, Eq, Structural, Debug)]
pub struct Ray {
    pub direction: Point,
}

impl Ray {
    pub fn new(direction: Point) -> (r: Ray)
        ensures
            r == (Ray { direction }),
    {
        Ray { direction }
    }

    /// The direction is a unit vector up to representation slack: each
    /// component has magnitude at most four world units.
    pub open spec fn wf(self) -> bool {
        self.direction.within(4 * UNIT as int)
    }

    /// The squared length of the direction.
    pub open spec fn dir_sq(self) -> int {
        (self.direction.x as int) * (self.direction.x as int) + (self.direction.y as int) * (
        self.direction.y as int)
    }

    /// The projection numerator: the dot product with the direction, clamped
    /// forward.
    pub open spec fn proj_num(self, p: Point) -> int {
        imax(spec_dot(p, self.direction), 0)
    }

    /// The point of the ray nearest to `p`: the projection of `p` onto the
    /// ray's line, clamped back to the origin behind it. A zero direction
    /// leaves only the origin.
    pub open spec fn projected(self, p: Point) -> Point {
        let d = self.direction;
        if self.dir_sq() == 0 {
            Point { x: 0i64, y: 0i64 }
        } else {
            Point {
                x: div_t(self.proj_num(p) * d.x, self.dir_sq()) as i64,
                y: div_t(self.proj_num(p) * d.y, self.dir_sq()) as i64,
            }
        }
    }

    /// The projection never reaches past `p`'s own coordinate span, so the
    /// distance to it stays bounded.
    pub proof fn lemma_projected_bound(self, p: Point)
        requires
            self.wf(),
            p.within(POINT_MAX as int),
        ensures
            self.projected(p).within(2 * POINT_MAX as int),
            0 <= spec_norm(spec_sub(p, self.projected(p))) <= DIST_MAX as int,
            self.dir_sq() != 0 ==> self.dir_sq() > 0 && iabs(
                self.proj_num(p) * self.direction.x,
            ) <= self.dir_sq() * (2 * POINT_MAX as int) && iabs(self.proj_num(p) * self.direction.y)
                <= self.dir_sq() * (2 * POINT_MAX as int),
    {
        let d = self.direction;
        let dx = d.x as int;
        let dy = d.y as int;
        let den = self.dir_sq();
        if den != 0 {
            let num = self.proj_num(p);
            let s = iabs(p.x as int) + iabs(p.y as int);
            let dmax = imax(iabs(dx), iabs(dy));
            assert(den > 0 && dmax * dmax <= den) by (nonlinear_arith)
                requires
                    den == dx * dx + dy * dy,
                    den != 0,
                    dmax == imax(iabs(dx), iabs(dy)),
            ;
            assert(iabs((p.x as int) * dx + (p.y as int) * dy) <= s * dmax) by (nonlinear_arith)
                requires
                    iabs(dx) <= dmax,
                    iabs(dy) <= dmax,
                    s == iabs(p.x as int) + iabs(p.y as int),
            ;
            assert(0 <= num <= s * dmax);
            assert(num * iabs(dx) <= (s * dmax) * dmax && num * iabs(dy) <= (s * dmax) * dmax)
                by (nonlinear_arith)
                requires
                    0 <= num,
                    num <= s * dmax,
                    iabs(dx) <= dmax,
                    iabs(dy) <= dmax,
                    0 <= dmax,
                    0 <= s,
            ;
            assert((s * dmax) * dmax <= s * den) by (nonlinear_arith)
                requires
                    dmax * dmax <= den,
                    0 <= s,
                    0 <= dmax,
            ;
            assert(iabs(num * dx) == num * iabs(dx) && iabs(num * dy) == num * iabs(dy))
                by (nonlinear_arith)
                requires
                    0 <= num,
            ;
            assert(s * den <= den * (2 * POINT_MAX as int)) by (nonlinear_arith)
                requires
                    0 <= s <= 2 * POINT_MAX as int,
                    den > 0,
            ;
            lemma_div_t_bound(num * dx, den, 2 * POINT_MAX as int);
            lemma_div_t_bound(num * dy, den, 2 * POINT_MAX as int);
        }
        lemma_norm_bound(spec_sub(p, self.projected(p)));
    }
}

impl Default for Ray {
    /// A ray along the positive x axis.
    fn default() -> (r: Ray)
        ensures
            r == (Ray { direction: Point { x: 65536i64, y: 0i64 } }),
    {
        Ray { direction: Point { x: 65536, y: 0 } }
    }
}

impl Sdf<i64> for Ray {
    open spec fn sd_req(&self, p: Point) -> bool {
        self.wf() && p.within(POINT_MAX as int)
    }

    /// The distance from `p` to the nearest point of the ray; a ray has no
    /// interior, so the distance is never negative.
    open spec fn sd_spec(&self, p: Point) -> i64 {
        spec_norm(spec_sub(p, self.projected(p))) as i64
    }

    open spec fn dist_spec(&self, p: Point) -> i64 {
        self.sd_spec(p)
    }

    fn signed_distance(&self, p: Point) -> (r: i64) {
        proof {
            self.lemma_projected_bound(p);
        }
        let d = self.direction;
        proof {
            lemma_mul_abs_bound(d.x as int, d.x as int, 4 * UNIT as int, 4 * UNIT as int);
            lemma_mul_abs_bound(d.y as int, d.y as int, 4 * UNIT as int, 4 * UNIT as int);
        }
        let den = d.x * d.x + d.y * d.y;
        let projected: Point;
        if den == 0 {
            projected = Point { x: 0, y: 0 };
        } else {
            let num = max_i64(dot(p, d), 0);
            proof {
                assert((den as int) * (2 * POINT_MAX as int) <= (den as int) * (i64::MAX as int))
                    by (nonlinear_arith)
                    requires
                        den > 0,
                        POINT_MAX == 3 * 67108864i64,
                ;
            }
            projected = Point { x: mul_div_i64(num, d.x, den), y: mul_div_i64(num, d.y, den) };
        }
        norm(point_sub(p, projected))
    }

    fn distance(&self, p: Point) -> (r: i64) {
        self.signed_distance(p)
    }
}

} // verus!
