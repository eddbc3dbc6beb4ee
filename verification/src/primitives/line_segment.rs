use vstd::prelude::*;

verus! {

use crate::math::{clamp_i64, div_t, dot, iabs, imax, imin, lemma_div_t_bound, lemma_mul_abs_bound,
    lemma_norm_bound, mul_div_i64, norm, point_sub, spec_norm, spec_sub, Point, COORD_MAX,
    DIST_MAX, POINT_MAX};
use crate::sdf::Sdf;

/// The straight segment between two endpoints.
#[derive(Clone, Copy, PartialEq, Eq, Structural, Debug)]
pub struct LineSegment {
    pub a: Point,
    pub b: Point,
}

impl LineSegment {
    pub fn new(a: Point, b: Point) -> (r: LineSegment)
        ensures
            r == (LineSegment { a, b }),
    {
        LineSegment { a, b }
    }

    /// Both endpoints are representable.
    pub open spec fn wf(self) -> bool {
        self.a.within(COORD_MAX as int) && self.b.within(COORD_MAX as int)
    }

    /// The point of the segment nearest to `p`: the projection of `p` onto
    /// the segment's line, clamped to the segment. A degenerate segment is
    /// its single endpoint.
    pub open spec fn nearest(self, p: Point) -> Point {
        let bx = self.b.x - self.a.x;
        let by = self.b.y - self.a.y;
        let den = bx * bx + by * by;
        if den == 0 {
            self.a
        } else {
            let num = imin(imax((p.x - self.a.x) * bx + (p.y - self.a.y) * by, 0), den);
            Point {
                x: (self.a.x + div_t(num * bx, den)) as i64,
                y: (self.a.y + div_t(num * by, den)) as i64,
            }
        }
    }

    pub proof fn lemma_nearest_bound(self, p: Point)
        requires
            self.wf(),
            p.within(POINT_MAX as int),
        ensures
            self.nearest(p).within(3 * COORD_MAX as int),
            0 <= spec_norm(spec_sub(p, self.nearest(p))) <= DIST_MAX as int,
    {
        let bx = self.b.x - self.a.x;
        let by = self.b.y - self.a.y;
        let den = bx * bx + by * by;
        if den != 0 {
            assert(bx * bx >= 0 && by * by >= 0) by (nonlinear_arith);
            let num = imin(imax((p.x - self.a.x) * bx + (p.y - self.a.y) * by, 0), den);
            assert(den > 0 && num * iabs(bx) <= den * iabs(bx) && num * iabs(by) <= den * iabs(by)
                && iabs(num * bx) == num * iabs(bx) && iabs(num * by) == num * iabs(by))
                by (nonlinear_arith)
                requires
                    den == bx * bx + by * by,
                    den != 0,
                    0 <= num <= den,
            ;
            lemma_div_t_bound(num * bx, den, iabs(bx));
            lemma_div_t_bound(num * by, den, iabs(by));
        }
        lemma_norm_bound(spec_sub(p, self.nearest(p)));
    }
}

impl Default for LineSegment {
    /// A short diagonal segment through the origin.
    fn default() -> (r: LineSegment)
        ensures
            r == (LineSegment {
                a: Point { x: -13107i64, y: -9830i64 },
                b: Point { x: 13107i64, y: 9830i64 },
            }),
    {
        LineSegment { a: Point { x: -13107, y: -9830 }, b: Point { x: 13107, y: 9830 } }
    }
}

impl Sdf<i64> for LineSegment {
    open spec fn sd_req(&self, p: Point) -> bool {
        self.wf() && p.within(POINT_MAX as int)
    }

    /// The distance from `p` to the nearest point of the segment; a segment
    /// has no interior, so the distance is never negative.
    open spec fn sd_spec(&self, p: Point) -> i64 {
        spec_norm(spec_sub(p, self.nearest(p))) as i64
    }

    open spec fn dist_spec(&self, p: Point) -> i64 {
        self.sd_spec(p)
    }

    fn signed_distance(&self, p: Point) -> (r: i64) {
        proof {
            self.lemma_nearest_bound(p);
        }
        let bx = self.b.x - self.a.x;
        let by = self.b.y - self.a.y;
        proof {
            lemma_mul_abs_bound(bx as int, bx as int, 2 * COORD_MAX as int, 2 * COORD_MAX as int);
            lemma_mul_abs_bound(by as int, by as int, 2 * COORD_MAX as int, 2 * COORD_MAX as int);
        }
        proof {
            assert((bx as int) * (bx as int) >= 0 && (by as int) * (by as int) >= 0)
                by (nonlinear_arith);
        }
        let den = bx * bx + by * by;
        let nearest: Point;
        if den == 0 {
            nearest = self.a;
        } else {
            let dpx = p.x - self.a.x;
            let dpy = p.y - self.a.y;
            proof {
                lemma_mul_abs_bound(
                    dpx as int,
                    bx as int,
                    4 * COORD_MAX as int,
                    2 * COORD_MAX as int,
                );
                lemma_mul_abs_bound(
                    dpy as int,
                    by as int,
                    4 * COORD_MAX as int,
                    2 * COORD_MAX as int,
                );
            }
            let num = clamp_i64(dpx * bx + dpy * by, 0, den);
            proof {
                assert(num * iabs(bx as int) <= (den as int) * (i64::MAX as int) && num * iabs(
                    by as int,
                ) <= (den as int) * (i64::MAX as int) && iabs((num as int) * (bx as int)) == num
                    * iabs(bx as int) && iabs((num as int) * (by as int)) == num * iabs(by as int)
                    && num * iabs(bx as int) <= (den as int) * iabs(bx as int) && num * iabs(
                    by as int,
                ) <= (den as int) * iabs(by as int)) by (nonlinear_arith)
                    requires
                        0 <= num <= den,
                        iabs(bx as int) <= 2 * COORD_MAX as int,
                        iabs(by as int) <= 2 * COORD_MAX as int,
                        2 * COORD_MAX as int <= i64::MAX as int,
                ;
                lemma_div_t_bound((num as int) * (bx as int), den as int, iabs(bx as int));
                lemma_div_t_bound((num as int) * (by as int), den as int, iabs(by as int));
            }
            let ox = mul_div_i64(num, bx, den);
            let oy = mul_div_i64(num, by, den);
            nearest = Point { x: self.a.x + ox, y: self.a.y + oy };
        }
        norm(point_sub(p, nearest))
    }

    fn distance(&self, p: Point) -> (r: i64) {
        self.signed_distance(p)
    }
}

} // verus!
