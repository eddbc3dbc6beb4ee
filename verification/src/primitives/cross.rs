use vstd::prelude::*;

verus! {

use crate::math::{abs_i64, iabs, imax, imin, lemma_norm_bound, max_i64, min_i64, norm, spec_norm,
    Point, COORD_MAX, DIST_MAX, POINT_MAX};
use crate::sdf::Sdf;

/// A plus sign centred on the origin: two bars of half-length `length` and
/// half-thickness `thickness`, one along each axis.
#[derive(Clone, Copy, PartialEq, Eq, Structural, Debug)]
pub struct Cross {
    pub length: i64,
    pub thickness: i64,
}

impl Cross {
    pub fn new(length: i64, thickness: i64) -> (r: Cross)
        ensures
            r == (Cross { length, thickness }),
    {
        Cross { length, thickness }
    }

    /// Both parameters are representable.
    pub open spec fn wf(self) -> bool {
        iabs(self.length as int) <= COORD_MAX as int && iabs(self.thickness as int)
            <= COORD_MAX as int
    }

    /// `p` folded into the octant `x >= y >= 0`, where one bar end suffices.
    pub open spec fn folded(self, p: Point) -> (int, int) {
        let ax = iabs(p.x as int);
        let ay = iabs(p.y as int);
        if ay > ax {
            (ay, ax)
        } else {
            (ax, ay)
        }
    }

    pub proof fn lemma_sd_bound(self, p: Point)
        requires
            self.wf(),
            p.within(POINT_MAX as int),
        ensures
            iabs(self.sd_spec(p) as int) <= DIST_MAX as int,
            self.sd_spec(p) as int == self.sd_formula(p),
            self.dist_spec(p) as int == self.dist_formula(p),
    {
        let (sx, sy) = self.folded(p);
        let t = self.thickness as int;
        let l = self.length as int;
        lemma_norm_bound(Point { x: (sx - t) as i64, y: (sy - t) as i64 });
        lemma_norm_bound(Point { x: (sx - l) as i64, y: (sy - t) as i64 });
    }

    /// The signed distance, written over the folded point: near the axis the
    /// bar interior decides, past the bar end its corner does.
    pub open spec fn sd_formula(self, p: Point) -> int {
        let (sx, sy) = self.folded(p);
        let t = self.thickness as int;
        let l = self.length as int;
        let u = Point { x: (sx - t) as i64, y: (sy - t) as i64 };
        let v = Point { x: (sx - l) as i64, y: (sy - t) as i64 };
        if sx - t < 0 {
            imax(-spec_norm(u), sx - l)
        } else if sx - l < 0 || sy - t < 0 {
            imax(sx - l, sy - t)
        } else {
            spec_norm(v)
        }
    }

    /// The unsigned distance in the same three regimes.
    pub open spec fn dist_formula(self, p: Point) -> int {
        let (sx, sy) = self.folded(p);
        let t = self.thickness as int;
        let l = self.length as int;
        let u = Point { x: (sx - t) as i64, y: (sy - t) as i64 };
        let v = Point { x: (sx - l) as i64, y: (sy - t) as i64 };
        if sx - t < 0 {
            imin(spec_norm(u), -(sx - l))
        } else if sx - l < 0 || sy - t < 0 {
            iabs(imax(sx - l, sy - t))
        } else {
            spec_norm(v)
        }
    }
}

impl Default for Cross {
    /// Bars of roughly three tenths of a world unit, one tenth thick.
    fn default() -> (r: Cross)
        ensures
            r == (Cross { length: 19661i64, thickness: 6554i64 }),
    {
        Cross { length: 19661, thickness: 6554 }
    }
}

impl Sdf<i64> for Cross {
    open spec fn sd_req(&self, p: Point) -> bool {
        self.wf() && p.within(POINT_MAX as int)
    }

    open spec fn sd_spec(&self, p: Point) -> i64 {
        self.sd_formula(p) as i64
    }

    open spec fn dist_spec(&self, p: Point) -> i64 {
        self.dist_formula(p) as i64
    }

    fn signed_distance(&self, p: Point) -> (r: i64) {
        proof {
            self.lemma_sd_bound(p);
            let (sx, sy) = self.folded(p);
            lemma_norm_bound(
                Point {
                    x: (sx - self.thickness as int) as i64,
                    y: (sy - self.thickness as int) as i64,
                },
            );
            lemma_norm_bound(
                Point { x: (sx - self.length as int) as i64, y: (sy - self.thickness as int) as i64 },
            );
        }
        let ax = abs_i64(p.x);
        let ay = abs_i64(p.y);
        let sx: i64 = if ay > ax {
            ay
        } else {
            ax
        };
        let sy: i64 = if ay > ax {
            ax
        } else {
            ay
        };
        let u = Point { x: sx - self.thickness, y: sy - self.thickness };
        let v = Point { x: sx - self.length, y: sy - self.thickness };
        if u.x < 0 {
            max_i64(-norm(u), v.x)
        } else if v.x < 0 || v.y < 0 {
            max_i64(v.x, v.y)
        } else {
            norm(v)
        }
    }

    fn distance(&self, p: Point) -> (r: i64) {
        proof {
            self.lemma_sd_bound(p);
            let (sx, sy) = self.folded(p);
            lemma_norm_bound(
                Point {
                    x: (sx - self.thickness as int) as i64,
                    y: (sy - self.thickness as int) as i64,
                },
            );
            lemma_norm_bound(
                Point { x: (sx - self.length as int) as i64, y: (sy - self.thickness as int) as i64 },
            );
        }
        let ax = abs_i64(p.x);
        let ay = abs_i64(p.y);
        let sx: i64 = if ay > ax {
            ay
        } else {
            ax
        };
        let sy: i64 = if ay > ax {
            ax
        } else {
            ay
        };
        let u = Point { x: sx - self.thickness, y: sy - self.thickness };
        let v = Point { x: sx - self.length, y: sy - self.thickness };
        if u.x < 0 {
            min_i64(norm(u), -v.x)
        } else if v.x < 0 || v.y < 0 {
            abs_i64(max_i64(v.x, v.y))
        } else {
            norm(v)
        }
    }
}

} // verus!
