//! The closed tagged union over all primitives.
//!
//! Every distance query dispatches on the variant with one exhaustive match;
//! adding a primitive means touching each match site, which is acceptable for
//! a set this small and closed by design.

use vstd::prelude::*;

verus! {

use crate::math::{div_i64, div_t, iabs, Point, COORD_MAX, DIST_MAX, POINT_MAX, UNIT};
use crate::primitives::{Cross, Disk, LineSegment, Plane, Ray, Rectangle, Torus};
use crate::sdf::Sdf;

#[derive(Clone, Copy, PartialEq, Eq, Structural, Debug)]
pub enum Shape {
    Disk(Disk),
    Torus(Torus),
    Rectangle(Rectangle),
    Cross(Cross),
    Plane(Plane),
    Ray(Ray),
    LineSegment(LineSegment),
}

impl Shape {
    /// The active variant's parameters are representable.
    pub open spec fn wf(self) -> bool {
        match self {
            Shape::Disk(s) => s.wf(),
            Shape::Torus(s) => s.wf(),
            Shape::Rectangle(s) => s.wf(),
            Shape::Cross(s) => s.wf(),
            Shape::Plane(s) => s.wf(),
            Shape::Ray(s) => s.wf(),
            Shape::LineSegment(s) => s.wf(),
        }
    }

    /// Every well-formed shape's distance stays within `DIST_MAX` over the
    /// whole query domain.
    pub proof fn lemma_sd_bound(self, p: Point)
        requires
            self.wf(),
            p.within(POINT_MAX as int),
        ensures
            iabs(self.sd_spec(p) as int) <= DIST_MAX as int,
    {
        match self {
            Shape::Disk(s) => s.lemma_sd_bound(p),
            Shape::Torus(s) => s.lemma_sd_bound(p),
            Shape::Rectangle(s) => s.lemma_sd_bound(p),
            Shape::Cross(s) => s.lemma_sd_bound(p),
            Shape::Plane(s) => s.lemma_sd_bound(p),
            Shape::Ray(s) => s.lemma_projected_bound(p),
            Shape::LineSegment(s) => s.lemma_nearest_bound(p),
        }
    }

    /// The gradient estimated by central differences of the signed distance
    /// with step `h`, scaled so that a slope of one world unit per world unit
    /// comes out as `UNIT`.
    pub open spec fn spec_derivative(self, p: Point, h: int) -> Point {
        let fxp = self.sd_spec(Point { x: (p.x + h) as i64, y: p.y }) as int;
        let fxm = self.sd_spec(Point { x: (p.x - h) as i64, y: p.y }) as int;
        let fyp = self.sd_spec(Point { x: p.x, y: (p.y + h) as i64 }) as int;
        let fym = self.sd_spec(Point { x: p.x, y: (p.y - h) as i64 }) as int;
        Point {
            x: div_t((fxp - fxm) * (UNIT as int), 2 * h) as i64,
            y: div_t((fyp - fym) * (UNIT as int), 2 * h) as i64,
        }
    }

    pub fn derivative(&self, p: Point, h: i64) -> (r: Point)
        requires
            self.wf(),
            1 <= h <= UNIT,
            p.within(2 * COORD_MAX as int),
        ensures
            r == self.spec_derivative(p, h as int),
    {
        let pxp = Point { x: p.x + h, y: p.y };
        let pxm = Point { x: p.x - h, y: p.y };
        let pyp = Point { x: p.x, y: p.y + h };
        let pym = Point { x: p.x, y: p.y - h };
        proof {
            self.lemma_sd_bound(pxp);
            self.lemma_sd_bound(pxm);
            self.lemma_sd_bound(pyp);
            self.lemma_sd_bound(pym);
        }
        let fxp = self.signed_distance(pxp);
        let fxm = self.signed_distance(pxm);
        let fyp = self.signed_distance(pyp);
        let fym = self.signed_distance(pym);
        Point {
            x: div_i64((fxp - fxm) * UNIT, 2 * h),
            y: div_i64((fyp - fym) * UNIT, 2 * h),
        }
    }
}

impl Sdf<i64> for Shape {
    open spec fn sd_req(&self, p: Point) -> bool {
        self.wf() && p.within(POINT_MAX as int)
    }

    /// The active variant's signed distance.
    open spec fn sd_spec(&self, p: Point) -> i64 {
        match *self {
            Shape::Disk(s) => s.sd_spec(p),
            Shape::Torus(s) => s.sd_spec(p),
            Shape::Rectangle(s) => s.sd_spec(p),
            Shape::Cross(s) => s.sd_spec(p),
            Shape::Plane(s) => s.sd_spec(p),
            Shape::Ray(s) => s.sd_spec(p),
            Shape::LineSegment(s) => s.sd_spec(p),
        }
    }

    /// The active variant's unsigned distance.
    open spec fn dist_spec(&self, p: Point) -> i64 {
        match *self {
            Shape::Disk(s) => s.dist_spec(p),
            Shape::Torus(s) => s.dist_spec(p),
            Shape::Rectangle(s) => s.dist_spec(p),
            Shape::Cross(s) => s.dist_spec(p),
            Shape::Plane(s) => s.dist_spec(p),
            Shape::Ray(s) => s.dist_spec(p),
            Shape::LineSegment(s) => s.dist_spec(p),
        }
    }

    fn signed_distance(&self, p: Point) -> (r: i64) {
        match self {
            Shape::Disk(s) => s.signed_distance(p),
            Shape::Torus(s) => s.signed_distance(p),
            Shape::Rectangle(s) => s.signed_distance(p),
            Shape::Cross(s) => s.signed_distance(p),
            Shape::Plane(s) => s.signed_distance(p),
            Shape::Ray(s) => s.signed_distance(p),
            Shape::LineSegment(s) => s.signed_distance(p),
        }
    }

    fn distance(&self, p: Point) -> (r: i64) {
        match self {
            Shape::Disk(s) => s.distance(p),
            Shape::Torus(s) => s.distance(p),
            Shape::Rectangle(s) => s.distance(p),
            Shape::Cross(s) => s.distance(p),
            Shape::Plane(s) => s.distance(p),
            Shape::Ray(s) => s.distance(p),
            Shape::LineSegment(s) => s.distance(p),
        }
    }
}

} // verus!
