//! Interactive resizing of shapes.
//!
//! Given the point where a drag started, the cursor's current point, and the
//! gradient of the shape's distance field at the grab point (all in units,
//! the gradient `UNIT`-scaled), each shape adjusts one or two of its
//! parameters. These helpers serve the editor's drag interaction and sit
//! outside the distance algebra.

use vstd::prelude::*;

verus! {

use crate::math::{div_i64, div_t, iabs, imax, imin, lemma_div_t_bound, lemma_mul_abs_bound,
    max_i64, min_i64, norm, point_sub, spec_norm, spec_sub, Point, COORD_MAX, UNIT};
use crate::primitives::{Cross, Disk, LineSegment, Plane, Ray, Rectangle, Torus};
use crate::primitives_enum::Shape;

/// Drag points stay within this bound.
pub const DRAG_MAX: i64 = 2 * COORD_MAX;

/// Gradients stay within this bound.
pub const GRAD_MAX: i64 = 4 * UNIT;

/// The committed drag motion along one axis: the cursor movement weighted by
/// the gradient, brought back to whole units.
pub open spec fn drag_step(from: i64, to: i64, grad: i64) -> int {
    div_t((to - from) * grad, UNIT as int)
}

/// Both drag points and the gradient are representable.
pub open spec fn drag_wf(initial: Point, current: Point, derivative: Point) -> bool {
    initial.within(DRAG_MAX as int) && current.within(DRAG_MAX as int) && derivative.within(
        GRAD_MAX as int,
    )
}

/// Computes `drag_step` without overflow; the result stays within drag
/// range.
fn drag_step_at(from: i64, to: i64, grad: i64) -> (r: i64)
    requires
        iabs(from as int) <= DRAG_MAX as int,
        iabs(to as int) <= DRAG_MAX as int,
        iabs(grad as int) <= GRAD_MAX as int,
    ensures
        r == drag_step(from, to, grad),
        iabs(r as int) <= 16 * COORD_MAX as int,
{
    proof {
        lemma_mul_abs_bound(to - from, grad as int, 2 * DRAG_MAX as int, GRAD_MAX as int);
        lemma_div_t_bound((to - from) * grad, UNIT as int, 16 * COORD_MAX as int);
    }
    div_i64((to - from) * grad, UNIT)
}

/// A parameter raised by two drag steps and kept non-negative, clamped into
/// the representable range.
pub open spec fn stepped(param: i64, sx: int, sy: int) -> int {
    imin(imax(param + sx + sy, 0), COORD_MAX as int)
}

fn stepped_at(param: i64, sx: i64, sy: i64) -> (r: i64)
    requires
        iabs(param as int) <= COORD_MAX as int,
        iabs(sx as int) <= 16 * COORD_MAX as int,
        iabs(sy as int) <= 16 * COORD_MAX as int,
    ensures
        r == stepped(param, sx as int, sy as int),
        0 <= r <= COORD_MAX,
{
    min_i64(max_i64(param + sx + sy, 0), COORD_MAX)
}

impl Disk {
    /// Grows or shrinks the radius along the gradient.
    pub open spec fn spec_resize(self, initial: Point, current: Point, derivative: Point) -> Disk {
        let sx = drag_step(initial.x, current.x, derivative.x);
        let sy = drag_step(initial.y, current.y, derivative.y);
        Disk { radius: stepped(self.radius, sx, sy) as i64 }
    }

    pub fn resize(self, initial: Point, current: Point, derivative: Point) -> (r: Disk)
        requires
            self.wf(),
            drag_wf(initial, current, derivative),
        ensures
            r == self.spec_resize(initial, current, derivative),
            r.wf(),
    {
        let sx = drag_step_at(initial.x, current.x, derivative.x);
        let sy = drag_step_at(initial.y, current.y, derivative.y);
        Disk { radius: stepped_at(self.radius, sx, sy) }
    }
}

impl Torus {
    /// A grab outside the ring resizes the ring, a grab inside resizes the
    /// tube; the tube never outgrows the ring.
    pub open spec fn spec_resize(self, initial: Point, current: Point, derivative: Point) -> Torus {
        let sx = drag_step(initial.x, current.x, derivative.x);
        let sy = drag_step(initial.y, current.y, derivative.y);
        let major = if spec_norm(initial) > self.major_radius {
            stepped(self.major_radius, sx, sy) as i64
        } else {
            self.major_radius
        };
        let minor0 = if spec_norm(initial) > self.major_radius {
            self.minor_radius as int
        } else {
            stepped(self.minor_radius, sx, sy)
        };
        Torus { major_radius: major, minor_radius: imin(minor0, major as int) as i64 }
    }

    pub fn resize(self, initial: Point, current: Point, derivative: Point) -> (r: Torus)
        requires
            self.wf(),
            drag_wf(initial, current, derivative),
        ensures
            r == self.spec_resize(initial, current, derivative),
            r.wf(),
    {
        let sx = drag_step_at(initial.x, current.x, derivative.x);
        let sy = drag_step_at(initial.y, current.y, derivative.y);
        let mut major = self.major_radius;
        let mut minor = self.minor_radius;
        if norm(initial) > self.major_radius {
            major = stepped_at(self.major_radius, sx, sy);
        } else {
            minor = stepped_at(self.minor_radius, sx, sy);
        }
        minor = min_i64(minor, major);
        proof {
            assert(iabs(minor as int) <= COORD_MAX as int);
        }
        Torus { major_radius: major, minor_radius: minor }
    }
}

impl Rectangle {
    /// The drag moves each extent by twice the cursor motion, taking only
    /// the gradient's sign where it is decisive.
    pub open spec fn spec_resize(self, initial: Point, current: Point, derivative: Point)
        -> Rectangle {
        let gx = resize_scale(derivative.x);
        let gy = resize_scale(derivative.y);
        let sx = drag_step(initial.x, current.x, gx as i64);
        let sy = drag_step(initial.y, current.y, gy as i64);
        Rectangle { width: stepped(self.width, sx, 0) as i64, height: stepped(self.height, sy, 0) as i64 }
    }

    pub fn resize(self, initial: Point, current: Point, derivative: Point) -> (r: Rectangle)
        requires
            self.wf(),
            drag_wf(initial, current, derivative),
        ensures
            r == self.spec_resize(initial, current, derivative),
            r.wf(),
    {
        let gx = resize_scale_at(derivative.x);
        let gy = resize_scale_at(derivative.y);
        let sx = drag_step_at(initial.x, current.x, gx);
        let sy = drag_step_at(initial.y, current.y, gy);
        Rectangle { width: stepped_at(self.width, sx, 0), height: stepped_at(self.height, sy, 0) }
    }
}

/// The doubled drag weight for a rectangle: the gradient's sign where its
/// magnitude is decisive, the raw gradient where it is flat.
pub open spec fn resize_scale(grad: i64) -> int {
    if iabs(grad as int) > SIGN_CUTOFF as int {
        if grad < 0 {
            -2 * UNIT as int
        } else {
            2 * UNIT as int
        }
    } else {
        2 * grad as int
    }
}

/// A gradient magnitude above a twentieth of a unit counts as decisive.
pub const SIGN_CUTOFF: i64 = 3277;

fn resize_scale_at(grad: i64) -> (r: i64)
    requires
        iabs(grad as int) <= GRAD_MAX as int,
    ensures
        r == resize_scale(grad),
        iabs(r as int) <= 2 * GRAD_MAX as int,
{
    let a = if grad < 0 {
        -grad
    } else {
        grad
    };
    if a > SIGN_CUTOFF {
        if grad < 0 {
            -2 * UNIT
        } else {
            2 * UNIT
        }
    } else {
        2 * grad
    }
}

impl LineSegment {
    /// Dragging near an endpoint moves that endpoint with the cursor.
    pub open spec fn spec_resize(self, initial: Point, current: Point) -> LineSegment {
        let dx = current.x - initial.x;
        let dy = current.y - initial.y;
        if spec_norm(spec_sub(initial, self.a)) < GRAB_RANGE as int {
            LineSegment {
                a: Point { x: clamped(self.a.x + dx), y: clamped(self.a.y + dy) },
                b: self.b,
            }
        } else {
            LineSegment {
                a: self.a,
                b: Point { x: clamped(self.b.x + dx), y: clamped(self.b.y + dy) },
            }
        }
    }

    pub fn resize(self, initial: Point, current: Point, derivative: Point) -> (r: LineSegment)
        requires
            self.wf(),
            drag_wf(initial, current, derivative),
        ensures
            r == self.spec_resize(initial, current),
            r.wf(),
    {
        let dx = current.x - initial.x;
        let dy = current.y - initial.y;
        if norm(point_sub(initial, self.a)) < GRAB_RANGE {
            LineSegment {
                a: Point { x: clamped_at(self.a.x + dx), y: clamped_at(self.a.y + dy) },
                b: self.b,
            }
        } else {
            LineSegment {
                a: self.a,
                b: Point { x: clamped_at(self.b.x + dx), y: clamped_at(self.b.y + dy) },
            }
        }
    }
}

/// A grab within a hundredth of a unit of an endpoint catches it.
pub const GRAB_RANGE: i64 = 655;

/// Clamped into the representable parameter range.
pub open spec fn clamped(v: int) -> i64 {
    imin(imax(v, -COORD_MAX as int), COORD_MAX as int) as i64
}

fn clamped_at(v: i64) -> (r: i64)
    ensures
        r == clamped(v as int),
        iabs(r as int) <= COORD_MAX as int,
{
    min_i64(max_i64(v, -COORD_MAX), COORD_MAX)
}

impl Plane {
    /// A plane through the origin has nothing to resize.
    pub fn resize(self, initial: Point, current: Point, derivative: Point) -> (r: Plane)
        ensures
            r == self,
    {
        self
    }
}

impl Ray {
    /// The ray turns to pass through the cursor; the direction stays a unit
    /// vector. A cursor on the origin leaves the ray alone.
    pub open spec fn spec_resize(self, current: Point) -> Ray {
        let n = spec_norm(current);
        if n == 0 {
            self
        } else {
            Ray {
                direction: Point {
                    x: div_t(current.x * UNIT, n) as i64,
                    y: div_t(current.y * UNIT, n) as i64,
                },
            }
        }
    }

    pub fn resize(self, initial: Point, current: Point, derivative: Point) -> (r: Ray)
        requires
            self.wf(),
            drag_wf(initial, current, derivative),
        ensures
            r == self.spec_resize(current),
            r.wf(),
    {
        let n = norm(current);
        if n == 0 {
            self
        } else {
            proof {
                lemma_norm_at_least_coord(current);
                lemma_mul_abs_bound(current.x as int, UNIT as int, DRAG_MAX as int, UNIT as int);
                lemma_mul_abs_bound(current.y as int, UNIT as int, DRAG_MAX as int, UNIT as int);
                assert(iabs((current.x as int) * (UNIT as int)) <= (n as int) * (UNIT as int)
                    && iabs((current.y as int) * (UNIT as int)) <= (n as int) * (UNIT as int))
                    by (nonlinear_arith)
                    requires
                        iabs(current.x as int) <= n as int,
                        iabs(current.y as int) <= n as int,
                        UNIT == 65536i64,
                ;
                lemma_div_t_bound((current.x as int) * (UNIT as int), n as int, UNIT as int);
                lemma_div_t_bound((current.y as int) * (UNIT as int), n as int, UNIT as int);
            }
            Ray {
                direction: Point {
                    x: div_i64(current.x * UNIT, n),
                    y: div_i64(current.y * UNIT, n),
                },
            }
        }
    }
}

/// The norm dominates each coordinate's magnitude.
pub proof fn lemma_norm_at_least_coord(p: Point)
    ensures
        iabs(p.x as int) <= spec_norm(p),
        iabs(p.y as int) <= spec_norm(p),
{
    let x = iabs(p.x as int);
    let y = iabs(p.y as int);
    assert((p.x as int) * (p.x as int) + (p.y as int) * (p.y as int) >= 0) by (nonlinear_arith);
    let nsq = ((p.x as int) * (p.x as int) + (p.y as int) * (p.y as int)) as nat;
    crate::math::lemma_sqrt_of(nsq);
    let s = crate::math::sqrt_of(nsq);
    assert(x * x <= nsq && y * y <= nsq) by (nonlinear_arith)
        requires
            x == iabs(p.x as int),
            y == iabs(p.y as int),
            nsq == (p.x as int) * (p.x as int) + (p.y as int) * (p.y as int),
    ;
    if s < x {
        assert((s + 1) * (s + 1) <= x * x) by (nonlinear_arith)
            requires
                0 <= s + 1 <= x,
        ;
    }
    if s < y {
        assert((s + 1) * (s + 1) <= y * y) by (nonlinear_arith)
            requires
                0 <= s + 1 <= y,
        ;
    }
}

impl Cross {
    /// A grab inside the bar resizes the thickness; a decisive diagonal
    /// gradient at a bar end resizes length and thickness together; any
    /// other grab stretches the length. The thickness never outgrows the
    /// length.
    pub open spec fn spec_resize(self, initial: Point, current: Point, derivative: Point) -> Cross {
        let sx = drag_step(initial.x, current.x, derivative.x);
        let sy = drag_step(initial.y, current.y, derivative.y);
        let inside = imax(iabs(initial.x as int), iabs(initial.y as int)) < self.length
            - GRAB_RANGE;
        let diagonal = iabs(derivative.x as int) > SIGN_CUTOFF as int && iabs(derivative.y as int)
            > SIGN_CUTOFF as int;
        let length0 = if inside {
            self.length as int
        } else if diagonal {
            let ux = drag_step(initial.x, current.x, sign_unit(derivative.x));
            let uy = drag_step(initial.y, current.y, sign_unit(derivative.y));
            let u = if iabs(initial.y as int) > iabs(initial.x as int) {
                uy
            } else {
                ux
            };
            stepped(self.length, u, 0)
        } else {
            stepped(self.length, sx, sy)
        };
        let thick0 = if inside {
            stepped(self.thickness, sx, sy)
        } else if diagonal {
            let ux = drag_step(initial.x, current.x, sign_unit(derivative.x));
            let uy = drag_step(initial.y, current.y, sign_unit(derivative.y));
            let u = if iabs(initial.y as int) > iabs(initial.x as int) {
                ux
            } else {
                uy
            };
            stepped(self.thickness, u, 0)
        } else {
            self.thickness as int
        };
        Cross { length: length0 as i64, thickness: imin(thick0, length0) as i64 }
    }

    pub fn resize(self, initial: Point, current: Point, derivative: Point) -> (r: Cross)
        requires
            self.wf(),
            drag_wf(initial, current, derivative),
        ensures
            r == self.spec_resize(initial, current, derivative),
            r.wf(),
    {
        let sx = drag_step_at(initial.x, current.x, derivative.x);
        let sy = drag_step_at(initial.y, current.y, derivative.y);
        let aix = abs_of(initial.x);
        let aiy = abs_of(initial.y);
        let adx = abs_of(derivative.x);
        let ady = abs_of(derivative.y);
        let inside = max_i64(aix, aiy) < self.length - GRAB_RANGE;
        let diagonal = adx > SIGN_CUTOFF && ady > SIGN_CUTOFF;
        let mut length: i64 = self.length;
        let mut thickness: i64 = self.thickness;
        if inside {
            thickness = stepped_at(self.thickness, sx, sy);
        } else if diagonal {
            let ux = drag_step_at(initial.x, current.x, sign_unit_at(derivative.x));
            let uy = drag_step_at(initial.y, current.y, sign_unit_at(derivative.y));
            let su = if aiy > aix {
                uy
            } else {
                ux
            };
            let tu = if aiy > aix {
                ux
            } else {
                uy
            };
            length = stepped_at(self.length, su, 0);
            thickness = stepped_at(self.thickness, tu, 0);
        } else {
            length = stepped_at(self.length, sx, sy);
        }
        thickness = min_i64(thickness, length);
        proof {
            assert(iabs(thickness as int) <= COORD_MAX as int);
        }
        Cross { length, thickness }
    }
}

/// The gradient's sign as a unit-scaled weight.
pub open spec fn sign_unit(grad: i64) -> i64 {
    if grad < 0 {
        (-(UNIT as int)) as i64
    } else if grad > 0 {
        UNIT
    } else {
        0
    }
}

fn sign_unit_at(grad: i64) -> (r: i64)
    ensures
        r == sign_unit(grad),
        iabs(r as int) <= GRAD_MAX as int,
{
    if grad < 0 {
        -UNIT
    } else if grad > 0 {
        UNIT
    } else {
        0
    }
}

fn abs_of(v: i64) -> (r: i64)
    requires
        v != i64::MIN,
    ensures
        r == iabs(v as int),
{
    crate::math::abs_i64(v)
}

impl Shape {
    /// Resizes the active variant.
    pub fn resize(self, initial: Point, current: Point, derivative: Point) -> (r: Shape)
        requires
            self.wf(),
            drag_wf(initial, current, derivative),
        ensures
            r.wf(),
            r == match self {
                Shape::Disk(s) => Shape::Disk(s.spec_resize(initial, current, derivative)),
                Shape::Torus(s) => Shape::Torus(s.spec_resize(initial, current, derivative)),
                Shape::Rectangle(s) => Shape::Rectangle(
                    s.spec_resize(initial, current, derivative),
                ),
                Shape::Cross(s) => Shape::Cross(s.spec_resize(initial, current, derivative)),
                Shape::Plane(s) => Shape::Plane(s),
                Shape::Ray(s) => Shape::Ray(s.spec_resize(current)),
                Shape::LineSegment(s) => Shape::LineSegment(s.spec_resize(initial, current)),
            },
    {
        match self {
            Shape::Disk(s) => Shape::Disk(s.resize(initial, current, derivative)),
            Shape::Torus(s) => Shape::Torus(s.resize(initial, current, derivative)),
            Shape::Rectangle(s) => Shape::Rectangle(s.resize(initial, current, derivative)),
            Shape::Cross(s) => Shape::Cross(s.resize(initial, current, derivative)),
            Shape::Plane(s) => Shape::Plane(s.resize(initial, current, derivative)),
            Shape::Ray(s) => Shape::Ray(s.resize(initial, current, derivative)),
            Shape::LineSegment(s) => Shape::LineSegment(s.resize(initial, current, derivative)),
        }
    }
}

} // verus!
