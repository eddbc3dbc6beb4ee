//! Fixed-point scalars and 2D points.
//!
//! One world unit of the normalized coordinate space is `UNIT` integer units,
//! so every geometric formula of the engine is an exact integer function.

use vstd::prelude::*;

verus! {

use vstd::arithmetic::div_mod::{
    lemma_div_is_ordered, lemma_div_nonincreasing, lemma_div_pos_is_pos,
};

/// Number of integer units in one world unit of the normalized space
/// (the shorter viewport axis spans one world unit).
pub const UNIT: i64 = 65536;

/// Largest magnitude allowed for a shape parameter or a transform coordinate.
pub const COORD_MAX: i64 = 67108864;

/// Largest magnitude allowed for a point handed to a primitive
/// (a query point plus a translation).
pub const POINT_MAX: i64 = 3 * COORD_MAX;

/// Every primitive's signed distance stays within this bound whenever its
/// parameters are within `COORD_MAX` and the query point within `POINT_MAX`.
pub const DIST_MAX: i64 = 32 * COORD_MAX;

/// A 2D point or vector in fixed-point units.
#[derive(Clone, Copy, PartialEq, Eq, Structural, Debug)]
pub struct Point {
    pub x: i64,
    pub y: i64,
}

impl Point {
    pub fn new(x: i64, y: i64) -> (r: Point)
        ensures
            r == (Point { x, y }),
    {
        Point { x, y }
    }

    /// Both coordinates have magnitude at most `b`.
    pub open spec fn within(self, b: int) -> bool {
        iabs(self.x as int) <= b && iabs(self.y as int) <= b
    }
}

impl Default for Point {
    fn default() -> (r: Point)
        ensures
            r == (Point { x: 0i64, y: 0i64 }),
    {
        Point { x: 0, y: 0 }
    }
}

pub open spec fn iabs(a: int) -> int {
    if a < 0 {
        -a
    } else {
        a
    }
}

pub open spec fn imin(a: int, b: int) -> int {
    if a < b {
        a
    } else {
        b
    }
}

pub open spec fn imax(a: int, b: int) -> int {
    if a > b {
        a
    } else {
        b
    }
}

pub fn abs_i64(a: i64) -> (r: i64)
    requires
        a != i64::MIN,
    ensures
        r == iabs(a as int),
{
    if a < 0 {
        -a
    } else {
        a
    }
}

pub fn min_i64(a: i64, b: i64) -> (r: i64)
    ensures
        r == imin(a as int, b as int),
{
    if a < b {
        a
    } else {
        b
    }
}

pub fn max_i64(a: i64, b: i64) -> (r: i64)
    ensures
        r == imax(a as int, b as int),
{
    if a > b {
        a
    } else {
        b
    }
}

/// Clamps `v` to `[lo, hi]`, raising to `lo` first.
pub fn clamp_i64(v: i64, lo: i64, hi: i64) -> (r: i64)
    ensures
        r == imin(imax(v as int, lo as int), hi as int),
{
    min_i64(max_i64(v, lo), hi)
}

/// The integer square root: the largest `r` with `r * r <= n`.
pub open spec fn sqrt_of(n: nat) -> nat
    decreases n,
{
    if n == 0 {
        0
    } else {
        let r = sqrt_of((n - 1) as nat);
        if (r + 1) * (r + 1) <= n {
            r + 1
        } else {
            r
        }
    }
}

pub proof fn lemma_sqrt_of(n: nat)
    ensures
        sqrt_of(n) * sqrt_of(n) <= n,
        n < (sqrt_of(n) + 1) * (sqrt_of(n) + 1),
    decreases n,
{
    if n == 0 {
        assert(sqrt_of(0) == 0);
        assert(0 < (0 + 1) * (0 + 1)) by (nonlinear_arith);
    } else {
        lemma_sqrt_of((n - 1) as nat);
        let r = sqrt_of((n - 1) as nat);
        assert(r * r <= n - 1);
        assert(n - 1 < (r + 1) * (r + 1));
        if (r + 1) * (r + 1) <= n {
            assert(sqrt_of(n) == r + 1);
            assert((r + 1) * (r + 1) < (r + 2) * (r + 2)) by (nonlinear_arith)
                requires
                    r >= 0,
            ;
            assert(n < (r + 2) * (r + 2));
            assert(sqrt_of(n) * sqrt_of(n) == (r + 1) * (r + 1));
            assert((sqrt_of(n) + 1) * (sqrt_of(n) + 1) == (r + 2) * (r + 2));
        } else {
            assert(sqrt_of(n) == r);
            assert(sqrt_of(n) * sqrt_of(n) == r * r);
            assert((sqrt_of(n) + 1) * (sqrt_of(n) + 1) == (r + 1) * (r + 1));
        }
    }
}

pub proof fn lemma_sqrt_unique(n: nat, r: nat)
    requires
        r * r <= n,
        n < (r + 1) * (r + 1),
    ensures
        r == sqrt_of(n),
{
    let s = sqrt_of(n);
    lemma_sqrt_of(n);
    if r < s {
        assert((r + 1) * (r + 1) <= s * s) by (nonlinear_arith)
            requires
                0 <= r + 1 <= s,
        ;
    }
    if s < r {
        assert((s + 1) * (s + 1) <= r * r) by (nonlinear_arith)
            requires
                0 <= s + 1 <= r,
        ;
    }
}

pub fn isqrt(n: u64) -> (r: u64)
    ensures
        r as nat == sqrt_of(n as nat),
        r * r <= n,
{
    let mut lo: u64 = 0;
    let mut hi: u64 = 4294967296;
    assert((n as int) < 4294967296int * 4294967296int) by (nonlinear_arith)
        requires
            n <= 0xffff_ffff_ffff_ffffu64,
    ;
    while lo + 1 < hi
        invariant
            lo < hi <= 4294967296,
            (lo as int) * (lo as int) <= n as int,
            (n as int) < (hi as int) * (hi as int),
        decreases hi - lo,
    {
        let mid: u64 = lo + (hi - lo) / 2;
        assert(lo < mid < hi);
        assert((mid as int) * (mid as int) <= 0xffff_fffe_0000_0001int) by (nonlinear_arith)
            requires
                0 <= mid < 4294967296int,
        ;
        if mid * mid <= n {
            lo = mid;
        } else {
            hi = mid;
        }
    }
    proof {
        lemma_sqrt_unique(n as nat, lo as nat);
    }
    lo
}

/// Division truncating toward zero, the semantics of hardware division,
/// for a positive divisor.
pub open spec fn div_t(a: int, b: int) -> int
    recommends
        b > 0,
{
    if a >= 0 {
        a / b
    } else {
        -((-a) / b)
    }
}

/// The quotient's magnitude never exceeds the dividend's.
pub proof fn lemma_div_t_nonincreasing(a: int, b: int)
    requires
        b > 0,
    ensures
        iabs(div_t(a, b)) <= iabs(a),
        a >= 0 ==> 0 <= div_t(a, b) <= a,
        a < 0 ==> a <= div_t(a, b) <= 0,
{
    if a >= 0 {
        lemma_div_nonincreasing(a, b);
        lemma_div_pos_is_pos(a, b);
    } else {
        lemma_div_nonincreasing(-a, b);
        lemma_div_pos_is_pos(-a, b);
    }
}

/// If `|a| <= b * c` then `|a / b| <= c`.
pub proof fn lemma_div_t_bound(a: int, b: int, c: int)
    requires
        b > 0,
        0 <= c,
        iabs(a) <= b * c,
    ensures
        iabs(div_t(a, b)) <= c,
{
    lemma_div_t_nonincreasing(a, b);
    let m = iabs(a);
    assert((b * c) / b == c) by (nonlinear_arith)
        requires
            b > 0,
    ;
    lemma_div_is_ordered(m, b * c, b);
}

pub fn div_i64(a: i64, b: i64) -> (r: i64)
    requires
        b > 0,
        a != i64::MIN,
    ensures
        r == div_t(a as int, b as int),
        iabs(r as int) <= iabs(a as int),
{
    proof {
        lemma_div_t_nonincreasing(a as int, b as int);
    }
    if a >= 0 {
        let q: u64 = (a as u64) / (b as u64);
        q as i64
    } else {
        let q: u64 = ((-a) as u64) / (b as u64);
        -(q as i64)
    }
}

/// `n * d / q`, truncating toward zero, computed without intermediate
/// overflow; `n` must be non-negative and `q` positive.
pub fn mul_div_i64(n: i64, d: i64, q: i64) -> (r: i64)
    requires
        0 <= n,
        0 < q,
        d != i64::MIN,
        iabs((n as int) * (d as int)) <= (q as int) * (i64::MAX as int),
    ensures
        r == div_t((n as int) * (d as int), q as int),
        iabs(r as int) * (q as int) <= (n as int) * iabs(d as int),
{
    let da: u64 = if d < 0 {
        (-d) as u64
    } else {
        d as u64
    };
    proof {
        assert((n as int) * (da as int) < 0x100000000000000000000000000000000int && (n as int) * (
        da as int) == (n as int) * iabs(d as int) && iabs((n as int) * (d as int)) == (n as int)
            * iabs(d as int)) by (nonlinear_arith)
            requires
                0 <= n <= 0x7fffffffffffffffint,
                0 <= da <= 0x8000000000000000int,
                da == iabs(d as int),
        ;
    }
    let m: u128 = (n as u128) * (da as u128);
    let quo: u128 = m / (q as u128);
    proof {
        lemma_div_t_bound((n as int) * iabs(d as int), q as int, i64::MAX as int);
        lemma_div_t_nonincreasing((n as int) * iabs(d as int), q as int);
        assert(quo * q <= m) by (nonlinear_arith)
            requires
                q > 0,
                quo == (m as int) / (q as int),
                m >= 0,
        ;
        assert((n as int) * (d as int) == if d >= 0 {
            (n as int) * iabs(d as int)
        } else {
            -((n as int) * iabs(d as int))
        }) by (nonlinear_arith)
            requires
                0 <= n,
        ;
    }
    if d < 0 {
        -(quo as i64)
    } else {
        quo as i64
    }
}

pub open spec fn spec_dot(a: Point, b: Point) -> int {
    (a.x as int) * (b.x as int) + (a.y as int) * (b.y as int)
}

/// The dot product of two bounded vectors.
pub fn dot(a: Point, b: Point) -> (r: i64)
    requires
        a.within(16 * COORD_MAX as int),
        b.within(16 * COORD_MAX as int),
    ensures
        r == spec_dot(a, b),
        iabs(r as int) <= iabs(a.x as int) * iabs(b.x as int) + iabs(a.y as int) * iabs(
            b.y as int,
        ),
{
    proof {
        lemma_mul_abs_bound(a.x as int, b.x as int, 16 * COORD_MAX as int, 16 * COORD_MAX as int);
        lemma_mul_abs_bound(a.y as int, b.y as int, 16 * COORD_MAX as int, 16 * COORD_MAX as int);
        assert(iabs((a.x as int) * (b.x as int)) <= 0x1000000000000000int && iabs(
            (a.y as int) * (b.y as int),
        ) <= 0x1000000000000000int) by (nonlinear_arith)
            requires
                iabs(a.x as int) <= 0x40000000int,
                iabs(b.x as int) <= 0x40000000int,
                iabs(a.y as int) <= 0x40000000int,
                iabs(b.y as int) <= 0x40000000int,
        ;
    }
    a.x * b.x + a.y * b.y
}

/// `|x| <= bx` and `|y| <= by` bound `|x * y|` by `bx * by`.
pub proof fn lemma_mul_abs_bound(x: int, y: int, bx: int, by: int)
    requires
        iabs(x) <= bx,
        iabs(y) <= by,
    ensures
        iabs(x * y) <= bx * by,
        x * y == if (x < 0) == (y < 0) {
            iabs(x) * iabs(y)
        } else {
            -(iabs(x) * iabs(y))
        },
{
    assert(iabs(x * y) == iabs(x) * iabs(y) && iabs(x) * iabs(y) <= bx * by && x * y == if (x < 0)
        == (y < 0) {
        iabs(x) * iabs(y)
    } else {
        -(iabs(x) * iabs(y))
    }) by (nonlinear_arith)
        requires
            iabs(x) <= bx,
            iabs(y) <= by,
    ;
}

pub open spec fn spec_sub(a: Point, b: Point) -> Point {
    Point { x: (a.x - b.x) as i64, y: (a.y - b.y) as i64 }
}

/// Componentwise difference of two bounded points.
pub fn point_sub(a: Point, b: Point) -> (r: Point)
    requires
        a.within(16 * COORD_MAX as int),
        b.within(16 * COORD_MAX as int),
    ensures
        r == spec_sub(a, b),
        r.x == a.x - b.x,
        r.y == a.y - b.y,
{
    Point { x: a.x - b.x, y: a.y - b.y }
}

/// The Euclidean norm of `p`, rounded down to whole units.
pub open spec fn spec_norm(p: Point) -> int {
    sqrt_of(((p.x as int) * (p.x as int) + (p.y as int) * (p.y as int)) as nat) as int
}

/// `norm(p)` never exceeds `|x| + |y|`.
pub proof fn lemma_norm_bound(p: Point)
    ensures
        0 <= spec_norm(p) <= iabs(p.x as int) + iabs(p.y as int),
{
    let x = iabs(p.x as int);
    let y = iabs(p.y as int);
    let n = ((p.x as int) * (p.x as int) + (p.y as int) * (p.y as int)) as nat;
    assert((p.x as int) * (p.x as int) + (p.y as int) * (p.y as int) == x * x + y * y && x * x + y
        * y < (x + y + 1) * (x + y + 1)) by (nonlinear_arith)
        requires
            x == iabs(p.x as int),
            y == iabs(p.y as int),
    ;
    lemma_sqrt_of(n);
    let s = sqrt_of(n);
    if s > x + y {
        assert((x + y + 1) * (x + y + 1) <= s * s) by (nonlinear_arith)
            requires
                0 <= x + y + 1 <= s,
        ;
    }
}

/// The Euclidean norm of a bounded point, rounded down to whole units.
pub fn norm(p: Point) -> (r: i64)
    requires
        p.within(16 * COORD_MAX as int),
    ensures
        r == spec_norm(p),
        0 <= r <= iabs(p.x as int) + iabs(p.y as int),
{
    proof {
        lemma_mul_abs_bound(p.x as int, p.x as int, 16 * COORD_MAX as int, 16 * COORD_MAX as int);
        lemma_mul_abs_bound(p.y as int, p.y as int, 16 * COORD_MAX as int, 16 * COORD_MAX as int);
        assert(0 <= (p.x as int) * (p.x as int) <= 0x1000000000000000int && 0 <= (p.y as int) * (
        p.y as int) <= 0x1000000000000000int) by (nonlinear_arith)
            requires
                iabs(p.x as int) <= 0x40000000int,
                iabs(p.y as int) <= 0x40000000int,
        ;
        lemma_norm_bound(p);
    }
    let sq: i64 = p.x * p.x + p.y * p.y;
    let r: u64 = isqrt(sq as u64);
    r as i64
}

/// A pixel coordinate mapped onto the normalized space: the origin at the
/// viewport's centre, y pointing up, the height spanning one world unit.
pub open spec fn spec_from_pixels(x: int, y: int, w: int, h: int) -> Point {
    Point {
        x: div_t((UNIT as int) * (2 * x - w), 2 * h) as i64,
        y: div_t((UNIT as int) * (h - 2 * y), 2 * h) as i64,
    }
}

/// Maps a pixel coordinate of a `w` by `h` viewport onto the normalized
/// space.
pub fn from_pixels(x: u32, y: u32, w: u32, h: u32) -> (r: Point)
    requires
        1 <= h <= 1048576,
        w <= 1048576,
        x <= 2097152,
        y <= 2097152,
    ensures
        r == spec_from_pixels(x as int, y as int, w as int, h as int),
{
    let px = div_i64(UNIT * (2 * (x as i64) - (w as i64)), 2 * (h as i64));
    let py = div_i64(UNIT * ((h as i64) - 2 * (y as i64)), 2 * (h as i64));
    Point { x: px, y: py }
}

} // verus!
