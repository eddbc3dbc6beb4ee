//! Borrowed views of a distance grid.
//!
//! A grid buffer is row-major: cell `(x, y)` lives at index `y * w + x`.
//! Looking a point up maps the normalized space back onto cell indices; the
//! shorter axis spans one world unit, the other is scaled by the aspect
//! ratio.

use vstd::prelude::*;

verus! {

use crate::math::{iabs, Point, UNIT};

/// Largest grid extent on either axis.
pub const GRID_MAX: usize = 1048576;

/// The extents describe a buffer this large, within the supported range.
pub open spec fn dims_wf(w: usize, h: usize, len: int) -> bool {
    1 <= w <= GRID_MAX && 1 <= h <= GRID_MAX && w * h <= len && w * h <= usize::MAX
}

/// `p` lies strictly inside the grid's normalized extent: `|x|` under half
/// the aspect ratio and `|y|` under one half, in units.
pub open spec fn in_extent(w: usize, h: usize, p: Point) -> bool {
    2 * iabs(p.x as int) * h < w * (UNIT as int) && 2 * iabs(p.y as int) < UNIT as int
}

/// The column that holds `p`.
pub open spec fn lookup_x(w: usize, h: usize, p: Point) -> int {
    (2 * (p.x as int) * h + w * (UNIT as int)) / (2 * UNIT as int)
}

/// The row that holds `p`; rows count downward from the top edge.
pub open spec fn lookup_y(h: usize, p: Point) -> int {
    ((UNIT as int - 2 * (p.y as int)) * h) / (2 * UNIT as int)
}

/// An in-extent point's cell indices are in range.
pub proof fn lemma_lookup_in_range(w: usize, h: usize, p: Point)
    requires
        1 <= w <= GRID_MAX,
        1 <= h <= GRID_MAX,
        in_extent(w, h, p),
    ensures
        0 <= lookup_x(w, h, p) < w,
        0 <= lookup_y(h, p) < h,
        0 <= lookup_y(h, p) * w + lookup_x(w, h, p) < w * h,
        0 <= 2 * (p.x as int) * h + w * (UNIT as int) < 2 * (w as int) * (UNIT as int),
        0 < (UNIT as int - 2 * (p.y as int)) * h < 2 * (UNIT as int) * (h as int),
        2 * iabs(p.x as int) < w * (UNIT as int),
        2 * iabs(p.y as int) < UNIT as int,
{
    let nx = 2 * (p.x as int) * h + w * (UNIT as int);
    let ny = (UNIT as int - 2 * (p.y as int)) * h;
    assert(0 <= nx < 2 * (w as int) * (UNIT as int) && 0 < ny < 2 * (UNIT as int) * (h as int) && 2
        * iabs(p.x as int) < w * (UNIT as int)) by (nonlinear_arith)
        requires
            2 * iabs(p.x as int) * h < w * (UNIT as int),
            2 * iabs(p.y as int) < UNIT as int,
            nx == 2 * (p.x as int) * h + w * (UNIT as int),
            ny == (UNIT as int - 2 * (p.y as int)) * h,
            1 <= w,
            1 <= h,
            UNIT == 65536i64,
    ;
    assert(nx / (2 * UNIT as int) < w && ny / (2 * UNIT as int) < h && nx / (2 * UNIT as int) >= 0
        && ny / (2 * UNIT as int) >= 0) by (nonlinear_arith)
        requires
            0 <= nx < 2 * (w as int) * (UNIT as int),
            0 < ny < 2 * (UNIT as int) * (h as int),
            UNIT == 65536i64,
            1 <= w,
            1 <= h,
    ;
    assert(lookup_y(h, p) * w + lookup_x(w, h, p) < w * h) by (nonlinear_arith)
        requires
            0 <= lookup_x(w, h, p) < w,
            0 <= lookup_y(h, p) < h,
    ;
    assert(lookup_y(h, p) * w + lookup_x(w, h, p) >= 0) by (nonlinear_arith)
        requires
            0 <= lookup_x(w, h, p),
            0 <= lookup_y(h, p),
            w >= 1,
    ;
}

/// Computes the buffer index of an in-extent point.
fn lookup_index(w: usize, h: usize, p: Point) -> (r: usize)
    requires
        1 <= w <= GRID_MAX,
        1 <= h <= GRID_MAX,
        w * h <= usize::MAX,
        in_extent(w, h, p),
    ensures
        r == lookup_y(h, p) * w + lookup_x(w, h, p),
        r < w * h,
{
    proof {
        lemma_lookup_in_range(w, h, p);
    }
    let px2: i64 = 2 * p.x;
    let py2: i64 = 2 * p.y;
    let nx: i64 = px2 * (h as i64) + (w as i64) * UNIT;
    let ny: i64 = (UNIT - py2) * (h as i64);
    let x = ((nx as u64) / ((2 * UNIT) as u64)) as usize;
    let y = ((ny as u64) / ((2 * UNIT) as u64)) as usize;
    y * w + x
}

/// A read-only view of a grid buffer.
#[derive(Clone, Copy)]
pub struct GridRef<'a, T> {
    w: usize,
    h: usize,
    buffer: &'a [T],
}

impl<'a, T: Copy> GridRef<'a, T> {
    /// The view's width, height and cells.
    pub closed spec fn dims(&self) -> (usize, usize) {
        (self.w, self.h)
    }

    pub closed spec fn cells(&self) -> Seq<T> {
        self.buffer@
    }

    pub open spec fn wf(&self) -> bool {
        dims_wf(self.dims().0, self.dims().1, self.cells().len() as int)
    }

    pub fn new(w: usize, h: usize, buffer: &'a [T]) -> (r: GridRef<'a, T>)
        ensures
            r.dims() == (w, h),
            r.cells() == buffer@,
    {
        GridRef { w, h, buffer }
    }

    /// The width-to-height ratio, in units.
    pub fn aspect_ratio(&self) -> (r: i64)
        requires
            self.wf(),
        ensures
            r == (UNIT as int) * (self.dims().0 as int) / (self.dims().1 as int),
    {
        proof {
            assert((UNIT as int) * (self.w as int) <= 0x10000000000int && (UNIT as int) * (
            self.w as int) / (self.h as int) >= 0 && (UNIT as int) * (self.w as int) / (
            self.h as int) <= (UNIT as int) * (self.w as int)) by (nonlinear_arith)
                requires
                    1 <= self.w <= GRID_MAX,
                    1 <= self.h,
                    UNIT == 65536i64,
                    GRID_MAX == 1048576usize,
            ;
        }
        (UNIT * (self.w as i64)) / (self.h as i64)
    }

    pub fn get(&self, x: usize, y: usize) -> (r: T)
        requires
            self.wf(),
            x < self.dims().0,
            y < self.dims().1,
        ensures
            r == self.cells()[y * self.dims().0 + x],
    {
        proof {
            assert(y * self.w + x < self.w * self.h) by (nonlinear_arith)
                requires
                    x < self.w,
                    y < self.h,
            ;
        }
        self.buffer[y * self.w + x]
    }

    /// The cached value of the cell that contains `p`.
    pub fn signed_distance(&self, p: Point) -> (r: T)
        requires
            self.wf(),
            in_extent(self.dims().0, self.dims().1, p),
        ensures
            r == self.cells()[lookup_y(self.dims().1, p) * self.dims().0 + lookup_x(
                self.dims().0,
                self.dims().1,
                p,
            )],
    {
        let i = lookup_index(self.w, self.h, p);
        self.buffer[i]
    }
}

/// A mutable view of a grid buffer.
pub struct GridRefMut<'a, T> {
    w: usize,
    h: usize,
    buffer: &'a mut [T],
}

impl<'a, T: Copy> GridRefMut<'a, T> {
    pub closed spec fn dims(&self) -> (usize, usize) {
        (self.w, self.h)
    }

    pub closed spec fn cells(&self) -> Seq<T> {
        self.buffer@
    }

    pub open spec fn wf(&self) -> bool {
        dims_wf(self.dims().0, self.dims().1, self.cells().len() as int)
    }

    pub fn new(w: usize, h: usize, buffer: &'a mut [T]) -> (r: GridRefMut<'a, T>)
        ensures
            r.dims() == (w, h),
            r.cells() == old(buffer)@,
    {
        GridRefMut { w, h, buffer }
    }

    pub fn as_ref(&self) -> (r: GridRef<'_, T>)
        ensures
            r.dims() == self.dims(),
            r.cells() == self.cells(),
    {
        GridRef::new(self.w, self.h, self.buffer)
    }

    pub fn aspect_ratio(&self) -> (r: i64)
        requires
            self.wf(),
        ensures
            r == (UNIT as int) * (self.dims().0 as int) / (self.dims().1 as int),
    {
        self.as_ref().aspect_ratio()
    }

    pub fn get(&self, x: usize, y: usize) -> (r: T)
        requires
            self.wf(),
            x < self.dims().0,
            y < self.dims().1,
        ensures
            r == self.cells()[y * self.dims().0 + x],
    {
        self.as_ref().get(x, y)
    }

    pub fn set(&mut self, x: usize, y: usize, value: T)
        requires
            old(self).wf(),
            x < old(self).dims().0,
            y < old(self).dims().1,
        ensures
            final(self).dims() == old(self).dims(),
            final(self).cells() == old(self).cells().update(
                y * old(self).dims().0 + x,
                value,
            ),
    {
        proof {
            assert(y * self.w + x < self.w * self.h) by (nonlinear_arith)
                requires
                    x < self.w,
                    y < self.h,
            ;
        }
        self.buffer[y * self.w + x] = value;
    }

    /// The cached value of the cell that contains `p`.
    pub fn signed_distance(&self, p: Point) -> (r: T)
        requires
            self.wf(),
            in_extent(self.dims().0, self.dims().1, p),
        ensures
            r == self.cells()[lookup_y(self.dims().1, p) * self.dims().0 + lookup_x(
                self.dims().0,
                self.dims().1,
                p,
            )],
    {
        self.as_ref().signed_distance(p)
    }
}

} // verus!
