//! The dense grid cache.
//!
//! Memoizes a distance source over a uniform grid of sample points: one value
//! per cell, row-major, sampled at the cell's centre in the normalized space.
//! Fresh cells hold the type's default value. `resize` only grows the backing
//! buffer, so cells beyond the logical extent may hold stale values until the
//! next `update` overwrites every in-extent cell from the current source.

use vstd::prelude::*;

verus! {

use crate::gridref::{dims_wf, in_extent, lookup_x, lookup_y, GridRef, GridRefMut, GRID_MAX};
use crate::math::{div_t, iabs, imax, Point, UNIT};
use crate::sdf::{Sdf, SignedDistance};
use vstd::arithmetic::div_mod::lemma_fundamental_div_mod;

/// The sample point of cell `i` of a `w` by `h` grid: the cell's centre in
/// the normalized space, with division truncating toward zero.
pub open spec fn cell_point(w: int, h: int, i: int) -> Point
    recommends
        w >= 1,
        h >= 1,
        i >= 0,
{
    let y = i / w;
    let x = i - y * w;
    Point {
        x: (div_t((UNIT as int) * (2 * x - w), 2 * h) + div_t(UNIT as int, 2 * w)) as i64,
        y: (div_t((UNIT as int) * (h - 2 * y), 2 * h) + div_t(UNIT as int, 2 * w)) as i64,
    }
}

/// A dense row-major buffer of distance values over `w` by `h` cells.
pub struct Grid<T> {
    pub w: usize,
    pub h: usize,
    pub buffer: Vec<T>,
}

impl<T: SignedDistance> Grid<T> {
    /// The logical extent fits the buffer and the supported range.
    pub open spec fn wf(&self) -> bool {
        dims_wf(self.w, self.h, self.buffer@.len() as int)
    }

    /// Every cell of the logical extent holds the source's value at that
    /// cell's sample point.
    pub open spec fn holds<S: Sdf<T>>(&self, sdf: S) -> bool {
        forall|i: int|
            0 <= i < self.w * self.h ==> self.buffer@[i] == sdf.sd_spec(
                #[trigger] cell_point(self.w as int, self.h as int, i),
            )
    }

    /// The source may be sampled at every cell of a `w` by `h` extent.
    pub open spec fn can_sample<S: Sdf<T>>(w: usize, h: usize, sdf: S) -> bool {
        forall|i: int|
            0 <= i < w * h ==> sdf.sd_req(#[trigger] cell_point(w as int, h as int, i))
    }

    /// A fresh grid, every cell holding the type's default value.
    pub fn new(w: usize, h: usize) -> (r: Grid<T>)
        requires
            1 <= w <= GRID_MAX,
            1 <= h <= GRID_MAX,
            w * h <= usize::MAX,
        ensures
            r.w == w,
            r.h == h,
            r.buffer@.len() == w * h,
            forall|i: int| 0 <= i < w * h ==> #[trigger] r.buffer@[i] == T::spec_default(),
            r.wf(),
    {
        let total = w * h;
        let mut buffer: Vec<T> = Vec::new();
        let mut i: usize = 0;
        while i < total
            invariant
                0 <= i <= total,
                buffer@.len() == i,
                forall|j: int| 0 <= j < i ==> #[trigger] buffer@[j] == T::spec_default(),
            decreases total - i,
        {
            buffer.push(T::default_value());
            i = i + 1;
        }
        Grid { w, h, buffer }
    }

    pub fn as_ref(&self) -> (r: GridRef<'_, T>)
        ensures
            r.dims() == (self.w, self.h),
            r.cells() == self.buffer@,
    {
        GridRef::new(self.w, self.h, self.buffer.as_slice())
    }

    pub fn as_ref_mut(&mut self) -> (r: GridRefMut<'_, T>)
        ensures
            r.dims() == (old(self).w, old(self).h),
            r.cells() == old(self).buffer@,
    {
        GridRefMut::new(self.w, self.h, self.buffer.as_mut_slice())
    }

    /// A grid of the source's values: a fresh grid brought up to date.
    pub fn from_sdf<S: Sdf<T>>(rows: usize, cols: usize, sdf: &S) -> (r: Grid<T>)
        requires
            1 <= rows <= GRID_MAX,
            1 <= cols <= GRID_MAX,
            rows * cols <= usize::MAX,
            Self::can_sample(rows, cols, *sdf),
        ensures
            r.w == rows,
            r.h == cols,
            r.buffer@.len() == rows * cols,
            r.wf(),
            r.holds(*sdf),
    {
        let mut result = Self::new(rows, cols);
        result.update(sdf);
        result
    }

    /// Re-evaluates every in-extent cell from the source at the current
    /// extent's sample points; cells beyond the extent keep their values.
    pub fn update<S: Sdf<T>>(&mut self, sdf: &S)
        requires
            old(self).wf(),
            Self::can_sample(old(self).w, old(self).h, *sdf),
        ensures
            final(self).w == old(self).w,
            final(self).h == old(self).h,
            final(self).buffer@.len() == old(self).buffer@.len(),
            final(self).wf(),
            final(self).holds(*sdf),
            forall|i: int|
                old(self).w * old(self).h <= i < old(self).buffer@.len()
                    ==> final(self).buffer@[i] == old(self).buffer@[i],
    {
        let w = self.w;
        let h = self.h;
        let total = w * h;
        let mut i: usize = 0;
        while i < total
            invariant
                0 <= i <= total,
                total == w * h,
                w == self.w,
                h == self.h,
                1 <= w <= GRID_MAX,
                1 <= h <= GRID_MAX,
                self.buffer@.len() == old(self).buffer@.len(),
                total <= self.buffer@.len(),
                Self::can_sample(w, h, *sdf),
                forall|j: int|
                    0 <= j < i ==> self.buffer@[j] == sdf.sd_spec(
                        #[trigger] cell_point(w as int, h as int, j),
                    ),
                forall|j: int| i <= j < self.buffer@.len() ==> self.buffer@[j] == old(self).buffer@[j],
            decreases total - i,
        {
            let p = cell_point_at(w, h, i);
            let v = sdf.signed_distance(p);
            self.buffer[i] = v;
            i = i + 1;
        }
    }

    /// Grows the logical extent; the backing buffer grows with default
    /// fill when needed and never shrinks, so out-of-extent cells may keep
    /// stale values until the next `update`.
    pub fn resize(&mut self, w: usize, h: usize)
        requires
            old(self).wf(),
            1 <= w <= GRID_MAX,
            1 <= h <= GRID_MAX,
            w * h <= usize::MAX,
        ensures
            final(self).w == w,
            final(self).h == h,
            final(self).wf(),
            final(self).buffer@.len() == imax(
                old(self).buffer@.len() as int,
                w as int * h as int,
            ),
            forall|i: int|
                0 <= i < old(self).buffer@.len() ==> final(self).buffer@[i] == old(self).buffer@[i],
            forall|i: int|
                old(self).buffer@.len() <= i < final(self).buffer@.len() ==> final(self).buffer@[i]
                    == T::spec_default(),
    {
        self.w = w;
        self.h = h;
        let new_size = w * h;
        while self.buffer.len() < new_size
            invariant
                self.w == w,
                self.h == h,
                new_size == w * h,
                forall|i: int|
                    0 <= i < old(self).buffer@.len() ==> self.buffer@[i] == old(self).buffer@[i],
                forall|i: int|
                    old(self).buffer@.len() <= i < self.buffer@.len() ==> self.buffer@[i]
                        == T::spec_default(),
                self.buffer@.len() >= old(self).buffer@.len(),
                self.buffer@.len() <= imax(old(self).buffer@.len() as int, new_size as int),
            decreases new_size - self.buffer.len(),
        {
            self.buffer.push(T::default_value());
        }
    }

    pub fn get(&self, x: usize, y: usize) -> (r: T)
        requires
            self.wf(),
            x < self.w,
            y < self.h,
        ensures
            r == self.buffer@[y * self.w + x],
    {
        proof {
            assert(y * self.w + x < self.w * self.h) by (nonlinear_arith)
                requires
                    x < self.w,
                    y < self.h,
            ;
        }
        self.buffer[y * self.w + x]
    }

    pub fn set(&mut self, x: usize, y: usize, value: T)
        requires
            old(self).wf(),
            x < old(self).w,
            y < old(self).h,
        ensures
            final(self).w == old(self).w,
            final(self).h == old(self).h,
            final(self).buffer@ == old(self).buffer@.update(y * old(self).w + x, value),
    {
        proof {
            assert(y * self.w + x < self.w * self.h) by (nonlinear_arith)
                requires
                    x < self.w,
                    y < self.h,
            ;
        }
        self.buffer[y * self.w + x] = value;
    }

    /// The cached value of the cell that contains `p`.
    pub fn signed_distance(&self, p: Point) -> (r: T)
        requires
            self.wf(),
            in_extent(self.w, self.h, p),
        ensures
            r == self.buffer@[lookup_y(self.h, p) * self.w + lookup_x(self.w, self.h, p)],
    {
        self.as_ref().signed_distance(p)
    }
}

/// After any `update` from a source — in particular the one that must follow
/// a `resize` — every cell of the current logical extent reads as the
/// source's value at that cell's sample point, computed with the current
/// extents: no value from before the update is readable in extent.
pub proof fn lemma_no_stale_reads<T: SignedDistance, S: Sdf<T>>(
    g: &Grid<T>,
    sdf: S,
    x: usize,
    y: usize,
)
    requires
        g.wf(),
        g.holds(sdf),
        x < g.w,
        y < g.h,
    ensures
        g.buffer@[y * g.w + x] == sdf.sd_spec(cell_point(g.w as int, g.h as int, y * g.w + x)),
{
    assert(0 <= y * g.w + x < g.w * g.h) by (nonlinear_arith)
        requires
            x < g.w,
            y < g.h,
            1 <= g.w,
    ;
}

/// Computes the sample point of cell `i`.
fn cell_point_at(w: usize, h: usize, i: usize) -> (r: Point)
    requires
        1 <= w <= GRID_MAX,
        1 <= h <= GRID_MAX,
        i < w * h,
    ensures
        r == cell_point(w as int, h as int, i as int),
{
    let y = i / w;
    proof {
        let ii = i as int;
        let ww = w as int;
        let hh = h as int;
        lemma_fundamental_div_mod(ii, ww);
        assert(y == ii / ww);
        assert((0 <= ii - (ii / ww) * ww < ww) && ((ii / ww) * ww <= ii) && (ii / ww < hh))
            by (nonlinear_arith)
            requires
                1 <= ww,
                1 <= hh,
                0 <= ii < ww * hh,
        ;
    }
    let x = i - y * w;
    proof {
        let ww = w as int;
        let hh = h as int;
        let xx = x as int;
        let yy = y as int;
        assert((iabs((UNIT as int) * (2 * xx - ww)) <= 137438953472int) && (iabs(
            (UNIT as int) * (hh - 2 * yy),
        ) <= 137438953472int)) by (nonlinear_arith)
            requires
                0 <= xx < ww <= 1048576int,
                0 <= yy < hh <= 1048576int,
                UNIT == 65536i64,
        ;
    }
    let px = crate::math::div_i64(UNIT * (2 * (x as i64) - (w as i64)), 2 * (h as i64));
    let py = crate::math::div_i64(UNIT * ((h as i64) - 2 * (y as i64)), 2 * (h as i64));
    let off = crate::math::div_i64(UNIT, 2 * (w as i64));
    Point { x: px + off, y: py + off }
}

} // verus!
