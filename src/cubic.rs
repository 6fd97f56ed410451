//! A cubic Bézier curve: exactly four control points.

use vstd::prelude::*;
use crate::geometry::{default_shape, xs, ys, CurveError, Param, Point, Sample};
use crate::handles::{hit_test, is_first_hit, snap_fits, snap_point, snapped};
use crate::kernel::{
    binom, blend, coords_fit, is_blend, lemma_blend_is_casteljau, lemma_blend_step, lemma_lerp_step,
    power, power_i128, reach, window, within_limits,
};
use crate::bounds::{lemma_power_abs, lemma_power_base_mono};

verus! {

/// A cubic curve, with the point being dragged.
pub struct CubicBezier {
    pub control_points: [Point; 4],
    /// The index of the control point being dragged, if any.
    pub selected_point: Option<usize>,
    /// Half the side of the square hit box around each control point.
    pub half_size: i64,
    /// Dragged points snap to multiples of this; no snapping when it is zero.
    pub grid: i64,
}

/// The scaled cubic blend of one coordinate, `lo^3 p0 + 3 lo^2 hi p1 + 3 lo hi^2 p2 + hi^3 p3`.
fn cubic_blend(Ghost(p): Ghost<Seq<int>>, t: Param, p0: i64, p1: i64, p2: i64, p3: i64) -> (r: i128)
    requires
        t.wf(),
        p.len() == 4,
        p[0] == p0,
        p[1] == p1,
        p[2] == p2,
        p[3] == p3,
        power(reach(t), 3) <= i128::MAX,
        coords_fit(p, power(reach(t), 3)),
    ensures
        r == blend(p, t.lo(), t.hi()),
{
    let lo: i128 = t.den as i128 - t.num as i128;
    let hi: i128 = t.num as i128;
    proof {
        lemma_blend_step(p, t, 3, 0);
        lemma_blend_step(p, t, 3, 1);
        lemma_blend_step(p, t, 3, 2);
        lemma_blend_step(p, t, 3, 3);
        reveal_with_fuel(binom, 4);
        reveal_with_fuel(power, 4);
        reveal_with_fuel(window, 5);
        assert(binom(3, 0) == 1 && binom(3, 1) == 3 && binom(3, 2) == 3 && binom(3, 3) == 1);
        assert(power(lo as int, 2) == lo * lo);
        assert(power(lo as int, 3) == lo * (lo * lo));
        assert(power(hi as int, 2) == hi * hi);
        assert(power(hi as int, 3) == hi * (hi * hi));
        assert(power(lo as int, 1) == lo && power(hi as int, 1) == hi);
        assert(power(lo as int, 0) == 1 && power(hi as int, 0) == 1);
        assert(lo * (lo * lo) == (lo * lo) * lo) by (nonlinear_arith);
        lemma_power_abs(lo as int, 2);
        lemma_power_abs(hi as int, 2);
        assert(hi * (hi * hi) == (hi * hi) * hi) by (nonlinear_arith);
    }
    let l2 = lo * lo;
    let l3 = l2 * lo;
    let h2 = hi * hi;
    let h3 = h2 * hi;
    let b1 = 3 * (l2 * hi);
    let b2 = 3 * (lo * h2);
    proof {
        assert(1 * (l3 * 1) == l3);
        assert(1 * (1 * h3) == h3);
    }
    let s0 = l3 * (p0 as i128);
    let s1 = s0 + b1 * (p1 as i128);
    let s2 = s1 + b2 * (p2 as i128);
    s2 + h3 * (p3 as i128)
}

impl CubicBezier {
    pub open spec fn wf(&self) -> bool {
        match self.selected_point {
            Some(i) => i < 4,
            None => true,
        }
    }

    /// What `new` returns.
    pub open spec fn new_spec() -> CubicBezier {
        CubicBezier {
            control_points: [
                Point { x: 50, y: 50 },
                Point { x: 100, y: 100 },
                Point { x: 150, y: 100 },
                Point { x: 200, y: 50 },
            ],
            selected_point: None,
            half_size: 2,
            grid: 0,
        }
    }

    /// A curve of the default shape, with hit boxes of half-size 2 and no snapping.
    pub fn new() -> (r: CubicBezier)
        ensures
            r == Self::new_spec(),
            r.wf(),
            r.control_points@ == default_shape(),
            r.selected_point is None,
            r.half_size == 2,
            r.grid == 0,
    {
        let p = [
            Point { x: 50, y: 50 },
            Point { x: 100, y: 100 },
            Point { x: 150, y: 100 },
            Point { x: 200, y: 50 },
        ];
        assert(p@ =~= default_shape());
        CubicBezier { control_points: p, selected_point: None, half_size: 2, grid: 0 }
    }

    /// A curve with the given control points and the settings of `new`.
    pub fn with_control_points(control_points: [Point; 4]) -> (r: Self)
        ensures
            r.wf(),
            r.control_points@ == control_points@,
            r.selected_point is None,
            r.half_size == 2,
            r.grid == 0,
    {
        CubicBezier { control_points, selected_point: None, half_size: 2, grid: 0 }
    }

    /// The control points as a vector.
    pub fn points(&self) -> (r: Vec<Point>)
        ensures
            r@ == self.control_points@,
    {
        let r = vec![
            self.control_points[0],
            self.control_points[1],
            self.control_points[2],
            self.control_points[3],
        ];
        assert(r@ =~= self.control_points@);
        r
    }

    /// The index of the first control point whose hit box contains `(x, y)`.
    pub fn hit_test(&self, x: i64, y: i64) -> (r: Option<usize>)
        ensures
            is_first_hit(r, self.control_points@, Point { x, y }, self.half_size as int),
    {
        hit_test(&self.control_points, Point { x, y }, self.half_size)
    }

    /// Selects the first control point under `(x, y)`, if any; the selection
    /// stays as it was otherwise.
    pub fn click(&mut self, x: i64, y: i64)
        requires
            old(self).wf(),
        ensures
            final(self).wf(),
            final(self).control_points == old(self).control_points,
            final(self).half_size == old(self).half_size,
            final(self).grid == old(self).grid,
            is_first_hit(None, old(self).control_points@, Point { x, y }, old(self).half_size as int)
                ==> final(self).selected_point == old(self).selected_point,
            !is_first_hit(None, old(self).control_points@, Point { x, y }, old(self).half_size as int)
                ==> final(self).selected_point is Some && is_first_hit(
                final(self).selected_point,
                old(self).control_points@,
                Point { x, y },
                old(self).half_size as int,
            ),
    {
        if let Some(i) = self.hit_test(x, y) {
            self.selected_point = Some(i);
        }
    }

    /// Selects the control point at `index`.
    pub fn select(&mut self, index: usize) -> (r: Result<(), CurveError>)
        requires
            old(self).wf(),
        ensures
            final(self).wf(),
            final(self).control_points == old(self).control_points,
            final(self).half_size == old(self).half_size,
            final(self).grid == old(self).grid,
            index < 4 ==> r is Ok && final(self).selected_point == Some(index),
            index >= 4 ==> r == Err::<(), CurveError>(CurveError::IndexOutOfRange)
                && final(self).selected_point == old(self).selected_point,
    {
        if index >= 4 {
            return Err(CurveError::IndexOutOfRange);
        }
        self.selected_point = Some(index);
        Ok(())
    }

    /// Clears the selection.
    pub fn release(&mut self)
        requires
            old(self).wf(),
        ensures
            final(self).wf(),
            final(self).control_points == old(self).control_points,
            final(self).half_size == old(self).half_size,
            final(self).grid == old(self).grid,
            final(self).selected_point is None,
    {
        self.selected_point = None;
    }

    /// Moves the selected control point to `(x, y)` snapped to the grid; does
    /// nothing when no point is selected.
    pub fn drag(&mut self, x: i64, y: i64)
        requires
            old(self).wf(),
            old(self).selected_point is Some ==> snap_fits(Point { x, y }, old(self).grid as int),
        ensures
            final(self).wf(),
            final(self).half_size == old(self).half_size,
            final(self).grid == old(self).grid,
            final(self).selected_point == old(self).selected_point,
            match old(self).selected_point {
                Some(i) => final(self).control_points@ == old(self).control_points@.update(
                    i as int,
                    snapped(Point { x, y }, old(self).grid as int),
                ),
                None => final(self).control_points@ == old(self).control_points@,
            },
    {
        if let Some(i) = self.selected_point {
            let p = snap_point(Point { x, y }, self.grid);
            self.control_points[i] = p;
        }
    }

    /// The point on the curve at `t`, by the cubic blend.
    pub fn point(&self, t: Param) -> (r: Sample)
        requires
            t.wf(),
            within_limits(self.control_points@, t),
        ensures
            is_blend(r, self.control_points@, t),
    {
        let ghost pts = self.control_points@;
        let p0 = self.control_points[0];
        let p1 = self.control_points[1];
        let p2 = self.control_points[2];
        let p3 = self.control_points[3];
        let x = cubic_blend(Ghost(xs(pts)), t, p0.x, p1.x, p2.x, p3.x);
        let y = cubic_blend(Ghost(ys(pts)), t, p0.y, p1.y, p2.y, p3.y);
        proof {
            lemma_power_base_mono(t.den as int, reach(t), 3);
        }
        let scale = power_i128(t.den as i128, 3);
        Sample { x, y, scale }
    }

    /// The point on the curve at `t`, by three rounds of de Casteljau's construction.
    pub fn de_casteljaus(&self, t: Param) -> (r: Sample)
        requires
            t.wf(),
            within_limits(self.control_points@, t),
        ensures
            is_blend(r, self.control_points@, t),
    {
        let ghost pts = self.control_points@;
        let x = cubic_casteljau(Ghost(xs(pts)), t, self.control_points[0].x, self.control_points[1].x,
            self.control_points[2].x, self.control_points[3].x);
        let y = cubic_casteljau(Ghost(ys(pts)), t, self.control_points[0].y, self.control_points[1].y,
            self.control_points[2].y, self.control_points[3].y);
        proof {
            lemma_power_base_mono(t.den as int, reach(t), 3);
        }
        let scale = power_i128(t.den as i128, 3);
        Sample { x, y, scale }
    }
}

/// The scaled de Casteljau point of one coordinate: three rounds of
/// `lo * q[k] + hi * q[k + 1]`.
fn cubic_casteljau(Ghost(p): Ghost<Seq<int>>, t: Param, p0: i64, p1: i64, p2: i64, p3: i64) -> (r: i128)
    requires
        t.wf(),
        p.len() == 4,
        p[0] == p0,
        p[1] == p1,
        p[2] == p2,
        p[3] == p3,
        power(reach(t), 3) <= i128::MAX,
        coords_fit(p, power(reach(t), 3)),
    ensures
        r == blend(p, t.lo(), t.hi()),
{
    let lo: i128 = t.den as i128 - t.num as i128;
    let hi: i128 = t.num as i128;
    proof {
        lemma_lerp_step(p, t, 3, 0, 0);
        lemma_lerp_step(p, t, 3, 0, 1);
        lemma_lerp_step(p, t, 3, 0, 2);
        lemma_lerp_step(p, t, 3, 1, 0);
        lemma_lerp_step(p, t, 3, 1, 1);
        lemma_lerp_step(p, t, 3, 2, 0);
        lemma_blend_is_casteljau(p, t.lo(), t.hi());
    }
    let q0 = lo * (p0 as i128) + hi * (p1 as i128);
    let q1 = lo * (p1 as i128) + hi * (p2 as i128);
    let q2 = lo * (p2 as i128) + hi * (p3 as i128);
    let r0 = lo * q0 + hi * q1;
    let r1 = lo * q1 + hi * q2;
    lo * r0 + hi * r1
}

} // verus!
