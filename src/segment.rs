//! A Bézier curve with any number (at least two) of control points, which
//! may be added and removed while editing.

use vstd::prelude::*;
use crate::geometry::{default_shape, selection_after_remove, CurveError, Param, Point, Sample};
use crate::handles::{hit_test, is_first_hit, snap_fits, snap_point, snapped};
use crate::kernel::{blend_at, is_blend, is_level, level_at, subdivide, within_limits};

verus! {

/// A curve of degree `control_points.len() - 1`, with the point being dragged.
pub struct BezierCurve {
    pub control_points: Vec<Point>,
    /// The index of the control point being dragged, if any.
    pub selected_point: Option<usize>,
    /// Half the side of the square hit box around each control point.
    pub half_size: i64,
    /// Dragged points snap to multiples of this; no snapping when it is zero.
    pub grid: i64,
}

impl BezierCurve {
    pub open spec fn wf(&self) -> bool {
        &&& self.control_points.len() >= 2
        &&& match self.selected_point {
            Some(i) => i < self.control_points.len(),
            None => true,
        }
    }

    /// The hit-box size and the grid are those of `other`.
    pub open spec fn same_settings(&self, other: &BezierCurve) -> bool {
        self.half_size == other.half_size && self.grid == other.grid
    }

    /// A cubic curve of the default shape, with hit boxes of half-size 5 and
    /// no snapping.
    pub fn new() -> (r: BezierCurve)
        ensures
            r.wf(),
            r.control_points@ == default_shape(),
            r.selected_point is None,
            r.half_size == 5,
            r.grid == 0,
    {
        let p = vec![
            Point { x: 50, y: 50 },
            Point { x: 100, y: 100 },
            Point { x: 150, y: 100 },
            Point { x: 200, y: 50 },
        ];
        assert(p@ =~= default_shape());
        BezierCurve { control_points: p, selected_point: None, half_size: 5, grid: 0 }
    }

    /// A curve through the given control points; at least two are needed.
    pub fn with_control_points(points: Vec<Point>, half_size: i64, grid: i64) -> (r: Result<
        BezierCurve,
        CurveError,
    >)
        ensures
            points.len() < 2 ==> r == Err::<BezierCurve, CurveError>(CurveError::InvalidDegree),
            points.len() >= 2 ==> r is Ok && r->Ok_0.wf() && r->Ok_0.control_points@ == points@
                && r->Ok_0.selected_point is None && r->Ok_0.half_size == half_size
                && r->Ok_0.grid == grid,
    {
        if points.len() < 2 {
            return Err(CurveError::InvalidDegree);
        }
        Ok(BezierCurve { control_points: points, selected_point: None, half_size, grid })
    }

    /// Appends a control point, raising the degree by one.
    pub fn add_point(&mut self, x: i64, y: i64)
        requires
            old(self).wf(),
        ensures
            final(self).wf(),
            final(self).control_points@ == old(self).control_points@.push(Point { x, y }),
            final(self).selected_point == old(self).selected_point,
            final(self).same_settings(old(self)),
    {
        self.control_points.push(Point { x, y });
    }

    /// The index of the first control point whose hit box contains `(x, y)`.
    pub fn hit_test(&self, x: i64, y: i64) -> (r: Option<usize>)
        ensures
            is_first_hit(r, self.control_points@, Point { x, y }, self.half_size as int),
    {
        hit_test(self.control_points.as_slice(), Point { x, y }, self.half_size)
    }

    /// Selects the control point at `index`.
    pub fn select(&mut self, index: usize) -> (r: Result<(), CurveError>)
        requires
            old(self).wf(),
        ensures
            final(self).wf(),
            final(self).control_points@ == old(self).control_points@,
            final(self).same_settings(old(self)),
            index < old(self).control_points.len() ==> r is Ok && final(self).selected_point
                == Some(index),
            index >= old(self).control_points.len() ==> r == Err::<(), CurveError>(
                CurveError::IndexOutOfRange,
            ) && final(self).selected_point == old(self).selected_point,
    {
        if index >= self.control_points.len() {
            return Err(CurveError::IndexOutOfRange);
        }
        self.selected_point = Some(index);
        Ok(())
    }

    /// Selects the first control point under `(x, y)`; returns whether there was one.
    pub fn click(&mut self, x: i64, y: i64) -> (r: bool)
        requires
            old(self).wf(),
        ensures
            final(self).wf(),
            final(self).control_points@ == old(self).control_points@,
            final(self).same_settings(old(self)),
            r ==> is_first_hit(
                final(self).selected_point,
                old(self).control_points@,
                Point { x, y },
                old(self).half_size as int,
            ) && final(self).selected_point is Some,
            !r ==> is_first_hit(None, old(self).control_points@, Point { x, y }, old(self).half_size as int)
                && final(self).selected_point == old(self).selected_point,
    {
        match self.hit_test(x, y) {
            Some(i) => {
                self.selected_point = Some(i);
                true
            },
            None => false,
        }
    }

    /// Clears the selection.
    pub fn release(&mut self)
        requires
            old(self).wf(),
        ensures
            final(self).wf(),
            final(self).control_points@ == old(self).control_points@,
            final(self).same_settings(old(self)),
            final(self).selected_point is None,
    {
        self.selected_point = None;
    }

    /// Moves the selected control point to `(x, y)` snapped to the grid; does
    /// nothing when no point is selected.
    pub fn drag(&mut self, x: i64, y: i64)
        requires
            old(self).wf(),
            old(self).selected_point is Some ==> snap_fits(Point { x, y }, old(self).grid as int),
        ensures
            final(self).wf(),
            final(self).same_settings(old(self)),
            final(self).selected_point == old(self).selected_point,
            match old(self).selected_point {
                Some(i) => final(self).control_points@ == old(self).control_points@.update(
                    i as int,
                    snapped(Point { x, y }, old(self).grid as int),
                ),
                None => final(self).control_points@ == old(self).control_points@,
            },
    {
        if let Some(i) = self.selected_point {
            let p = snap_point(Point { x, y }, self.grid);
            self.control_points.set(i, p);
        }
    }

    /// Removes the control point at `index`, lowering the degree by one. A
    /// curve keeps at least two points. The selection follows its point, and
    /// is cleared when that point is removed.
    pub fn remove_point(&mut self, index: usize) -> (r: Result<(), CurveError>)
        requires
            old(self).wf(),
        ensures
            final(self).wf(),
            final(self).same_settings(old(self)),
            index >= old(self).control_points.len() ==> r == Err::<(), CurveError>(
                CurveError::IndexOutOfRange,
            ),
            index < old(self).control_points.len() && old(self).control_points.len() == 2 ==> r
                == Err::<(), CurveError>(CurveError::InvalidDegree),
            r is Err ==> final(self).control_points@ == old(self).control_points@
                && final(self).selected_point == old(self).selected_point,
            index < old(self).control_points.len() && old(self).control_points.len() > 2 ==> r is Ok,
            r is Ok ==> final(self).control_points@ == old(self).control_points@.remove(index as int)
                && final(self).selected_point == selection_after_remove(
                old(self).selected_point,
                index,
            ),
    {
        if index >= self.control_points.len() {
            return Err(CurveError::IndexOutOfRange);
        }
        if self.control_points.len() == 2 {
            return Err(CurveError::InvalidDegree);
        }
        self.control_points.remove(index);
        self.selected_point =
        match self.selected_point {
            Some(j) => if j == index {
                None
            } else if j > index {
                Some(j - 1)
            } else {
                Some(j)
            },
            None => None,
        };
        Ok(())
    }

    /// Removes the first control point under `(x, y)` and ends any drag.
    /// Returns whether a point was hit; a hit on a curve of two points is
    /// refused with `InvalidDegree` and changes nothing.
    pub fn right_click(&mut self, x: i64, y: i64) -> (r: Result<bool, CurveError>)
        requires
            old(self).wf(),
        ensures
            final(self).wf(),
            final(self).same_settings(old(self)),
            is_first_hit(None, old(self).control_points@, Point { x, y }, old(self).half_size as int)
                <==> r == Ok::<bool, CurveError>(false),
            r == Ok::<bool, CurveError>(true) ==> exists|i: usize|
                is_first_hit(Some(i), old(self).control_points@, Point { x, y }, old(self).half_size as int)
                    && final(self).control_points@ == old(self).control_points@.remove(i as int),
            r == Ok::<bool, CurveError>(true) ==> final(self).selected_point is None,
            r is Err ==> r == Err::<bool, CurveError>(CurveError::InvalidDegree)
                && old(self).control_points.len() == 2,
            r != Ok::<bool, CurveError>(true) ==> final(self).control_points@ == old(self).control_points@
                && final(self).selected_point == old(self).selected_point,
            old(self).control_points.len() > 2 ==> r is Ok,
    {
        match self.hit_test(x, y) {
            Some(i) => {
                match self.remove_point(i) {
                    Ok(()) => {
                        self.selected_point = None;
                        Ok(true)
                    },
                    Err(e) => Err(e),
                }
            },
            None => Ok(false),
        }
    }

    /// The point on the curve at `t`, by the Bernstein blend.
    pub fn point(&self, t: Param) -> (r: Sample)
        requires
            self.wf(),
            t.wf(),
            within_limits(self.control_points@, t),
        ensures
            is_blend(r, self.control_points@, t),
    {
        blend_at(&self.control_points, t)
    }

    /// Level `i` of de Casteljau's construction at `t`.
    pub fn de_casteljaus(&self, t: Param, i: usize) -> (r: Result<Vec<Sample>, CurveError>)
        requires
            self.wf(),
            t.wf(),
            i < self.control_points.len() ==> within_limits(self.control_points@, t),
        ensures
            i >= self.control_points.len() ==> r == Err::<Vec<Sample>, CurveError>(
                CurveError::IndexOutOfRange,
            ),
            i < self.control_points.len() ==> r is Ok && is_level(
                r->Ok_0@,
                self.control_points@,
                t,
                i as nat,
            ),
    {
        subdivide(&self.control_points, t, i)
    }

    /// Every level of de Casteljau's construction at `t`, from the control
    /// points down to the single point on the curve.
    pub fn subdivision_levels(&self, t: Param) -> (r: Vec<Vec<Sample>>)
        requires
            self.wf(),
            t.wf(),
            within_limits(self.control_points@, t),
        ensures
            r.len() == self.control_points.len(),
            forall|i: int|
                0 <= i < r.len() ==> is_level(#[trigger] r[i]@, self.control_points@, t, i as nat),
    {
        let mut out: Vec<Vec<Sample>> = Vec::new();
        let mut i: usize = 0;
        while i < self.control_points.len()
            invariant
                self.wf(),
                t.wf(),
                within_limits(self.control_points@, t),
                i <= self.control_points.len(),
                out.len() == i,
                forall|j: int|
                    0 <= j < i ==> is_level(#[trigger] out[j]@, self.control_points@, t, j as nat),
            decreases self.control_points.len() - i,
        {
            out.push(level_at(&self.control_points, t, i));
            i = i + 1;
        }
        out
    }
}

} // verus!
