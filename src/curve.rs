//! One segment of a spline: either a fixed cubic curve or a curve of any degree.

use vstd::prelude::*;
use crate::cubic::CubicBezier;
use crate::geometry::{selection_after_remove, CurveError, Param, Point, Sample};
use crate::handles::{is_first_hit, snap_fits, snap_point, snapped};
use crate::kernel::{is_blend, is_level, level_at, within_limits};
use crate::segment::BezierCurve;

verus! {

/// A spline segment: a cubic curve, whose four points stay four, or a curve
/// whose points may be added and removed.
pub enum Segment {
    Cubic(CubicBezier),
    General(BezierCurve),
}

/// `pts` moved by `(dx, dy)`.
pub open spec fn moved_by(pts: Seq<Point>, dx: int, dy: int) -> Seq<Point> {
    Seq::new(pts.len(), |k: int| Point { x: (pts[k].x + dx) as i64, y: (pts[k].y + dy) as i64 })
}

/// Moving every point of `pts` by `(dx, dy)` stays within `i64`.
pub open spec fn can_move(pts: Seq<Point>, dx: int, dy: int) -> bool {
    forall|k: int|
        0 <= k < pts.len() ==> i64::MIN <= #[trigger] pts[k].x + dx <= i64::MAX && i64::MIN
            <= pts[k].y + dy <= i64::MAX
}

impl Segment {
    pub open spec fn points(&self) -> Seq<Point> {
        match self {
            Segment::Cubic(c) => c.control_points@,
            Segment::General(g) => g.control_points@,
        }
    }

    pub open spec fn selection(&self) -> Option<usize> {
        match self {
            Segment::Cubic(c) => c.selected_point,
            Segment::General(g) => g.selected_point,
        }
    }

    pub open spec fn half_size(&self) -> int {
        match self {
            Segment::Cubic(c) => c.half_size as int,
            Segment::General(g) => g.half_size as int,
        }
    }

    pub open spec fn grid(&self) -> int {
        match self {
            Segment::Cubic(c) => c.grid as int,
            Segment::General(g) => g.grid as int,
        }
    }

    /// The variant and the settings are those of `other`.
    pub open spec fn same_kind(&self, other: &Segment) -> bool {
        &&& (self is Cubic <==> other is Cubic)
        &&& self.half_size() == other.half_size()
        &&& self.grid() == other.grid()
    }

    pub open spec fn wf(&self) -> bool {
        match self {
            Segment::Cubic(c) => c.wf(),
            Segment::General(g) => g.wf(),
        }
    }

    /// The number of control points.
    pub fn len(&self) -> (r: usize)
        requires
            self.wf(),
        ensures
            r == self.points().len(),
            r >= 2,
    {
        match self {
            Segment::Cubic(_) => 4,
            Segment::General(g) => g.control_points.len(),
        }
    }

    /// The control point at `i`.
    pub fn control_point(&self, i: usize) -> (r: Point)
        requires
            i < self.points().len(),
        ensures
            r == self.points()[i as int],
    {
        match self {
            Segment::Cubic(c) => c.control_points[i],
            Segment::General(g) => g.control_points[i],
        }
    }

    /// The control points as a vector.
    pub fn control_points(&self) -> (r: Vec<Point>)
        ensures
            r@ == self.points(),
    {
        match self {
            Segment::Cubic(c) => c.points(),
            Segment::General(g) => g.control_points.clone(),
        }
    }

    /// The point on the segment at `t`.
    pub fn point_at(&self, t: Param) -> (r: Sample)
        requires
            self.wf(),
            t.wf(),
            within_limits(self.points(), t),
        ensures
            is_blend(r, self.points(), t),
    {
        match self {
            Segment::Cubic(c) => c.point(t),
            Segment::General(g) => g.point(t),
        }
    }

    /// Every level of de Casteljau's construction on the segment at `t`.
    pub fn subdivision_levels(&self, t: Param) -> (r: Vec<Vec<Sample>>)
        requires
            self.wf(),
            t.wf(),
            within_limits(self.points(), t),
        ensures
            r.len() == self.points().len(),
            forall|i: int| 0 <= i < r.len() ==> is_level(#[trigger] r[i]@, self.points(), t, i as nat),
    {
        match self {
            Segment::Cubic(c) => {
                let pts = c.points();
                let mut out: Vec<Vec<Sample>> = Vec::new();
                let mut i: usize = 0;
                while i < 4
                    invariant
                        pts@ == self.points(),
                        pts.len() == 4,
                        t.wf(),
                        within_limits(pts@, t),
                        i <= 4,
                        out.len() == i,
                        forall|j: int| 0 <= j < i ==> is_level(#[trigger] out[j]@, pts@, t, j as nat),
                    decreases 4 - i,
                {
                    out.push(level_at(&pts, t, i));
                    i = i + 1;
                }
                out
            },
            Segment::General(g) => g.subdivision_levels(t),
        }
    }

    /// The index of the first control point whose hit box contains `(x, y)`.
    pub fn hit_test(&self, x: i64, y: i64) -> (r: Option<usize>)
        ensures
            is_first_hit(r, self.points(), Point { x, y }, self.half_size()),
    {
        match self {
            Segment::Cubic(c) => c.hit_test(x, y),
            Segment::General(g) => g.hit_test(x, y),
        }
    }

    /// Selects the control point at `index`.
    pub fn select(&mut self, index: usize) -> (r: Result<(), CurveError>)
        requires
            old(self).wf(),
        ensures
            final(self).wf(),
            final(self).points() == old(self).points(),
            final(self).same_kind(old(self)),
            index < old(self).points().len() ==> r is Ok && final(self).selection() == Some(index),
            index >= old(self).points().len() ==> r == Err::<(), CurveError>(
                CurveError::IndexOutOfRange,
            ) && final(self).selection() == old(self).selection(),
    {
        match self {
            Segment::Cubic(c) => c.select(index),
            Segment::General(g) => g.select(index),
        }
    }

    /// Clears the selection.
    pub fn clear_selection(&mut self)
        requires
            old(self).wf(),
        ensures
            final(self).wf(),
            final(self).points() == old(self).points(),
            final(self).same_kind(old(self)),
            final(self).selection() is None,
    {
        match self {
            Segment::Cubic(c) => c.release(),
            Segment::General(g) => g.release(),
        }
    }

    /// The grid that dragged points snap to.
    pub fn grid_size(&self) -> (r: i64)
        ensures
            r == self.grid(),
    {
        match self {
            Segment::Cubic(c) => c.grid,
            Segment::General(g) => g.grid,
        }
    }

    /// `p` snapped to this segment's grid.
    pub fn snap(&self, p: Point) -> (r: Point)
        requires
            snap_fits(p, self.grid()),
        ensures
            r == snapped(p, self.grid()),
    {
        match self {
            Segment::Cubic(c) => snap_point(p, c.grid),
            Segment::General(g) => snap_point(p, g.grid),
        }
    }

    /// Moves the selected control point to `p` snapped to the grid; does
    /// nothing when no point is selected.
    pub fn drag_to(&mut self, p: Point)
        requires
            old(self).wf(),
            old(self).selection() is Some ==> snap_fits(p, old(self).grid()),
        ensures
            final(self).wf(),
            final(self).same_kind(old(self)),
            final(self).selection() == old(self).selection(),
            match old(self).selection() {
                Some(i) => final(self).points() == old(self).points().update(
                    i as int,
                    snapped(p, old(self).grid()),
                ),
                None => final(self).points() == old(self).points(),
            },
    {
        match self {
            Segment::Cubic(c) => c.drag(p.x, p.y),
            Segment::General(g) => g.drag(p.x, p.y),
        }
    }

    /// Overwrites the control point at `i` with `p`.
    pub fn set_point(&mut self, i: usize, p: Point)
        requires
            old(self).wf(),
            i < old(self).points().len(),
        ensures
            final(self).wf(),
            final(self).points() == old(self).points().update(i as int, p),
            final(self).selection() == old(self).selection(),
            final(self).same_kind(old(self)),
    {
        match self {
            Segment::Cubic(c) => {
                c.control_points[i] = p;
            },
            Segment::General(g) => {
                g.control_points.set(i, p);
            },
        }
    }

    /// Removes the control point at `index`. A cubic segment keeps its four
    /// points, and any other segment at least two.
    pub fn remove_point(&mut self, index: usize) -> (r: Result<(), CurveError>)
        requires
            old(self).wf(),
        ensures
            final(self).wf(),
            final(self).same_kind(old(self)),
            index >= old(self).points().len() ==> r == Err::<(), CurveError>(
                CurveError::IndexOutOfRange,
            ),
            index < old(self).points().len() && (*old(self) is Cubic || old(self).points().len() == 2)
                ==> r == Err::<(), CurveError>(CurveError::InvalidDegree),
            index < old(self).points().len() && *old(self) is General && old(self).points().len() > 2
                ==> r is Ok,
            r is Err ==> final(self).points() == old(self).points() && final(self).selection()
                == old(self).selection(),
            r is Ok ==> final(self).points() == old(self).points().remove(index as int)
                && final(self).selection() == selection_after_remove(old(self).selection(), index),
    {
        match self {
            Segment::Cubic(_) => {
                if index >= 4 {
                    Err(CurveError::IndexOutOfRange)
                } else {
                    Err(CurveError::InvalidDegree)
                }
            },
            Segment::General(g) => g.remove_point(index),
        }
    }

    /// A copy of this segment moved by `(dx, dy)`, with nothing selected.
    pub fn translated(&self, dx: i64, dy: i64) -> (r: Segment)
        requires
            self.wf(),
            can_move(self.points(), dx as int, dy as int),
        ensures
            r.wf(),
            r.same_kind(self),
            r.points() == moved_by(self.points(), dx as int, dy as int),
            r.selection() is None,
    {
        let pts = self.control_points();
        let mut out: Vec<Point> = Vec::new();
        let mut k: usize = 0;
        while k < pts.len()
            invariant
                pts@ == self.points(),
                can_move(pts@, dx as int, dy as int),
                k <= pts.len(),
                out.len() == k,
                forall|j: int|
                    0 <= j < k ==> #[trigger] out[j] == moved_by(pts@, dx as int, dy as int)[j],
            decreases pts.len() - k,
        {
            let p = pts[k];
            out.push(Point { x: p.x + dx, y: p.y + dy });
            k = k + 1;
        }
        assert(out@ =~= moved_by(self.points(), dx as int, dy as int));
        match self {
            Segment::Cubic(c) => {
                let arr = [out[0], out[1], out[2], out[3]];
                assert(arr@ =~= out@);
                Segment::Cubic(
                    CubicBezier {
                        control_points: arr,
                        selected_point: None,
                        half_size: c.half_size,
                        grid: c.grid,
                    },
                )
            },
            Segment::General(g) => Segment::General(
                BezierCurve {
                    control_points: out,
                    selected_point: None,
                    half_size: g.half_size,
                    grid: g.grid,
                },
            ),
        }
    }

    /// Appends a control point; a cubic segment keeps its four points.
    pub fn append_point(&mut self, p: Point) -> (r: Result<(), CurveError>)
        requires
            old(self).wf(),
        ensures
            final(self).wf(),
            final(self).same_kind(old(self)),
            final(self).selection() == old(self).selection(),
            *old(self) is Cubic ==> r == Err::<(), CurveError>(CurveError::InvalidDegree)
                && final(self).points() == old(self).points(),
            *old(self) is General ==> r is Ok && final(self).points() == old(self).points().push(p),
    {
        match self {
            Segment::Cubic(_) => Err(CurveError::InvalidDegree),
            Segment::General(g) => {
                g.add_point(p.x, p.y);
                Ok(())
            },
        }
    }
}

} // verus!
