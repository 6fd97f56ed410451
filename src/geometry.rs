//! Points, curve parameters and the error kinds of the library.

use vstd::prelude::*;

verus! {

/// A control point on the integer plane.
#[derive(Clone, Copy, Debug, PartialEq, Eq, Structural)]
pub struct Point {
    pub x: i64,
    pub y: i64,
}

/// The curve parameter `t = num / den`, with `den > 0`.
///
/// Values of `t` outside `[0, 1]` extrapolate the curve.
#[derive(Clone, Copy, Debug, PartialEq, Eq, Structural)]
pub struct Param {
    pub num: i64,
    pub den: i64,
}

/// A point with rational coordinates `(x / scale, y / scale)`.
#[derive(Clone, Copy, Debug, PartialEq, Eq, Structural)]
pub struct Sample {
    pub x: i128,
    pub y: i128,
    pub scale: i128,
}

/// Why an operation on curves was refused.
#[derive(Clone, Copy, Debug, PartialEq, Eq, Structural)]
pub enum CurveError {
    /// The curve would have too few control points, or the wrong number for its variant.
    InvalidDegree,
    /// An index or a subdivision level lies outside its valid bound.
    IndexOutOfRange,
}

impl Point {
    pub fn new(x: i64, y: i64) -> (r: Point)
        ensures
            r.x == x,
            r.y == y,
    {
        Point { x, y }
    }
}

impl Param {
    /// The weight of the first point of each pair: `den - num`, i.e. `(1 - t) * den`.
    pub open spec fn lo(self) -> int {
        self.den - self.num
    }

    /// The weight of the second point of each pair: `num`, i.e. `t * den`.
    pub open spec fn hi(self) -> int {
        self.num as int
    }

    pub open spec fn wf(self) -> bool {
        self.den > 0
    }

    /// `t = num / den`; returns `None` when `den` is not positive.
    pub fn new(num: i64, den: i64) -> (r: Option<Param>)
        ensures
            den > 0 <==> r.is_some(),
            r.is_some() ==> r.unwrap().num == num && r.unwrap().den == den,
    {
        if den > 0 {
            Some(Param { num, den })
        } else {
            None
        }
    }
}

impl Sample {
    /// The sample stands for the point `p`.
    pub open spec fn is_point(self, p: Point) -> bool {
        self.x == self.scale * p.x && self.y == self.scale * p.y
    }
}

/// The shape every new curve starts with.
pub open spec fn default_shape() -> Seq<Point> {
    seq![
        Point { x: 50, y: 50 },
        Point { x: 100, y: 100 },
        Point { x: 150, y: 100 },
        Point { x: 200, y: 50 },
    ]
}

/// Which point stays selected after the point at `index` is removed: none if
/// it was the removed one, else the same point at its new index.
pub open spec fn selection_after_remove(sel: Option<usize>, index: usize) -> Option<usize> {
    match sel {
        Some(j) => if j == index {
            None
        } else if j > index {
            Some((j - 1) as usize)
        } else {
            Some(j)
        },
        None => None,
    }
}

/// The x coordinates of a sequence of points.
pub open spec fn xs(pts: Seq<Point>) -> Seq<int> {
    Seq::new(pts.len(), |k: int| pts[k].x as int)
}

/// The y coordinates of a sequence of points.
pub open spec fn ys(pts: Seq<Point>) -> Seq<int> {
    Seq::new(pts.len(), |k: int| pts[k].y as int)
}

} // verus!
