//! Hit boxes around control points, and snapping of dragged points to a grid.

use vstd::prelude::*;
use vstd::arithmetic::div_mod::{lemma_fundamental_div_mod, lemma_mod_pos_bound};
use crate::bounds::abs;
use crate::geometry::Point;

verus! {

/// The axis-aligned box of half-size `h` centred on `p` contains `c`.
pub open spec fn hits(p: Point, c: Point, h: int) -> bool {
    abs(c.x - p.x) <= h && abs(c.y - p.y) <= h
}

/// `r` is the lowest index of a point of `pts` whose box contains `c`, or
/// `None` when no box does.
pub open spec fn is_first_hit(r: Option<usize>, pts: Seq<Point>, c: Point, h: int) -> bool {
    match r {
        Some(i) => {
            &&& i < pts.len()
            &&& hits(pts[i as int], c, h)
            &&& forall|j: int| 0 <= j < i ==> !hits(#[trigger] pts[j], c, h)
        },
        None => forall|j: int| 0 <= j < pts.len() ==> !hits(#[trigger] pts[j], c, h),
    }
}

/// `x` rounded to the nearest multiple of `g`, halves away from zero; `x`
/// itself when `g` is not positive (no snapping).
pub open spec fn snap_coord(x: int, g: int) -> int {
    if g <= 0 {
        x
    } else if x >= 0 {
        ((x + g / 2) / g) * g
    } else {
        -(((-x + g / 2) / g) * g)
    }
}

/// Snapping `p` to the grid `g` stays within `i64`.
pub open spec fn snap_fits(p: Point, g: int) -> bool {
    &&& i64::MIN <= snap_coord(p.x as int, g) <= i64::MAX
    &&& i64::MIN <= snap_coord(p.y as int, g) <= i64::MAX
}

/// `p` snapped to the grid `g`.
pub open spec fn snapped(p: Point, g: int) -> Point {
    Point { x: snap_coord(p.x as int, g) as i64, y: snap_coord(p.y as int, g) as i64 }
}

/// The index of the first point of `points` whose box of half-size `half_size`
/// contains `cursor`.
pub fn hit_test(points: &[Point], cursor: Point, half_size: i64) -> (r: Option<usize>)
    ensures
        is_first_hit(r, points@, cursor, half_size as int),
{
    let h = half_size as i128;
    let mut i: usize = 0;
    while i < points.len()
        invariant
            i <= points.len(),
            h == half_size,
            forall|j: int| 0 <= j < i ==> !hits(#[trigger] points@[j], cursor, half_size as int),
        decreases points.len() - i,
    {
        let p = points[i];
        let dx = cursor.x as i128 - p.x as i128;
        let dy = cursor.y as i128 - p.y as i128;
        let ax = if dx < 0 {
            -dx
        } else {
            dx
        };
        let ay = if dy < 0 {
            -dy
        } else {
            dy
        };
        if ax <= h && ay <= h {
            return Some(i);
        }
        i = i + 1;
    }
    None
}

proof fn lemma_round_bounds(x: int, g: int)
    requires
        x >= 0,
        g > 0,
    ensures
        0 <= ((x + g / 2) / g) * g <= x + g / 2,
{
    let y = x + g / 2;
    lemma_fundamental_div_mod(y, g);
    lemma_mod_pos_bound(y, g);
    let q = y / g;
    assert(q >= 0) by (nonlinear_arith)
        requires
            y == g * q + y % g,
            0 <= y % g < g,
            y >= 0,
            g > 0,
    ;
    assert(0 <= q * g);
}

/// `x` snapped to the grid `g` (no snapping when `g` is not positive).
pub fn snap_coord_i64(x: i64, g: i64) -> (r: i64)
    requires
        i64::MIN <= snap_coord(x as int, g as int) <= i64::MAX,
    ensures
        r == snap_coord(x as int, g as int),
{
    if g <= 0 {
        return x;
    }
    let xi = x as i128;
    let gi = g as i128;
    if xi >= 0 {
        proof {
            lemma_round_bounds(xi as int, gi as int);
        }
        let r = ((xi + gi / 2) / gi) * gi;
        r as i64
    } else {
        proof {
            lemma_round_bounds(-xi, gi as int);
        }
        let r = -(((-xi + gi / 2) / gi) * gi);
        r as i64
    }
}

/// `p` snapped to the grid `g`.
pub fn snap_point(p: Point, g: i64) -> (r: Point)
    requires
        snap_fits(p, g as int),
    ensures
        r == snapped(p, g as int),
{
    Point { x: snap_coord_i64(p.x, g), y: snap_coord_i64(p.y, g) }
}

/// Whether snapping `p` to the grid `g` stays within `i64`, as `snap_point` requires.
pub fn snap_in_range(p: Point, g: i64) -> (r: bool)
    ensures
        r == snap_fits(p, g as int),
{
    if g <= 0 {
        return true;
    }
    let gi = g as i128;
    let xi = p.x as i128;
    let yi = p.y as i128;
    proof {
        lemma_round_bounds(if xi >= 0 { xi as int } else { -xi }, gi as int);
        lemma_round_bounds(if yi >= 0 { yi as int } else { -yi }, gi as int);
    }
    let sx = if xi >= 0 {
        ((xi + gi / 2) / gi) * gi
    } else {
        -(((-xi + gi / 2) / gi) * gi)
    };
    let sy = if yi >= 0 {
        ((yi + gi / 2) / gi) * gi
    } else {
        -(((-yi + gi / 2) / gi) * gi)
    };
    i64::MIN as i128 <= sx && sx <= i64::MAX as i128 && i64::MIN as i128 <= sy && sy
        <= i64::MAX as i128
}

/// A cursor within the hit box of point `i` hits a point no later than `i`,
/// and hits `i` itself when no earlier box contains the cursor.
pub proof fn lemma_hit_in_box(pts: Seq<Point>, i: int, c: Point, h: int, r: Option<usize>)
    requires
        0 <= i < pts.len(),
        pts[i].x - h <= c.x <= pts[i].x + h,
        pts[i].y - h <= c.y <= pts[i].y + h,
        is_first_hit(r, pts, c, h),
    ensures
        r is Some,
        r->Some_0 <= i,
        (forall|j: int| 0 <= j < i ==> !hits(#[trigger] pts[j], c, h)) ==> r == Some(i as usize),
{
    assert(hits(pts[i], c, h));
}

/// Without a grid, a dragged point lands exactly on the cursor.
pub proof fn lemma_no_snap(p: Point)
    ensures
        snapped(p, 0) == p,
{
}

/// Snapping lands on a multiple of the grid, at most half a grid step away.
pub proof fn lemma_snap_nearest(x: int, g: int)
    requires
        g > 0,
    ensures
        snap_coord(x, g) % g == 0,
        abs(snap_coord(x, g) - x) <= g / 2,
{
    let a = if x >= 0 {
        x
    } else {
        -x
    };
    let y = a + g / 2;
    lemma_fundamental_div_mod(y, g);
    lemma_mod_pos_bound(y, g);
    let q = y / g;
    let m = q * g;
    assert(m == y - y % g) by (nonlinear_arith)
        requires
            y == g * q + y % g,
            m == q * g,
    ;
    vstd::arithmetic::div_mod::lemma_mod_multiples_basic(q, g);
    vstd::arithmetic::div_mod::lemma_fundamental_div_mod(g, 2);
    if x < 0 {
        vstd::arithmetic::div_mod::lemma_mod_multiples_basic(-q, g);
        assert(-(q * g) == (-q) * g) by (nonlinear_arith);
    }
}

} // verus!
