//! The geometry kernel: Bernstein-blend evaluation and de Casteljau
//! subdivision of a Bézier curve of any degree, over exact integers.
//!
//! With `t = num / den`, write `lo = den - num` and `hi = num`. Scaled by
//! `den^i`, level `i` of de Casteljau's construction has integer entries
//! `lo * q[k] + hi * q[k + 1]`, and the Bernstein blend scaled by `den^n`
//! is `sum_m binom(n, m) * lo^(n - m) * hi^m * p[m]`.

use vstd::prelude::*;
use vstd::arithmetic::div_mod::{lemma_fundamental_div_mod, lemma_mod_pos_bound};
use crate::bounds::{
    abs, lemma_binom_pos, lemma_max_abs, lemma_power_abs, lemma_power_base_mono,
    lemma_power_exp_mono, lemma_power_prefix, lemma_weight_le_total, lemma_window_bound, max_abs, ones,
};
use crate::geometry::{xs, ys, CurveError, Param, Point, Sample};

verus! {

/// `base` raised to the power `e`.
pub open spec fn power(base: int, e: nat) -> int
    decreases e,
{
    if e == 0 {
        1
    } else {
        base * power(base, (e - 1) as nat)
    }
}

/// The binomial coefficient `C(n, k)`; zero when `k > n`.
pub open spec fn binom(n: nat, k: nat) -> nat
    decreases n,
{
    if k == 0 {
        1
    } else if n == 0 {
        0
    } else {
        binom((n - 1) as nat, (k - 1) as nat) + binom((n - 1) as nat, k)
    }
}

/// One de Casteljau step: each neighbouring pair `(q[k], q[k + 1])` becomes
/// `lo * q[k] + hi * q[k + 1]`.
pub open spec fn lerp_step(q: Seq<int>, lo: int, hi: int) -> Seq<int> {
    if q.len() == 0 {
        q
    } else {
        Seq::new((q.len() - 1) as nat, |k: int| lo * q[k] + hi * q[k + 1])
    }
}

/// Level `i` of de Casteljau's construction on the coordinates `p`.
pub open spec fn level(p: Seq<int>, lo: int, hi: int, i: nat) -> Seq<int>
    decreases i,
{
    if i == 0 {
        p
    } else {
        lerp_step(level(p, lo, hi, (i - 1) as nat), lo, hi)
    }
}

/// The Bernstein term `binom(n, m) * lo^(n - m) * hi^m * p[k + m]`.
pub open spec fn term(p: Seq<int>, lo: int, hi: int, n: nat, k: int, m: nat) -> int {
    binom(n, m) * (power(lo, (n - m) as nat) * (power(hi, m) * p[k + m]))
}

/// The sum of the first `j` Bernstein terms of degree `n` on the window of
/// `p` that starts at `k`.
pub open spec fn window(p: Seq<int>, lo: int, hi: int, n: nat, k: int, j: nat) -> int
    decreases j,
{
    if j == 0 {
        0
    } else {
        window(p, lo, hi, n, k, (j - 1) as nat) + term(p, lo, hi, n, k, (j - 1) as nat)
    }
}

/// The Bernstein blend of all of `p`, of degree `|p| - 1`.
pub open spec fn blend(p: Seq<int>, lo: int, hi: int) -> int {
    window(p, lo, hi, (p.len() - 1) as nat, 0, p.len())
}

pub proof fn lemma_binom_above(n: nat, k: nat)
    requires
        k > n,
    ensures
        binom(n, k) == 0,
    decreases n,
{
    if n > 0 {
        lemma_binom_above((n - 1) as nat, (k - 1) as nat);
        lemma_binom_above((n - 1) as nat, k);
    }
}

pub proof fn lemma_level_len(p: Seq<int>, lo: int, hi: int, i: nat)
    requires
        i < p.len(),
    ensures
        level(p, lo, hi, i).len() == p.len() - i,
    decreases i,
{
    if i > 0 {
        lemma_level_len(p, lo, hi, (i - 1) as nat);
    }
}

/// Pascal's rule carried through partial sums:
/// `lo * W(i-1, k, j) + hi * W(i-1, k+1, j) == W(i, k, j+1) - A_j`.
proof fn lemma_pascal_window(p: Seq<int>, lo: int, hi: int, i: nat, k: int, j: nat)
    requires
        i >= 1,
        j <= i,
    ensures
        lo * window(p, lo, hi, (i - 1) as nat, k, j) + hi * window(p, lo, hi, (i - 1) as nat, k + 1, j)
            == window(p, lo, hi, i, k, j + 1) - binom((i - 1) as nat, j) * (power(lo, (i - j) as nat) * (
        power(hi, j) * p[k + j])),
    decreases j,
{
    let im1 = (i - 1) as nat;
    if j == 0 {
        assert(power(hi, 0) == 1);
        assert(window(p, lo, hi, i, k, 0) == 0);
        assert(window(p, lo, hi, i, k, 1) == term(p, lo, hi, i, k, 0));
    } else {
        let jm1 = (j - 1) as nat;
        lemma_pascal_window(p, lo, hi, i, k, jm1);
        let c = binom(im1, jm1);
        let x0 = power(lo, (im1 - jm1) as nat);
        let y0 = power(hi, jm1) * p[k + jm1];
        let y1 = power(hi, jm1) * p[k + 1 + jm1];
        // lo * term(i-1, k, j-1) == A_{j-1}
        assert(power(lo, (i - jm1) as nat) == lo * x0);
        assert(lo * (c * (x0 * y0)) == c * ((lo * x0) * y0)) by (nonlinear_arith);
        // hi * term(i-1, k+1, j-1) == B_j
        assert(power(hi, j) == hi * power(hi, jm1));
        assert(k + 1 + jm1 == k + j);
        let x1 = power(lo, (i - j) as nat);
        assert(x0 == x1);
        assert(hi * (c * (x0 * y1)) == c * (x1 * (power(hi, j) * p[k + j]))) by (nonlinear_arith)
            requires
                power(hi, j) == hi * power(hi, jm1),
                x0 == x1,
                y1 == power(hi, jm1) * p[k + j],
        ;
        // term(i, k, j) == A_j + B_j
        assert(binom(i, j) == binom(im1, j) + c);
        let z = x1 * (power(hi, j) * p[k + j]);
        assert(binom(i, j) * z == binom(im1, j) * z + c * z) by (nonlinear_arith)
            requires
                binom(i, j) == binom(im1, j) + c,
        ;
        assert(lo * (window(p, lo, hi, im1, k, jm1) + c * (x0 * y0)) == lo * window(
            p,
            lo,
            hi,
            im1,
            k,
            jm1,
        ) + lo * (c * (x0 * y0))) by (nonlinear_arith);
        assert(hi * (window(p, lo, hi, im1, k + 1, jm1) + c * (x0 * y1)) == hi * window(
            p,
            lo,
            hi,
            im1,
            k + 1,
            jm1,
        ) + hi * (c * (x0 * y1))) by (nonlinear_arith);
    }
}

/// Every entry of de Casteljau level `i` is the Bernstein blend of degree
/// `i` of the window of `i + 1` points that starts there.
pub proof fn lemma_level_window(p: Seq<int>, lo: int, hi: int, i: nat, k: int)
    requires
        i < p.len(),
        0 <= k < p.len() - i,
    ensures
        level(p, lo, hi, i)[k] == window(p, lo, hi, i, k, i + 1),
    decreases i,
{
    if i == 0 {
        assert(power(lo, 0) == 1 && power(hi, 0) == 1);
        assert(window(p, lo, hi, 0, k, 0) == 0);
        assert(window(p, lo, hi, 0, k, 1) == term(p, lo, hi, 0, k, 0));
    } else {
        let im1 = (i - 1) as nat;
        lemma_level_len(p, lo, hi, im1);
        lemma_level_window(p, lo, hi, im1, k);
        lemma_level_window(p, lo, hi, im1, k + 1);
        lemma_pascal_window(p, lo, hi, i, k, i);
        lemma_binom_above(im1, i);
        assert(binom(im1, i) * (power(lo, 0) * (power(hi, i) * p[k + i])) == 0);
    }
}

/// The Bernstein blend equals the last level of de Casteljau's construction.
pub proof fn lemma_blend_is_casteljau(p: Seq<int>, lo: int, hi: int)
    requires
        p.len() >= 1,
    ensures
        blend(p, lo, hi) == level(p, lo, hi, (p.len() - 1) as nat)[0],
        level(p, lo, hi, (p.len() - 1) as nat).len() == 1,
{
    lemma_level_len(p, lo, hi, (p.len() - 1) as nat);
    lemma_level_window(p, lo, hi, (p.len() - 1) as nat, 0);
}

/// Every entry of de Casteljau level `i` with `hi == 0` is `lo^i` times the point below it.
proof fn lemma_level_at_start(p: Seq<int>, lo: int, i: nat, k: int)
    requires
        i < p.len(),
        0 <= k < p.len() - i,
    ensures
        level(p, lo, 0, i)[k] == power(lo, i) * p[k],
    decreases i,
{
    if i > 0 {
        let im1 = (i - 1) as nat;
        lemma_level_len(p, lo, 0, im1);
        lemma_level_at_start(p, lo, im1, k);
        assert(lo * (power(lo, im1) * p[k]) == (lo * power(lo, im1)) * p[k]) by (nonlinear_arith);
    }
}

/// Every entry of de Casteljau level `i` with `lo == 0` is `hi^i` times the point `i` places on.
proof fn lemma_level_at_end(p: Seq<int>, hi: int, i: nat, k: int)
    requires
        i < p.len(),
        0 <= k < p.len() - i,
    ensures
        level(p, 0, hi, i)[k] == power(hi, i) * p[k + i],
    decreases i,
{
    if i > 0 {
        let im1 = (i - 1) as nat;
        lemma_level_len(p, 0, hi, im1);
        lemma_level_at_end(p, hi, im1, k + 1);
        assert(k + 1 + im1 == k + i);
        assert(hi * (power(hi, im1) * p[k + i]) == (hi * power(hi, im1)) * p[k + i])
            by (nonlinear_arith);
    }
}

/// The blend at `t = 0` is the first point and at `t = 1` the last one, both
/// scaled by `den^n`.
pub proof fn lemma_blend_endpoints(p: Seq<int>, den: int)
    requires
        p.len() >= 1,
    ensures
        blend(p, den, 0) == power(den, (p.len() - 1) as nat) * p[0],
        blend(p, 0, den) == power(den, (p.len() - 1) as nat) * p[p.len() - 1],
{
    let n = (p.len() - 1) as nat;
    lemma_blend_is_casteljau(p, den, 0);
    lemma_blend_is_casteljau(p, 0, den);
    lemma_level_at_start(p, den, n, 0);
    lemma_level_at_end(p, den, n, 0);
}

/// `p` with `v` added to every entry.
pub open spec fn shift(p: Seq<int>, v: int) -> Seq<int> {
    Seq::new(p.len(), |k: int| p[k] + v)
}

/// De Casteljau levels commute with translation: shifting every point by `v`
/// shifts level `i` by `v * (lo + hi)^i`.
proof fn lemma_level_shift(p: Seq<int>, lo: int, hi: int, v: int, i: nat, k: int)
    requires
        i < p.len(),
        0 <= k < p.len() - i,
    ensures
        level(shift(p, v), lo, hi, i)[k] == level(p, lo, hi, i)[k] + v * power(lo + hi, i),
    decreases i,
{
    if i > 0 {
        let im1 = (i - 1) as nat;
        lemma_level_len(p, lo, hi, im1);
        lemma_level_len(shift(p, v), lo, hi, im1);
        lemma_level_shift(p, lo, hi, v, im1, k);
        lemma_level_shift(p, lo, hi, v, im1, k + 1);
        let q = level(p, lo, hi, im1);
        let w = v * power(lo + hi, im1);
        assert(lo * (q[k] + w) + hi * (q[k + 1] + w) == lo * q[k] + hi * q[k + 1] + (lo + hi) * w)
            by (nonlinear_arith);
        assert((lo + hi) * (v * power(lo + hi, im1)) == v * ((lo + hi) * power(lo + hi, im1)))
            by (nonlinear_arith);
    }
}

/// The blend commutes with translation.
pub proof fn lemma_blend_shift(p: Seq<int>, lo: int, hi: int, v: int)
    requires
        p.len() >= 1,
    ensures
        blend(shift(p, v), lo, hi) == blend(p, lo, hi) + v * power(lo + hi, (p.len() - 1) as nat),
{
    lemma_blend_is_casteljau(p, lo, hi);
    lemma_blend_is_casteljau(shift(p, v), lo, hi);
    lemma_level_shift(p, lo, hi, v, (p.len() - 1) as nat, 0);
}

/// How far the weights reach: `|lo| + |hi|`, and at least 2.
pub open spec fn reach(t: Param) -> int {
    let a = abs(t.lo()) + abs(t.hi());
    if a < 2 {
        2
    } else {
        a
    }
}

/// Every coordinate of `p` times `s` fits in an `i128`.
pub open spec fn coords_fit(p: Seq<int>, s: int) -> bool {
    forall|k: int| 0 <= k < p.len() ==> abs(#[trigger] p[k]) * s <= i128::MAX
}

/// The exact evaluation of the curve of `pts` at `t` fits in machine integers:
/// `reach(t)^n` and every coordinate times it fit in an `i128`.
pub open spec fn within_limits(pts: Seq<Point>, t: Param) -> bool {
    let s = power(reach(t), (pts.len() - 1) as nat);
    s <= i128::MAX && coords_fit(xs(pts), s) && coords_fit(ys(pts), s)
}

/// `s` is the Bernstein blend of `pts` at `t`, scaled by `den^n`.
pub open spec fn is_blend(s: Sample, pts: Seq<Point>, t: Param) -> bool {
    &&& s.x == blend(xs(pts), t.lo(), t.hi())
    &&& s.y == blend(ys(pts), t.lo(), t.hi())
    &&& s.scale == power(t.den as int, (pts.len() - 1) as nat)
}

/// `v` is level `i` of de Casteljau's construction on `pts` at `t`, scaled by `den^i`.
pub open spec fn is_level(v: Seq<Sample>, pts: Seq<Point>, t: Param, i: nat) -> bool {
    &&& v.len() == pts.len() - i
    &&& forall|k: int|
        0 <= k < v.len() ==> {
            &&& (#[trigger] v[k]).x == level(xs(pts), t.lo(), t.hi(), i)[k]
            &&& v[k].y == level(ys(pts), t.lo(), t.hi(), i)[k]
            &&& v[k].scale == power(t.den as int, i)
        }
}

/// Relies on `num::integer::binomial`: it returns the binomial coefficient
/// `C(n, k)`, zero when `k > n`. Every intermediate value it forms is a
/// binomial coefficient no larger than the result, so it cannot overflow
/// when the result fits.
#[verifier::external_body]
fn binomial(n: u128, k: u128) -> (r: u128)
    requires
        binom(n as nat, k as nat) <= u128::MAX,
    ensures
        r == binom(n as nat, k as nat),
{
    num::integer::binomial(n, k)
}

/// `base^e`, exactly.
pub(crate) fn power_i128(base: i128, e: usize) -> (r: i128)
    requires
        power(abs(base as int), e as nat) <= i128::MAX,
    ensures
        r == power(base as int, e as nat),
{
    let mut r: i128 = 1;
    let mut j: usize = 0;
    while j < e
        invariant
            j <= e,
            r == power(base as int, j as nat),
            power(abs(base as int), e as nat) <= i128::MAX,
        decreases e - j,
    {
        proof {
            lemma_power_prefix(base as int, (j + 1) as nat, e as nat, i128::MAX as int);
            lemma_power_abs(base as int, (j + 1) as nat);
            assert(power(base as int, (j + 1) as nat) == base * r);
            assert(base * r == r * base);
        }
        r = r * base;
        j = j + 1;
    }
    r
}

proof fn lemma_power_one(e: nat)
    ensures
        power(1, e) == 1,
    decreases e,
{
    if e > 0 {
        lemma_power_one((e - 1) as nat);
    }
}

/// The bounds behind one step of the Bernstein sum over `p`.
pub(crate) proof fn lemma_blend_step(p: Seq<int>, t: Param, n: nat, m: nat)
    requires
        t.wf(),
        p.len() == n + 1,
        m <= n,
        power(reach(t), n) <= i128::MAX,
        coords_fit(p, power(reach(t), n)),
    ensures
        binom(n, m) <= power(reach(t), n),
        power(abs(t.lo()), (n - m) as nat) <= power(reach(t), n),
        power(abs(t.hi()), m) <= power(reach(t), n),
        abs(power(t.lo(), (n - m) as nat) * power(t.hi(), m)) <= power(reach(t), n),
        abs(binom(n, m) * (power(t.lo(), (n - m) as nat) * power(t.hi(), m))) <= power(reach(t), n),
        abs(binom(n, m) * (power(t.lo(), (n - m) as nat) * power(t.hi(), m)) * p[m as int])
            <= i128::MAX,
        binom(n, m) * (power(t.lo(), (n - m) as nat) * power(t.hi(), m)) * p[m as int] == term(
            p,
            t.lo(),
            t.hi(),
            n,
            0,
            m,
        ),
        abs(window(p, t.lo(), t.hi(), n, 0, m + 1)) <= i128::MAX,
{
    let lo = t.lo();
    let hi = t.hi();
    let r = reach(t);
    let s = power(r, n);
    let a = abs(lo) + abs(hi);
    let e = (n - m) as nat;
    let c = binom(n, m) as int;
    // binom(n, m) <= 2^n <= r^n
    lemma_weight_le_total(n, 1, 1, m);
    lemma_power_one(e);
    lemma_power_one(m);
    assert(ones(n + 1)[0int + m] == 1);
    assert(power(1, e) * (power(1, m) * ones(n + 1)[0int + m]) == 1);
    assert(term(ones(n + 1), 1, 1, n, 0, m) == c * 1);
    lemma_power_base_mono(2, r, n);
    // each power is at most r^n
    lemma_power_base_mono(abs(lo), r, e);
    lemma_power_exp_mono(r, e, n);
    lemma_power_base_mono(abs(hi), r, m);
    lemma_power_exp_mono(r, m, n);
    // the weight is at most (|lo| + |hi|)^n <= r^n
    lemma_weight_le_total(n, abs(lo), abs(hi), m);
    lemma_power_base_mono(a, r, n);
    lemma_power_abs(lo, e);
    lemma_power_abs(hi, m);
    lemma_binom_pos(n, m);
    let x = power(lo, e);
    let y = power(hi, m);
    let ax = power(abs(lo), e);
    let ay = power(abs(hi), m);
    assert(term(ones(n + 1), abs(lo), abs(hi), n, 0, m) == c * (ax * (ay * 1)));
    assert(abs(x * y) <= c * (ax * (ay * 1)) && abs(c * (x * y)) == c * (ax * (ay * 1)))
        by (nonlinear_arith)
        requires
            c >= 1,
            abs(x) == ax,
            abs(y) == ay,
            ax >= 0,
            ay >= 0,
    ;
    // times a coordinate
    lemma_max_abs(p, s, i128::MAX as int);
    let bound = max_abs(p);
    let z = p[m as int];
    assert(abs(z) * s <= i128::MAX);
    assert(abs(c * (x * y) * z) <= i128::MAX) by (nonlinear_arith)
        requires
            abs(c * (x * y)) <= s,
            abs(z) * s <= i128::MAX,
            s >= 0,
    ;
    assert(c * (x * y) * z == c * (x * (y * z))) by (nonlinear_arith);
    // the partial sum
    lemma_window_bound(p, lo, hi, n, m + 1, bound);
    let w = window(ones(n + 1), abs(lo), abs(hi), n, 0, m + 1);
    assert(bound * w <= i128::MAX) by (nonlinear_arith)
        requires
            0 <= w <= power(a, n),
            power(a, n) <= s,
            bound >= 0,
            bound * s <= i128::MAX,
    ;
}

/// The point on the curve of `points` at `t`, by the Bernstein blend.
///
/// The result is exact: its coordinates are scaled by `den^n` for a curve of
/// degree `n`. A curve needs at least two control points.
pub fn evaluate(points: &Vec<Point>, t: Param) -> (r: Result<Sample, CurveError>)
    requires
        t.wf(),
        points.len() >= 2 ==> within_limits(points@, t),
    ensures
        points.len() < 2 ==> r == Err::<Sample, CurveError>(CurveError::InvalidDegree),
        points.len() >= 2 ==> r is Ok && is_blend(r->Ok_0, points@, t),
{
    if points.len() < 2 {
        return Err(CurveError::InvalidDegree);
    }
    Ok(blend_at(points, t))
}

/// The point on the curve of `points` at `t`, by the Bernstein blend, for a
/// curve of at least two control points.
pub fn blend_at(points: &Vec<Point>, t: Param) -> (r: Sample)
    requires
        t.wf(),
        points.len() >= 2,
        within_limits(points@, t),
    ensures
        is_blend(r, points@, t),
{
    let n: usize = points.len() - 1;
    let lo: i128 = t.den as i128 - t.num as i128;
    let hi: i128 = t.num as i128;
    let ghost px = xs(points@);
    let ghost py = ys(points@);
    let ghost s = power(reach(t), n as nat);
    let mut sx: i128 = 0;
    let mut sy: i128 = 0;
    let mut m: usize = 0;
    while m <= n
        invariant
            t.wf(),
            n + 1 == points.len(),
            lo == t.lo(),
            hi == t.hi(),
            px == xs(points@),
            py == ys(points@),
            s == power(reach(t), n as nat),
            s <= i128::MAX,
            coords_fit(px, s),
            coords_fit(py, s),
            m <= n + 1,
            sx == window(px, lo as int, hi as int, n as nat, 0, m as nat),
            sy == window(py, lo as int, hi as int, n as nat, 0, m as nat),
        decreases n + 1 - m,
    {
        proof {
            lemma_blend_step(px, t, n as nat, m as nat);
            lemma_blend_step(py, t, n as nat, m as nat);
        }
        let c = binomial(n as u128, m as u128) as i128;
        let pl = power_i128(lo, n - m);
        let ph = power_i128(hi, m);
        let w = pl * ph;
        let cw = c * w;
        let p = points[m];
        assert(px[m as int] == p.x);
        assert(py[m as int] == p.y);
        sx = sx + cw * (p.x as i128);
        sy = sy + cw * (p.y as i128);
        m = m + 1;
    }
    proof {
        lemma_power_base_mono(t.den as int, reach(t), n as nat);
    }
    let scale = power_i128(t.den as i128, n);
    Sample { x: sx, y: sy, scale }
}

/// Each entry of de Casteljau level `i` is at most `bound * (|lo| + |hi|)^i`
/// in absolute value, when every point is at most `bound`.
proof fn lemma_level_bound(p: Seq<int>, lo: int, hi: int, i: nat, k: int, bound: int)
    requires
        i < p.len(),
        0 <= k < p.len() - i,
        bound >= 0,
        forall|j: int| 0 <= j < p.len() ==> abs(p[j]) <= bound,
    ensures
        abs(level(p, lo, hi, i)[k]) <= bound * power(abs(lo) + abs(hi), i),
    decreases i,
{
    let a = abs(lo) + abs(hi);
    if i == 0 {
        assert(power(a, 0) == 1);
    } else {
        let im1 = (i - 1) as nat;
        lemma_level_len(p, lo, hi, im1);
        lemma_level_bound(p, lo, hi, im1, k, bound);
        lemma_level_bound(p, lo, hi, im1, k + 1, bound);
        let q = level(p, lo, hi, im1);
        let w = bound * power(a, im1);
        assert(abs(lo * q[k] + hi * q[k + 1]) <= a * w) by (nonlinear_arith)
            requires
                abs(q[k]) <= w,
                abs(q[k + 1]) <= w,
                a == abs(lo) + abs(hi),
        ;
        assert(a * (bound * power(a, im1)) == bound * (a * power(a, im1))) by (nonlinear_arith);
    }
}

/// The bounds behind computing entry `k` of level `i + 1` from level `i`.
pub(crate) proof fn lemma_lerp_step(p: Seq<int>, t: Param, n: nat, i: nat, k: int)
    requires
        t.wf(),
        p.len() == n + 1,
        i < n,
        0 <= k < n - i,
        power(reach(t), n) <= i128::MAX,
        coords_fit(p, power(reach(t), n)),
    ensures
        abs(t.lo() * level(p, t.lo(), t.hi(), i)[k]) <= i128::MAX,
        abs(t.hi() * level(p, t.lo(), t.hi(), i)[k + 1]) <= i128::MAX,
        abs(level(p, t.lo(), t.hi(), i + 1)[k]) <= i128::MAX,
        level(p, t.lo(), t.hi(), i + 1)[k] == t.lo() * level(p, t.lo(), t.hi(), i)[k] + t.hi()
            * level(p, t.lo(), t.hi(), i)[k + 1],
{
    let lo = t.lo();
    let hi = t.hi();
    let a = abs(lo) + abs(hi);
    let s = power(reach(t), n);
    lemma_power_base_mono(0, reach(t), n);
    lemma_power_base_mono(0, a, i);
    lemma_max_abs(p, s, i128::MAX as int);
    let bound = max_abs(p);
    lemma_level_len(p, lo, hi, i);
    lemma_level_len(p, lo, hi, i + 1);
    lemma_level_bound(p, lo, hi, i, k, bound);
    lemma_level_bound(p, lo, hi, i, k + 1, bound);
    lemma_level_bound(p, lo, hi, i + 1, k, bound);
    lemma_power_base_mono(a, reach(t), i + 1);
    lemma_power_exp_mono(reach(t), i + 1, n);
    let q = level(p, lo, hi, i);
    let w = power(a, i);
    assert(power(a, i + 1) == a * w);
    assert(abs(lo * q[k]) <= bound * (a * w) && abs(hi * q[k + 1]) <= bound * (a * w))
        by (nonlinear_arith)
        requires
            abs(q[k]) <= bound * w,
            abs(q[k + 1]) <= bound * w,
            a == abs(lo) + abs(hi),
            bound >= 0,
            w >= 0,
    ;
    lemma_power_base_mono(0, a, i);
    assert(bound * power(a, i + 1) <= i128::MAX) by (nonlinear_arith)
        requires
            0 <= power(a, i + 1) <= s,
            bound >= 0,
            bound * s <= i128::MAX,
    ;
}

/// Level `lvl` of de Casteljau's construction on `points` at `t`: level 0 is
/// the control points, and each further level interpolates neighbouring
/// points of the one before, so level `n` holds the single point on the curve.
///
/// The entries of level `i` are exact, scaled by `den^i`.
pub fn subdivide(points: &Vec<Point>, t: Param, lvl: usize) -> (r: Result<Vec<Sample>, CurveError>)
    requires
        t.wf(),
        points.len() >= 2 && lvl < points.len() ==> within_limits(points@, t),
    ensures
        points.len() < 2 ==> r == Err::<Vec<Sample>, CurveError>(CurveError::InvalidDegree),
        points.len() >= 2 && lvl >= points.len() ==> r == Err::<Vec<Sample>, CurveError>(
            CurveError::IndexOutOfRange,
        ),
        points.len() >= 2 && lvl < points.len() ==> r is Ok && is_level(
            r->Ok_0@,
            points@,
            t,
            lvl as nat,
        ),
{
    if points.len() < 2 {
        return Err(CurveError::InvalidDegree);
    }
    if lvl >= points.len() {
        return Err(CurveError::IndexOutOfRange);
    }
    Ok(level_at(points, t, lvl))
}

/// Level `lvl` of de Casteljau's construction on `points` at `t`, for a curve
/// of at least two control points and a level below their number.
pub fn level_at(points: &Vec<Point>, t: Param, lvl: usize) -> (r: Vec<Sample>)
    requires
        t.wf(),
        points.len() >= 2,
        lvl < points.len(),
        within_limits(points@, t),
    ensures
        is_level(r@, points@, t, lvl as nat),
{
    let n: usize = points.len() - 1;
    let lo: i128 = t.den as i128 - t.num as i128;
    let hi: i128 = t.num as i128;
    let ghost px = xs(points@);
    let ghost py = ys(points@);
    let ghost s = power(reach(t), n as nat);
    let mut cx: Vec<i128> = Vec::new();
    let mut cy: Vec<i128> = Vec::new();
    let mut k: usize = 0;
    while k < points.len()
        invariant
            k <= points.len(),
            px == xs(points@),
            py == ys(points@),
            cx.len() == k,
            cy.len() == k,
            forall|j: int| 0 <= j < k ==> cx[j] == px[j] && cy[j] == py[j],
        decreases points.len() - k,
    {
        cx.push(points[k].x as i128);
        cy.push(points[k].y as i128);
        k = k + 1;
    }
    let mut i: usize = 0;
    while i < lvl
        invariant
            t.wf(),
            n + 1 == points.len(),
            lvl <= n,
            i <= lvl,
            lo == t.lo(),
            hi == t.hi(),
            px == xs(points@),
            py == ys(points@),
            s == power(reach(t), n as nat),
            s <= i128::MAX,
            coords_fit(px, s),
            coords_fit(py, s),
            cx.len() == n + 1 - i,
            cy.len() == n + 1 - i,
            forall|j: int|
                0 <= j < cx.len() ==> cx[j] == level(px, lo as int, hi as int, i as nat)[j] && cy[j]
                    == level(py, lo as int, hi as int, i as nat)[j],
        decreases lvl - i,
    {
        let mut nx: Vec<i128> = Vec::new();
        let mut ny: Vec<i128> = Vec::new();
        let mut k: usize = 0;
        while k + 1 < cx.len()
            invariant
                t.wf(),
                n + 1 == points.len(),
                i < lvl <= n,
                lo == t.lo(),
                hi == t.hi(),
                px == xs(points@),
                py == ys(points@),
                s == power(reach(t), n as nat),
                s <= i128::MAX,
                coords_fit(px, s),
                coords_fit(py, s),
                cx.len() == n + 1 - i,
                cy.len() == n + 1 - i,
                forall|j: int|
                    0 <= j < cx.len() ==> cx[j] == level(px, lo as int, hi as int, i as nat)[j]
                        && cy[j] == level(py, lo as int, hi as int, i as nat)[j],
                k + 1 <= cx.len(),
                nx.len() == k,
                ny.len() == k,
                forall|j: int|
                    0 <= j < k ==> nx[j] == level(px, lo as int, hi as int, (i + 1) as nat)[j]
                        && ny[j] == level(py, lo as int, hi as int, (i + 1) as nat)[j],
            decreases cx.len() - k,
        {
            proof {
                lemma_lerp_step(px, t, n as nat, i as nat, k as int);
                lemma_lerp_step(py, t, n as nat, i as nat, k as int);
            }
            nx.push(lo * cx[k] + hi * cx[k + 1]);
            ny.push(lo * cy[k] + hi * cy[k + 1]);
            k = k + 1;
        }
        proof {
            lemma_level_len(px, lo as int, hi as int, (i + 1) as nat);
        }
        cx = nx;
        cy = ny;
        i = i + 1;
    }
    proof {
        lemma_power_base_mono(t.den as int, reach(t), lvl as nat);
        lemma_power_exp_mono(reach(t), lvl as nat, n as nat);
    }
    let scale = power_i128(t.den as i128, lvl);
    let mut out: Vec<Sample> = Vec::new();
    let mut k: usize = 0;
    while k < cx.len()
        invariant
            cx.len() == n + 1 - lvl,
            cy.len() == n + 1 - lvl,
            n + 1 == points.len(),
            lvl <= n,
            lo == t.lo(),
            hi == t.hi(),
            px == xs(points@),
            py == ys(points@),
            scale == power(t.den as int, lvl as nat),
            forall|j: int|
                0 <= j < cx.len() ==> cx[j] == level(px, lo as int, hi as int, lvl as nat)[j] && cy[j]
                    == level(py, lo as int, hi as int, lvl as nat)[j],
            k <= cx.len(),
            out.len() == k,
            forall|j: int|
                0 <= j < k ==> (#[trigger] out[j]).x == cx[j] && out[j].y == cy[j] && out[j].scale
                    == scale,
        decreases cx.len() - k,
    {
        out.push(Sample { x: cx[k], y: cy[k], scale });
        k = k + 1;
    }
    out
}

/// The two evaluation methods agree exactly: the blend that `evaluate`
/// returns is the single entry of the last level that `subdivide` returns.
pub proof fn lemma_evaluate_matches_subdivide(pts: Seq<Point>, t: Param, s: Sample, v: Seq<Sample>)
    requires
        pts.len() >= 2,
        is_blend(s, pts, t),
        is_level(v, pts, t, (pts.len() - 1) as nat),
    ensures
        v.len() == 1,
        v[0] == s,
{
    lemma_blend_is_casteljau(xs(pts), t.lo(), t.hi());
    lemma_blend_is_casteljau(ys(pts), t.lo(), t.hi());
    assert(v[0].x == s.x && v[0].y == s.y && v[0].scale == s.scale);
}

/// The curve starts at its first control point (`t = 0`) and ends at its
/// last one (`t = 1`).
pub proof fn lemma_endpoints(pts: Seq<Point>, t: Param, s: Sample)
    requires
        pts.len() >= 2,
        t.wf(),
        t.num == 0 || t.num == t.den,
        is_blend(s, pts, t),
    ensures
        t.num == 0 ==> s.is_point(pts[0]),
        t.num == t.den ==> s.is_point(pts[pts.len() - 1]),
{
    lemma_blend_endpoints(xs(pts), t.den as int);
    lemma_blend_endpoints(ys(pts), t.den as int);
}

/// Translating every control point by `(dx, dy)` translates the point on the
/// curve by `(dx, dy)`, at every `t`.
pub proof fn lemma_translation(
    pts: Seq<Point>,
    moved: Seq<Point>,
    dx: int,
    dy: int,
    t: Param,
    s: Sample,
    u: Sample,
)
    requires
        pts.len() >= 2,
        moved.len() == pts.len(),
        forall|k: int|
            0 <= k < pts.len() ==> moved[k].x == pts[k].x + dx && moved[k].y == pts[k].y + dy,
        is_blend(s, pts, t),
        is_blend(u, moved, t),
    ensures
        u.scale == s.scale,
        u.x == s.x + dx * s.scale,
        u.y == s.y + dy * s.scale,
{
    lemma_blend_shift(xs(pts), t.lo(), t.hi(), dx);
    lemma_blend_shift(ys(pts), t.lo(), t.hi(), dy);
    assert(xs(moved) =~= shift(xs(pts), dx));
    assert(ys(moved) =~= shift(ys(pts), dy));
    assert(t.lo() + t.hi() == t.den);
}

/// For `d > 0` and `x, limit >= 0`: `x * d <= limit` exactly when `x <= limit / d`.
proof fn lemma_fits_by_div(x: int, d: int, limit: int)
    requires
        d > 0,
        x >= 0,
        limit >= 0,
    ensures
        x * d <= limit <==> x <= limit / d,
{
    lemma_fundamental_div_mod(limit, d);
    lemma_mod_pos_bound(limit, d);
    let q = limit / d;
    let r = limit % d;
    assert(d * q == q * d) by (nonlinear_arith);
    assert((q + 1) * d == q * d + d) by (nonlinear_arith);
    if x <= q {
        assert(x * d <= q * d) by (nonlinear_arith)
            requires
                x <= q,
                d > 0,
        ;
    } else {
        assert(x * d >= (q + 1) * d) by (nonlinear_arith)
            requires
                x >= q + 1,
                d > 0,
        ;
    }
}

/// Whether the exact evaluation of the curve of `points` at `t` fits in
/// machine integers, as `evaluate` and `subdivide` require.
pub fn check_limits(points: &Vec<Point>, t: Param) -> (r: bool)
    requires
        t.wf(),
        points.len() >= 1,
    ensures
        r == within_limits(points@, t),
{
    let lo: i128 = t.den as i128 - t.num as i128;
    let hi: i128 = t.num as i128;
    let alo: i128 = if lo < 0 {
        -lo
    } else {
        lo
    };
    let ahi: i128 = if hi < 0 {
        -hi
    } else {
        hi
    };
    let a = alo + ahi;
    let s: i128 = if a < 2 {
        2
    } else {
        a
    };
    assert(s == reach(t));
    let n: usize = points.len() - 1;
    let limit: i128 = i128::MAX;
    let mut cur: i128 = 1;
    let mut j: usize = 0;
    while j < n
        invariant
            j <= n,
            n + 1 == points.len(),
            s == reach(t),
            s >= 2,
            cur == power(s as int, j as nat),
            1 <= cur <= limit,
            limit == i128::MAX,
        decreases n - j,
    {
        proof {
            lemma_fits_by_div(cur as int, s as int, limit as int);
        }
        if cur > limit / s {
            proof {
                lemma_power_exp_mono(s as int, (j + 1) as nat, n as nat);
                assert(power(s as int, (j + 1) as nat) == s * cur);
                assert(s * cur == cur * s) by (nonlinear_arith);
            }
            return false;
        }
        proof {
            assert(cur * s >= 1) by (nonlinear_arith)
                requires
                    cur >= 1,
                    s >= 2,
            ;
        }
        cur = cur * s;
        j = j + 1;
    }
    let ghost px = xs(points@);
    let ghost py = ys(points@);
    let mut k: usize = 0;
    while k < points.len()
        invariant
            k <= points.len(),
            n + 1 == points.len(),
            cur == power(reach(t), n as nat),
            1 <= cur <= limit,
            limit == i128::MAX,
            px == xs(points@),
            py == ys(points@),
            forall|m: int| 0 <= m < k ==> abs(#[trigger] px[m]) * cur <= i128::MAX,
            forall|m: int| 0 <= m < k ==> abs(#[trigger] py[m]) * cur <= i128::MAX,
        decreases points.len() - k,
    {
        let p = points[k];
        let ax: i128 = if p.x < 0 {
            -(p.x as i128)
        } else {
            p.x as i128
        };
        let ay: i128 = if p.y < 0 {
            -(p.y as i128)
        } else {
            p.y as i128
        };
        proof {
            lemma_fits_by_div(ax as int, cur as int, limit as int);
            lemma_fits_by_div(ay as int, cur as int, limit as int);
            assert(px[k as int] == p.x && py[k as int] == p.y);
        }
        if ax > limit / cur || ay > limit / cur {
            return false;
        }
        k = k + 1;
    }
    true
}

} // verus!
