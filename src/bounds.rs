//! Magnitude bounds on Bernstein sums and de Casteljau levels, used to show
//! that exact evaluation stays within machine integers.

use vstd::prelude::*;
use crate::kernel::{binom, level, power, term, window};

verus! {

pub open spec fn abs(x: int) -> int {
    if x < 0 {
        -x
    } else {
        x
    }
}

/// A sequence of `len` ones.
pub open spec fn ones(len: nat) -> Seq<int> {
    Seq::new(len, |k: int| 1int)
}

/// The largest absolute value in `p`, or zero when `p` is empty.
pub open spec fn max_abs(p: Seq<int>) -> int
    decreases p.len(),
{
    if p.len() == 0 {
        0
    } else {
        let rest = max_abs(p.drop_last());
        if abs(p.last()) > rest {
            abs(p.last())
        } else {
            rest
        }
    }
}

pub proof fn lemma_max_abs(p: Seq<int>, s: int, limit: int)
    requires
        s >= 0,
        limit >= 0,
        forall|k: int| 0 <= k < p.len() ==> abs(p[k]) * s <= limit,
    ensures
        max_abs(p) >= 0,
        max_abs(p) * s <= limit,
        forall|k: int| 0 <= k < p.len() ==> abs(p[k]) <= max_abs(p),
    decreases p.len(),
{
    if p.len() > 0 {
        let q = p.drop_last();
        assert forall|k: int| 0 <= k < q.len() implies abs(q[k]) * s <= limit by {
            assert(q[k] == p[k]);
        }
        lemma_max_abs(q, s, limit);
        assert(abs(p.last()) * s <= limit);
        assert forall|k: int| 0 <= k < p.len() implies abs(p[k]) <= max_abs(p) by {
            if k < q.len() {
                assert(q[k] == p[k]);
            }
        }
    }
}

pub proof fn lemma_power_abs(x: int, e: nat)
    ensures
        abs(power(x, e)) == power(abs(x), e),
        power(abs(x), e) >= 0,
    decreases e,
{
    if e > 0 {
        let em1 = (e - 1) as nat;
        lemma_power_abs(x, em1);
        let q = power(x, em1);
        assert(abs(x * q) == abs(x) * abs(q)) by (nonlinear_arith);
        assert(abs(x) * power(abs(x), em1) >= 0) by (nonlinear_arith)
            requires
                power(abs(x), em1) >= 0,
        ;
    }
}

pub proof fn lemma_power_base_mono(x: int, y: int, e: nat)
    requires
        0 <= x <= y,
    ensures
        0 <= power(x, e) <= power(y, e),
    decreases e,
{
    if e > 0 {
        let em1 = (e - 1) as nat;
        lemma_power_base_mono(x, y, em1);
        let a = power(x, em1);
        let b = power(y, em1);
        assert(0 <= x * a <= y * b) by (nonlinear_arith)
            requires
                0 <= x <= y,
                0 <= a <= b,
        ;
    }
}

pub proof fn lemma_power_exp_mono(x: int, e1: nat, e2: nat)
    requires
        x >= 1,
        e1 <= e2,
    ensures
        1 <= power(x, e1) <= power(x, e2),
    decreases e2,
{
    if e2 > 0 {
        let em1 = (e2 - 1) as nat;
        if e1 <= em1 {
            lemma_power_exp_mono(x, e1, em1);
        } else {
            lemma_power_exp_mono(x, em1, em1);
        }
        let a = power(x, em1);
        assert(1 <= a <= x * a) by (nonlinear_arith)
            requires
                x >= 1,
                a >= 1,
        ;
    }
}

/// A power of an absolute value below `limit` stays there at every smaller exponent.
pub proof fn lemma_power_prefix(x: int, j: nat, e: nat, limit: int)
    requires
        j <= e,
        power(abs(x), e) <= limit,
        limit >= 1,
    ensures
        power(abs(x), j) <= limit,
{
    if abs(x) >= 1 {
        lemma_power_exp_mono(abs(x), j, e);
    } else if j > 0 {
        assert(abs(x) == 0);
        assert(power(abs(x), j) == 0 * power(abs(x), (j - 1) as nat));
    }
}

pub proof fn lemma_binom_pos(n: nat, k: nat)
    requires
        k <= n,
    ensures
        binom(n, k) >= 1,
    decreases n,
{
    if k > 0 && n > 0 {
        lemma_binom_pos((n - 1) as nat, (k - 1) as nat);
    }
}

proof fn lemma_level_ones(len: nat, a: int, b: int, i: nat, k: int)
    requires
        i < len,
        0 <= k < len - i,
    ensures
        level(ones(len), a, b, i)[k] == power(a + b, i),
    decreases i,
{
    if i > 0 {
        let im1 = (i - 1) as nat;
        crate::kernel::lemma_level_len(ones(len), a, b, im1);
        lemma_level_ones(len, a, b, im1, k);
        lemma_level_ones(len, a, b, im1, k + 1);
        let q = power(a + b, im1);
        assert(a * q + b * q == (a + b) * q) by (nonlinear_arith);
    }
}

/// The binomial theorem: the Bernstein weights of degree `n` sum to `(a + b)^n`.
pub proof fn lemma_weights_total(n: nat, a: int, b: int)
    ensures
        window(ones(n + 1), a, b, n, 0, n + 1) == power(a + b, n),
{
    crate::kernel::lemma_level_window(ones(n + 1), a, b, n, 0);
    lemma_level_ones(n + 1, a, b, n, 0);
}

/// With non-negative weights, each Bernstein weight of degree `n` is at most
/// the partial sums from it on, and those are at most `(a + b)^n`.
pub proof fn lemma_weight_le_total(n: nat, a: int, b: int, m: nat)
    requires
        a >= 0,
        b >= 0,
        m <= n,
    ensures
        0 <= term(ones(n + 1), a, b, n, 0, m),
        term(ones(n + 1), a, b, n, 0, m) <= power(a + b, n),
        0 <= window(ones(n + 1), a, b, n, 0, m + 1) <= power(a + b, n),
{
    lemma_window_nonneg_mono(n, a, b, m, m + 1);
    lemma_window_nonneg_mono(n, a, b, m + 1, n + 1);
    lemma_weights_total(n, a, b);
}

proof fn lemma_term_nonneg(n: nat, a: int, b: int, m: nat)
    requires
        a >= 0,
        b >= 0,
        m <= n,
    ensures
        0 <= term(ones(n + 1), a, b, n, 0, m),
{
    lemma_power_base_mono(0, a, (n - m) as nat);
    lemma_power_base_mono(0, b, m);
    let x = power(a, (n - m) as nat);
    let y = power(b, m);
    assert(ones(n + 1)[0int + m] == 1);
    assert(0 <= binom(n, m) * (x * (y * 1))) by (nonlinear_arith)
        requires
            x >= 0,
            y >= 0,
    ;
}

proof fn lemma_window_nonneg_mono(n: nat, a: int, b: int, j1: nat, j2: nat)
    requires
        a >= 0,
        b >= 0,
        j1 <= j2 <= n + 1,
    ensures
        0 <= window(ones(n + 1), a, b, n, 0, j1) <= window(ones(n + 1), a, b, n, 0, j2),
        j1 < j2 ==> term(ones(n + 1), a, b, n, 0, j1) <= window(ones(n + 1), a, b, n, 0, j2),
    decreases j2,
{
    if j2 > 0 {
        let jm1 = (j2 - 1) as nat;
        lemma_term_nonneg(n, a, b, jm1);
        if j1 < j2 {
            lemma_window_nonneg_mono(n, a, b, j1, jm1);
            lemma_window_nonneg_mono(n, a, b, 0, jm1);
        } else {
            lemma_window_nonneg_mono(n, a, b, 0, jm1);
        }
    }
}

/// A Bernstein partial sum is bounded by the largest point times the
/// matching partial sum of the absolute weights.
pub proof fn lemma_window_bound(p: Seq<int>, lo: int, hi: int, n: nat, j: nat, bound: int)
    requires
        bound >= 0,
        j <= n + 1,
        n + 1 == p.len(),
        forall|m: int| 0 <= m < p.len() ==> abs(p[m]) <= bound,
    ensures
        abs(window(p, lo, hi, n, 0, j)) <= bound * window(ones(n + 1), abs(lo), abs(hi), n, 0, j),
    decreases j,
{
    if j > 0 {
        let m = (j - 1) as nat;
        lemma_window_bound(p, lo, hi, n, m, bound);
        let c = binom(n, m) as int;
        let x = power(lo, (n - m) as nat);
        let y = power(hi, m);
        lemma_power_abs(lo, (n - m) as nat);
        lemma_power_abs(hi, m);
        let ax = power(abs(lo), (n - m) as nat);
        let ay = power(abs(hi), m);
        assert(ones(n + 1)[0int + m] == 1);
        assert(abs(p[0int + m]) <= bound);
        let z = p[0int + m];
        assert(abs(c * (x * (y * z))) <= bound * (c * (ax * (ay * 1)))) by (nonlinear_arith)
            requires
                c >= 0,
                abs(x) == ax,
                abs(y) == ay,
                ax >= 0,
                ay >= 0,
                abs(z) <= bound,
        ;
        let w0 = window(ones(n + 1), abs(lo), abs(hi), n, 0, m);
        let t0 = c * (ax * (ay * 1));
        assert(bound * (w0 + t0) == bound * w0 + bound * t0) by (nonlinear_arith);
    }
}

} // verus!
