use vstd::arithmetic::div_mod::{lemma_div_pos_is_pos, lemma_fundamental_div_mod};
use vstd::prelude::*;

verus! {

pub proof fn lemma_mul_le_mono(a: int, b: int, c: int, d: int)
    requires
        0 <= a <= b,
        0 <= c <= d,
    ensures
        0 <= a * c <= b * d,
{
    assert(0 <= a * c <= b * d) by (nonlinear_arith)
        requires
            0 <= a <= b,
            0 <= c <= d,
    ;
}

pub proof fn lemma_mul_abs_bound(a: int, b: int, m: int)
    requires
        -m <= a <= m,
        -m <= b <= m,
    ensures
        -(m * m) <= a * b <= m * m,
{
    assert(-(m * m) <= a * b <= m * m) by (nonlinear_arith)
        requires
            -m <= a <= m,
            -m <= b <= m,
    ;
}

/// The flat index of a channel of a pixel lies inside a `h` by `w` image.
pub proof fn lemma_flat_index_bound(y: int, x: int, ch: int, h: int, w: int)
    requires
        0 <= y < h,
        0 <= x < w,
        0 <= ch < 3,
    ensures
        0 <= y * w + x < h * w,
        0 <= (y * w + x) * 3 + ch < h * w * 3,
{
    assert(0 <= y * w + x < h * w) by (nonlinear_arith)
        requires
            0 <= y < h,
            0 <= x < w,
    ;
}

/// Two least integers whose squares reach `t` are the same.
pub proof fn lemma_square_unique(c1: int, c2: int, t: int)
    requires
        c1 >= 1 && (c1 - 1) * (c1 - 1) < t <= c1 * c1,
        c2 >= 1 && (c2 - 1) * (c2 - 1) < t <= c2 * c2,
    ensures
        c1 == c2,
{
    if c1 < c2 {
        lemma_mul_le_mono(c1, c2 - 1, c1, c2 - 1);
    } else if c2 < c1 {
        lemma_mul_le_mono(c2, c1 - 1, c2, c1 - 1);
    }
}

/// The row of a flat position inside an `a` by `b` grid lies inside it.
pub proof fn lemma_div_below(p: int, a: int, b: int)
    requires
        0 <= p < a * b,
        b > 0,
    ensures
        0 <= p / b < a,
        0 <= p % b < b,
{
    lemma_fundamental_div_mod(p, b);
    lemma_div_pos_is_pos(p, b);
    let q = p / b;
    if q >= a {
        assert(b * q >= a * b) by (nonlinear_arith)
            requires
                q >= a,
                b > 0,
        ;
    }
}

/// Scaling a position inside `[0, n)` by `m` keeps it below `n * m`.
pub proof fn lemma_scaled_below(y: int, n: int, m: int)
    requires
        0 <= y < n,
        m > 0,
    ensures
        0 <= y * m < m * n,
{
    assert(0 <= y * m < m * n) by (nonlinear_arith)
        requires
            0 <= y < n,
            m > 0,
    ;
}

proof fn lemma_term(v: int, a: int, b: int, nw: int, nh: int)
    requires
        0 <= v <= 255,
        0 <= a <= nw,
        0 <= b <= nh,
    ensures
        0 <= v * a <= 255 * a <= 255 * nw,
        0 <= v * a * b <= 255 * a * b,
{
    lemma_mul_le_mono(v, 255, a, a);
    lemma_mul_le_mono(a, nw, 255, 255);
    lemma_mul_le_mono(v * a, 255 * a, b, b);
}

/// Bilinear weights: each term stays below its share, and the weights add
/// up to the whole area.
pub proof fn lemma_bilinear_terms(v00: int, v01: int, v10: int, v11: int, ax: int, ay: int, nw: int, nh: int)
    requires
        0 <= v00 <= 255,
        0 <= v01 <= 255,
        0 <= v10 <= 255,
        0 <= v11 <= 255,
        0 <= ax < nw,
        0 <= ay < nh,
    ensures
        0 <= v00 * (nw - ax) <= 255 * nw,
        0 <= v01 * ax <= 255 * nw,
        0 <= v10 * (nw - ax) <= 255 * nw,
        0 <= v11 * ax <= 255 * nw,
        0 <= v00 * (nw - ax) * (nh - ay),
        0 <= v01 * ax * (nh - ay),
        0 <= v10 * (nw - ax) * ay,
        0 <= v11 * ax * ay,
        0 <= v00 * (nw - ax) * (nh - ay) + v01 * ax * (nh - ay) + v10 * (nw - ax) * ay + v11 * ax
            * ay <= 255 * (nh * nw),
{
    lemma_term(v00, nw - ax, nh - ay, nw, nh);
    lemma_term(v01, ax, nh - ay, nw, nh);
    lemma_term(v10, nw - ax, ay, nw, nh);
    lemma_term(v11, ax, ay, nw, nh);
    assert(255 * (nw - ax) * (nh - ay) + 255 * ax * (nh - ay) + 255 * (nw - ax) * ay + 255 * ax * ay
        == 255 * (nh * nw)) by (nonlinear_arith);
}

} // verus!
