//! Small nonlinear arithmetic facts shared by the proofs of the crate.

use vstd::prelude::*;

verus! {

/// A product is bounded by the product of the bounds.
pub proof fn lemma_mul_bound(a: int, b: int, aa: int, bb: int)
    by (nonlinear_arith)
    requires
        -aa <= a <= aa,
        -bb <= b <= bb,
        0 <= aa,
        0 <= bb,
    ensures
        -(aa * bb) <= a * b <= aa * bb,
{
}

/// Distribution of a factor over a sum of two terms.
pub proof fn lemma_distrib2(k: int, a: int, b: int)
    by (nonlinear_arith)
    ensures
        k * (a + b) == k * a + k * b,
{
}

/// Distribution of a factor over a sum of three terms.
pub proof fn lemma_distrib3(k: int, a: int, b: int, c: int)
    by (nonlinear_arith)
    ensures
        k * (a + b + c) == k * a + k * b + k * c,
{
}

/// Distribution of a factor over a sum of four terms.
pub proof fn lemma_distrib4(k: int, a: int, b: int, c: int, d: int)
    by (nonlinear_arith)
    ensures
        k * (a + b + c + d) == k * a + k * b + k * c + k * d,
{
}

/// One interpolation step with weights `v + m == n` keeps values inside
/// `n` times their bound.
pub proof fn lemma_lerp_step_bound(x: int, y: int, v: int, m: int, n: int, c: int)
    by (nonlinear_arith)
    requires
        0 <= v,
        0 <= m,
        v + m == n,
        -c <= x <= c,
        -c <= y <= c,
        0 <= c,
    ensures
        -(n * c) <= v * x <= n * c,
        -(n * c) <= m * y <= n * c,
        -(n * c) <= v * x + m * y <= n * c,
{
}

/// The bounds of the three interpolation levels all fit in `i128` when
/// the final one does with room to spare.
pub proof fn lemma_eval_bounds(n: int, g: int)
    by (nonlinear_arith)
    requires
        1 <= n,
        1 <= g,
        4 * ((n * n * n) * g) <= i128::MAX as int,
    ensures
        n * g <= i128::MAX as int,
        n * (n * g) <= i128::MAX as int,
        n * (n * (n * g)) <= i128::MAX as int,
        n * (n * (n * g)) == (n * n * n) * g,
        g <= n * g,
        n * g <= n * (n * g),
        n * (n * g) <= n * (n * (n * g)),
{
}

/// The scale factors of a subdivision step fit in `i128`.
pub proof fn lemma_den_bound(n: int, d: int, g: int)
    by (nonlinear_arith)
    requires
        1 <= n,
        1 <= d,
        d <= g,
        4 * ((n * n * n) * g) <= i128::MAX as int,
    ensures
        n * n <= i128::MAX as int,
        n * n * n <= i128::MAX as int,
        0 < d * (n * n * n) <= i128::MAX as int,
        d * (n * n * n) == d * ((n * n) * n),
{
}

/// Repeatedly scaling a bounded value by `n` keeps it inside the scaled
/// bounds, in both association orders.
pub proof fn lemma_scale_chain(x: int, n: int, c: int)
    by (nonlinear_arith)
    requires
        0 < n,
        0 <= c,
        -c <= x <= c,
    ensures
        -(n * c) <= n * x <= n * c,
        -(n * (n * c)) <= n * (n * x) <= n * (n * c),
        -(n * (n * (n * c))) <= n * (n * (n * x)) <= n * (n * (n * c)),
        n * (n * x) == (n * n) * x,
        n * (n * (n * x)) == ((n * n) * n) * x,
{
}

/// Pure reassociation of one degree-seven monomial.
pub proof fn lemma_monomial_shift(u: int, j: int, n: int, w: int, m: int, x: int)
    by (nonlinear_arith)
    ensures
        3 * u * (j * j) * (n * ((w * m) * x)) == 3 * ((u * n) * ((j * w) * (j * m))) * x,
{
}

/// A scale factor can move across a cross-multiplied fraction pair.
pub proof fn lemma_swap_scale(value: int, den: int, scale: int)
    by (nonlinear_arith)
    ensures
        (scale * value) * den == value * (den * scale),
{
}

/// A factor commutes past a doubling.
pub proof fn lemma_double(k: int, y: int)
    by (nonlinear_arith)
    ensures
        k * (2 * y) == 2 * (k * y),
{
}

} // verus!
