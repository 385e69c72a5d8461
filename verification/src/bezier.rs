//! The curve engine: exact evaluation, sampling and De Casteljau
//! subdivision of cubic Bezier curves.
//!
//! A curve is four control points with integer numerators over one shared
//! positive denominator. Evaluating at a fraction `i / n` multiplies the
//! denominator by `n^3` and produces the scaled cubic Bernstein value as an
//! exact integer, so every contract below pins the result to a polynomial
//! of the inputs and the split round-trip law is a theorem rather than a
//! floating-point observation.

use vstd::prelude::*;

use crate::position::{Fraction, Position, SamplePoint};

verus! {

/// The scaled cubic Bernstein polynomial: `n^3` times the value at `i / n`
/// of the Bernstein form `(1-t)^3 p0 + 3 (1-t)^2 t p1 + 3 (1-t) t^2 p2 +
/// t^3 p3`, for one coordinate.
pub open spec fn bezier_num(p0: int, p1: int, p2: int, p3: int, i: int, n: int) -> int {
    (n - i) * (n - i) * (n - i) * p0 + 3 * ((n - i) * (n - i)) * i * p1 + 3 * (n - i) * (i * i)
        * p2 + i * (i * i) * p3
}

/// One linear interpolation step at `i / n`, scaled by `n`: `n` times the
/// value of `a + (b - a) * i / n`.
pub open spec fn lerp_num(a: int, b: int, i: int, n: int) -> int {
    (n - i) * a + i * b
}

/// De Casteljau point `A = lerp(P0, P1, t)` at `t = i / n`, scaled by `n`.
pub open spec fn casteljau_a(p0: int, p1: int, i: int, n: int) -> int {
    lerp_num(p0, p1, i, n)
}

/// De Casteljau point `B = lerp(P1, P2, t)` at `t = i / n`, scaled by `n`.
pub open spec fn casteljau_b(p1: int, p2: int, i: int, n: int) -> int {
    lerp_num(p1, p2, i, n)
}

/// De Casteljau point `C = lerp(P2, P3, t)` at `t = i / n`, scaled by `n`.
pub open spec fn casteljau_c(p2: int, p3: int, i: int, n: int) -> int {
    lerp_num(p2, p3, i, n)
}

/// De Casteljau point `D = lerp(A, B, t)` at `t = i / n`, scaled by `n^2`.
pub open spec fn casteljau_d(p0: int, p1: int, p2: int, i: int, n: int) -> int {
    lerp_num(casteljau_a(p0, p1, i, n), casteljau_b(p1, p2, i, n), i, n)
}

/// De Casteljau point `E = lerp(B, C, t)` at `t = i / n`, scaled by `n^2`.
pub open spec fn casteljau_e(p1: int, p2: int, p3: int, i: int, n: int) -> int {
    lerp_num(casteljau_b(p1, p2, i, n), casteljau_c(p2, p3, i, n), i, n)
}

/// De Casteljau point `F = lerp(D, E, t)` at `t = i / n`, scaled by `n^3`:
/// the point of the curve itself.
pub open spec fn casteljau_f(p0: int, p1: int, p2: int, p3: int, i: int, n: int) -> int {
    lerp_num(casteljau_d(p0, p1, p2, i, n), casteljau_e(p1, p2, p3, i, n), i, n)
}

/// The second- and third-level De Casteljau points written out in the
/// control coordinates.
#[verifier::rlimit(30)]
proof fn lemma_de_casteljau_expand(
    x0: int,
    x1: int,
    x2: int,
    x3: int,
    a: int,
    b: int,
    c: int,
    d: int,
    e: int,
    f: int,
    i: int,
    n: int,
)
    requires
        a == (n - i) * x0 + i * x1,
        b == (n - i) * x1 + i * x2,
        c == (n - i) * x2 + i * x3,
        d == (n - i) * a + i * b,
        e == (n - i) * b + i * c,
        f == (n - i) * d + i * e,
    ensures
        d == (n - i) * ((n - i) * x0) + 2 * ((n - i) * i) * x1 + i * (i * x2),
        e == (n - i) * ((n - i) * x1) + 2 * ((n - i) * i) * x2 + i * (i * x3),
        f == (n - i) * ((n - i) * ((n - i) * x0)) + 3 * ((n - i) * ((n - i) * i)) * x1 + 3 * ((n
            - i) * (i * i)) * x2 + i * (i * (i * x3)),
{
    assert(d == (n - i) * ((n - i) * x0) + 2 * ((n - i) * i) * x1 + i * (i * x2))
        by (nonlinear_arith)
        requires
            a == (n - i) * x0 + i * x1,
            b == (n - i) * x1 + i * x2,
            d == (n - i) * a + i * b,
    ;
    assert(e == (n - i) * ((n - i) * x1) + 2 * ((n - i) * i) * x2 + i * (i * x3))
        by (nonlinear_arith)
        requires
            b == (n - i) * x1 + i * x2,
            c == (n - i) * x2 + i * x3,
            e == (n - i) * b + i * c,
    ;
    crate::arith::lemma_distrib3(n - i, (n - i) * ((n - i) * x0), 2 * ((n - i) * i) * x1, i * (i
        * x2));
    assert((n - i) * d == (n - i) * ((n - i) * ((n - i) * x0)) + (n - i) * (2 * ((n - i) * i) * x1)
        + (n - i) * (i * (i * x2)));
    crate::arith::lemma_distrib3(i, (n - i) * ((n - i) * x1), 2 * ((n - i) * i) * x2, i * (i * x3));
    assert(i * e == i * ((n - i) * ((n - i) * x1)) + i * (2 * ((n - i) * i) * x2) + i * (i * (i
        * x3)));
    assert((n - i) * (2 * ((n - i) * i) * x1) + i * ((n - i) * ((n - i) * x1)) == 3 * ((n - i) * ((n
        - i) * i)) * x1) by (nonlinear_arith);
    assert((n - i) * (i * (i * x2)) + i * (2 * ((n - i) * i) * x2) == 3 * ((n - i) * (i * i)) * x2)
        by (nonlinear_arith);
}

/// Three rounds of pairwise interpolation compute exactly the Bernstein
/// form: the two classic readings of a cubic Bezier agree.
#[verifier::rlimit(30)]
proof fn lemma_casteljau_is_bernstein(
    q0: int,
    q1: int,
    q2: int,
    q3: int,
    a: int,
    b: int,
    c: int,
    d: int,
    e: int,
    f: int,
    i: int,
    n: int,
)
    requires
        a == (n - i) * q0 + i * q1,
        b == (n - i) * q1 + i * q2,
        c == (n - i) * q2 + i * q3,
        d == (n - i) * a + i * b,
        e == (n - i) * b + i * c,
        f == (n - i) * d + i * e,
    ensures
        f == bezier_num(q0, q1, q2, q3, i, n),
{
    lemma_de_casteljau_expand(q0, q1, q2, q3, a, b, c, d, e, f, i, n);
    assert((n - i) * ((n - i) * ((n - i) * q0)) + 3 * ((n - i) * ((n - i) * i)) * q1 + 3 * ((n - i)
        * (i * i)) * q2 + i * (i * (i * q3)) == (n - i) * (n - i) * (n - i) * q0 + 3 * ((n - i) * (n
        - i)) * i * q1 + 3 * (n - i) * (i * i) * q2 + i * (i * i) * q3) by (nonlinear_arith);
}

/// Sampling the left half of a split curve retraces the parent: the left
/// child of a split at `m / n`, evaluated at `j / m`, is the parent's point
/// at `j / n`, up to the scale factor `m^3` that the evaluation introduces.
#[verifier::rlimit(30)]
proof fn lemma_left_reparam(
    x0: int,
    x1: int,
    x2: int,
    x3: int,
    a: int,
    b: int,
    c: int,
    d: int,
    e: int,
    f: int,
    m: int,
    n: int,
    j: int,
)
    requires
        a == (n - m) * x0 + m * x1,
        b == (n - m) * x1 + m * x2,
        c == (n - m) * x2 + m * x3,
        d == (n - m) * a + m * b,
        e == (n - m) * b + m * c,
        f == (n - m) * d + m * e,
    ensures
        (m - j) * (m - j) * (m - j) * ((n * n * n) * x0) + 3 * ((m - j) * (m - j)) * j * ((n * n)
            * a) + 3 * (m - j) * (j * j) * (n * d) + j * (j * j) * f == (m * (m * m)) * bezier_num(
            x0,
            x1,
            x2,
            x3,
            j,
            n,
        ),
{
    lemma_de_casteljau_expand(x0, x1, x2, x3, a, b, c, d, e, f, m, n);
    let va = (m - j) * n;
    let vb = j * (n - m);
    let s = va + vb;
    let p = j * m;
    let r = n - j;

    // First term of the child's Bernstein sum: the scaled start point.
    assert((m - j) * (m - j) * (m - j) * ((n * n * n) * x0) == (va * (va * va)) * x0)
        by (nonlinear_arith)
        requires
            va == (m - j) * n,
    ;

    // Second term: distribute over `a`, then collect monomials.
    crate::arith::lemma_distrib2(n * n, (n - m) * x0, m * x1);
    assert((n * n) * a == (n * n) * ((n - m) * x0) + (n * n) * (m * x1));
    crate::arith::lemma_distrib2(
        3 * ((m - j) * (m - j)) * j,
        (n * n) * ((n - m) * x0),
        (n * n) * (m * x1),
    );
    assert(3 * ((m - j) * (m - j)) * j * ((n * n) * a) == 3 * ((m - j) * (m - j)) * j * ((n * n) * ((
    n - m) * x0)) + 3 * ((m - j) * (m - j)) * j * ((n * n) * (m * x1)));
    assert(3 * ((m - j) * (m - j)) * j * ((n * n) * ((n - m) * x0)) == 3 * ((va * va) * vb) * x0)
        by (nonlinear_arith)
        requires
            va == (m - j) * n,
            vb == j * (n - m),
    ;
    assert(3 * ((m - j) * (m - j)) * j * ((n * n) * (m * x1)) == 3 * ((va * va) * p) * x1)
        by (nonlinear_arith)
        requires
            va == (m - j) * n,
            p == j * m,
    ;

    // Third term: distribute over `d`, then collect monomials.
    crate::arith::lemma_distrib3(n, (n - m) * ((n - m) * x0), 2 * ((n - m) * m) * x1, m * (m * x2));
    assert(n * d == n * ((n - m) * ((n - m) * x0)) + n * (2 * ((n - m) * m) * x1) + n * (m * (m
        * x2)));
    crate::arith::lemma_distrib3(
        3 * (m - j) * (j * j),
        n * ((n - m) * ((n - m) * x0)),
        n * (2 * ((n - m) * m) * x1),
        n * (m * (m * x2)),
    );
    assert(3 * (m - j) * (j * j) * (n * d) == 3 * (m - j) * (j * j) * (n * ((n - m) * ((n - m)
        * x0))) + 3 * (m - j) * (j * j) * (n * (2 * ((n - m) * m) * x1)) + 3 * (m - j) * (j * j) * (
    n * (m * (m * x2))));
    assert(3 * (m - j) * (j * j) * (n * ((n - m) * ((n - m) * x0))) == 3 * (va * (vb * vb)) * x0)
        by (nonlinear_arith)
        requires
            va == (m - j) * n,
            vb == j * (n - m),
    ;
    assert(2 * ((n - m) * m) * x1 == 2 * (((n - m) * m) * x1)) by (nonlinear_arith);
    crate::arith::lemma_double(n, ((n - m) * m) * x1);
    crate::arith::lemma_double(3 * (m - j) * (j * j), n * (((n - m) * m) * x1));
    crate::arith::lemma_monomial_shift(m - j, j, n, n - m, m, x1);
    assert(3 * (m - j) * (j * j) * (n * (((n - m) * m) * x1)) == 3 * (va * (vb * p)) * x1);
    assert(2 * (3 * (va * (vb * p)) * x1) == 6 * (va * (vb * p)) * x1) by (nonlinear_arith);
    assert(3 * (m - j) * (j * j) * (n * (2 * ((n - m) * m) * x1)) == 6 * (va * (vb * p)) * x1);
    assert(3 * (m - j) * (j * j) * (n * (m * (m * x2))) == 3 * (va * (p * p)) * x2)
        by (nonlinear_arith)
        requires
            va == (m - j) * n,
            p == j * m,
    ;

    // Fourth term: distribute over `f`, then collect monomials.
    crate::arith::lemma_distrib4(
        j * (j * j),
        (n - m) * ((n - m) * ((n - m) * x0)),
        3 * ((n - m) * ((n - m) * m)) * x1,
        3 * ((n - m) * (m * m)) * x2,
        m * (m * (m * x3)),
    );
    assert(j * (j * j) * f == j * (j * j) * ((n - m) * ((n - m) * ((n - m) * x0))) + j * (j * j) * (
    3 * ((n - m) * ((n - m) * m)) * x1) + j * (j * j) * (3 * ((n - m) * (m * m)) * x2) + j * (j * j)
        * (m * (m * (m * x3))));
    assert(j * (j * j) * ((n - m) * ((n - m) * ((n - m) * x0))) == (vb * (vb * vb)) * x0)
        by (nonlinear_arith)
        requires
            vb == j * (n - m),
    ;
    assert(j * (j * j) * (3 * ((n - m) * ((n - m) * m)) * x1) == 3 * ((vb * vb) * p) * x1)
        by (nonlinear_arith)
        requires
            vb == j * (n - m),
            p == j * m,
    ;
    assert(j * (j * j) * (3 * ((n - m) * (m * m)) * x2) == 3 * (vb * (p * p)) * x2)
        by (nonlinear_arith)
        requires
            vb == j * (n - m),
            p == j * m,
    ;
    assert(j * (j * j) * (m * (m * (m * x3))) == (p * (p * p)) * x3) by (nonlinear_arith)
        requires
            p == j * m,
    ;

    // The collected coefficients are the binomial powers of `s = va + vb`.
    assert((va * (va * va)) * x0 + 3 * ((va * va) * vb) * x0 + 3 * (va * (vb * vb)) * x0 + (vb * (vb
        * vb)) * x0 == (s * (s * s)) * x0) by (nonlinear_arith)
        requires
            s == va + vb,
    ;
    assert(3 * ((va * va) * p) * x1 + 6 * (va * (vb * p)) * x1 + 3 * ((vb * vb) * p) * x1 == (3 * ((
    s * s) * p)) * x1) by (nonlinear_arith)
        requires
            s == va + vb,
    ;
    assert(3 * (va * (p * p)) * x2 + 3 * (vb * (p * p)) * x2 == (3 * (s * (p * p))) * x2)
        by (nonlinear_arith)
        requires
            s == va + vb,
    ;

    // `s` itself collapses: (m - j) n + j (n - m) == m (n - j).
    assert(s == m * r) by (nonlinear_arith)
        requires
            s == (m - j) * n + j * (n - m),
            r == n - j,
    ;

    // Rewrite the binomial powers of `s` through `s == m r`.
    assert((s * (s * s)) * x0 == ((m * (m * m)) * ((r * r) * r)) * x0) by (nonlinear_arith)
        requires
            s == m * r,
    ;
    assert((3 * ((s * s) * p)) * x1 == ((m * (m * m)) * (3 * ((r * r) * j))) * x1)
        by (nonlinear_arith)
        requires
            s == m * r,
            p == j * m,
    ;
    assert((3 * (s * (p * p))) * x2 == ((m * (m * m)) * (3 * (r * (j * j)))) * x2)
        by (nonlinear_arith)
        requires
            s == m * r,
            p == j * m,
    ;
    assert((p * (p * p)) * x3 == ((m * (m * m)) * (j * (j * j))) * x3) by (nonlinear_arith)
        requires
            p == j * m,
    ;

    // Finally distribute `m^3` over the parent's Bernstein sum.
    crate::arith::lemma_distrib4(
        m * (m * m),
        (n - j) * (n - j) * (n - j) * x0,
        3 * ((n - j) * (n - j)) * j * x1,
        3 * (n - j) * (j * j) * x2,
        j * (j * j) * x3,
    );
    assert(((m * (m * m)) * ((r * r) * r)) * x0 == (m * (m * m)) * ((n - j) * (n - j) * (n - j)
        * x0)) by (nonlinear_arith)
        requires
            r == n - j,
    ;
    assert(((m * (m * m)) * (3 * ((r * r) * j))) * x1 == (m * (m * m)) * (3 * ((n - j) * (n - j))
        * j * x1)) by (nonlinear_arith)
        requires
            r == n - j,
    ;
    assert(((m * (m * m)) * (3 * (r * (j * j)))) * x2 == (m * (m * m)) * (3 * (n - j) * (j * j)
        * x2)) by (nonlinear_arith)
        requires
            r == n - j,
    ;
    assert(((m * (m * m)) * (j * (j * j))) * x3 == (m * (m * m)) * (j * (j * j) * x3))
        by (nonlinear_arith);
}

/// The mirror image of [`lemma_left_reparam`]: the right child of a split
/// at `m / n`, evaluated at `k / (n - m)`, is the parent's point at
/// `(m + k) / n`, up to the scale factor `(n - m)^3`. Proved by reversing
/// the curve, which swaps the two children.
#[verifier::rlimit(30)]
proof fn lemma_right_reparam(
    x0: int,
    x1: int,
    x2: int,
    x3: int,
    a: int,
    b: int,
    c: int,
    d: int,
    e: int,
    f: int,
    m: int,
    n: int,
    k: int,
)
    requires
        a == (n - m) * x0 + m * x1,
        b == (n - m) * x1 + m * x2,
        c == (n - m) * x2 + m * x3,
        d == (n - m) * a + m * b,
        e == (n - m) * b + m * c,
        f == (n - m) * d + m * e,
    ensures
        (n - m - k) * (n - m - k) * (n - m - k) * f + 3 * ((n - m - k) * (n - m - k)) * k * (n * e)
            + 3 * (n - m - k) * (k * k) * ((n * n) * c) + k * (k * k) * ((n * n * n) * x3) == ((n
            - m) * ((n - m) * (n - m))) * bezier_num(x0, x1, x2, x3, m + k, n),
{
    let w = n - m;
    // Reading the control points backwards turns the split at m / n into a
    // split at w / n whose left child is this curve's right child reversed,
    // with the same interpolation points in the opposite roles.
    lemma_left_reparam(x3, x2, x1, x0, c, b, a, e, d, f, w, n, w - k);
    assert((w - (w - k)) * (w - (w - k)) * (w - (w - k)) * ((n * n * n) * x3) == k * (k * k) * ((n
        * n * n) * x3)) by (nonlinear_arith);
    assert(3 * ((w - (w - k)) * (w - (w - k))) * (w - k) * ((n * n) * c) == 3 * (n - m - k) * (k
        * k) * ((n * n) * c)) by (nonlinear_arith)
        requires
            w == n - m,
    ;
    assert(3 * (w - (w - k)) * ((w - k) * (w - k)) * (n * e) == 3 * ((n - m - k) * (n - m - k)) * k
        * (n * e)) by (nonlinear_arith)
        requires
            w == n - m,
    ;
    assert((w - k) * ((w - k) * (w - k)) * f == (n - m - k) * (n - m - k) * (n - m - k) * f)
        by (nonlinear_arith)
        requires
            w == n - m,
    ;
    // The reversed parent's Bernstein sum at (w - k) / n is the parent's
    // Bernstein sum at (m + k) / n read backwards.
    assert((n - (w - k)) * (n - (w - k)) * (n - (w - k)) * x3 + 3 * ((n - (w - k)) * (n - (w - k)))
        * (w - k) * x2 + 3 * (n - (w - k)) * ((w - k) * (w - k)) * x1 + (w - k) * ((w - k) * (w - k))
        * x0 == (n - (m + k)) * (n - (m + k)) * (n - (m + k)) * x0 + 3 * ((n - (m + k)) * (n - (m
        + k))) * (m + k) * x1 + 3 * (n - (m + k)) * ((m + k) * (m + k)) * x2 + (m + k) * ((m + k) * (
    m + k)) * x3) by (nonlinear_arith)
        requires
            w == n - m,
    ;
}


/// A control point of a curve: the two numerators of one plane point,
/// over the curve's shared denominator.
#[derive(Clone, Copy, PartialEq, Eq, Structural, Debug)]
pub struct ScaledPoint {
    pub x: i128,
    pub y: i128,
}

/// The error a checked engine call reports for an input that the curve
/// engine treats as a caller bug.
#[derive(Clone, Copy, PartialEq, Eq, Structural, Debug)]
pub enum CurveError {
    ZeroSubdivisions,
    ParameterOutOfRange,
}

/// An ordered set of exactly four control points over one shared positive
/// denominator: start point, its outgoing handle, the end point's incoming
/// handle, end point.
#[derive(Clone, Copy, PartialEq, Eq, Structural, Debug)]
pub struct ControlPointArray {
    pub start_point: ScaledPoint,
    pub start_handle: ScaledPoint,
    pub end_handle: ScaledPoint,
    pub end_point: ScaledPoint,
    pub den: i128,
}

/// The larger of two integers.
pub open spec fn imax(a: int, b: int) -> int {
    if a >= b {
        a
    } else {
        b
    }
}

/// The magnitude of one coordinate.
pub open spec fn coord_mag(x: int) -> int {
    if x < 0 {
        -x
    } else {
        x
    }
}

/// The larger coordinate magnitude of a point.
pub open spec fn point_mag(p: ScaledPoint) -> int {
    imax(coord_mag(p.x as int), coord_mag(p.y as int))
}

impl ControlPointArray {
    /// The denominator is positive, so the points denote rationals.
    pub open spec fn wf(self) -> bool {
        0 < self.den
    }

    /// The largest coordinate magnitude among the four points.
    pub open spec fn mag(self) -> int {
        imax(
            imax(point_mag(self.start_point), point_mag(self.start_handle)),
            imax(point_mag(self.end_handle), point_mag(self.end_point)),
        )
    }

    /// A positive bound on every coordinate and on the denominator.
    pub open spec fn headroom(self) -> int {
        self.mag() + self.den
    }

    /// Wrap four integer positions as a curve over denominator one.
    pub fn new(
        start_point: Position,
        start_handle: Position,
        end_handle: Position,
        end_point: Position,
    ) -> (r: ControlPointArray)
        ensures
            r.den == 1,
            r.start_point.x == start_point.x,
            r.start_point.y == start_point.y,
            r.start_handle.x == start_handle.x,
            r.start_handle.y == start_handle.y,
            r.end_handle.x == end_handle.x,
            r.end_handle.y == end_handle.y,
            r.end_point.x == end_point.x,
            r.end_point.y == end_point.y,
    {
        ControlPointArray {
            start_point: ScaledPoint { x: start_point.x as i128, y: start_point.y as i128 },
            start_handle: ScaledPoint { x: start_handle.x as i128, y: start_handle.y as i128 },
            end_handle: ScaledPoint { x: end_handle.x as i128, y: end_handle.y as i128 },
            end_point: ScaledPoint { x: end_point.x as i128, y: end_point.y as i128 },
            den: 1,
        }
    }
}

/// Evaluating the curve over a denominator `n` cannot overflow `i128`.
pub open spec fn eval_fits(cp: ControlPointArray, n: int) -> bool {
    &&& 0 < n
    &&& 4 * ((n * n * n) * cp.headroom()) <= i128::MAX as int
}

/// `s` is the exact point of the curve at parameter `i / n`: its
/// numerators are the scaled Bernstein values and its denominator is the
/// curve's denominator times `n^3`.
pub open spec fn is_curve_point(cp: ControlPointArray, i: int, n: int, s: SamplePoint) -> bool {
    &&& s.x == bezier_num(
        cp.start_point.x as int,
        cp.start_handle.x as int,
        cp.end_handle.x as int,
        cp.end_point.x as int,
        i,
        n,
    )
    &&& s.y == bezier_num(
        cp.start_point.y as int,
        cp.start_handle.y as int,
        cp.end_handle.y as int,
        cp.end_point.y as int,
        i,
        n,
    )
    &&& s.den == cp.den * (n * n * n)
}

/// One coordinate of the curve point at `i / n`, by three rounds of scaled
/// interpolation.
fn eval_coord(q0: i128, q1: i128, q2: i128, q3: i128, i: i128, n: i128, Ghost(g): Ghost<int>) -> (r:
    i128)
    requires
        0 < n,
        0 <= i <= n,
        1 <= g,
        -g <= q0 <= g,
        -g <= q1 <= g,
        -g <= q2 <= g,
        -g <= q3 <= g,
        4 * ((n * n * n) * g) <= i128::MAX as int,
    ensures
        r == bezier_num(q0 as int, q1 as int, q2 as int, q3 as int, i as int, n as int),
        -((n * n * n) * g) <= r <= (n * n * n) * g,
{
    let v: i128 = n - i;
    proof {
        crate::arith::lemma_eval_bounds(n as int, g);
        crate::arith::lemma_lerp_step_bound(q0 as int, q1 as int, v as int, i as int, n as int, g);
        crate::arith::lemma_lerp_step_bound(q1 as int, q2 as int, v as int, i as int, n as int, g);
        crate::arith::lemma_lerp_step_bound(q2 as int, q3 as int, v as int, i as int, n as int, g);
    }
    let pa: i128 = v * q0 + i * q1;
    let pb: i128 = v * q1 + i * q2;
    let pc: i128 = v * q2 + i * q3;
    proof {
        crate::arith::lemma_lerp_step_bound(
            pa as int,
            pb as int,
            v as int,
            i as int,
            n as int,
            (n as int) * g,
        );
        crate::arith::lemma_lerp_step_bound(
            pb as int,
            pc as int,
            v as int,
            i as int,
            n as int,
            (n as int) * g,
        );
    }
    let pd: i128 = v * pa + i * pb;
    let pe: i128 = v * pb + i * pc;
    proof {
        crate::arith::lemma_lerp_step_bound(
            pd as int,
            pe as int,
            v as int,
            i as int,
            n as int,
            (n as int) * ((n as int) * g),
        );
    }
    let pf: i128 = v * pd + i * pe;
    proof {
        lemma_casteljau_is_bernstein(
            q0 as int,
            q1 as int,
            q2 as int,
            q3 as int,
            pa as int,
            pb as int,
            pc as int,
            pd as int,
            pe as int,
            pf as int,
            i as int,
            n as int,
        );
    }
    pf
}

/// Every coordinate of a curve lies within its headroom.
proof fn lemma_headroom(cp: ControlPointArray)
    requires
        cp.wf(),
    ensures
        1 <= cp.headroom(),
        cp.den <= cp.headroom(),
        -cp.headroom() <= cp.start_point.x <= cp.headroom(),
        -cp.headroom() <= cp.start_point.y <= cp.headroom(),
        -cp.headroom() <= cp.start_handle.x <= cp.headroom(),
        -cp.headroom() <= cp.start_handle.y <= cp.headroom(),
        -cp.headroom() <= cp.end_handle.x <= cp.headroom(),
        -cp.headroom() <= cp.end_handle.y <= cp.headroom(),
        -cp.headroom() <= cp.end_point.x <= cp.headroom(),
        -cp.headroom() <= cp.end_point.y <= cp.headroom(),
{
}

/// Calculates the point at parameter `t` along the cubic Bezier curve.
///
/// The result is exact: its numerators are the scaled cubic Bernstein
/// values of the control points, over the denominator `den * t.den^3`.
pub fn bezier(control_points: &ControlPointArray, t: Fraction) -> (r: SamplePoint)
    requires
        control_points.wf(),
        t.is_param(),
        eval_fits(*control_points, t.den as int),
    ensures
        is_curve_point(*control_points, t.num as int, t.den as int, r),
        r.wf(),
{
    let ghost g = control_points.headroom();
    let tn: i128 = t.num as i128;
    let td: i128 = t.den as i128;
    proof {
        lemma_headroom(*control_points);
        crate::arith::lemma_den_bound(td as int, control_points.den as int, g);
    }
    let x = eval_coord(
        control_points.start_point.x,
        control_points.start_handle.x,
        control_points.end_handle.x,
        control_points.end_point.x,
        tn,
        td,
        Ghost(g),
    );
    let y = eval_coord(
        control_points.start_point.y,
        control_points.start_handle.y,
        control_points.end_handle.y,
        control_points.end_point.y,
        tn,
        td,
        Ghost(g),
    );
    let n3: i128 = td * td * td;
    let den: i128 = control_points.den * n3;
    SamplePoint { x, y, den }
}

/// One coordinate of a De Casteljau subdivision at `i / n`: the scaled
/// numerators of both children's control points, over the common
/// denominator factor `n^3`.
fn split_coord(q0: i128, q1: i128, q2: i128, q3: i128, i: i128, n: i128, Ghost(g): Ghost<int>) -> (r:
    (i128, i128, i128, i128, i128, i128, i128))
    requires
        0 < n,
        0 <= i <= n,
        1 <= g,
        -g <= q0 <= g,
        -g <= q1 <= g,
        -g <= q2 <= g,
        -g <= q3 <= g,
        4 * ((n * n * n) * g) <= i128::MAX as int,
    ensures
        r.0 == ((n * n) * n) * q0,
        r.1 == (n * n) * casteljau_a(q0 as int, q1 as int, i as int, n as int),
        r.2 == n * casteljau_d(q0 as int, q1 as int, q2 as int, i as int, n as int),
        r.3 == casteljau_f(q0 as int, q1 as int, q2 as int, q3 as int, i as int, n as int),
        r.4 == n * casteljau_e(q1 as int, q2 as int, q3 as int, i as int, n as int),
        r.5 == (n * n) * casteljau_c(q2 as int, q3 as int, i as int, n as int),
        r.6 == ((n * n) * n) * q3,
{
    let v: i128 = n - i;
    proof {
        crate::arith::lemma_eval_bounds(n as int, g);
        crate::arith::lemma_lerp_step_bound(q0 as int, q1 as int, v as int, i as int, n as int, g);
        crate::arith::lemma_lerp_step_bound(q1 as int, q2 as int, v as int, i as int, n as int, g);
        crate::arith::lemma_lerp_step_bound(q2 as int, q3 as int, v as int, i as int, n as int, g);
    }
    let pa: i128 = v * q0 + i * q1;
    let pb: i128 = v * q1 + i * q2;
    let pc: i128 = v * q2 + i * q3;
    proof {
        crate::arith::lemma_lerp_step_bound(
            pa as int,
            pb as int,
            v as int,
            i as int,
            n as int,
            (n as int) * g,
        );
        crate::arith::lemma_lerp_step_bound(
            pb as int,
            pc as int,
            v as int,
            i as int,
            n as int,
            (n as int) * g,
        );
    }
    let pd: i128 = v * pa + i * pb;
    let pe: i128 = v * pb + i * pc;
    proof {
        crate::arith::lemma_lerp_step_bound(
            pd as int,
            pe as int,
            v as int,
            i as int,
            n as int,
            (n as int) * ((n as int) * g),
        );
        crate::arith::lemma_scale_chain(q0 as int, n as int, g);
        crate::arith::lemma_scale_chain(q3 as int, n as int, g);
        crate::arith::lemma_scale_chain(pa as int, n as int, (n as int) * g);
        crate::arith::lemma_scale_chain(pc as int, n as int, (n as int) * g);
        crate::arith::lemma_scale_chain(pd as int, n as int, (n as int) * ((n as int) * g));
        crate::arith::lemma_scale_chain(pe as int, n as int, (n as int) * ((n as int) * g));
    }
    let pf: i128 = v * pd + i * pe;
    let l0: i128 = n * (n * (n * q0));
    let l1: i128 = n * (n * pa);
    let l2: i128 = n * pd;
    let r1: i128 = n * pe;
    let r2: i128 = n * (n * pc);
    let r3: i128 = n * (n * (n * q3));
    (l0, l1, l2, pf, r1, r2, r3)
}

/// The two curves that a De Casteljau subdivision at `tn / td` produces,
/// coordinate by coordinate, over the denominator `den * td^3`.
pub open spec fn split_post(
    cp: ControlPointArray,
    tn: int,
    td: int,
    l: ControlPointArray,
    r: ControlPointArray,
) -> bool {
    let x0 = cp.start_point.x as int;
    let x1 = cp.start_handle.x as int;
    let x2 = cp.end_handle.x as int;
    let x3 = cp.end_point.x as int;
    let y0 = cp.start_point.y as int;
    let y1 = cp.start_handle.y as int;
    let y2 = cp.end_handle.y as int;
    let y3 = cp.end_point.y as int;
    &&& l.den == cp.den * ((td * td) * td)
    &&& r.den == cp.den * ((td * td) * td)
    &&& l.start_point.x == ((td * td) * td) * x0
    &&& l.start_handle.x == (td * td) * casteljau_a(x0, x1, tn, td)
    &&& l.end_handle.x == td * casteljau_d(x0, x1, x2, tn, td)
    &&& l.end_point.x == casteljau_f(x0, x1, x2, x3, tn, td)
    &&& r.start_point.x == casteljau_f(x0, x1, x2, x3, tn, td)
    &&& r.start_handle.x == td * casteljau_e(x1, x2, x3, tn, td)
    &&& r.end_handle.x == (td * td) * casteljau_c(x2, x3, tn, td)
    &&& r.end_point.x == ((td * td) * td) * x3
    &&& l.start_point.y == ((td * td) * td) * y0
    &&& l.start_handle.y == (td * td) * casteljau_a(y0, y1, tn, td)
    &&& l.end_handle.y == td * casteljau_d(y0, y1, y2, tn, td)
    &&& l.end_point.y == casteljau_f(y0, y1, y2, y3, tn, td)
    &&& r.start_point.y == casteljau_f(y0, y1, y2, y3, tn, td)
    &&& r.start_handle.y == td * casteljau_e(y1, y2, y3, tn, td)
    &&& r.end_handle.y == (td * td) * casteljau_c(y2, y3, tn, td)
    &&& r.end_point.y == ((td * td) * td) * y3
}

/// Implements De Casteljau's algorithm to split a cubic Bezier curve into
/// two cubic Bezier curves that together trace the same path.
///
/// The two children share their middle point `F`, which is exactly the
/// parent's point at `t`.
pub fn split_bezier(control_points: &ControlPointArray, t: Fraction) -> (r: (
    ControlPointArray,
    ControlPointArray,
))
    requires
        control_points.wf(),
        t.is_param(),
        eval_fits(*control_points, t.den as int),
    ensures
        split_post(*control_points, t.num as int, t.den as int, r.0, r.1),
        r.0.wf(),
        r.1.wf(),
        r.0.den == r.1.den,
        r.0.end_point == r.1.start_point,
        is_curve_point(
            *control_points,
            t.num as int,
            t.den as int,
            SamplePoint { x: r.0.end_point.x, y: r.0.end_point.y, den: r.0.den },
        ),
{
    let ghost g = control_points.headroom();
    let tn: i128 = t.num as i128;
    let td: i128 = t.den as i128;
    proof {
        lemma_headroom(*control_points);
        crate::arith::lemma_den_bound(td as int, control_points.den as int, g);
    }
    let sx = split_coord(
        control_points.start_point.x,
        control_points.start_handle.x,
        control_points.end_handle.x,
        control_points.end_point.x,
        tn,
        td,
        Ghost(g),
    );
    let sy = split_coord(
        control_points.start_point.y,
        control_points.start_handle.y,
        control_points.end_handle.y,
        control_points.end_point.y,
        tn,
        td,
        Ghost(g),
    );
    let n3: i128 = td * td * td;
    let den: i128 = control_points.den * n3;
    let left = ControlPointArray {
        start_point: ScaledPoint { x: sx.0, y: sy.0 },
        start_handle: ScaledPoint { x: sx.1, y: sy.1 },
        end_handle: ScaledPoint { x: sx.2, y: sy.2 },
        end_point: ScaledPoint { x: sx.3, y: sy.3 },
        den,
    };
    let right = ControlPointArray {
        start_point: ScaledPoint { x: sx.3, y: sy.3 },
        start_handle: ScaledPoint { x: sx.4, y: sy.4 },
        end_handle: ScaledPoint { x: sx.5, y: sy.5 },
        end_point: ScaledPoint { x: sx.6, y: sy.6 },
        den,
    };
    proof {
        let x0 = control_points.start_point.x as int;
        let x1 = control_points.start_handle.x as int;
        let x2 = control_points.end_handle.x as int;
        let x3 = control_points.end_point.x as int;
        let y0 = control_points.start_point.y as int;
        let y1 = control_points.start_handle.y as int;
        let y2 = control_points.end_handle.y as int;
        let y3 = control_points.end_point.y as int;
        let ti = t.num as int;
        let nd = t.den as int;
        lemma_casteljau_is_bernstein(
            x0,
            x1,
            x2,
            x3,
            casteljau_a(x0, x1, ti, nd),
            casteljau_b(x1, x2, ti, nd),
            casteljau_c(x2, x3, ti, nd),
            casteljau_d(x0, x1, x2, ti, nd),
            casteljau_e(x1, x2, x3, ti, nd),
            casteljau_f(x0, x1, x2, x3, ti, nd),
            ti,
            nd,
        );
        lemma_casteljau_is_bernstein(
            y0,
            y1,
            y2,
            y3,
            casteljau_a(y0, y1, ti, nd),
            casteljau_b(y1, y2, ti, nd),
            casteljau_c(y2, y3, ti, nd),
            casteljau_d(y0, y1, y2, ti, nd),
            casteljau_e(y1, y2, y3, ti, nd),
            casteljau_f(y0, y1, y2, y3, ti, nd),
            ti,
            nd,
        );
    }
    (left, right)
}


/// How many segments a sampling request asks for: the given count, or 60
/// when unspecified.
pub open spec fn subdiv_count(subdivisions: Option<usize>) -> int {
    match subdivisions {
        Some(s) => s as int,
        None => 60,
    }
}

/// A supplied offset wraps the sampling origin only when it is positive.
pub open spec fn active_offset(offset: Option<Fraction>) -> bool {
    match offset {
        Some(o) => o.num > 0,
        None => false,
    }
}

/// The denominator every loop sample is evaluated over: `n`, or `n` times
/// the offset's denominator when the offset is active.
pub open spec fn sample_den(n: int, offset: Option<Fraction>) -> int {
    match offset {
        Some(o) => if o.num > 0 {
            n * o.den
        } else {
            n
        },
        None => n,
    }
}

/// The numerator of the `j`-th sample parameter: `j` itself, or
/// `(j / n + offset) mod 1` brought over the common denominator when the
/// offset is active.
pub open spec fn sample_num(j: int, n: int, offset: Option<Fraction>) -> int {
    match offset {
        Some(o) => if o.num > 0 {
            (j * o.den + o.num * n) % (n * o.den)
        } else {
            j
        },
        None => j,
    }
}

/// The full description of a sampling result: `n` curve points taken at
/// the wrapped uniform parameters, in increasing loop order, then the
/// literal end control point when requested.
pub open spec fn sample_post(
    cp: ControlPointArray,
    n: int,
    offset: Option<Fraction>,
    include_end_point: bool,
    r: Seq<SamplePoint>,
) -> bool {
    &&& r.len() == n + if include_end_point {
        1int
    } else {
        0int
    }
    &&& forall|j: int|
        0 <= j < n ==> is_curve_point(
            cp,
            sample_num(j, n, offset),
            sample_den(n, offset),
            #[trigger] r[j],
        )
    &&& include_end_point ==> r[n] == (SamplePoint {
        x: cp.end_point.x,
        y: cp.end_point.y,
        den: cp.den,
    })
}

/// Tessellates the curve into `subdivisions` points, optionally wrapping
/// the parameter by a cyclic offset, optionally appending the exact end
/// control point so the polyline closes at `t == 1`.
pub fn generate_bezier_points_with_offset(
    control_points: &ControlPointArray,
    subdivisions: Option<usize>,
    offset: Option<Fraction>,
    include_end_point: bool,
) -> (r: Vec<SamplePoint>)
    requires
        control_points.wf(),
        subdivisions != Some(0usize),
        match offset {
            Some(o) => o.wf(),
            None => true,
        },
        eval_fits(*control_points, sample_den(subdiv_count(subdivisions), offset)),
        sample_den(subdiv_count(subdivisions), offset) <= i64::MAX as int,
    ensures
        sample_post(*control_points, subdiv_count(subdivisions), offset, include_end_point, r@),
{
    let n: usize = match subdivisions {
        Some(s) => s,
        None => 60,
    };
    let (off_num, off_den): (i64, i64) = match offset {
        Some(o) => if o.num > 0 {
            (o.num, o.den)
        } else {
            (0, 1)
        },
        None => (0, 1),
    };
    proof {
        assert(n as int == subdiv_count(subdivisions));
        if off_num > 0 {
            assert(sample_den(n as int, offset) == (n as int) * (off_den as int));
            assert((n as int) <= (n as int) * (off_den as int)) by (nonlinear_arith)
                requires
                    0 <= n as int,
                    1 <= off_den as int,
            ;
        }
    }
    let nd: i64 = if off_num > 0 {
        proof {
            assert(0 < (n as int) * (off_den as int)) by (nonlinear_arith)
                requires
                    0 < n as int,
                    0 < off_den as int,
            ;
        }
        (n as i64) * off_den
    } else {
        n as i64
    };
    let mut result: Vec<SamplePoint> = Vec::new();
    let mut idx: usize = 0;
    while idx < n
        invariant
            idx <= n,
            0 < n,
            result@.len() == idx as int,
            forall|k: int|
                0 <= k < idx as int ==> is_curve_point(
                    *control_points,
                    sample_num(k, n as int, offset),
                    sample_den(n as int, offset),
                    #[trigger] result@[k],
                ),
            control_points.wf(),
            eval_fits(*control_points, sample_den(n as int, offset)),
            n as int <= i64::MAX as int,
            nd as int == sample_den(n as int, offset),
            off_num > 0 <==> active_offset(offset),
            off_num > 0 ==> offset == Some(Fraction { num: off_num, den: off_den }),
            off_num <= 0 ==> nd as int == n as int,
            0 <= off_num,
            0 < off_den,
        decreases n - idx,
    {
        let t: Fraction;
        if off_num > 0 {
            proof {
                let wb = 0x7FFF_FFFF_FFFF_FFFFint;
                crate::arith::lemma_mul_bound(idx as int, off_den as int, wb, wb);
                crate::arith::lemma_mul_bound(off_num as int, n as int, wb, wb);
                crate::arith::lemma_mul_bound(n as int, off_den as int, wb, wb);
                assert(0x7FFF_FFFF_FFFF_FFFFint * 0x7FFF_FFFF_FFFF_FFFFint
                    == 0x3FFF_FFFF_FFFF_FFFF_0000_0000_0000_0001int);
                assert(0 <= (idx as int) * (off_den as int) && 0 <= (off_num as int) * (n as int)
                    && 0 < (n as int) * (off_den as int)) by (nonlinear_arith)
                    requires
                        0 <= idx as int,
                        0 < off_den as int,
                        0 < off_num as int,
                        0 < n as int,
                ;
            }
            let jq: i128 = (idx as i128) * (off_den as i128);
            let pn: i128 = (off_num as i128) * (n as i128);
            let md: i128 = (n as i128) * (off_den as i128);
            let w: i128 = (jq + pn) % md;
            t = Fraction { num: w as i64, den: nd };
        } else {
            t = Fraction { num: idx as i64, den: nd };
        }
        proof {
            assert(t.is_param());
            assert(t.num as int == sample_num(idx as int, n as int, offset));
            assert(t.den as int == sample_den(n as int, offset));
        }
        let s = bezier(control_points, t);
        result.push(s);
        idx = idx + 1;
    }
    if include_end_point {
        result.push(
            SamplePoint {
                x: control_points.end_point.x,
                y: control_points.end_point.y,
                den: control_points.den,
            },
        );
    }
    result
}

/// Tessellates the curve with the default sixty segments and the inclusive
/// end point, as the renderer consumes it.
pub fn generate_bezier_points(control_points: &ControlPointArray) -> (r: Vec<SamplePoint>)
    requires
        control_points.wf(),
        eval_fits(*control_points, 60),
    ensures
        sample_post(*control_points, 60, None, true, r@),
{
    generate_bezier_points_with_offset(control_points, None, None, true)
}

/// The checked face of the sampler: a zero segment count is reported as
/// [`CurveError::ZeroSubdivisions`] instead of being ruled out by
/// contract.
pub fn try_generate_bezier_points_with_offset(
    control_points: &ControlPointArray,
    subdivisions: Option<usize>,
    offset: Option<Fraction>,
    include_end_point: bool,
) -> (r: Result<Vec<SamplePoint>, CurveError>)
    requires
        control_points.wf(),
        match offset {
            Some(o) => o.wf(),
            None => true,
        },
        subdivisions != Some(0usize) ==> eval_fits(
            *control_points,
            sample_den(subdiv_count(subdivisions), offset),
        ) && sample_den(subdiv_count(subdivisions), offset) <= i64::MAX as int,
    ensures
        r is Err <==> subdivisions == Some(0usize),
        r is Err ==> r->Err_0 == CurveError::ZeroSubdivisions,
        r is Ok ==> sample_post(
            *control_points,
            subdiv_count(subdivisions),
            offset,
            include_end_point,
            r->Ok_0@,
        ),
{
    let zero = match subdivisions {
        Some(s) => s == 0,
        None => false,
    };
    if zero {
        Err(CurveError::ZeroSubdivisions)
    } else {
        Ok(
            generate_bezier_points_with_offset(
                control_points,
                subdivisions,
                offset,
                include_end_point,
            ),
        )
    }
}

/// The checked face of the splitter: a parameter outside `[0, 1]` is
/// reported as [`CurveError::ParameterOutOfRange`] instead of being ruled
/// out by contract.
pub fn try_split_bezier(control_points: &ControlPointArray, t: Fraction) -> (r: Result<
    (ControlPointArray, ControlPointArray),
    CurveError,
>)
    requires
        control_points.wf(),
        t.wf(),
        t.is_param() ==> eval_fits(*control_points, t.den as int),
    ensures
        r is Err <==> !t.is_param(),
        r is Err ==> r->Err_0 == CurveError::ParameterOutOfRange,
        r is Ok ==> {
            &&& split_post(*control_points, t.num as int, t.den as int, r->Ok_0.0, r->Ok_0.1)
            &&& r->Ok_0.0.end_point == r->Ok_0.1.start_point
            &&& r->Ok_0.0.den == r->Ok_0.1.den
        },
{
    if t.num < 0 || t.num > t.den {
        Err(CurveError::ParameterOutOfRange)
    } else {
        Ok(split_bezier(control_points, t))
    }
}


/// The evaluator's boundary values: the curve point at parameter `0 / n`
/// denotes exactly the start control point, and the one at `n / n` exactly
/// the end control point.
pub proof fn lemma_evaluate_boundaries(cp: ControlPointArray, n: int, s0: SamplePoint, s1: SamplePoint)
    requires
        cp.wf(),
        0 < n,
        is_curve_point(cp, 0, n, s0),
        is_curve_point(cp, n, n, s1),
    ensures
        s0.same_value_spec(SamplePoint { x: cp.start_point.x, y: cp.start_point.y, den: cp.den }),
        s1.same_value_spec(SamplePoint { x: cp.end_point.x, y: cp.end_point.y, den: cp.den }),
{
    let x0 = cp.start_point.x as int;
    let y0 = cp.start_point.y as int;
    let x1 = cp.start_handle.x as int;
    let y1 = cp.start_handle.y as int;
    let x2 = cp.end_handle.x as int;
    let y2 = cp.end_handle.y as int;
    let x3 = cp.end_point.x as int;
    let y3 = cp.end_point.y as int;
    let d = cp.den as int;
    assert((n - 0) * (n - 0) * (n - 0) * x0 + 3 * ((n - 0) * (n - 0)) * 0 * x1 + 3 * (n - 0) * (0
        * 0) * x2 + 0 * (0 * 0) * x3 == (n * n * n) * x0) by (nonlinear_arith);
    assert((n - 0) * (n - 0) * (n - 0) * y0 + 3 * ((n - 0) * (n - 0)) * 0 * y1 + 3 * (n - 0) * (0
        * 0) * y2 + 0 * (0 * 0) * y3 == (n * n * n) * y0) by (nonlinear_arith);
    assert(s0.x == (n * n * n) * x0);
    assert(s0.y == (n * n * n) * y0);
    assert((n - n) * (n - n) * (n - n) * x0 + 3 * ((n - n) * (n - n)) * n * x1 + 3 * (n - n) * (n
        * n) * x2 + n * (n * n) * x3 == (n * n * n) * x3) by (nonlinear_arith);
    assert((n - n) * (n - n) * (n - n) * y0 + 3 * ((n - n) * (n - n)) * n * y1 + 3 * (n - n) * (n
        * n) * y2 + n * (n * n) * y3 == (n * n * n) * y3) by (nonlinear_arith);
    assert(s1.x == (n * n * n) * x3);
    assert(s1.y == (n * n * n) * y3);
    crate::arith::lemma_swap_scale(x0, d, n * n * n);
    crate::arith::lemma_swap_scale(y0, d, n * n * n);
    crate::arith::lemma_swap_scale(x3, d, n * n * n);
    crate::arith::lemma_swap_scale(y3, d, n * n * n);
}

/// Sampler determinism: the sampling contract pins every point of the
/// result, so any two results of the same request are equal.
pub proof fn lemma_sample_deterministic(
    cp: ControlPointArray,
    n: int,
    offset: Option<Fraction>,
    include_end_point: bool,
    r1: Seq<SamplePoint>,
    r2: Seq<SamplePoint>,
)
    requires
        0 <= n,
        sample_post(cp, n, offset, include_end_point, r1),
        sample_post(cp, n, offset, include_end_point, r2),
    ensures
        r1 == r2,
{
    assert forall|j: int| 0 <= j < r1.len() implies r1[j] == r2[j] by {
        if j < n {
            assert(is_curve_point(cp, sample_num(j, n, offset), sample_den(n, offset), r1[j]));
            assert(is_curve_point(cp, sample_num(j, n, offset), sample_den(n, offset), r2[j]));
        }
    }
    assert(r1 =~= r2);
}

/// The split round-trip law: when a curve is split at `t = m / n`, the `m`
/// uniform samples of the left child followed by the `n - m` uniform
/// samples of the right child denote exactly the `n` uniform samples of
/// the parent, point for point.
pub proof fn lemma_split_round_trip(
    cp: ControlPointArray,
    left_curve: ControlPointArray,
    right_curve: ControlPointArray,
    m: int,
    n: int,
    parent_samples: Seq<SamplePoint>,
    left_samples: Seq<SamplePoint>,
    right_samples: Seq<SamplePoint>,
)
    requires
        cp.wf(),
        0 < n,
        0 <= m <= n,
        split_post(cp, m, n, left_curve, right_curve),
        sample_post(cp, n, None, false, parent_samples),
        sample_post(left_curve, m, None, false, left_samples),
        sample_post(right_curve, n - m, None, false, right_samples),
    ensures
        left_samples.len() + right_samples.len() == parent_samples.len(),
        forall|j: int|
            0 <= j < n ==> #[trigger] (left_samples + right_samples)[j].same_value_spec(
                parent_samples[j],
            ),
{
    let x0 = cp.start_point.x as int;
    let x1 = cp.start_handle.x as int;
    let x2 = cp.end_handle.x as int;
    let x3 = cp.end_point.x as int;
    let y0 = cp.start_point.y as int;
    let y1 = cp.start_handle.y as int;
    let y2 = cp.end_handle.y as int;
    let y3 = cp.end_point.y as int;
    let d = cp.den as int;

    assert forall|j: int| 0 <= j < m implies left_samples[j].same_value_spec(parent_samples[j]) by {
        assert(is_curve_point(left_curve, sample_num(j, m, None), sample_den(m, None), left_samples[j]));
        assert(is_curve_point(cp, sample_num(j, n, None), sample_den(n, None), parent_samples[j]));
        lemma_left_reparam(
            x0,
            x1,
            x2,
            x3,
            casteljau_a(x0, x1, m, n),
            casteljau_b(x1, x2, m, n),
            casteljau_c(x2, x3, m, n),
            casteljau_d(x0, x1, x2, m, n),
            casteljau_e(x1, x2, x3, m, n),
            casteljau_f(x0, x1, x2, x3, m, n),
            m,
            n,
            j,
        );
        lemma_left_reparam(
            y0,
            y1,
            y2,
            y3,
            casteljau_a(y0, y1, m, n),
            casteljau_b(y1, y2, m, n),
            casteljau_c(y2, y3, m, n),
            casteljau_d(y0, y1, y2, m, n),
            casteljau_e(y1, y2, y3, m, n),
            casteljau_f(y0, y1, y2, y3, m, n),
            m,
            n,
            j,
        );
        assert(left_samples[j].x == (m * (m * m)) * bezier_num(x0, x1, x2, x3, j, n));
        assert(left_samples[j].y == (m * (m * m)) * bezier_num(y0, y1, y2, y3, j, n));
        assert((m * (m * m)) == (m * m) * m) by (nonlinear_arith);
        assert(left_samples[j].den == (d * ((n * n) * n)) * ((m * m) * m));
        crate::arith::lemma_swap_scale(bezier_num(x0, x1, x2, x3, j, n), d * ((n * n) * n), m * (m * m));
        crate::arith::lemma_swap_scale(bezier_num(y0, y1, y2, y3, j, n), d * ((n * n) * n), m * (m * m));
    }

    assert forall|k: int| 0 <= k < n - m implies right_samples[k].same_value_spec(
        parent_samples[m + k],
    ) by {
        assert(is_curve_point(right_curve, sample_num(k, n - m, None), sample_den(n - m, None), right_samples[k]));
        assert(is_curve_point(cp, sample_num(m + k, n, None), sample_den(n, None), parent_samples[m + k]));
        lemma_right_reparam(
            x0,
            x1,
            x2,
            x3,
            casteljau_a(x0, x1, m, n),
            casteljau_b(x1, x2, m, n),
            casteljau_c(x2, x3, m, n),
            casteljau_d(x0, x1, x2, m, n),
            casteljau_e(x1, x2, x3, m, n),
            casteljau_f(x0, x1, x2, x3, m, n),
            m,
            n,
            k,
        );
        lemma_right_reparam(
            y0,
            y1,
            y2,
            y3,
            casteljau_a(y0, y1, m, n),
            casteljau_b(y1, y2, m, n),
            casteljau_c(y2, y3, m, n),
            casteljau_d(y0, y1, y2, m, n),
            casteljau_e(y1, y2, y3, m, n),
            casteljau_f(y0, y1, y2, y3, m, n),
            m,
            n,
            k,
        );
        assert(right_samples[k].x == ((n - m) * ((n - m) * (n - m))) * bezier_num(x0, x1, x2, x3, m + k, n));
        assert(right_samples[k].y == ((n - m) * ((n - m) * (n - m))) * bezier_num(y0, y1, y2, y3, m + k, n));
        assert(((n - m) * ((n - m) * (n - m))) == ((n - m) * (n - m)) * (n - m)) by (nonlinear_arith);
        assert(right_samples[k].den == (d * ((n * n) * n)) * (((n - m) * (n - m)) * (n - m)));
        crate::arith::lemma_swap_scale(
            bezier_num(x0, x1, x2, x3, m + k, n),
            d * ((n * n) * n),
            (n - m) * ((n - m) * (n - m)),
        );
        crate::arith::lemma_swap_scale(
            bezier_num(y0, y1, y2, y3, m + k, n),
            d * ((n * n) * n),
            (n - m) * ((n - m) * (n - m)),
        );
    }

    assert forall|j: int| 0 <= j < n implies (left_samples + right_samples)[j].same_value_spec(
        parent_samples[j],
    ) by {
        if j < m {
            assert((left_samples + right_samples)[j] == left_samples[j]);
            assert(left_samples[j].same_value_spec(parent_samples[j]));
        } else {
            assert((left_samples + right_samples)[j] == right_samples[j - m]);
            assert(right_samples[j - m].same_value_spec(parent_samples[m + (j - m)]));
        }
    }
}

} // verus!
