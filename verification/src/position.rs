//! Plane geometry value types: integer positions, exact parameter
//! fractions, and the rational points that curve evaluation produces.

use vstd::prelude::*;

verus! {

/// A point of the editor plane with exact integer coordinates.
///
/// The surrounding application works in screen coordinates, so whole
/// numbers are the natural currency; everything the curve engine derives
/// from them is kept exact as a [`SamplePoint`].
#[derive(Clone, Copy, PartialEq, Eq, Structural, Debug)]
pub struct Position {
    pub x: i64,
    pub y: i64,
}

/// An exact fraction `num / den` with a positive denominator, used for the
/// curve parameter `t` and for the sampler's animation offset.
#[derive(Clone, Copy, PartialEq, Eq, Structural, Debug)]
pub struct Fraction {
    pub num: i64,
    pub den: i64,
}

impl Fraction {
    /// The denominator is positive, so the fraction denotes a rational.
    pub open spec fn wf(self) -> bool {
        0 < self.den
    }

    /// A curve parameter: a fraction confined to `[0, 1]`.
    pub open spec fn is_param(self) -> bool {
        self.wf() && 0 <= self.num <= self.den
    }

    pub fn new(num: i64, den: i64) -> (r: Fraction)
        requires
            0 < den,
        ensures
            r == (Fraction { num, den }),
    {
        Fraction { num, den }
    }
}

/// A point with exact rational coordinates `x / den` and `y / den`.
///
/// Evaluating a curve at a fractional parameter leaves the common
/// denominator explicit instead of rounding, so two algebraically equal
/// results can be compared exactly.
#[derive(Clone, Copy, PartialEq, Eq, Structural, Debug)]
pub struct SamplePoint {
    pub x: i128,
    pub y: i128,
    pub den: i128,
}

impl SamplePoint {
    /// The denominator is positive, so both coordinates denote rationals.
    pub open spec fn wf(self) -> bool {
        0 < self.den
    }

    /// `self` and `other` denote the same point of the plane, as an exact
    /// statement over the cross-multiplied numerators.
    pub open spec fn same_value_spec(self, other: SamplePoint) -> bool {
        &&& self.x * other.den == other.x * self.den
        &&& self.y * other.den == other.y * self.den
    }

    /// Exact equality of the denoted rational points. The magnitude bound
    /// keeps the cross products inside `i128`.
    pub fn same_value(&self, other: &SamplePoint) -> (r: bool)
        requires
            self.wf(),
            other.wf(),
            -0x4000_0000_0000_0000_0000_0000_0000_0000int <= self.x * other.den
                <= 0x4000_0000_0000_0000_0000_0000_0000_0000int,
            -0x4000_0000_0000_0000_0000_0000_0000_0000int <= other.x * self.den
                <= 0x4000_0000_0000_0000_0000_0000_0000_0000int,
            -0x4000_0000_0000_0000_0000_0000_0000_0000int <= self.y * other.den
                <= 0x4000_0000_0000_0000_0000_0000_0000_0000int,
            -0x4000_0000_0000_0000_0000_0000_0000_0000int <= other.y * self.den
                <= 0x4000_0000_0000_0000_0000_0000_0000_0000int,
        ensures
            r == self.same_value_spec(*other),
    {
        self.x * other.den == other.x * self.den && self.y * other.den == other.y * self.den
    }
}

impl Position {
    pub fn new(x: i64, y: i64) -> (r: Position)
        ensures
            r == (Position { x, y }),
    {
        Position { x, y }
    }

    pub fn x(&self) -> (r: i64)
        ensures
            r == self.x,
    {
        self.x
    }

    pub fn y(&self) -> (r: i64)
        ensures
            r == self.y,
    {
        self.y
    }

    /// Componentwise vector addition.
    pub fn add(self, rhs: Position) -> (r: Position)
        requires
            i64::MIN <= self.x + rhs.x <= i64::MAX,
            i64::MIN <= self.y + rhs.y <= i64::MAX,
        ensures
            r.x == self.x + rhs.x,
            r.y == self.y + rhs.y,
    {
        Position { x: self.x + rhs.x, y: self.y + rhs.y }
    }

    /// Componentwise vector subtraction.
    pub fn sub(self, rhs: Position) -> (r: Position)
        requires
            i64::MIN <= self.x - rhs.x <= i64::MAX,
            i64::MIN <= self.y - rhs.y <= i64::MAX,
        ensures
            r.x == self.x - rhs.x,
            r.y == self.y - rhs.y,
    {
        Position { x: self.x - rhs.x, y: self.y - rhs.y }
    }

    /// The squared Euclidean distance between two positions, computed
    /// exactly in `i128`. The magnitude bound keeps the squares inside
    /// `i128`.
    pub fn distance_squared(&self, other: &Position) -> (r: i128)
        requires
            -0x2000_0000_0000_0000 <= self.x <= 0x2000_0000_0000_0000,
            -0x2000_0000_0000_0000 <= self.y <= 0x2000_0000_0000_0000,
            -0x2000_0000_0000_0000 <= other.x <= 0x2000_0000_0000_0000,
            -0x2000_0000_0000_0000 <= other.y <= 0x2000_0000_0000_0000,
        ensures
            r == (other.x - self.x) * (other.x - self.x) + (other.y - self.y) * (other.y - self.y),
    {
        let dx: i128 = other.x as i128 - self.x as i128;
        let dy: i128 = other.y as i128 - self.y as i128;
        proof {
            assert(dx * dx + dy * dy < 0x8000_0000_0000_0000_0000_0000_0000_0000int
                && 0 <= dx * dx && 0 <= dy * dy) by (nonlinear_arith)
                requires
                    -0x4000_0000_0000_0000int <= dx <= 0x4000_0000_0000_0000int,
                    -0x4000_0000_0000_0000int <= dy <= 0x4000_0000_0000_0000int,
            ;
        }
        dx * dx + dy * dy
    }

    /// Exact linear interpolation from `this` to `other` at parameter `t`:
    /// the result denotes `this + (other - this) * t`, carried over the
    /// denominator of `t`.
    pub fn lerp(this: Position, other: Position, t: Fraction) -> (r: SamplePoint)
        requires
            t.is_param(),
        ensures
            r.x == (t.den - t.num) * this.x + t.num * other.x,
            r.y == (t.den - t.num) * this.y + t.num * other.y,
            r.den == t.den,
    {
        let co: i128 = (t.den - t.num) as i128;
        let cn: i128 = t.num as i128;
        proof {
            lemma_lerp_product_bounds(co as int, cn as int, this.x as int, this.y as int,
                other.x as int, other.y as int);
        }
        SamplePoint {
            x: co * (this.x as i128) + cn * (other.x as i128),
            y: co * (this.y as i128) + cn * (other.y as i128),
            den: t.den as i128,
        }
    }
}

/// The products of one interpolation step stay well inside `i128` when both
/// weights and both coordinates come from `i64`.
proof fn lemma_lerp_product_bounds(co: int, cn: int, ax: int, ay: int, bx: int, by: int)
    requires
        0 <= co < 0x8000_0000_0000_0000int,
        0 <= cn < 0x8000_0000_0000_0000int,
        -0x8000_0000_0000_0000int <= ax < 0x8000_0000_0000_0000int,
        -0x8000_0000_0000_0000int <= ay < 0x8000_0000_0000_0000int,
        -0x8000_0000_0000_0000int <= bx < 0x8000_0000_0000_0000int,
        -0x8000_0000_0000_0000int <= by < 0x8000_0000_0000_0000int,
    ensures
        -0x4000_0000_0000_0000_0000_0000_0000_0000int <= co * ax
            <= 0x4000_0000_0000_0000_0000_0000_0000_0000int,
        -0x4000_0000_0000_0000_0000_0000_0000_0000int <= co * ay
            <= 0x4000_0000_0000_0000_0000_0000_0000_0000int,
        -0x4000_0000_0000_0000_0000_0000_0000_0000int <= cn * bx
            <= 0x4000_0000_0000_0000_0000_0000_0000_0000int,
        -0x4000_0000_0000_0000_0000_0000_0000_0000int <= cn * by
            <= 0x4000_0000_0000_0000_0000_0000_0000_0000int,
        i128::MIN <= co * ax + cn * bx <= i128::MAX,
        i128::MIN <= co * ay + cn * by <= i128::MAX,
{
    let wb: int = 0x7FFF_FFFF_FFFF_FFFFint;
    let cb: int = 0x8000_0000_0000_0000int;
    crate::arith::lemma_mul_bound(co, ax, wb, cb);
    crate::arith::lemma_mul_bound(co, ay, wb, cb);
    crate::arith::lemma_mul_bound(cn, bx, wb, cb);
    crate::arith::lemma_mul_bound(cn, by, wb, cb);
    assert(0x7FFF_FFFF_FFFF_FFFFint * 0x8000_0000_0000_0000int
        == 0x3FFF_FFFF_FFFF_FFFF_8000_0000_0000_0000int);
}

} // verus!
