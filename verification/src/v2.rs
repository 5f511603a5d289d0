//! A two-dimensional vector in fixed-point units.
//!
//! Components are measured in [`crate::fixed::FX_ONE`] units per logical
//! pixel. Magnitude and distance use the exact integer square root, and
//! rotation uses the quantized whole-degree sine and cosine, so every
//! operation has a pinned-down integer specification.
use vstd::prelude::*;

verus! {

use crate::fixed::{
    FX_ONE, spec_isqrt, spec_fx_mul, spec_fx_div, spec_fx_floor, spec_fx_ceil, spec_fx_round,
    spec_sin_fx, spec_cos_fx, trunc_div, isqrt, fx_mul, fx_div, fx_floor, fx_ceil, fx_round,
    sin_fx, cos_fx, lemma_mul_bound,
};

/// Magnitude bound on coordinates accepted by the metric and rotation
/// operations; squares and cross products of such coordinates stay well
/// inside the machine integers.
pub const COORD_LIMIT: i64 = 0x2000_0000;

/// A 2-D vector; `x` grows rightward and `y` downward, in fixed-point units.
#[derive(Clone, Copy, PartialEq, Eq, Structural, Debug)]
pub struct V2 {
    pub x: i64,
    pub y: i64,
}

/// Both components within the coordinate bound accepted by the metric and
/// rotation operations.
pub open spec fn bounded(v: V2, limit: int) -> bool {
    -limit <= v.x <= limit && -limit <= v.y <= limit
}

/// Euclidean distance between two points, rounded down to whole fixed-point
/// units.
pub open spec fn spec_dist(a: V2, b: V2) -> int {
    spec_isqrt(((a.x - b.x) * (a.x - b.x) + (a.y - b.y) * (a.y - b.y)) as nat) as int
}

/// The `x` component of `(dx, dy)` rotated by `deg` whole degrees.
pub open spec fn spec_rot_x(dx: int, dy: int, deg: int) -> int {
    trunc_div(dx * spec_cos_fx(deg) - dy * spec_sin_fx(deg), FX_ONE as int)
}

/// The `y` component of `(dx, dy)` rotated by `deg` whole degrees.
pub open spec fn spec_rot_y(dx: int, dy: int, deg: int) -> int {
    trunc_div(dx * spec_sin_fx(deg) + dy * spec_cos_fx(deg), FX_ONE as int)
}

impl V2 {
    /// The vector `(x, y)`.
    pub fn new(x: i64, y: i64) -> (r: V2)
        ensures
            r == (V2 { x, y }),
    {
        V2 { x, y }
    }

    /// The origin.
    pub fn zero() -> (r: V2)
        ensures
            r == (V2 { x: 0i64, y: 0i64 }),
    {
        V2 { x: 0, y: 0 }
    }

    /// One pixel right and one pixel down.
    pub fn one() -> (r: V2)
        ensures
            r == (V2 { x: FX_ONE, y: FX_ONE }),
    {
        V2 { x: FX_ONE, y: FX_ONE }
    }

    /// One pixel left and one pixel up.
    pub fn minus_one() -> (r: V2)
        ensures
            r.x == -FX_ONE && r.y == -FX_ONE,
    {
        V2 { x: -FX_ONE, y: -FX_ONE }
    }

    /// Unit vector pointing up (negative `y`).
    pub fn up() -> (r: V2)
        ensures
            r.x == 0 && r.y == -FX_ONE,
    {
        V2 { x: 0, y: -FX_ONE }
    }

    /// Unit vector pointing down (positive `y`).
    pub fn down() -> (r: V2)
        ensures
            r == (V2 { x: 0i64, y: FX_ONE }),
    {
        V2 { x: 0, y: FX_ONE }
    }

    /// Unit vector pointing left.
    pub fn left() -> (r: V2)
        ensures
            r.x == -FX_ONE && r.y == 0,
    {
        V2 { x: -FX_ONE, y: 0 }
    }

    /// Unit vector pointing right.
    pub fn right() -> (r: V2)
        ensures
            r == (V2 { x: FX_ONE, y: 0i64 }),
    {
        V2 { x: FX_ONE, y: 0 }
    }

    /// Component-wise sum.
    pub fn plus(&self, rhs: &V2) -> (r: V2)
        requires
            i64::MIN <= self.x + rhs.x <= i64::MAX,
            i64::MIN <= self.y + rhs.y <= i64::MAX,
        ensures
            r.x == self.x + rhs.x,
            r.y == self.y + rhs.y,
    {
        V2 { x: self.x + rhs.x, y: self.y + rhs.y }
    }

    /// Component-wise difference.
    pub fn minus(&self, rhs: &V2) -> (r: V2)
        requires
            i64::MIN <= self.x - rhs.x <= i64::MAX,
            i64::MIN <= self.y - rhs.y <= i64::MAX,
        ensures
            r.x == self.x - rhs.x,
            r.y == self.y - rhs.y,
    {
        V2 { x: self.x - rhs.x, y: self.y - rhs.y }
    }

    /// Scales by a fixed-point factor.
    pub fn times(&self, rhs: i64) -> (r: V2)
        requires
            bounded(*self, crate::fixed::FX_FACTOR_LIMIT as int),
            -crate::fixed::FX_FACTOR_LIMIT <= rhs <= crate::fixed::FX_FACTOR_LIMIT,
        ensures
            r.x == spec_fx_mul(self.x as int, rhs as int),
            r.y == spec_fx_mul(self.y as int, rhs as int),
    {
        V2 { x: fx_mul(self.x, rhs), y: fx_mul(self.y, rhs) }
    }

    /// Component-wise fixed-point product.
    pub fn times_v2(&self, rhs: &V2) -> (r: V2)
        requires
            bounded(*self, crate::fixed::FX_FACTOR_LIMIT as int),
            bounded(*rhs, crate::fixed::FX_FACTOR_LIMIT as int),
        ensures
            r.x == spec_fx_mul(self.x as int, rhs.x as int),
            r.y == spec_fx_mul(self.y as int, rhs.y as int),
    {
        V2 { x: fx_mul(self.x, rhs.x), y: fx_mul(self.y, rhs.y) }
    }

    /// Scales by the inverse of a fixed-point factor.
    pub fn div(&self, rhs: i64) -> (r: V2)
        requires
            rhs != 0,
            rhs != i64::MIN,
            bounded(*self, crate::fixed::FX_FACTOR_LIMIT as int),
        ensures
            r.x == spec_fx_div(self.x as int, rhs as int),
            r.y == spec_fx_div(self.y as int, rhs as int),
    {
        V2 { x: fx_div(self.x, rhs), y: fx_div(self.y, rhs) }
    }

    /// Component-wise fixed-point quotient.
    pub fn div_v2(&self, rhs: &V2) -> (r: V2)
        requires
            rhs.x != 0,
            rhs.y != 0,
            rhs.x != i64::MIN,
            rhs.y != i64::MIN,
            bounded(*self, crate::fixed::FX_FACTOR_LIMIT as int),
        ensures
            r.x == spec_fx_div(self.x as int, rhs.x as int),
            r.y == spec_fx_div(self.y as int, rhs.y as int),
    {
        V2 { x: fx_div(self.x, rhs.x), y: fx_div(self.y, rhs.y) }
    }

    /// Euclidean distance to `to`, rounded down to whole fixed-point units.
    pub fn distance(&self, to: &V2) -> (r: i64)
        requires
            bounded(*self, COORD_LIMIT as int),
            bounded(*to, COORD_LIMIT as int),
        ensures
            r == spec_dist(*self, *to),
            r >= 0,
    {
        let dx: i64 = self.x - to.x;
        let dy: i64 = self.y - to.y;
        proof {
            lemma_mul_bound(dx as int, dx as int, 0x4000_0000, 0x4000_0000);
            lemma_mul_bound(dy as int, dy as int, 0x4000_0000, 0x4000_0000);
            assert(dx as int * dx as int >= 0 && dy as int * dy as int >= 0)
                by (nonlinear_arith);
        }
        let sq: u64 = (dx * dx) as u64 + (dy * dy) as u64;
        let r: u64 = isqrt(sq);
        proof {
            crate::fixed::lemma_isqrt_bounds(sq as nat);
            assert(spec_isqrt(sq as nat) * spec_isqrt(sq as nat) <= sq as nat);
            assert(spec_isqrt(sq as nat) <= 0xFFFF_FFFF) by (nonlinear_arith)
                requires
                    spec_isqrt(sq as nat) * spec_isqrt(sq as nat) <= sq as nat,
                    sq <= 0xFFFF_FFFF_FFFF_FFFF,
            ;
        }
        r as i64
    }

    /// Distance from the origin, rounded down to whole fixed-point units.
    pub fn mag(&self) -> (r: i64)
        requires
            bounded(*self, COORD_LIMIT as int),
        ensures
            r == spec_dist(*self, V2 { x: 0i64, y: 0i64 }),
            r >= 0,
    {
        let origin = V2 { x: 0, y: 0 };
        self.distance(&origin)
    }

    /// Rounds each component down to a whole pixel.
    pub fn floor(&self) -> (r: V2)
        requires
            bounded(*self, COORD_LIMIT as int),
        ensures
            r.x == spec_fx_floor(self.x as int) * FX_ONE,
            r.y == spec_fx_floor(self.y as int) * FX_ONE,
    {
        V2 { x: fx_floor(self.x) * FX_ONE, y: fx_floor(self.y) * FX_ONE }
    }

    /// Rounds each component to the nearest whole pixel, halves up.
    pub fn round(&self) -> (r: V2)
        requires
            bounded(*self, COORD_LIMIT as int),
        ensures
            r.x == spec_fx_round(self.x as int) * FX_ONE,
            r.y == spec_fx_round(self.y as int) * FX_ONE,
    {
        V2 { x: fx_round(self.x) * FX_ONE, y: fx_round(self.y) * FX_ONE }
    }

    /// Rounds each component up to a whole pixel.
    pub fn ceil(&self) -> (r: V2)
        requires
            bounded(*self, COORD_LIMIT as int),
        ensures
            r.x == spec_fx_ceil(self.x as int) * FX_ONE,
            r.y == spec_fx_ceil(self.y as int) * FX_ONE,
    {
        V2 { x: fx_ceil(self.x) * FX_ONE, y: fx_ceil(self.y) * FX_ONE }
    }

    /// The vector scaled to unit (one-pixel) length, rounding toward zero.
    pub fn norm(&self) -> (r: V2)
        requires
            bounded(*self, COORD_LIMIT as int),
            !(self.x == 0 && self.y == 0),
        ensures
            r.x == spec_fx_div(self.x as int, spec_dist(*self, V2 { x: 0i64, y: 0i64 })),
            r.y == spec_fx_div(self.y as int, spec_dist(*self, V2 { x: 0i64, y: 0i64 })),
    {
        let m: i64 = self.mag();
        proof {
            assert(self.x * self.x + self.y * self.y >= 1) by (nonlinear_arith)
                requires
                    !(self.x == 0 && self.y == 0),
            ;
            let sq = (self.x * self.x + self.y * self.y) as nat;
            crate::fixed::lemma_isqrt_bounds(sq);
            assert(spec_isqrt(sq) >= 1) by (nonlinear_arith)
                requires
                    sq < (spec_isqrt(sq) + 1) * (spec_isqrt(sq) + 1),
                    sq >= 1,
            ;
        }
        self.div(m)
    }

    /// The point rotated about `pivot` by a whole number of degrees.
    pub fn rotate_around(&self, pivot: &V2, degrees: i64) -> (r: V2)
        requires
            bounded(*self, COORD_LIMIT as int),
            bounded(*pivot, COORD_LIMIT as int),
            i64::MIN + 90 < degrees < i64::MAX - 90,
        ensures
            r.x == spec_rot_x((self.x - pivot.x) as int, (self.y - pivot.y) as int,
                degrees as int) + pivot.x,
            r.y == spec_rot_y((self.x - pivot.x) as int, (self.y - pivot.y) as int,
                degrees as int) + pivot.y,
    {
        let dx: i64 = self.x - pivot.x;
        let dy: i64 = self.y - pivot.y;
        let c: i64 = cos_fx(degrees);
        let s: i64 = sin_fx(degrees);
        proof {
            lemma_mul_bound(dx as int, c as int, 0x4000_0000, 1024);
            lemma_mul_bound(dy as int, s as int, 0x4000_0000, 1024);
            lemma_mul_bound(dx as int, s as int, 0x4000_0000, 1024);
            lemma_mul_bound(dy as int, c as int, 0x4000_0000, 1024);
        }
        let px: i64 = dx * c - dy * s;
        let py: i64 = dx * s + dy * c;
        let rx: i64 = px / FX_ONE;
        let ry: i64 = py / FX_ONE;
        proof {
            assert(-0x4000_0000_0000 <= rx <= 0x4000_0000_0000
                && -0x4000_0000_0000 <= ry <= 0x4000_0000_0000) by (nonlinear_arith)
                requires
                    rx == trunc_div(px as int, 1024),
                    ry == trunc_div(py as int, 1024),
                    -0x1_0000_0000_0000 <= px <= 0x1_0000_0000_0000,
                    -0x1_0000_0000_0000 <= py <= 0x1_0000_0000_0000,
            ;
        }
        V2 { x: rx + pivot.x, y: ry + pivot.y }
    }
}

} // verus!
