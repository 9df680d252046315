//! Lengths and rectangles in logical pixels.
//!
//! A length is a whole number of 64ths of a pixel, so that adding and
//! comparing lengths is exact.

use vstd::prelude::*;

verus! {

/// One logical pixel.
pub const PX: i64 = 64;

/// Coordinates and sizes on screen are smaller than this.
pub const MAX_EXTENT: i64 = 0x1_0000_0000_0000;

/// Half of a length, rounded down.
pub fn half(v: i64) -> (r: i64)
    requires
        -0x4000_0000_0000_0000 <= v <= 0x4000_0000_0000_0000,
    ensures
        r == v as int / 2,
{
    if v >= 0 {
        v / 2
    } else {
        -((1 - v) / 2)
    }
}

/// A quotient, rounded down.
pub fn floor_div(a: i128, b: i128) -> (r: i128)
    requires
        b > 0,
        a > i128::MIN + b,
    ensures
        r == a as int / b as int,
{
    if a >= 0 {
        a / b
    } else {
        let q: i128 = -((b - 1 - a) / b);
        proof {
            let n = b - 1 - a;
            assert(-(n / b as int) == a as int / b as int) by (nonlinear_arith)
                requires
                    n == b - 1 - a,
                    b > 0,
                    a < 0,
            ;
        }
        q
    }
}

/// An axis-aligned rectangle: `x0 <= x < x1`, `y0 <= y < y1`.
#[derive(Debug, Clone, Copy, PartialEq, Eq, Structural)]
pub struct Rect {
    pub x0: i64,
    pub y0: i64,
    pub x1: i64,
    pub y1: i64,
}

impl Rect {
    /// Whether the point lies in the rectangle.
    pub open spec fn holds(self, x: int, y: int) -> bool {
        self.x0 <= x < self.x1 && self.y0 <= y < self.y1
    }

    /// Whether the rectangles share no point.
    pub open spec fn disjoint_from(self, other: Rect) -> bool {
        self.x1 <= other.x0 || other.x1 <= self.x0 || self.y1 <= other.y0 || other.y1 <= self.y0
    }

    /// Whether the point lies in the rectangle.
    pub fn contains(&self, x: i64, y: i64) -> (r: bool)
        ensures
            r == self.holds(x as int, y as int),
    {
        self.x0 <= x && x < self.x1 && self.y0 <= y && y < self.y1
    }
}

} // verus!
