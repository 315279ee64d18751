//! The color value type and the arithmetic the dithering pipeline needs:
//! channel-wise saturating addition and subtraction, and the perceptually
//! weighted distance metric used by palette matching and clustering.

use vstd::prelude::*;

verus! {

/// One pixel: three 8-bit unsigned channels, red, green and blue.
#[derive(Clone, Copy, PartialEq, Eq, Structural, Debug)]
pub struct Color {
    pub r: u8,
    pub g: u8,
    pub b: u8,
}

/// One channel of a saturating addition: the sum, clamped at 255.
pub open spec fn sat_add_channel(a: u8, b: u8) -> u8 {
    if a + b > 255 {
        255u8
    } else {
        (a + b) as u8
    }
}

/// One channel of a saturating subtraction: the difference, clamped at 0.
pub open spec fn sat_sub_channel(a: u8, b: u8) -> u8 {
    if a - b < 0 {
        0u8
    } else {
        (a - b) as u8
    }
}

/// Channel-wise saturating addition of two colors.
pub open spec fn sat_add(a: Color, b: Color) -> Color {
    Color {
        r: sat_add_channel(a.r, b.r),
        g: sat_add_channel(a.g, b.g),
        b: sat_add_channel(a.b, b.b),
    }
}

/// Channel-wise saturating subtraction of two colors.
pub open spec fn sat_sub(a: Color, b: Color) -> Color {
    Color {
        r: sat_sub_channel(a.r, b.r),
        g: sat_sub_channel(a.g, b.g),
        b: sat_sub_channel(a.b, b.b),
    }
}

pub open spec fn square(x: int) -> int {
    x * x
}

/// The perceptually weighted distance between two colors.
///
/// The metric is the weighted Euclidean distance with channel weights
/// 0.3 (red), 0.59 (green) and 0.11 (blue).  Only comparisons between
/// distances ever matter, so the library works with the square of the
/// distance scaled by 10_000, under which the squared weights become
/// the integers 900, 3481 and 121.  The scaling is exact and strictly
/// monotone, so every comparison agrees with the real-valued metric.
pub open spec fn distance_sq(a: Color, b: Color) -> int {
    900 * square(a.r - b.r) + 3481 * square(a.g - b.g) + 121 * square(a.b - b.b)
}

impl Color {
    /// Channel-wise saturating addition.
    pub fn saturating_add(self, other: Color) -> (out: Color)
        ensures
            out == sat_add(self, other),
    {
        Color {
            r: self.r.saturating_add(other.r),
            g: self.g.saturating_add(other.g),
            b: self.b.saturating_add(other.b),
        }
    }

    /// Channel-wise saturating subtraction.
    pub fn saturating_sub(self, other: Color) -> (out: Color)
        ensures
            out == sat_sub(self, other),
    {
        Color {
            r: self.r.saturating_sub(other.r),
            g: self.g.saturating_sub(other.g),
            b: self.b.saturating_sub(other.b),
        }
    }
}

/// The scaled squared distance between two colors.  The largest possible
/// value, 4502 * 255 * 255, fits comfortably in a `u32`.
pub fn color_distance_sq(a: Color, b: Color) -> (d: u32)
    ensures
        d == distance_sq(a, b),
{
    let dr: u32 = if a.r >= b.r {
        (a.r - b.r) as u32
    } else {
        (b.r - a.r) as u32
    };
    let dg: u32 = if a.g >= b.g {
        (a.g - b.g) as u32
    } else {
        (b.g - a.g) as u32
    };
    let db: u32 = if a.b >= b.b {
        (a.b - b.b) as u32
    } else {
        (b.b - a.b) as u32
    };
    proof {
        lemma_square_abs(a.r - b.r, dr as int);
        lemma_square_abs(a.g - b.g, dg as int);
        lemma_square_abs(a.b - b.b, db as int);
    }
    900 * (dr * dr) + 3481 * (dg * dg) + 121 * (db * db)
}

/// The square of an integer equals the square of its absolute value,
/// and is bounded by the square of any bound on that absolute value.
proof fn lemma_square_abs(x: int, a: int)
    requires
        a == x || a == -x,
        0 <= a <= 255,
    ensures
        square(x) == a * a,
        0 <= a * a <= 255 * 255,
{
    assert(x * x == a * a && 0 <= a * a && a * a <= 255 * 255) by (nonlinear_arith)
        requires
            (a == x || a == -x) && 0 <= a && a <= 255,
    ;
}

/// Every color is at distance zero from itself.
pub proof fn lemma_distance_self_zero(a: Color)
    ensures
        distance_sq(a, a) == 0,
{
}

/// The distance metric is symmetric.
pub proof fn lemma_distance_symmetric(a: Color, b: Color)
    ensures
        distance_sq(a, b) == distance_sq(b, a),
{
    let dr: int = a.r - b.r;
    let dg: int = a.g - b.g;
    let db: int = a.b - b.b;
    assert(dr * dr == (-dr) * (-dr) && dg * dg == (-dg) * (-dg) && db * db == (-db) * (-db))
        by (nonlinear_arith);
}

/// The distance is non-negative, and zero exactly between equal colors.
pub proof fn lemma_distance_zero_iff_eq(a: Color, b: Color)
    ensures
        distance_sq(a, b) >= 0,
        distance_sq(a, b) == 0 <==> a == b,
{
    let dr: int = a.r - b.r;
    let dg: int = a.g - b.g;
    let db: int = a.b - b.b;
    assert(dr * dr >= 0 && dg * dg >= 0 && db * db >= 0) by (nonlinear_arith);
    if distance_sq(a, b) == 0 {
        assert(dr * dr == 0 && dg * dg == 0 && db * db == 0);
        assert(dr == 0 && dg == 0 && db == 0) by (nonlinear_arith)
            requires
                dr * dr == 0 && dg * dg == 0 && db * db == 0,
        ;
        assert(a == b);
    }
    if a == b {
        assert(dr == 0 && dg == 0 && db == 0);
        assert(dr * dr == 0 && dg * dg == 0 && db * db == 0) by (nonlinear_arith)
            requires
                dr == 0 && dg == 0 && db == 0,
        ;
        assert(distance_sq(a, b) == 0);
    }
}

/// Saturating channel arithmetic never leaves the 8-bit range [0, 255].
pub proof fn lemma_saturating_in_range(a: u8, b: u8)
    ensures
        0 <= sat_add_channel(a, b) <= 255,
        0 <= sat_sub_channel(a, b) <= 255,
{
}

} // verus!
