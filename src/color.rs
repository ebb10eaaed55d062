use vstd::prelude::*;
use crate::stats::{floor_sqrt, isqrt};

verus! {

/// Largest lightness: `L*` in `0..=100`, in thousandths.
pub const L_MAX: i32 = 100_000;

/// Largest magnitude of a chromatic axis: `a*` and `b*` in `-128..=128`, in thousandths.
pub const AB_MAX: i32 = 128_000;

/// Resolution of [`hue_key`] within one quadrant of the chromatic plane.
pub const HUE_STEPS: u64 = 1_048_576;

/// A color in CIE L*a*b*, each axis in thousandths of its natural unit.
#[derive(Clone, Copy, Debug, PartialEq, Eq, Structural)]
pub struct Color {
    pub l: i32,
    pub a: i32,
    pub b: i32,
}

/// A displacement of a color, axis by axis, in the units of [`Color`].
#[derive(Clone, Copy, Debug, PartialEq, Eq, Structural)]
pub struct Shift {
    pub l: i32,
    pub a: i32,
    pub b: i32,
}

pub open spec fn clamp(x: int, lo: int, hi: int) -> int {
    if x < lo { lo } else if x > hi { hi } else { x }
}

pub open spec fn floor_half(x: int) -> int {
    x / 2
}

impl Color {
    /// Each axis lies in its legal range.
    pub open spec fn in_bounds(&self) -> bool {
        &&& 0 <= self.l <= L_MAX
        &&& -AB_MAX <= self.a <= AB_MAX
        &&& -AB_MAX <= self.b <= AB_MAX
    }
}

/// The color halfway between `x` and `y` on each axis, rounded down.
pub open spec fn midpoint_spec(x: Color, y: Color) -> Color {
    Color {
        l: floor_half(x.l + y.l) as i32,
        a: floor_half(x.a + y.a) as i32,
        b: floor_half(x.b + y.b) as i32,
    }
}

/// `c` moved by `s`, each axis clamped to its legal range.
pub open spec fn shifted_spec(c: Color, s: Shift) -> Color {
    Color {
        l: clamp(c.l + s.l, 0, L_MAX as int) as i32,
        a: clamp(c.a + s.a, -AB_MAX as int, AB_MAX as int) as i32,
        b: clamp(c.b + s.b, -AB_MAX as int, AB_MAX as int) as i32,
    }
}

/// A key that orders colors as their hue angle `atan2(b, a)` in `[0, 360)` does.
///
/// Each quadrant of the chromatic plane gets `HUE_STEPS` consecutive keys;
/// within a quadrant the key grows with the ratio of the coordinate that
/// grows with the angle to the sum of the two magnitudes, which rises
/// strictly with the angle. The neutral axis (`a == b == 0`) has key 0.
pub open spec fn hue_key_spec(a: int, b: int) -> int {
    let k = HUE_STEPS as int;
    if a > 0 && b >= 0 {
        (k * b) / (a + b)
    } else if a <= 0 && b > 0 {
        k + (k * -a) / (b - a)
    } else if a < 0 && b <= 0 {
        2 * k + (k * -b) / (-a - b)
    } else if a >= 0 && b < 0 {
        3 * k + (k * a) / (a - b)
    } else {
        0
    }
}

/// The chroma of `c`: `sqrt(a^2 + b^2)` rounded down.
pub open spec fn chroma_of(c: Color) -> int {
    floor_sqrt(c.a * c.a + c.b * c.b)
}

pub open spec fn hue_of(c: Color) -> int {
    hue_key_spec(c.a as int, c.b as int)
}

fn half_floor(x: i64) -> (r: i64)
    ensures
        r == floor_half(x as int),
{
    let r: i64 = x >> 1u64;
    assert(r == x / 2) by (bit_vector)
        requires r == x >> 1u64;
    r
}

/// The color halfway between `x` and `y`.
pub fn midpoint(x: &Color, y: &Color) -> (r: Color)
    ensures
        r == midpoint_spec(*x, *y),
{
    Color {
        l: half_floor(x.l as i64 + y.l as i64) as i32,
        a: half_floor(x.a as i64 + y.a as i64) as i32,
        b: half_floor(x.b as i64 + y.b as i64) as i32,
    }
}

fn clamp_axis(x: i64, lo: i32, hi: i32) -> (r: i32)
    requires
        lo <= hi,
    ensures
        r == clamp(x as int, lo as int, hi as int),
{
    if x < lo as i64 {
        lo
    } else if x > hi as i64 {
        hi
    } else {
        x as i32
    }
}

/// `c` moved by `s` and clamped to the legal ranges.
pub fn shifted(c: &Color, s: &Shift) -> (r: Color)
    ensures
        r == shifted_spec(*c, *s),
        r.in_bounds(),
{
    Color {
        l: clamp_axis(c.l as i64 + s.l as i64, 0, L_MAX),
        a: clamp_axis(c.a as i64 + s.a as i64, -AB_MAX, AB_MAX),
        b: clamp_axis(c.b as i64 + s.b as i64, -AB_MAX, AB_MAX),
    }
}

/// The hue key of `c` (see [`hue_key_spec`]).
pub fn hue_key(c: &Color) -> (r: u64)
    ensures
        r == hue_of(*c),
{
    let a = c.a as i64;
    let b = c.b as i64;
    let k = HUE_STEPS as i64;
    assert(k * b <= 1048576 * 2147483648) by (nonlinear_arith)
        requires k == 1048576, b <= 2147483648;
    assert(k * -a <= 1048576 * 2147483648) by (nonlinear_arith)
        requires k == 1048576, -a <= 2147483648;
    assert(k * -b <= 1048576 * 2147483648) by (nonlinear_arith)
        requires k == 1048576, -b <= 2147483648;
    assert(k * a <= 1048576 * 2147483648) by (nonlinear_arith)
        requires k == 1048576, a <= 2147483648;
    let (q, num, den): (i64, i64, i64) = if a > 0 && b >= 0 {
        (0, b, a + b)
    } else if a <= 0 && b > 0 {
        (1, -a, b - a)
    } else if a < 0 && b <= 0 {
        (2, -b, -a - b)
    } else if a >= 0 && b < 0 {
        (3, a, a - b)
    } else {
        return 0;
    };
    assert(0 <= k * num) by (nonlinear_arith)
        requires k == 1048576, 0 <= num;
    let frac: u64 = (k * num) as u64 / den as u64;
    q as u64 * HUE_STEPS + frac
}

/// The chroma of `c`, `sqrt(a^2 + b^2)` rounded down, in thousandths.
pub fn chroma(c: &Color) -> (r: i32)
    requires
        c.in_bounds(),
    ensures
        r == chroma_of(*c),
{
    let a = c.a as i64;
    let b = c.b as i64;
    assert(a * a <= 128000 * 128000 && b * b <= 128000 * 128000) by (nonlinear_arith)
        requires -128000 <= a <= 128000, -128000 <= b <= 128000;
    assert(0 <= a * a && 0 <= b * b) by (nonlinear_arith);
    let s = (a * a + b * b) as u64;
    let r = isqrt(s);
    assert(r <= 200000) by (nonlinear_arith)
        requires r * r <= s, s <= 2 * 128000 * 128000;
    assert(s == c.a * c.a + c.b * c.b);
    r as i32
}

} // verus!
