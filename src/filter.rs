use vstd::prelude::*;

verus! {

/// Largest linear channel value: linear light in `0..=1` is held in `0..=LIN_MAX`.
pub const LIN_MAX: i32 = 32767;

/// A simulation of red-green color blindness on integer linear light.
///
/// The simulated red and green channels are equal; each output channel is a
/// weighted sum of the input channels, scaled by `2^-22` (the weights are in
/// units of `2^-15`, and the result is brought from `2^15` to `2^8` levels).
pub struct RedGreenFilter {
    k1: i32,
    k2: i32,
    k3: i32,
}

/// Linear light of one color, each channel in `0..=LIN_MAX`.
pub struct LinTriple {
    r: i32,
    g: i32,
    b: i32,
}

/// An 8-bit color.
#[derive(Clone, Copy, Debug, PartialEq, Eq, Structural)]
pub struct Rgb8 {
    pub red: u8,
    pub green: u8,
    pub blue: u8,
}

pub open spec fn clamp_byte(x: int) -> int {
    if x < 0 { 0 } else if x > 255 { 255 } else { x }
}

impl LinTriple {
    pub closed spec fn wf(&self) -> bool {
        0 <= self.r <= LIN_MAX && 0 <= self.g <= LIN_MAX && 0 <= self.b <= LIN_MAX
    }

    pub closed spec fn channels(&self) -> (int, int, int) {
        (self.r as int, self.g as int, self.b as int)
    }

    /// The triple of the given channels, or `None` where one lies outside `0..=LIN_MAX`.
    pub fn new(r: i32, g: i32, b: i32) -> (res: Option<LinTriple>)
        ensures
            res is Some <==> (0 <= r <= LIN_MAX && 0 <= g <= LIN_MAX && 0 <= b <= LIN_MAX),
            res matches Some(t) ==> t.wf() && t.channels() == (r as int, g as int, b as int),
    {
        if 0 <= r && r <= LIN_MAX && 0 <= g && g <= LIN_MAX && 0 <= b && b <= LIN_MAX {
            Some(LinTriple { r, g, b })
        } else {
            None
        }
    }
}

impl RedGreenFilter {
    /// The weights stay small enough that no weighted sum of channels overflows.
    pub closed spec fn wf(&self) -> bool {
        &&& -32767 <= self.k1 <= 32767
        &&& -32767 <= self.k2 <= 32767
        &&& -16383 <= self.k3 <= 16383
    }

    pub closed spec fn weights(&self) -> (int, int, int) {
        (self.k1 as int, self.k2 as int, self.k3 as int)
    }

    /// The simulated color of `lin`: red and green equal, each channel the
    /// weighted sum floored after division by `2^22`, then clamped to `0..=255`.
    pub open spec fn simulate(&self, lin: &LinTriple) -> Rgb8 {
        let (k1, k2, k3) = self.weights();
        let (r, g, b) = lin.channels();
        let red = clamp_byte((k1 * r + k2 * g) / 4194304);
        let blue = clamp_byte((k3 * r - k3 * g + 32768 * b) / 4194304);
        Rgb8 { red: red as u8, green: red as u8, blue: blue as u8 }
    }

    pub fn transform(&self, lin: &LinTriple) -> (res: Rgb8)
        requires
            self.wf(),
            lin.wf(),
        ensures
            res == self.simulate(lin),
    {
        let (k1, k2, k3) = (self.k1, self.k2, self.k3);
        let (r, g, b) = (lin.r, lin.g, lin.b);
        assert(-1073676289 <= k1 * r <= 1073676289) by (nonlinear_arith)
            requires -32767 <= k1 <= 32767, 0 <= r <= 32767;
        assert(-1073676289 <= k2 * g <= 1073676289) by (nonlinear_arith)
            requires -32767 <= k2 <= 32767, 0 <= g <= 32767;
        assert(-536821761 <= k3 * r <= 536821761) by (nonlinear_arith)
            requires -16383 <= k3 <= 16383, 0 <= r <= 32767;
        assert(-536821761 <= k3 * g <= 536821761) by (nonlinear_arith)
            requires -16383 <= k3 <= 16383, 0 <= g <= 32767;
        let sum_red: i32 = k1 * r + k2 * g;
        let sum_blue: i32 = k3 * r - k3 * g + 32768 * b;
        let red_blind: i32 = sum_red >> 22u32;
        let blue_blind: i32 = sum_blue >> 22u32;
        assert(red_blind == sum_red / 4194304) by (bit_vector)
            requires red_blind == sum_red >> 22u32;
        assert(blue_blind == sum_blue / 4194304) by (bit_vector)
            requires blue_blind == sum_blue >> 22u32;
        let red: i32 = if red_blind < 0 { 0 } else if red_blind > 255 { 255 } else { red_blind };
        let blue: i32 = if blue_blind < 0 { 0 } else if blue_blind > 255 { 255 } else { blue_blind };
        Rgb8 { red: red as u8, green: red as u8, blue: blue as u8 }
    }
}

/// The filter for deuteranopia.
pub fn deutan() -> (res: RedGreenFilter)
    ensures
        res.wf(),
        res.weights() == (9591int, 23173int, -730int),
{
    RedGreenFilter { k1: 9591, k2: 23173, k3: -730 }
}

/// The filter for protanopia.
pub fn protan() -> (res: RedGreenFilter)
    ensures
        res.wf(),
        res.weights() == (3683int, 29084int, 131int),
{
    RedGreenFilter { k1: 3683, k2: 29084, k3: 131 }
}

} // verus!
