//! Colors: three fixed-point channels, saturating on accumulation.

use vstd::prelude::*;
use crate::math::mag;
use crate::math::tdiv;
use crate::math::lemma_tdiv_bounds;
use crate::math::div_trunc;
use crate::math::UNIT;

verus! {

/// An RGB color of fixed-point channels; one unit is full brightness,
/// values outside `[0, UNIT]` are legal and clamped only on output.
#[derive(Copy, Clone, Debug, PartialEq, Eq, Structural)]
pub struct Color {
    pub r: i64,
    pub g: i64,
    pub b: i64,
}

/// The mathematical value of a [`Color`].
pub struct C3 {
    pub r: int,
    pub g: int,
    pub b: int,
}

impl View for Color {
    type V = C3;

    open spec fn view(&self) -> C3 {
        C3 { r: self.r as int, g: self.g as int, b: self.b as int }
    }
}

/// Clamps an integer into the signed 64-bit range.
pub open spec fn sat64(x: int) -> int {
    if x > i64::MAX as int {
        i64::MAX as int
    } else if x < i64::MIN as int {
        i64::MIN as int
    } else {
        x
    }
}

impl C3 {
    /// Channelwise sum, each channel saturating.
    pub open spec fn plus_sat(self, o: C3) -> C3 {
        C3 { r: sat64(self.r + o.r), g: sat64(self.g + o.g), b: sat64(self.b + o.b) }
    }

    /// Channelwise fixed-point product with a scalar, saturating.
    pub open spec fn scale_sat(self, s: int) -> C3 {
        C3 {
            r: sat64(tdiv(self.r * s, UNIT as int)),
            g: sat64(tdiv(self.g * s, UNIT as int)),
            b: sat64(tdiv(self.b * s, UNIT as int)),
        }
    }

    /// All channels zero.
    pub open spec fn is_black(self) -> bool {
        self.r == 0 && self.g == 0 && self.b == 0
    }
}

/// An eight-bit output channel: clamp to one unit, then scale to 255,
/// rounding to the nearest step.
pub open spec fn chan8(c: int) -> int {
    let cl = if c < 0 {
        0
    } else if c > UNIT as int {
        UNIT as int
    } else {
        c
    };
    (cl * 255 + (UNIT as int) / 2) / (UNIT as int)
}

/// Clamps a wide intermediate into the signed 64-bit range.
pub fn sat_narrow(x: i128) -> (r: i64)
    ensures
        r as int == sat64(x as int),
{
    if x > i64::MAX as i128 {
        i64::MAX
    } else if x < i64::MIN as i128 {
        i64::MIN
    } else {
        x as i64
    }
}

impl Color {
    /// Builds a color from its channels.
    pub fn new(r: i64, g: i64, b: i64) -> (c: Color)
        ensures
            c.r == r,
            c.g == g,
            c.b == b,
    {
        Color { r, g, b }
    }

    /// The absence of light.
    pub fn black() -> (c: Color)
        ensures
            c@.is_black(),
    {
        Color { r: 0, g: 0, b: 0 }
    }

    /// Full brightness in every channel.
    pub fn white() -> (c: Color)
        ensures
            c.r == UNIT,
            c.g == UNIT,
            c.b == UNIT,
    {
        Color { r: UNIT, g: UNIT, b: UNIT }
    }

    /// Channelwise sum, saturating at the 64-bit bounds.
    pub fn add_sat(&self, rhs: &Color) -> (c: Color)
        ensures
            c@ == self@.plus_sat(rhs@),
    {
        Color {
            r: sat_narrow((self.r as i128) + (rhs.r as i128)),
            g: sat_narrow((self.g as i128) + (rhs.g as i128)),
            b: sat_narrow((self.b as i128) + (rhs.b as i128)),
        }
    }

    /// Channelwise fixed-point product with a scalar, saturating.
    pub fn scale_sat(&self, s: i64) -> (c: Color)
        ensures
            c@ == self@.scale_sat(s as int),
    {
        Color {
            r: scale_chan(self.r, s),
            g: scale_chan(self.g, s),
            b: scale_chan(self.b, s),
        }
    }

    /// The clamped eight-bit rendering of this color.
    pub fn to_u8(&self) -> (out: [u8; 3])
        ensures
            out[0] as int == chan8(self@.r),
            out[1] as int == chan8(self@.g),
            out[2] as int == chan8(self@.b),
    {
        [chan_to_u8(self.r), chan_to_u8(self.g), chan_to_u8(self.b)]
    }
}

/// One saturating fixed-point channel product.
fn scale_chan(c: i64, s: i64) -> (r: i64)
    ensures
        r as int == sat64(tdiv((c as int) * (s as int), UNIT as int)),
{
    proof {
        assert(i128::MIN < (c as int) * (s as int) < i128::MAX) by (nonlinear_arith)
            requires
                i64::MIN <= c <= i64::MAX,
                i64::MIN <= s <= i64::MAX,
        ;
    }
    let p: i128 = (c as i128) * (s as i128);
    let q = div_trunc(p, UNIT as i128);
    sat_narrow(q)
}

/// One eight-bit output channel.
fn chan_to_u8(c: i64) -> (r: u8)
    ensures
        r as int == chan8(c as int),
{
    let cl: i64 = if c < 0 {
        0
    } else if c > UNIT {
        UNIT
    } else {
        c
    };
    proof {
        assert(0 <= (cl as int * 255 + (UNIT as int) / 2) / (UNIT as int) <= 255) by {
            vstd::arithmetic::div_mod::lemma_div_pos_is_pos(
                cl as int * 255 + (UNIT as int) / 2,
                UNIT as int,
            );
            vstd::arithmetic::div_mod::lemma_div_is_ordered(
                cl as int * 255 + (UNIT as int) / 2,
                255 * (UNIT as int) + (UNIT as int) / 2,
                UNIT as int,
            );
            assert((255 * (UNIT as int) + (UNIT as int) / 2) / (UNIT as int) == 255);
        }
    }
    (((cl as u64 * 255) + 500_000) / 1_000_000) as u8
}

} // verus!
