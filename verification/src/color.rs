//! The colour model: 8-bit RGB, fixed-point HSV, and the conversions between
//! them.

use vstd::prelude::*;
use crate::rounding::{lemma_round_div_at_most, lemma_round_div_monotone, lemma_round_div_scaled, lemma_scaled_quotient_at_most, lemma_scaled_quotient_below, round_div};

verus! {

/// One whole, in the fixed-point scale of saturation, value, coverage and
/// confidence.
pub const UNIT: u32 = 1_000_000;

/// One degree of hue, in hue units.
pub const HUE_UNIT: u32 = 1_000_000;

/// Sixty degrees of hue: one sector of the colour wheel.
pub const HUE_SECTOR: u32 = 60_000_000;

/// A third of the colour wheel, 120 degrees: from one of pure red, green and
/// blue to the next.
pub const HUE_THIRD: u32 = 120_000_000;

/// The full colour wheel, 360 degrees; every valid hue lies below it.
pub const HUE_TURN: u32 = 360_000_000;

/// One whole times one whole: the scale of a product of two fractions.
pub const UNIT_SQUARED: u64 = 1_000_000_000_000;

/// A sector times one whole times one whole: the scale of a product of two
/// fractions and a share of a sector.
pub const SECTOR_UNIT_SQUARED: u128 = 60_000_000_000_000_000_000;

/// Saturation above which a colour may be a key colour.
pub const CANDIDATE_MIN_SATURATION: u32 = 300_000;

/// Value above which a colour may be a key colour.
pub const CANDIDATE_MIN_VALUE: u32 = 100_000;

#[derive(Clone, Copy, Debug, PartialEq, Eq, Structural)]
pub struct RGB {
    pub r: u8,
    pub g: u8,
    pub b: u8,
}

/// A colour in hue, saturation and value. `h` is in hue units (millionths of
/// a degree), `s` and `v` in millionths.
#[derive(Clone, Copy, Debug, PartialEq, Eq, Structural)]
pub struct HSV {
    pub h: u32,
    pub s: u32,
    pub v: u32,
}

pub open spec fn max3(a: int, b: int, c: int) -> int {
    if a >= b && a >= c {
        a
    } else if b >= c {
        b
    } else {
        c
    }
}

pub open spec fn min3(a: int, b: int, c: int) -> int {
    if a <= b && a <= c {
        a
    } else if b <= c {
        b
    } else {
        c
    }
}

/// The hue of a colour whose largest channel exceeds its smallest by `delta`:
/// sixty degrees times `turns + lead / delta`, rounded down to a hue unit.
pub open spec fn hue_at(turns: int, lead: int, delta: int) -> int
    recommends
        delta > 0,
{
    (HUE_SECTOR as int * (turns * delta + lead)) / delta
}

impl RGB {
    pub open spec fn high(self) -> int {
        max3(self.r as int, self.g as int, self.b as int)
    }

    pub open spec fn low(self) -> int {
        min3(self.r as int, self.g as int, self.b as int)
    }

    pub open spec fn spread(self) -> int {
        self.high() - self.low()
    }

    /// Hue in hue units: 0 for a grey, else by the channel that is largest,
    /// red before green before blue.
    pub open spec fn spec_hue(self) -> int {
        let d = self.spread();
        if d == 0 {
            0
        } else if self.high() == self.r {
            if self.g < self.b {
                hue_at(6, self.g - self.b, d)
            } else {
                hue_at(0, self.g - self.b, d)
            }
        } else if self.high() == self.g {
            hue_at(2, self.b - self.r, d)
        } else {
            hue_at(4, self.r - self.g, d)
        }
    }

    /// Saturation in millionths: the spread over the largest channel, 0 for
    /// black.
    pub open spec fn spec_saturation(self) -> int {
        if self.high() == 0 {
            0
        } else {
            (self.spread() * UNIT as int) / self.high()
        }
    }

    /// Value in millionths: the largest channel over 255.
    pub open spec fn spec_value(self) -> int {
        (self.high() * UNIT as int) / 255
    }

    pub open spec fn spec_to_hsv(self) -> HSV {
        HSV { h: self.spec_hue() as u32, s: self.spec_saturation() as u32, v: self.spec_value() as u32 }
    }

    /// Converts to HSV, each component rounded down to its unit. The result
    /// converts back to this colour.
    pub fn to_hsv(&self) -> (hsv: HSV)
        ensures
            hsv == self.spec_to_hsv(),
            hsv.wf(),
            hsv.h == self.spec_hue(),
            hsv.s == self.spec_saturation(),
            hsv.v == self.spec_value(),
            hsv.spec_to_rgb() == *self,
    {
        let r: u64 = self.r as u64;
        let g: u64 = self.g as u64;
        let b: u64 = self.b as u64;
        let hi: u64 = if r >= g && r >= b {
            r
        } else if g >= b {
            g
        } else {
            b
        };
        let lo: u64 = if r <= g && r <= b {
            r
        } else if g <= b {
            g
        } else {
            b
        };
        let delta: u64 = hi - lo;
        let v: u64 = hi * 1_000_000 / 255;
        let s: u64 = if hi == 0 {
            0
        } else {
            delta * 1_000_000 / hi
        };
        let mut h: u64 = 0;
        if delta != 0 {
            let lead: u64 = if hi == r {
                if g < b {
                    6 * delta + g - b
                } else {
                    g - b
                }
            } else if hi == g {
                2 * delta + b - r
            } else {
                4 * delta + r - g
            };
            h = 60_000_000 * lead / delta;
            proof {
                lemma_scaled_quotient_below(lead as int, delta as int, 6, 60_000_000);
            }
        }
        proof {
            lemma_scaled_quotient_at_most(hi as int, 255, 1, 1_000_000);
            if hi != 0 {
                lemma_scaled_quotient_at_most(delta as int, hi as int, 1, 1_000_000);
            }
            crate::round_trip::lemma_round_trip(*self);
        }
        HSV { h: h as u32, s: s as u32, v: v as u32 }
    }
}

impl HSV {
    /// Hue below a full turn, saturation and value at most one whole.
    pub open spec fn wf(self) -> bool {
        &&& self.h < HUE_TURN
        &&& self.s <= UNIT
        &&& self.v <= UNIT
    }

    /// How far the hue stands from the nearest of pure red, green and blue,
    /// in hue units: at most a sector's width.
    pub open spec fn spec_ramp(self) -> int {
        let within = self.h as int % (HUE_THIRD as int);
        if within <= HUE_SECTOR as int {
            within
        } else {
            HUE_THIRD as int - within
        }
    }

    /// The largest channel: the value, on the scale of 255.
    pub open spec fn spec_top(self) -> int {
        round_div(255 * self.v as int, UNIT as int)
    }

    /// The smallest channel: the value less the chroma.
    pub open spec fn spec_bottom(self) -> int {
        round_div(255 * self.v as int * (UNIT as int - self.s as int), UNIT_SQUARED as int)
    }

    /// The third channel: the smallest plus the chroma's share by the ramp.
    pub open spec fn spec_middle(self) -> int {
        round_div(
            255 * self.v as int * ((UNIT as int - self.s as int) * HUE_SECTOR as int
                + self.s as int * self.spec_ramp()),
            SECTOR_UNIT_SQUARED as int,
        )
    }

    /// The colour's channels, each rounded once to the nearest of 0..=255 and
    /// placed by the hue's sector.
    pub open spec fn spec_to_rgb(self) -> RGB {
        let sector = self.h as int / HUE_SECTOR as int;
        let top = self.spec_top() as u8;
        let middle = self.spec_middle() as u8;
        let bottom = self.spec_bottom() as u8;
        if sector == 0 {
            RGB { r: top, g: middle, b: bottom }
        } else if sector == 1 {
            RGB { r: middle, g: top, b: bottom }
        } else if sector == 2 {
            RGB { r: bottom, g: top, b: middle }
        } else if sector == 3 {
            RGB { r: bottom, g: middle, b: top }
        } else if sector == 4 {
            RGB { r: middle, g: bottom, b: top }
        } else {
            RGB { r: top, g: bottom, b: middle }
        }
    }

    /// Converts to RGB with 8-bit rounding.
    pub fn to_rgb(&self) -> (rgb: RGB)
        requires
            self.wf(),
        ensures
            rgb == self.spec_to_rgb(),
            self.spec_bottom() <= self.spec_middle() <= self.spec_top() <= 255,
    {
        let unit: u128 = 1_000_000;
        let span: u128 = 60_000_000;
        let v: u128 = self.v as u128;
        let s: u128 = self.s as u128;
        let within: u128 = (self.h % 120_000_000) as u128;
        let ramp: u128 = if within <= span {
            within
        } else {
            120_000_000 - within
        };
        let rest: u128 = unit - s;
        assert(v * rest <= 1_000_000 * 1_000_000) by (nonlinear_arith)
            requires
                v <= 1_000_000,
                rest <= 1_000_000,
        ;
        assert(rest * span + s * ramp <= 1_000_000 * 60_000_000 && s * ramp <= 1_000_000
            * 60_000_000) by (nonlinear_arith)
            requires
                rest + s == 1_000_000,
                ramp <= span,
                span == 60_000_000,
                0 <= s,
                0 <= rest,
        ;
        let blend: u128 = rest * span + s * ramp;
        assert(v * blend <= 1_000_000 * (1_000_000 * 60_000_000)) by (nonlinear_arith)
            requires
                v <= 1_000_000,
                blend <= 1_000_000 * 60_000_000,
        ;
        assert(v * blend >= v * (rest * span)) by (nonlinear_arith)
            requires
                blend >= rest * span,
                v >= 0,
        ;
        assert(v * (rest * span) == (v * rest) * span) by (nonlinear_arith);
        let n_top: u128 = 255 * v;
        let n_bottom: u128 = 255 * (v * rest);
        let n_middle: u128 = 255 * (v * blend);
        let top: u128 = (2 * n_top + unit) / (2 * unit);
        let bottom: u128 = (2 * n_bottom + unit * unit) / (2 * (unit * unit));
        let middle: u128 = (2 * n_middle + unit * unit * span) / (2 * (unit * unit * span));
        proof {
            assert(255 * self.v as int * (UNIT as int - self.s as int) == n_bottom as int)
                by (nonlinear_arith)
                requires
                    n_bottom == 255 * (v * rest),
                    v == self.v,
                    rest == UNIT as int - self.s as int,
            ;
            assert(255 * self.v as int * ((UNIT as int - self.s as int) * HUE_SECTOR as int
                + self.s as int * self.spec_ramp()) == n_middle as int) by (nonlinear_arith)
                requires
                    n_middle == 255 * (v * blend),
                    blend == rest * span + s * ramp,
                    v == self.v,
                    s == self.s,
                    span == HUE_SECTOR as int,
                    ramp == self.spec_ramp(),
                    rest == UNIT as int - self.s as int,
            ;
            lemma_round_div_at_most(n_top as int, unit as int, 255);
            // Scaling numerator and denominator alike leaves a rounded
            // quotient in place, so the three channels can be compared over
            // the middle one's denominator.
            lemma_round_div_scaled(n_top as int, unit as int, (unit * span) as int);
            lemma_round_div_scaled(n_bottom as int, (unit * unit) as int, span as int);
            assert(n_top * (unit * span) == 255 * (v * (unit * span))) by (nonlinear_arith)
                requires
                    n_top == 255 * v,
            ;
            assert(n_bottom * span == 255 * ((v * rest) * span)) by (nonlinear_arith)
                requires
                    n_bottom == 255 * (v * rest),
            ;
            assert(unit * (unit * span) == unit * unit * span) by (nonlinear_arith);
            assert(v * blend <= v * (unit * span)) by (nonlinear_arith)
                requires
                    blend <= unit * span,
                    v >= 0,
            ;
            lemma_round_div_monotone(
                n_bottom as int * span as int,
                n_middle as int,
                (unit * unit * span) as int,
            );
            lemma_round_div_monotone(
                n_middle as int,
                n_top as int * (unit * span) as int,
                (unit * unit * span) as int,
            );
        }
        let sector: u32 = self.h / 60_000_000;
        let top: u8 = top as u8;
        let middle: u8 = middle as u8;
        let bottom: u8 = bottom as u8;
        if sector == 0 {
            RGB { r: top, g: middle, b: bottom }
        } else if sector == 1 {
            RGB { r: middle, g: top, b: bottom }
        } else if sector == 2 {
            RGB { r: bottom, g: top, b: middle }
        } else if sector == 3 {
            RGB { r: bottom, g: middle, b: top }
        } else if sector == 4 {
            RGB { r: middle, g: bottom, b: top }
        } else {
            RGB { r: top, g: bottom, b: middle }
        }
    }

    /// Saturation above 0.3 and value above 0.1.
    pub open spec fn spec_is_chromakey_candidate(self) -> bool {
        self.s > CANDIDATE_MIN_SATURATION && self.v > CANDIDATE_MIN_VALUE
    }

    /// Whether the colour is saturated and bright enough to be a key colour.
    pub fn is_chromakey_candidate(&self) -> (candidate: bool)
        ensures
            candidate == self.spec_is_chromakey_candidate(),
    {
        self.s > CANDIDATE_MIN_SATURATION && self.v > CANDIDATE_MIN_VALUE
    }
}

/// The gap between two hues round the colour wheel, in hue units: the lesser
/// of their difference and what the difference leaves of a full turn.
pub open spec fn hue_gap(a: u32, b: u32) -> int {
    let apart = if a >= b {
        a - b
    } else {
        b - a
    };
    if apart <= HUE_TURN as int - apart {
        apart
    } else {
        HUE_TURN as int - apart
    }
}

/// The gap between two hues round the colour wheel.
pub fn hue_distance(a: u32, b: u32) -> (gap: i64)
    ensures
        gap == hue_gap(a, b),
        a < HUE_TURN && b < HUE_TURN ==> 0 <= gap <= HUE_TURN / 2,
{
    let apart: i64 = if a >= b {
        (a - b) as i64
    } else {
        (b - a) as i64
    };
    let around: i64 = 360_000_000 - apart;
    if apart <= around {
        apart
    } else {
        around
    }
}

} // verus!
