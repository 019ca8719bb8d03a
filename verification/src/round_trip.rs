//! Converting an RGB colour to HSV and back gives the same colour: the
//! rounding of the three HSV components stays far below half a channel step.

use vstd::prelude::*;
use vstd::arithmetic::div_mod::{lemma_fundamental_div_mod, lemma_fundamental_div_mod_converse_div, lemma_mod_bound};
use crate::color::{hue_at, HSV, RGB, HUE_SECTOR, UNIT};
use crate::rounding::{lemma_round_div_is, lemma_round_div_scaled, round_div};

verus! {

/// What rounding down to a millionth leaves of the value `high / 255`.
pub proof fn lemma_value_bounds(high: int) -> (v: int)
    requires
        0 <= high <= 255,
    ensures
        v == (high * UNIT as int) / 255,
        high * 1_000_000 - 254 <= 255 * v <= high * 1_000_000,
        0 <= v <= 1_000_000,
{
    let x = high * 1_000_000;
    lemma_fundamental_div_mod(x, 255);
    lemma_mod_bound(x, 255);
    x / 255
}

/// What rounding down to a millionth leaves of the saturation
/// `(high - low) / high`.
pub proof fn lemma_saturation_bounds(high: int, low: int) -> (s: int)
    requires
        0 <= low <= high <= 255,
        0 < high,
    ensures
        s == ((high - low) * UNIT as int) / high,
        (high - low) * 1_000_000 - high < high * s <= (high - low) * 1_000_000,
        0 <= s <= 1_000_000,
{
    let x = (high - low) * 1_000_000;
    lemma_fundamental_div_mod(x, high);
    lemma_mod_bound(x, high);
    let s = x / high;
    assert(0 <= s <= 1_000_000) by (nonlinear_arith)
        requires
            x - high < high * s <= x,
            0 <= x <= high * 1_000_000,
            0 < high,
    ;
    s
}

/// A hue splits into whole sectors and a signed remainder that is the lead's
/// share of one sector, rounded down.
pub proof fn lemma_hue_parts(turns: int, lead: int, delta: int) -> (part: int)
    requires
        delta > 0,
        -delta <= lead <= delta,
    ensures
        hue_at(turns, lead, delta) == turns * 60_000_000 + part,
        delta * part <= 60_000_000 * lead < delta * part + delta,
        -60_000_000 <= part <= 60_000_000,
        lead >= 0 ==> part >= 0,
        lead < 0 ==> part < 0,
{
    let x = 60_000_000 * lead;
    lemma_fundamental_div_mod(x, delta);
    lemma_mod_bound(x, delta);
    let part = x / delta;
    let r = x % delta;
    assert(60_000_000 * (turns * delta + lead) == (turns * 60_000_000 + part) * delta + r)
        by (nonlinear_arith)
        requires
            60_000_000 * lead == delta * part + r,
    ;
    lemma_fundamental_div_mod_converse_div(
        HUE_SECTOR as int * (turns * delta + lead),
        delta,
        turns * 60_000_000 + part,
        r,
    );
    assert(-60_000_000 <= part <= 60_000_000 && (lead >= 0 ==> part >= 0) && (lead < 0 ==> part
        < 0)) by (nonlinear_arith)
        requires
            delta * part <= 60_000_000 * lead < delta * part + delta,
            -delta <= lead <= delta,
            delta > 0,
    ;
    part
}

/// The largest channel comes back from the value.
pub proof fn lemma_top_channel(high: int, v: int)
    requires
        0 <= high <= 255,
        high * 1_000_000 - 254 <= 255 * v <= high * 1_000_000,
    ensures
        round_div(255 * v, 1_000_000) == high,
{
    lemma_round_div_is(255 * v, 1_000_000, high);
}

/// The smallest channel comes back from value and saturation.
pub proof fn lemma_bottom_channel(high: int, low: int, v: int, s: int)
    requires
        0 <= low <= high <= 255,
        0 < high,
        high * 1_000_000 - 254 <= 255 * v <= high * 1_000_000,
        (high - low) * 1_000_000 - high < high * s <= (high - low) * 1_000_000,
        0 <= v,
        0 <= s <= 1_000_000,
    ensures
        round_div(255 * v * (1_000_000 - s), 1_000_000_000_000) == low,
{
    let a = 255 * v;
    let b = 1_000_000 - s;
    let n = 255 * v * (1_000_000 - s);
    assert(n == a * b) by (nonlinear_arith)
        requires
            n == 255 * v * (1_000_000 - s),
            a == 255 * v,
            b == 1_000_000 - s,
    ;
    // high * b lies in [low * U, low * U + high).
    assert(low * 1_000_000 <= high * b < low * 1_000_000 + high) by (nonlinear_arith)
        requires
            (high - low) * 1_000_000 - high < high * s <= (high - low) * 1_000_000,
            b == 1_000_000 - s,
    ;
    // Above: a * b <= high * U * b, and high * (a * b) is compared through
    // high * b.
    assert(high * (a * b) <= high * (1_000_000 * (low * 1_000_000 + high))) by (nonlinear_arith)
        requires
            0 <= a <= high * 1_000_000,
            0 <= b,
            high * b < low * 1_000_000 + high,
            0 < high,
    ;
    assert(a * b <= 1_000_000 * (low * 1_000_000 + high)) by (nonlinear_arith)
        requires
            high * (a * b) <= high * (1_000_000 * (low * 1_000_000 + high)),
            0 < high,
    ;
    assert(high * (a * b) >= high * (1_000_000 * (low * 1_000_000) - 254 * 1_000_000))
        by (nonlinear_arith)
        requires
            a >= high * 1_000_000 - 254,
            0 <= b <= 1_000_000,
            high * b >= low * 1_000_000,
            0 < high,
            0 <= low,
    ;
    assert(a * b >= 1_000_000 * (low * 1_000_000) - 254 * 1_000_000) by (nonlinear_arith)
        requires
            high * (a * b) >= high * (1_000_000 * (low * 1_000_000) - 254 * 1_000_000),
            0 < high,
    ;
    assert(low * 1_000_000_000_000 == 1_000_000 * (low * 1_000_000)) by (nonlinear_arith);
    lemma_round_div_is(n, 1_000_000_000_000, low);
}

/// The third channel comes back from value, saturation and the hue's ramp:
/// `excess` is what it has over the smallest channel, and `ramp` is within
/// one hue unit of the excess's share of a sector.
pub proof fn lemma_middle_channel(high: int, low: int, excess: int, v: int, s: int, ramp: int)
    requires
        0 <= low < high <= 255,
        0 <= excess <= high - low,
        high * 1_000_000 - 254 <= 255 * v <= high * 1_000_000,
        (high - low) * 1_000_000 - high < high * s <= (high - low) * 1_000_000,
        0 <= v,
        0 <= s <= 1_000_000,
        0 <= ramp <= 60_000_000,
        60_000_000 * excess - (high - low) < (high - low) * ramp < 60_000_000 * excess + (high
            - low),
    ensures
        round_div(
            255 * v * ((1_000_000 - s) * 60_000_000 + s * ramp),
            60_000_000_000_000_000_000,
        ) == low + excess,
{
    let d = high - low;
    let mid = low + excess;
    let a = 255 * v;
    let z = 60_000_000 - ramp;
    let w = (1_000_000 - s) * 60_000_000 + s * ramp;
    let sz = s * z;
    assert(w == 60_000_000_000_000 - sz) by (nonlinear_arith)
        requires
            z == 60_000_000 - ramp,
            w == (1_000_000 - s) * 60_000_000 + s * ramp,
            sz == s * z,
    ;
    assert(0 <= sz <= 60_000_000_000_000) by (nonlinear_arith)
        requires
            sz == s * z,
            0 <= s <= 1_000_000,
            0 <= z <= 60_000_000,
    ;
    let x = high * s;
    let y = d * z;
    assert(60_000_000 * (d - excess) - d < y < 60_000_000 * (d - excess) + d && 0 <= y)
        by (nonlinear_arith)
        requires
            60_000_000 * excess - d < d * ramp < 60_000_000 * excess + d,
            y == d * z,
            z == 60_000_000 - ramp,
            z >= 0,
            d > 0,
    ;
    let p = x * y;
    assert(p == (high * d) * sz) by (nonlinear_arith)
        requires
            p == x * y,
            x == high * s,
            y == d * z,
            sz == s * z,
    ;
    let gap = 60_000_000 * (d - excess);
    assert(0 <= gap <= 60_000_000 * d) by (nonlinear_arith)
        requires
            gap == 60_000_000 * (d - excess),
            0 <= excess <= d,
    ;
    assert(p <= (d * 1_000_000) * (gap + d)) by (nonlinear_arith)
        requires
            p == x * y,
            0 <= x <= d * 1_000_000,
            0 <= y <= gap + d,
    ;
    assert(p >= (d * 1_000_000) * gap - d * d * 1_000_000 - high * 60_000_000 * d) by {
        if excess == d {
            assert(p >= 0) by (nonlinear_arith)
                requires
                    p == x * y,
                    0 <= x,
                    0 <= y,
            ;
            assert(d * d * 1_000_000 + high * 60_000_000 * d >= 0) by (nonlinear_arith)
                requires
                    d > 0,
                    high > 0,
            ;
            assert((d * 1_000_000) * gap == 0) by (nonlinear_arith)
                requires
                    gap == 0,
            ;
        } else {
            let x0 = d * 1_000_000 - high;
            let y0 = gap - d;
            assert(y0 >= 0 && x0 >= 0) by (nonlinear_arith)
                requires
                    y0 == 60_000_000 * (d - excess) - d,
                    x0 == d * 1_000_000 - high,
                    d - excess >= 1,
                    0 < d <= 255,
                    high <= 255,
            ;
            assert(p >= x0 * y0) by (nonlinear_arith)
                requires
                    p == x * y,
                    x >= x0,
                    y >= y0,
                    x0 >= 0,
                    y0 >= 0,
            ;
            assert(x0 * y0 >= (d * 1_000_000) * gap - d * d * 1_000_000 - high * 60_000_000 * d)
                by (nonlinear_arith)
                requires
                    x0 == d * 1_000_000 - high,
                    y0 == gap - d,
                    0 <= gap <= 60_000_000 * d,
                    high > 0,
                    d > 0,
            ;
        }
    }
    // high * d * w, then high * w.
    let hw = high * w;
    assert(d * hw == (high * d) * 60_000_000_000_000 - p) by (nonlinear_arith)
        requires
            hw == high * w,
            w == 60_000_000_000_000 - sz,
            p == (high * d) * sz,
    ;
    let centre = 60_000_000_000_000 * mid;
    assert(d * hw >= d * (centre - d * 1_000_000)) by (nonlinear_arith)
        requires
            d * hw == (high * d) * 60_000_000_000_000 - p,
            p <= (d * 1_000_000) * (gap + d),
            gap == 60_000_000 * (d - excess),
            centre == 60_000_000_000_000 * mid,
            mid == high - d + excess,
    ;
    assert(d * hw <= d * (centre + d * 1_000_000 + high * 60_000_000)) by (nonlinear_arith)
        requires
            d * hw == (high * d) * 60_000_000_000_000 - p,
            p >= (d * 1_000_000) * gap - d * d * 1_000_000 - high * 60_000_000 * d,
            gap == 60_000_000 * (d - excess),
            centre == 60_000_000_000_000 * mid,
            mid == high - d + excess,
    ;
    assert(centre - d * 1_000_000 <= hw <= centre + d * 1_000_000 + high * 60_000_000)
        by (nonlinear_arith)
        requires
            d * hw >= d * (centre - d * 1_000_000),
            d * hw <= d * (centre + d * 1_000_000 + high * 60_000_000),
            d > 0,
    ;
    let n = 255 * v * ((1_000_000 - s) * 60_000_000 + s * ramp);
    assert(n == a * w) by (nonlinear_arith)
        requires
            n == 255 * v * ((1_000_000 - s) * 60_000_000 + s * ramp),
            a == 255 * v,
            w == (1_000_000 - s) * 60_000_000 + s * ramp,
    ;
    assert(a * w <= 1_000_000 * hw) by (nonlinear_arith)
        requires
            a <= high * 1_000_000,
            hw == high * w,
            w >= 0,
    ;
    assert(a * w >= 1_000_000 * hw - 254 * 60_000_000_000_000) by (nonlinear_arith)
        requires
            a >= high * 1_000_000 - 254,
            hw == high * w,
            0 <= w <= 60_000_000_000_000,
    ;
    assert(mid * 60_000_000_000_000_000_000 == 1_000_000 * centre) by (nonlinear_arith)
        requires
            centre == 60_000_000_000_000 * mid,
    ;
    lemma_round_div_is(n, 60_000_000_000_000_000_000, mid);
}

/// The ramp of a hue that stands `part` hue units past an even number of
/// sectors is `part` without its sign.
pub proof fn lemma_ramp_of(hsv: HSV, pairs: int, part: int)
    requires
        hsv.h == pairs * 120_000_000 + part,
        -60_000_000 <= part <= 60_000_000,
    ensures
        hsv.spec_ramp() == if part < 0 {
            -part
        } else {
            part
        },
{
    let within = hsv.h as int % 120_000_000;
    if part < 0 {
        vstd::arithmetic::div_mod::lemma_fundamental_div_mod_converse_mod(
            hsv.h as int,
            120_000_000,
            pairs - 1,
            120_000_000 + part,
        );
    } else {
        vstd::arithmetic::div_mod::lemma_fundamental_div_mod_converse_mod(
            hsv.h as int,
            120_000_000,
            pairs,
            part,
        );
    }
}

/// Converting any RGB colour to HSV and back gives the same colour, so no
/// channel drifts by as much as one step.
pub proof fn lemma_round_trip(c: RGB)
    ensures
        c.spec_to_hsv().wf(),
        c.spec_to_hsv().spec_to_rgb() == c,
        channel_gap(c.spec_to_hsv().spec_to_rgb().r, c.r) <= 1,
        channel_gap(c.spec_to_hsv().spec_to_rgb().g, c.g) <= 1,
        channel_gap(c.spec_to_hsv().spec_to_rgb().b, c.b) <= 1,
{
    let high = c.high();
    let low = c.low();
    let d = c.spread();
    let hsv = c.spec_to_hsv();
    let v = lemma_value_bounds(high);
    assert(hsv.v == v);
    lemma_top_channel(high, v);
    if high == 0 {
        assert(hsv.s == 0 && hsv.h == 0);
        assert(hsv.spec_ramp() == 0);
        assert(v == 0);
        assert(hsv.spec_top() == 0);
        assert(hsv.spec_bottom() == 0);
        assert(hsv.spec_middle() == 0);
        assert(hsv.spec_to_rgb() == c);
    } else {
        let s = lemma_saturation_bounds(high, low);
        assert(hsv.s == s);
        lemma_bottom_channel(high, low, v, s);
        assert(hsv.spec_top() == high);
        assert(hsv.spec_bottom() == low);
        if d == 0 {
            assert(s == 0) by (nonlinear_arith)
                requires
                    -high < high * s <= 0,
                    0 < high,
            ;
            assert(hsv.h == 0);
            assert(hsv.spec_ramp() == 0);
            assert(255 * v * ((1_000_000 - 0) * 60_000_000 + 0 * 0) == (255 * v)
                * 60_000_000_000_000) by (nonlinear_arith);
            lemma_round_div_scaled(255 * v, 1_000_000, 60_000_000_000_000);
            assert(hsv.spec_middle() == high);
            assert(hsv.spec_to_rgb() == c);
        } else {
            let turns: int = if high == c.r {
                if c.g < c.b {
                    6
                } else {
                    0
                }
            } else if high == c.g {
                2
            } else {
                4
            };
            let lead: int = if high == c.r {
                c.g - c.b
            } else if high == c.g {
                c.b - c.r
            } else {
                c.r - c.g
            };
            let part = lemma_hue_parts(turns, lead, d);
            assert(c.spec_hue() == turns * 60_000_000 + part);
            if turns == 4 && lead >= 0 {
                assert(part < 60_000_000) by (nonlinear_arith)
                    requires
                        d * part <= 60_000_000 * lead,
                        lead < d,
                        d > 0,
                ;
            }
            assert(0 <= c.spec_hue() < 360_000_000);
            assert(hsv.h == turns * 60_000_000 + part);
            lemma_ramp_of(hsv, turns / 2, part);
            let ramp = hsv.spec_ramp();
            let excess = if lead < 0 {
                -lead
            } else {
                lead
            };
            assert(60_000_000 * excess - d < d * ramp < 60_000_000 * excess + d) by (nonlinear_arith)
                requires
                    d * part <= 60_000_000 * lead < d * part + d,
                    excess == if lead < 0 {
                        -lead
                    } else {
                        lead
                    },
                    ramp == if part < 0 {
                        -part
                    } else {
                        part
                    },
                    lead >= 0 ==> part >= 0,
                    lead < 0 ==> part < 0,
            ;
            lemma_middle_channel(high, low, excess, v, s, ramp);
            assert(hsv.spec_middle() == low + excess);
            let sector = hsv.h as int / 60_000_000;
            if part < 0 {
                lemma_fundamental_div_mod_converse_div(
                    hsv.h as int,
                    60_000_000,
                    turns - 1,
                    60_000_000 + part,
                );
                assert(sector == turns - 1);
            } else if part < 60_000_000 {
                lemma_fundamental_div_mod_converse_div(hsv.h as int, 60_000_000, turns, part);
                assert(sector == turns);
            } else {
                lemma_fundamental_div_mod_converse_div(hsv.h as int, 60_000_000, turns + 1, 0);
                assert(sector == turns + 1);
                assert(lead == d) by (nonlinear_arith)
                    requires
                        d * part <= 60_000_000 * lead,
                        part == 60_000_000,
                        lead <= d,
                        d > 0,
                ;
            }
            assert(hsv.spec_to_rgb() == c);
        }
    }
}

/// How far two channel values stand apart.
pub open spec fn channel_gap(a: u8, b: u8) -> int {
    if a >= b {
        a - b
    } else {
        b - a
    }
}

} // verus!
