//! The hue histogram: bucketed statistics over the pixels of a frame, and the
//! peaks that stand out of them.

use vstd::prelude::*;
use crate::color::{RGB, HUE_TURN, HUE_UNIT, UNIT};
use crate::rounding::{lemma_round_div_at_most, lemma_scaled_quotient_at_most, round_div};
use crate::peak_facts::{lemma_peak_rule, stands_for};
use crate::ranking::{arrange, arranged, precedes, rank_descending, ranking};

verus! {

/// Number of hue bins, one per whole degree.
pub const HUE_BINS: usize = 360;

/// Number of saturation bins.
pub const SATURATION_BINS: usize = 100;

/// Number of value bins.
pub const VALUE_BINS: usize = 100;

/// Saturation below which a pixel counts as grey.
pub const GRAY_SATURATION: u32 = 150_000;

/// The channel sums of a number of pixels.
pub struct ColorTotal {
    pub r: nat,
    pub g: nat,
    pub b: nat,
    pub count: nat,
}

impl ColorTotal {
    pub open spec fn zero() -> ColorTotal {
        ColorTotal { r: 0, g: 0, b: 0, count: 0 }
    }

    /// No channel sum exceeds what `count` pixels can hold.
    pub open spec fn wf(self) -> bool {
        &&& self.r <= 255 * self.count
        &&& self.g <= 255 * self.count
        &&& self.b <= 255 * self.count
    }

    /// The total with one more pixel.
    pub open spec fn plus(self, rgb: RGB) -> ColorTotal {
        ColorTotal {
            r: self.r + rgb.r as nat,
            g: self.g + rgb.g as nat,
            b: self.b + rgb.b as nat,
            count: self.count + 1,
        }
    }

    /// The total of two disjoint sets of pixels.
    pub open spec fn merged(self, other: ColorTotal) -> ColorTotal {
        ColorTotal {
            r: self.r + other.r,
            g: self.g + other.g,
            b: self.b + other.b,
            count: self.count + other.count,
        }
    }

    /// The mean colour, each channel rounded to the nearest step; black for
    /// no pixels.
    pub open spec fn average(self) -> RGB {
        if self.count == 0 {
            RGB { r: 0, g: 0, b: 0 }
        } else {
            RGB {
                r: round_div(self.r as int, self.count as int) as u8,
                g: round_div(self.g as int, self.count as int) as u8,
                b: round_div(self.b as int, self.count as int) as u8,
            }
        }
    }
}

/// Channel sums wide enough for any number of pixels that can be counted.
#[derive(Clone, Copy, Debug)]
pub struct ColorSum {
    pub r: u128,
    pub g: u128,
    pub b: u128,
    pub count: u64,
}

impl View for ColorSum {
    type V = ColorTotal;

    open spec fn view(&self) -> ColorTotal {
        ColorTotal { r: self.r as nat, g: self.g as nat, b: self.b as nat, count: self.count as nat }
    }
}

impl ColorSum {
    pub fn empty() -> (sum: ColorSum)
        ensures
            sum@ == ColorTotal::zero(),
    {
        ColorSum { r: 0, g: 0, b: 0, count: 0 }
    }

    /// The sum with one more pixel.
    pub fn with_pixel(&self, rgb: RGB) -> (sum: ColorSum)
        requires
            self@.wf(),
            self.count < u64::MAX,
        ensures
            sum@ == self@.plus(rgb),
            sum@.wf(),
    {
        ColorSum {
            r: self.r + rgb.r as u128,
            g: self.g + rgb.g as u128,
            b: self.b + rgb.b as u128,
            count: self.count + 1,
        }
    }

    /// The sum of two sums.
    pub fn with_sum(&self, other: &ColorSum) -> (sum: ColorSum)
        requires
            self@.wf(),
            other@.wf(),
            self.count + other.count <= u64::MAX,
        ensures
            sum@ == self@.merged(other@),
            sum@.wf(),
    {
        ColorSum {
            r: self.r + other.r,
            g: self.g + other.g,
            b: self.b + other.b,
            count: self.count + other.count,
        }
    }

    /// The mean colour of the pixels summed.
    pub fn average(&self) -> (rgb: RGB)
        requires
            self@.wf(),
        ensures
            rgb == self@.average(),
    {
        if self.count == 0 {
            RGB { r: 0, g: 0, b: 0 }
        } else {
            let n: u128 = self.count as u128;
            proof {
                lemma_round_div_at_most(self.r as int, n as int, 255);
                lemma_round_div_at_most(self.g as int, n as int, 255);
                lemma_round_div_at_most(self.b as int, n as int, 255);
            }
            RGB {
                r: ((2 * self.r + n) / (2 * n)) as u8,
                g: ((2 * self.g + n) / (2 * n)) as u8,
                b: ((2 * self.b + n) / (2 * n)) as u8,
            }
        }
    }
}

/// The hue bin of a hue: its whole degrees, at most 359.
pub open spec fn hue_bin(h: u32) -> int {
    if h as int / HUE_UNIT as int >= 359 {
        359
    } else {
        h as int / HUE_UNIT as int
    }
}

/// The value bin of a colour among a hundred: 99 times its value, the largest
/// channel over 255, rounded down. It is never more than 99.
pub open spec fn value_bin(rgb: RGB) -> int {
    (99 * rgb.high()) / 255
}

/// The saturation bin of a colour among a hundred: 99 times its saturation,
/// the spread over the largest channel, rounded down; 0 for black. It is
/// never more than 99.
pub open spec fn saturation_bin(rgb: RGB) -> int {
    if rgb.high() == 0 {
        0
    } else {
        (99 * rgb.spread()) / rgb.high()
    }
}

/// The number of pixels in the first `upto` bins.
pub open spec fn counted(bins: Seq<ColorTotal>, upto: nat) -> nat
    decreases upto,
{
    if upto == 0 {
        0
    } else {
        counted(bins, (upto - 1) as nat) + bins[upto - 1].count
    }
}

/// What a histogram holds: bucketed statistics of the pixels added to it.
pub struct Tally {
    /// Per whole degree of hue, the sums of the coloured pixels with that hue.
    pub hue: Seq<ColorTotal>,
    /// Per saturation bin, the number of coloured pixels.
    pub saturation: Seq<nat>,
    /// Per value bin, the number of grey pixels.
    pub value: Seq<nat>,
    /// The sums of the grey pixels.
    pub gray: ColorTotal,
    /// The number of pixels, coloured and grey.
    pub total: nat,
}

impl Tally {
    pub open spec fn empty() -> Tally {
        Tally {
            hue: Seq::new(HUE_BINS as nat, |i: int| ColorTotal::zero()),
            saturation: Seq::new(SATURATION_BINS as nat, |i: int| 0nat),
            value: Seq::new(VALUE_BINS as nat, |i: int| 0nat),
            gray: ColorTotal::zero(),
            total: 0,
        }
    }

    /// The bins have their lengths, every sum fits its count, and every pixel
    /// is counted once, as coloured or as grey.
    pub open spec fn wf(self) -> bool {
        &&& self.hue.len() == HUE_BINS
        &&& self.saturation.len() == SATURATION_BINS
        &&& self.value.len() == VALUE_BINS
        &&& forall|i: int| 0 <= i < self.hue.len() ==> (#[trigger] self.hue[i]).wf()
        &&& self.gray.wf()
        &&& counted(self.hue, HUE_BINS as nat) + self.gray.count == self.total
        &&& forall|i: int| 0 <= i < self.saturation.len() ==> #[trigger] self.saturation[i] <= self.total
        &&& forall|i: int| 0 <= i < self.value.len() ==> #[trigger] self.value[i] <= self.total
    }

    /// The tally with one more pixel: a pixel of saturation under 0.15 is
    /// grey and goes to its value bin and the grey sums; any other goes to
    /// its hue bin and its saturation bin.
    pub open spec fn add(self, rgb: RGB) -> Tally {
        let hsv = rgb.spec_to_hsv();
        if hsv.s < GRAY_SATURATION {
            let bin = value_bin(rgb);
            Tally {
                value: self.value.update(bin, self.value[bin] + 1),
                gray: self.gray.plus(rgb),
                total: self.total + 1,
                ..self
            }
        } else {
            let bin = hue_bin(hsv.h);
            let level = saturation_bin(rgb);
            Tally {
                hue: self.hue.update(bin, self.hue[bin].plus(rgb)),
                saturation: self.saturation.update(level, self.saturation[level] + 1),
                total: self.total + 1,
                ..self
            }
        }
    }

    /// The tally of a sequence of pixels.
    pub open spec fn of(pixels: Seq<RGB>) -> Tally
        decreases pixels.len(),
    {
        if pixels.len() == 0 {
            Tally::empty()
        } else {
            Tally::of(pixels.drop_last()).add(pixels.last())
        }
    }
}

/// Replacing one bin changes the count of a prefix that holds it by the
/// difference of the two bins.
pub proof fn lemma_counted_update(bins: Seq<ColorTotal>, i: int, bin: ColorTotal, upto: nat)
    requires
        0 <= i < bins.len(),
        upto <= bins.len(),
    ensures
        counted(bins.update(i, bin), upto) + (if i < upto {
            bins[i].count
        } else {
            0
        }) == counted(bins, upto) + (if i < upto {
            bin.count
        } else {
            0
        }),
    decreases upto,
{
    if upto > 0 {
        lemma_counted_update(bins, i, bin, (upto - 1) as nat);
    }
}

/// A longer prefix counts no fewer pixels.
pub proof fn lemma_counted_monotone(bins: Seq<ColorTotal>, shorter: nat, longer: nat)
    requires
        shorter <= longer,
    ensures
        counted(bins, shorter) <= counted(bins, longer),
    decreases longer,
{
    if shorter < longer {
        lemma_counted_monotone(bins, shorter, (longer - 1) as nat);
    }
}

/// Empty bins count nothing.
pub proof fn lemma_counted_zero(bins: Seq<ColorTotal>, upto: nat)
    requires
        upto <= bins.len(),
        forall|i: int| 0 <= i < bins.len() ==> (#[trigger] bins[i]).count == 0,
    ensures
        counted(bins, upto) == 0,
    decreases upto,
{
    if upto > 0 {
        lemma_counted_zero(bins, (upto - 1) as nat);
    }
}

/// Adding a pixel keeps a tally well formed.
pub proof fn lemma_add_wf(tally: Tally, rgb: RGB)
    requires
        tally.wf(),
    ensures
        tally.add(rgb).wf(),
{
    let hsv = rgb.spec_to_hsv();
    crate::round_trip::lemma_round_trip(rgb);
    let next = tally.add(rgb);
    if hsv.s < GRAY_SATURATION {
        assert(0 <= value_bin(rgb) < 100);
        assert(next.wf());
    } else {
        if rgb.high() != 0 {
            lemma_scaled_quotient_at_most(rgb.spread(), rgb.high(), 1, 99);
        }
        assert(0 <= saturation_bin(rgb) < 100);
        let bin = hue_bin(hsv.h);
        lemma_counted_update(tally.hue, bin, tally.hue[bin].plus(rgb), HUE_BINS as nat);
        assert forall|i: int| 0 <= i < next.hue.len() implies (#[trigger] next.hue[i]).wf() by {
            if i != bin {
                assert(next.hue[i] == tally.hue[i]);
            }
        }
        assert(next.wf());
    }
}

/// The tally of any sequence of pixels is well formed and counts each of
/// them.
pub proof fn lemma_of_wf(pixels: Seq<RGB>)
    ensures
        Tally::of(pixels).wf(),
        Tally::of(pixels).total == pixels.len(),
    decreases pixels.len(),
{
    if pixels.len() == 0 {
        lemma_counted_zero(Tally::empty().hue, HUE_BINS as nat);
    } else {
        lemma_of_wf(pixels.drop_last());
        lemma_add_wf(Tally::of(pixels.drop_last()), pixels.last());
    }
}

/// A histogram of the pixels added to it. Its view is their tally.
pub struct ColorHistogram {
    /// 360 hue bins, each with the channel sums of its pixels.
    pub hue_bins: Vec<ColorSum>,
    /// 100 saturation bins of the coloured pixels.
    pub saturation_bins: Vec<u64>,
    /// 100 value bins of the grey pixels.
    pub value_bins: Vec<u64>,
    /// The channel sums of the grey pixels.
    pub gray: ColorSum,
    /// The number of pixels added.
    pub total_pixels: u64,
}

impl View for ColorHistogram {
    type V = Tally;

    open spec fn view(&self) -> Tally {
        Tally {
            hue: Seq::new(self.hue_bins@.len(), |i: int| self.hue_bins@[i]@),
            saturation: Seq::new(self.saturation_bins@.len(), |i: int| self.saturation_bins@[i] as nat),
            value: Seq::new(self.value_bins@.len(), |i: int| self.value_bins@[i] as nat),
            gray: self.gray@,
            total: self.total_pixels as nat,
        }
    }
}

impl ColorHistogram {
    /// The histogram's tally is well formed.
    pub open spec fn wf(&self) -> bool {
        self@.wf()
    }

    /// An empty histogram.
    pub fn new() -> (hist: ColorHistogram)
        ensures
            hist.wf(),
            hist@ == Tally::empty(),
            hist.total_pixels == 0,
    {
        let hist = ColorHistogram {
            hue_bins: vec![ColorSum { r: 0, g: 0, b: 0, count: 0 }; 360],
            saturation_bins: vec![0u64; 100],
            value_bins: vec![0u64; 100],
            gray: ColorSum { r: 0, g: 0, b: 0, count: 0 },
            total_pixels: 0,
        };
        proof {
            assert(hist@.hue =~= Tally::empty().hue);
            assert(hist@.saturation =~= Tally::empty().saturation);
            assert(hist@.value =~= Tally::empty().value);
            lemma_counted_zero(hist@.hue, HUE_BINS as nat);
        }
        hist
    }

    /// Counts one pixel.
    pub fn add_pixel(&mut self, rgb: RGB)
        requires
            old(self).wf(),
            old(self).total_pixels < u64::MAX,
        ensures
            final(self).wf(),
            final(self)@ == old(self)@.add(rgb),
            final(self).total_pixels == old(self).total_pixels + 1,
    {
        let hsv = rgb.to_hsv();
        proof {
            lemma_add_wf(self@, rgb);
            lemma_bins_bounded(self@);
        }
        if hsv.s < GRAY_SATURATION {
            let bin: usize = value_index(rgb);
            let seen: u64 = self.value_bins[bin];
            assert(seen as nat == self@.value[bin as int]);
            self.value_bins[bin] = seen + 1;
            self.gray = self.gray.with_pixel(rgb);
            self.total_pixels = self.total_pixels + 1;
            proof {
                assert(self@.value =~= old(self)@.add(rgb).value);
                assert(self@.hue =~= old(self)@.add(rgb).hue);
                assert(self@.saturation =~= old(self)@.add(rgb).saturation);
            }
        } else {
            let bin: usize = hue_index(hsv.h);
            let level: usize = saturation_index(rgb);
            let sum: ColorSum = self.hue_bins[bin];
            assert(sum@ == self@.hue[bin as int]);
            let seen: u64 = self.saturation_bins[level];
            assert(seen as nat == self@.saturation[level as int]);
            self.hue_bins[bin] = sum.with_pixel(rgb);
            self.saturation_bins[level] = seen + 1;
            self.total_pixels = self.total_pixels + 1;
            proof {
                assert(self@.value =~= old(self)@.add(rgb).value);
                assert(self@.hue =~= old(self)@.add(rgb).hue);
                assert(self@.saturation =~= old(self)@.add(rgb).saturation);
            }
        }
    }

    /// The number of coloured pixels whose hue has `degree` whole degrees.
    pub fn hue_count(&self, degree: usize) -> (count: u64)
        requires
            self.wf(),
            degree < HUE_BINS,
        ensures
            count == self@.hue[degree as int].count,
    {
        self.hue_bins[degree].count
    }

    /// The number of grey pixels.
    pub fn gray_count(&self) -> (count: u64)
        requires
            self.wf(),
        ensures
            count == self@.gray.count,
    {
        self.gray.count
    }

    /// The number of coloured pixels in a saturation bin.
    pub fn saturation_count(&self, bin: usize) -> (count: u64)
        requires
            self.wf(),
            bin < SATURATION_BINS,
        ensures
            count == self@.saturation[bin as int],
    {
        self.saturation_bins[bin]
    }

    /// The number of grey pixels in a value bin.
    pub fn value_count(&self, bin: usize) -> (count: u64)
        requires
            self.wf(),
            bin < VALUE_BINS,
        ensures
            count == self@.value[bin as int],
    {
        self.value_bins[bin]
    }
}

/// In a well-formed tally no bin holds more pixels than the tally counts.
pub proof fn lemma_bins_bounded(tally: Tally)
    requires
        tally.wf(),
    ensures
        forall|i: int| 0 <= i < tally.hue.len() ==> (#[trigger] tally.hue[i]).count <= tally.total,
        tally.gray.count <= tally.total,
{
    assert forall|i: int| 0 <= i < tally.hue.len() implies (#[trigger] tally.hue[i]).count
        <= tally.total by {
        lemma_counted_monotone(tally.hue, (i + 1) as nat, HUE_BINS as nat);
        assert(counted(tally.hue, (i + 1) as nat) == counted(tally.hue, i as nat)
            + tally.hue[i].count);
    }
}

/// The hue bin of a hue.
pub fn hue_index(h: u32) -> (bin: usize)
    ensures
        bin == hue_bin(h),
        bin < HUE_BINS,
{
    let degrees: u32 = h / 1_000_000;
    if degrees >= 359 {
        359
    } else {
        degrees as usize
    }
}

/// The largest and the smallest channel of a colour.
pub fn extremes(rgb: RGB) -> (ends: (u8, u8))
    ensures
        ends.0 == rgb.high(),
        ends.1 == rgb.low(),
{
    let high: u8 = if rgb.r >= rgb.g && rgb.r >= rgb.b {
        rgb.r
    } else if rgb.g >= rgb.b {
        rgb.g
    } else {
        rgb.b
    };
    let low: u8 = if rgb.r <= rgb.g && rgb.r <= rgb.b {
        rgb.r
    } else if rgb.g <= rgb.b {
        rgb.g
    } else {
        rgb.b
    };
    (high, low)
}

/// The value bin of a colour.
pub fn value_index(rgb: RGB) -> (bin: usize)
    ensures
        bin == value_bin(rgb),
        bin < VALUE_BINS,
{
    let high: u8 = extremes(rgb).0;
    (99 * high as usize) / 255
}

/// The saturation bin of a colour.
pub fn saturation_index(rgb: RGB) -> (bin: usize)
    ensures
        bin == saturation_bin(rgb),
        bin < SATURATION_BINS,
{
    let ends: (u8, u8) = extremes(rgb);
    let high: u8 = ends.0;
    let low: u8 = ends.1;
    if high == 0 {
        0
    } else {
        proof {
            lemma_scaled_quotient_at_most((high - low) as int, high as int, 1, 99);
        }
        (99 * (high - low) as usize) / high as usize
    }
}

/// A hue that stands out of a histogram.
#[derive(Clone, Copy, Debug)]
pub struct Peak {
    /// The hue, in hue units.
    pub hue: u32,
    /// The number of pixels in the peak's own bin.
    pub count: u64,
    /// The share of all pixels that lie in the region grown round the peak,
    /// in millionths.
    pub percentage: u32,
    /// The mean colour of that region.
    pub color: RGB,
}

/// Half the width of the window in which a peak must be the one largest bin.
pub const PEAK_WINDOW: usize = 5;

/// The most bins that a peak's region grows to either side.
pub const MAX_REACH: usize = 15;

/// Whether a peak's mean colour is coloured rather than grey.
pub open spec fn is_colorful(peak: Peak) -> bool {
    peak.color.spec_to_hsv().s >= GRAY_SATURATION
}

/// The key by which peaks are ranked: coloured peaks above all grey ones,
/// and within each kind the larger count above.
pub open spec fn peak_key(peak: Peak) -> u128 {
    if is_colorful(peak) {
        (0x1_0000_0000_0000_0000 + peak.count) as u128
    } else {
        peak.count as u128
    }
}

/// Two peaks stand in order: a coloured peak before a grey one, and of two of
/// a kind the one with the larger count first.
pub open spec fn in_order(first: Peak, second: Peak) -> bool {
    if is_colorful(first) == is_colorful(second) {
        first.count >= second.count
    } else {
        is_colorful(first)
    }
}

impl Tally {
    /// The count of the hue bin at `degree`, taken round the circle.
    pub open spec fn around(self, degree: int) -> nat {
        self.hue[degree % 360].count
    }

    /// Whether `count` pixels are at least the given share of all pixels.
    pub open spec fn reaches(self, count: nat, min_percentage: u32) -> bool {
        count * UNIT as nat >= self.total * min_percentage as nat
    }

    /// Whether `count` pixels are more than the given share of all pixels.
    pub open spec fn exceeds(self, count: nat, min_percentage: u32) -> bool {
        count * UNIT as nat > self.total * min_percentage as nat
    }

    /// The bin at `degree` holds more than the bins `offset` away on each
    /// side.
    pub open spec fn beats(self, degree: int, offset: int) -> bool {
        &&& self.around(degree - offset) < self.around(degree)
        &&& self.around(degree + offset) < self.around(degree)
    }

    /// No bin within five degrees on either side holds as much as the bin at
    /// `degree`.
    pub open spec fn stands_out(self, degree: int) -> bool {
        forall|offset: int| 1 <= offset <= PEAK_WINDOW ==> #[trigger] self.beats(degree, offset)
    }

    /// The bin at `degree` is a peak: it holds at least the given share of
    /// all pixels, and more than every bin within five degrees.
    pub open spec fn is_peak(self, degree: int, min_percentage: u32) -> bool {
        &&& self.reaches(self.around(degree), min_percentage)
        &&& self.stands_out(degree)
    }

    /// The sum of the five bins centred at `degree`: five times their mean.
    pub open spec fn window(self, degree: int) -> nat {
        self.around(degree - 2) + self.around(degree - 1) + self.around(degree) + self.around(
            degree + 1,
        ) + self.around(degree + 2)
    }

    /// The bin `steps` bins from `peak`, forward or backward.
    pub open spec fn step_from(peak: int, forward: bool, steps: int) -> int {
        if forward {
            peak + steps
        } else {
            peak - steps
        }
    }

    /// How many bins the region of `peak` grows in one direction, `taken` of
    /// them being taken already: it takes the next bin unless it has fifteen
    /// or the mean of the five bins centred there is under a fifth of the
    /// peak's count.
    pub open spec fn reach(self, peak: int, forward: bool, taken: nat) -> nat
        decreases MAX_REACH - taken,
    {
        if taken >= MAX_REACH {
            MAX_REACH as nat
        } else if self.window(Self::step_from(peak, forward, taken as int + 1)) < self.around(peak) {
            taken
        } else {
            self.reach(peak, forward, taken + 1)
        }
    }

    /// The sums of `len` bins from `start` on, round the circle.
    pub open spec fn span(self, start: int, len: nat) -> ColorTotal
        decreases len,
    {
        if len == 0 {
            ColorTotal::zero()
        } else {
            self.span(start, (len - 1) as nat).merged(self.hue[(start + len - 1) % 360])
        }
    }

    /// The sums of the region grown round `peak`.
    pub open spec fn region(self, peak: int) -> ColorTotal {
        let left = self.reach(peak, false, 0);
        let right = self.reach(peak, true, 0);
        self.span((peak - left) % 360, left + right + 1)
    }

    /// The share of all pixels that `count` of them are, in millionths.
    pub open spec fn share(self, count: nat) -> int {
        (count * UNIT as int) / (self.total as int)
    }

    /// The peak at a hue bin.
    pub open spec fn peak_at(self, degree: int) -> Peak {
        let region = self.region(degree);
        Peak {
            hue: (degree * HUE_UNIT as int) as u32,
            count: self.hue[degree].count as u64,
            percentage: self.share(region.count) as u32,
            color: region.average(),
        }
    }

    /// The peak that stands for the grey pixels.
    pub open spec fn gray_peak(self) -> Peak {
        let color = self.gray.average();
        Peak {
            hue: color.spec_to_hsv().h,
            count: self.gray.count as u64,
            percentage: self.share(self.gray.count) as u32,
            color,
        }
    }

    /// The peaks among the first `upto` hue bins, by ascending hue.
    pub open spec fn hue_peaks(self, upto: nat, min_percentage: u32) -> Seq<Peak>
        decreases upto,
    {
        if upto == 0 {
            Seq::empty()
        } else {
            let before = self.hue_peaks((upto - 1) as nat, min_percentage);
            if self.is_peak(upto - 1, min_percentage) {
                before.push(self.peak_at(upto - 1))
            } else {
                before
            }
        }
    }

    /// All peaks before they are ranked: those of the hue bins, then the
    /// grey peak if the grey pixels are more than the given share of all
    /// pixels.
    pub open spec fn candidates(self, min_percentage: u32) -> Seq<Peak> {
        let colored = self.hue_peaks(HUE_BINS as nat, min_percentage);
        if self.exceeds(self.gray.count, min_percentage) {
            colored.push(self.gray_peak())
        } else {
            colored
        }
    }

    /// The peaks of the tally: none for no pixels, else the candidates with
    /// coloured peaks first and grey ones after, each kind by descending
    /// count, and otherwise in the candidates' order.
    pub open spec fn find_peaks(self, min_percentage: u32) -> Seq<Peak> {
        if self.total == 0 {
            Seq::empty()
        } else {
            let found = self.candidates(min_percentage);
            arranged(found, ranking(found.map_values(|peak: Peak| peak_key(peak))))
        }
    }
}

/// The count of a span of bins, by the counts of prefixes: a span that runs
/// past the last bin continues at the first.
pub proof fn lemma_span_count(tally: Tally, start: int, len: nat)
    requires
        tally.wf(),
        0 <= start < 360,
        len <= 360,
    ensures
        tally.span(start, len).wf(),
        start + len <= 360 ==> tally.span(start, len).count + counted(tally.hue, start as nat)
            == counted(tally.hue, (start + len) as nat),
        start + len > 360 ==> tally.span(start, len).count + counted(tally.hue, start as nat)
            == counted(tally.hue, 360) + counted(tally.hue, (start + len - 360) as nat),
        tally.span(start, len).count <= counted(tally.hue, 360),
        tally.span(start, len).count <= tally.total,
    decreases len,
{
    if len > 0 {
        lemma_span_count(tally, start, (len - 1) as nat);
        let at = (start + len - 1) % 360;
        assert(tally.hue[at].wf());
        if start + len - 1 < 360 {
            assert(at == start + len - 1);
        } else {
            assert(at == start + len - 1 - 360);
            assert(counted(tally.hue, (start + len - 360) as nat) == counted(
                tally.hue,
                (start + len - 361) as nat,
            ) + tally.hue[at].count);
        }
    }
    if start + len <= 360 {
        lemma_counted_monotone(tally.hue, (start + len) as nat, 360);
    } else {
        lemma_counted_monotone(tally.hue, (start + len - 360) as nat, start as nat);
    }
}

/// Bins are counted round the circle: a full turn further on stands the same
/// bin, and the same window of five.
pub proof fn lemma_full_turns(tally: Tally, degree: int, turns: int)
    ensures
        tally.around(degree + 360 * turns) == tally.around(degree),
        tally.window(degree + 360 * turns) == tally.window(degree),
{
    vstd::arithmetic::div_mod::lemma_mod_multiples_vanish(turns, degree - 2, 360);
    vstd::arithmetic::div_mod::lemma_mod_multiples_vanish(turns, degree - 1, 360);
    vstd::arithmetic::div_mod::lemma_mod_multiples_vanish(turns, degree, 360);
    vstd::arithmetic::div_mod::lemma_mod_multiples_vanish(turns, degree + 1, 360);
    vstd::arithmetic::div_mod::lemma_mod_multiples_vanish(turns, degree + 2, 360);
    assert(360 * turns + (degree - 2) == degree + 360 * turns - 2);
    assert(360 * turns + (degree - 1) == degree + 360 * turns - 1);
    assert(360 * turns + degree == degree + 360 * turns);
    assert(360 * turns + (degree + 1) == degree + 360 * turns + 1);
    assert(360 * turns + (degree + 2) == degree + 360 * turns + 2);
}

/// A span holds each of its bins: it counts at least the pixels of the bin
/// `offset` bins from its start.
pub proof fn lemma_span_holds(tally: Tally, start: int, len: nat, offset: int)
    requires
        0 <= offset < len,
    ensures
        tally.span(start, len).count >= tally.hue[(start + offset) % 360].count,
    decreases len,
{
    if offset < len - 1 {
        lemma_span_holds(tally, start, (len - 1) as nat, offset);
    }
}

/// The region grown round a hue bin holds the bin itself, so a peak's region
/// is never without pixels.
pub proof fn lemma_region_holds_peak(tally: Tally, peak: int)
    requires
        0 <= peak < 360,
    ensures
        tally.region(peak).count >= tally.hue[peak].count,
{
    let left = tally.reach(peak, false, 0);
    let right = tally.reach(peak, true, 0);
    lemma_reach_grows(tally, peak, false, 0);
    let start = (peak - left) % 360;
    lemma_span_holds(tally, start, left + right + 1, left as int);
    if peak >= left {
        assert(start == peak - left);
        assert((start + left) % 360 == peak);
    } else {
        assert(start == peak - left + 360);
        assert((start + left) % 360 == peak);
    }
}

/// How far a region grows: over every bin up to its reach the mean of the
/// five bins centred there is at least a fifth of the peak's count, and it
/// stops short of fifteen bins only where the next mean is less.
pub proof fn lemma_reach_grows(tally: Tally, peak: int, forward: bool, taken: nat)
    requires
        taken <= MAX_REACH,
    ensures
        taken <= tally.reach(peak, forward, taken) <= MAX_REACH,
        forall|steps: int|
            taken < steps <= tally.reach(peak, forward, taken) ==> tally.window(
                #[trigger] Tally::step_from(peak, forward, steps),
            ) >= tally.around(peak),
        tally.reach(peak, forward, taken) < MAX_REACH ==> tally.window(
            Tally::step_from(peak, forward, tally.reach(peak, forward, taken) as int + 1),
        ) < tally.around(peak),
    decreases MAX_REACH - taken,
{
    if taken < MAX_REACH && !(tally.window(Tally::step_from(peak, forward, taken as int + 1))
        < tally.around(peak)) {
        lemma_reach_grows(tally, peak, forward, taken + 1);
    }
}

impl ColorHistogram {
    /// The sum of the five hue bins centred at `at`.
    fn window(&self, at: usize) -> (sum: u128)
        requires
            self.wf(),
            at < HUE_BINS,
        ensures
            sum == self@.window(at as int),
    {
        let a: u128 = self.hue_bins[(at + 358) % 360].count as u128;
        let b: u128 = self.hue_bins[(at + 359) % 360].count as u128;
        let c: u128 = self.hue_bins[at].count as u128;
        let d: u128 = self.hue_bins[(at + 1) % 360].count as u128;
        let e: u128 = self.hue_bins[(at + 2) % 360].count as u128;
        a + b + c + d + e
    }

    /// Whether the bin at `degree` holds more than every bin within five
    /// degrees of it.
    fn stands_out(&self, degree: usize) -> (alone: bool)
        requires
            self.wf(),
            degree < HUE_BINS,
        ensures
            alone == self@.stands_out(degree as int),
    {
        let count: u64 = self.hue_bins[degree].count;
        let mut offset: usize = 1;
        while offset <= 5
            invariant
                1 <= offset <= 6,
                self.wf(),
                degree < HUE_BINS,
                count == self@.around(degree as int),
                forall|k: int| 1 <= k < offset ==> #[trigger] self@.beats(degree as int, k),
            decreases 6 - offset,
        {
            let before: u64 = self.hue_bins[(degree + 360 - offset) % 360].count;
            let after: u64 = self.hue_bins[(degree + offset) % 360].count;
            if before >= count || after >= count {
                assert(!self@.beats(degree as int, offset as int));
                return false;
            }
            offset += 1;
        }
        true
    }

    /// The sum of the five hue bins centred `steps` bins from `peak`.
    fn window_from(&self, peak: usize, forward: bool, steps: usize) -> (sum: u128)
        requires
            self.wf(),
            peak < HUE_BINS,
            steps <= MAX_REACH,
        ensures
            sum == self@.window(Tally::step_from(peak as int, forward, steps as int)),
    {
        let at: usize = if forward {
            if peak + steps >= 360 {
                peak + steps - 360
            } else {
                peak + steps
            }
        } else {
            if peak < steps {
                peak + 360 - steps
            } else {
                peak - steps
            }
        };
        let sum: u128 = self.window(at);
        proof {
            let target = Tally::step_from(peak as int, forward, steps as int);
            if target < 0 {
                lemma_full_turns(self@, at as int, -1);
            } else if target >= 360 {
                lemma_full_turns(self@, at as int, 1);
            }
        }
        sum
    }

    /// How many bins the region of the peak at `peak` grows in one
    /// direction.
    fn reach(&self, peak: usize, forward: bool) -> (steps: usize)
        requires
            self.wf(),
            peak < HUE_BINS,
        ensures
            steps == self@.reach(peak as int, forward, 0),
            steps <= MAX_REACH,
    {
        let count: u128 = self.hue_bins[peak].count as u128;
        let mut steps: usize = 0;
        while steps < 15
            invariant
                steps <= 15,
                self.wf(),
                peak < HUE_BINS,
                count == self@.around(peak as int),
                self@.reach(peak as int, forward, 0) == self@.reach(peak as int, forward, steps as nat),
            decreases 15 - steps,
        {
            let mean5: u128 = self.window_from(peak, forward, steps + 1);
            if mean5 < count {
                return steps;
            }
            steps += 1;
        }
        steps
    }

    /// The sums of `len` hue bins from `start` on, round the circle.
    fn span(&self, start: usize, len: usize) -> (sum: ColorSum)
        requires
            self.wf(),
            start < HUE_BINS,
            len <= HUE_BINS,
        ensures
            sum@ == self@.span(start as int, len as nat),
            sum@.wf(),
            sum.count <= self.total_pixels,
    {
        let mut sum: ColorSum = ColorSum::empty();
        let mut done: usize = 0;
        while done < len
            invariant
                done <= len <= HUE_BINS,
                start < HUE_BINS,
                self.wf(),
                sum@ == self@.span(start as int, done as nat),
                sum@.wf(),
            decreases len - done,
        {
            let at: usize = (start + done) % 360;
            proof {
                lemma_span_count(self@, start as int, (done + 1) as nat);
            }
            sum = sum.with_sum(&self.hue_bins[at]);
            done += 1;
        }
        proof {
            lemma_span_count(self@, start as int, len as nat);
        }
        sum
    }

    /// The share of all pixels that `count` of them are, in millionths.
    fn share(&self, count: u64) -> (share: u32)
        requires
            self.wf(),
            count <= self.total_pixels,
            self.total_pixels > 0,
        ensures
            share == self@.share(count as nat),
            share <= UNIT,
    {
        proof {
            lemma_scaled_quotient_at_most(
                count as int,
                self.total_pixels as int,
                1,
                1_000_000,
            );
            assert(count as nat * UNIT as int == 1_000_000 * count as int);
        }
        (count as u128 * 1_000_000 / self.total_pixels as u128) as u32
    }

    /// The peak at the hue bin `degree`, with the region grown round it.
    fn peak_at(&self, degree: usize) -> (peak: Peak)
        requires
            self.wf(),
            degree < HUE_BINS,
            self.total_pixels > 0,
        ensures
            peak == self@.peak_at(degree as int),
            peak.percentage <= UNIT,
            peak.hue < HUE_TURN,
    {
        let left: usize = self.reach(degree, false);
        let right: usize = self.reach(degree, true);
        let start: usize = (degree + 360 - left) % 360;
        proof {
            if degree >= left {
                assert(start == degree - left);
                assert((degree as int - left as int) % 360 == degree - left);
            } else {
                assert(start == degree + 360 - left);
                assert((degree as int - left as int) % 360 == degree + 360 - left);
            }
        }
        let region: ColorSum = self.span(start, left + right + 1);
        assert(region@ == self@.region(degree as int));
        Peak {
            hue: degree as u32 * 1_000_000,
            count: self.hue_bins[degree].count,
            percentage: self.share(region.count),
            color: region.average(),
        }
    }

    /// The peaks of the histogram: the hue bins that hold at least
    /// `min_percentage` of all pixels and more than every bin within five
    /// degrees, each with the region grown round it, and the grey pixels if
    /// they exceed that share; coloured peaks first, each kind by descending
    /// count.
    pub fn find_peaks(&self, min_percentage: u32) -> (peaks: Vec<Peak>)
        requires
            self.wf(),
        ensures
            peaks@ == self@.find_peaks(min_percentage),
            forall|i: int|
                0 <= i < peaks.len() ==> (#[trigger] peaks[i]).percentage <= UNIT && peaks[i].hue
                    < HUE_TURN,
            forall|i: int, j: int|
                0 <= i < j < peaks.len() ==> in_order(#[trigger] peaks[i], #[trigger] peaks[j]),
            forall|i: int|
                0 <= i < peaks.len() ==> stands_for(self@, #[trigger] peaks[i], min_percentage),
            self.total_pixels > 0 ==> forall|degree: int|
                0 <= degree < 360 && self@.is_peak(degree, min_percentage) ==> peaks@.contains(
                    #[trigger] self@.peak_at(degree),
                ),
    {
        if self.total_pixels == 0 {
            return Vec::new();
        }
        assert(self.total_pixels as u128 * min_percentage as u128 <= 0xffff_ffff_ffff_ffff
            * 0xffff_ffff) by (nonlinear_arith);
        let demand: u128 = self.total_pixels as u128 * min_percentage as u128;
        let mut found: Vec<Peak> = Vec::new();
        let mut keys: Vec<u128> = Vec::new();
        let mut degree: usize = 0;
        while degree < 360
            invariant
                degree <= 360,
                self.wf(),
                self.total_pixels > 0,
                demand == self@.total * min_percentage as nat,
                found@ == self@.hue_peaks(degree as nat, min_percentage),
                keys@ == found@.map_values(|peak: Peak| peak_key(peak)),
                forall|i: int|
                    0 <= i < found.len() ==> (#[trigger] found[i]).percentage <= UNIT && found[i].hue
                        < HUE_TURN,
            decreases 360 - degree,
        {
            if self.hue_bins[degree].count as u128 * 1_000_000 >= demand && self.stands_out(degree) {
                let peak: Peak = self.peak_at(degree);
                found.push(peak);
                keys.push(key_of(&peak));
                proof {
                    assert(keys@ =~= found@.map_values(|peak: Peak| peak_key(peak)));
                }
            }
            degree += 1;
        }
        if self.gray.count as u128 * 1_000_000 > demand {
            let color: RGB = self.gray.average();
            let peak: Peak = Peak {
                hue: color.to_hsv().h,
                count: self.gray.count,
                percentage: self.share(self.gray.count),
                color,
            };
            found.push(peak);
            keys.push(key_of(&peak));
            proof {
                assert(keys@ =~= found@.map_values(|peak: Peak| peak_key(peak)));
            }
        }
        assert(found@ == self@.candidates(min_percentage));
        let order: Vec<usize> = rank_descending(&keys);
        let peaks: Vec<Peak> = arrange(&found, &order);
        proof {
            lemma_peak_rule(self@, min_percentage);
            assert forall|i: int| 0 <= i < peaks.len() implies stands_for(
                self@,
                #[trigger] peaks[i],
                min_percentage,
            ) by {
                assert(peaks[i] == self@.find_peaks(min_percentage)[i]);
            }
            assert forall|a: int, b: int| 0 <= a < b < peaks.len() implies in_order(
                #[trigger] peaks[a],
                #[trigger] peaks[b],
            ) by {
                assert(precedes(keys@, order@[a] as int, order@[b] as int));
            }
        }
        peaks
    }
}

/// The key by which a peak is ranked.
fn key_of(peak: &Peak) -> (key: u128)
    ensures
        key == peak_key(*peak),
{
    if peak.color.to_hsv().s >= GRAY_SATURATION {
        0x1_0000_0000_0000_0000 + peak.count as u128
    } else {
        peak.count as u128
    }
}

} // verus!
