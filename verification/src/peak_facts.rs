//! What holds of the peaks of every tally: which hue bins they are, how far
//! apart they stand, which of them comes first, and how much of the frame
//! its region covers.

use vstd::prelude::*;
use crate::color::HUE_UNIT;
use crate::histogram::{is_colorful, lemma_full_turns, peak_key, Peak, Tally};
use crate::ranking::{arranged, is_ranking, lemma_ranking_exists, lemma_ranking_first, occurs, precedes, ranking};

verus! {

/// The hue bin of a peak: the whole degrees of its hue.
pub open spec fn degree_of(peak: Peak) -> int {
    peak.hue as int / HUE_UNIT as int
}

/// The peaks among the first `upto` hue bins are those bins that are peaks,
/// each once and by ascending hue.
pub proof fn lemma_hue_peaks(tally: Tally, upto: nat, min_percentage: u32)
    requires
        upto <= 360,
    ensures
        tally.hue_peaks(upto, min_percentage).len() <= upto,
        forall|i: int|
            0 <= i < tally.hue_peaks(upto, min_percentage).len() ==> {
                let peak = #[trigger] tally.hue_peaks(upto, min_percentage)[i];
                &&& 0 <= degree_of(peak) < upto
                &&& tally.is_peak(degree_of(peak), min_percentage)
                &&& peak == tally.peak_at(degree_of(peak))
            },
        forall|i: int, j: int|
            0 <= i < j < tally.hue_peaks(upto, min_percentage).len() ==> degree_of(
                #[trigger] tally.hue_peaks(upto, min_percentage)[i],
            ) < degree_of(#[trigger] tally.hue_peaks(upto, min_percentage)[j]),
        forall|degree: int|
            0 <= degree < upto && tally.is_peak(degree, min_percentage) ==> tally.hue_peaks(
                upto,
                min_percentage,
            ).contains(#[trigger] tally.peak_at(degree)),
    decreases upto,
{
    if upto > 0 {
        lemma_hue_peaks(tally, (upto - 1) as nat, min_percentage);
        let before = tally.hue_peaks((upto - 1) as nat, min_percentage);
        let after = tally.hue_peaks(upto, min_percentage);
        let last = upto - 1;
        assert(degree_of(tally.peak_at(last)) == last);
        if tally.is_peak(last, min_percentage) {
            assert(after == before.push(tally.peak_at(last)));
            assert forall|i: int| 0 <= i < after.len() implies {
                let peak = #[trigger] after[i];
                &&& 0 <= degree_of(peak) < upto
                &&& tally.is_peak(degree_of(peak), min_percentage)
                &&& peak == tally.peak_at(degree_of(peak))
            } by {
                if i < before.len() {
                    assert(after[i] == before[i]);
                }
            }
            assert forall|i: int, j: int| 0 <= i < j < after.len() implies degree_of(
                #[trigger] after[i],
            ) < degree_of(#[trigger] after[j]) by {
                assert(after[i] == before[i]);
                if j < before.len() {
                    assert(after[j] == before[j]);
                }
            }
            assert forall|degree: int|
                0 <= degree < upto && tally.is_peak(degree, min_percentage) implies after.contains(
                #[trigger] tally.peak_at(degree),
            ) by {
                if degree == last {
                    assert(after[before.len() as int] == tally.peak_at(degree));
                } else {
                    assert(before.contains(tally.peak_at(degree)));
                    let i = choose|i: int| 0 <= i < before.len() && before[i] == tally.peak_at(degree);
                    assert(after[i] == tally.peak_at(degree));
                }
            }
        }
    }
}

/// Two hue bins that are both peaks stand more than five degrees apart
/// round the circle.
pub proof fn lemma_peaks_apart(tally: Tally, first: int, second: int, min_percentage: u32)
    requires
        0 <= first < second < 360,
        tally.is_peak(first, min_percentage),
        tally.is_peak(second, min_percentage),
    ensures
        second - first > 5,
        first + 360 - second > 5,
{
    if second - first <= 5 {
        let offset = second - first;
        assert(tally.beats(first, offset));
        assert(tally.beats(second, offset));
        assert(first + offset == second);
        assert(second - offset == first);
    }
    if first + 360 - second <= 5 {
        let offset = first + 360 - second;
        assert(tally.beats(first, offset));
        assert(tally.beats(second, offset));
        lemma_full_turns(tally, second, -1);
        lemma_full_turns(tally, first, 1);
        assert(first - offset == second + 360 * (-1));
        assert(second + offset == first + 360 * 1);
    }
}

/// The keys by which a list of peaks is ranked.
pub open spec fn keys_of(peaks: Seq<Peak>) -> Seq<u128> {
    peaks.map_values(|peak: Peak| peak_key(peak))
}

/// Ranking keeps the peaks: the peaks of a tally with pixels are its
/// candidates, each as often as it is a candidate.
pub proof fn lemma_find_peaks_members(tally: Tally, min_percentage: u32)
    requires
        tally.total > 0,
    ensures
        tally.find_peaks(min_percentage).len() == tally.candidates(min_percentage).len(),
        is_ranking(
            keys_of(tally.candidates(min_percentage)),
            ranking(keys_of(tally.candidates(min_percentage))),
        ),
        forall|peak: Peak|
            tally.find_peaks(min_percentage).contains(peak) <==> tally.candidates(
                min_percentage,
            ).contains(peak),
{
    let found = tally.candidates(min_percentage);
    lemma_hue_peaks(tally, 360, min_percentage);
    let keys = keys_of(found);
    lemma_ranking_exists(keys);
    let order = ranking(keys);
    let peaks = tally.find_peaks(min_percentage);
    assert(peaks == arranged(found, order));
    assert forall|peak: Peak| peaks.contains(peak) <==> found.contains(peak) by {
        if peaks.contains(peak) {
            let i = choose|i: int| 0 <= i < peaks.len() && peaks[i] == peak;
            assert(found[order[i] as int] == peak);
        }
        if found.contains(peak) {
            let a = choose|a: int| 0 <= a < found.len() && found[a] == peak;
            assert(occurs(order, a));
            let i = choose|i: int| 0 <= i < order.len() && order[i] == a;
            assert(peaks[i] == peak);
        }
    }
}

/// What a peak stands for: a hue bin that is a peak, with the bin's count,
/// or the grey pixels, which then are more than the given share of all
/// pixels.
pub open spec fn stands_for(tally: Tally, peak: Peak, min_percentage: u32) -> bool {
    ||| {
        &&& 0 <= degree_of(peak) < 360
        &&& tally.is_peak(degree_of(peak), min_percentage)
        &&& peak == tally.peak_at(degree_of(peak))
        &&& peak.count == tally.hue[degree_of(peak)].count
    }
    ||| {
        &&& tally.exceeds(tally.gray.count, min_percentage)
        &&& peak == tally.gray_peak()
    }
}

/// Which peaks a tally with pixels has. Every hue bin that is a peak gives
/// its peak, and every peak stands for such a bin or for the grey pixels.
pub proof fn lemma_peak_rule(tally: Tally, min_percentage: u32)
    requires
        tally.wf(),
        0 < tally.total <= u64::MAX,
    ensures
        forall|degree: int|
            0 <= degree < 360 && tally.is_peak(degree, min_percentage) ==> tally.find_peaks(
                min_percentage,
            ).contains(#[trigger] tally.peak_at(degree)),
        forall|i: int|
            0 <= i < tally.find_peaks(min_percentage).len() ==> stands_for(
                tally,
                #[trigger] tally.find_peaks(min_percentage)[i],
                min_percentage,
            ),
{
    let colored = tally.hue_peaks(360, min_percentage);
    let found = tally.candidates(min_percentage);
    let peaks = tally.find_peaks(min_percentage);
    lemma_hue_peaks(tally, 360, min_percentage);
    lemma_find_peaks_members(tally, min_percentage);
    assert forall|degree: int|
        0 <= degree < 360 && tally.is_peak(degree, min_percentage) implies peaks.contains(
        #[trigger] tally.peak_at(degree),
    ) by {
        let peak = tally.peak_at(degree);
        assert(colored.contains(peak));
        let a = choose|a: int| 0 <= a < colored.len() && colored[a] == peak;
        assert(found[a] == peak);
        assert(found.contains(peak));
    }
    assert forall|i: int| 0 <= i < peaks.len() implies stands_for(
        tally,
        #[trigger] peaks[i],
        min_percentage,
    ) by {
        let peak = peaks[i];
        assert(peaks.contains(peak));
        assert(found.contains(peak));
        let a = choose|a: int| 0 <= a < found.len() && found[a] == peak;
        if a < colored.len() {
            assert(found[a] == colored[a]);
            lemma_peak_at(tally, degree_of(colored[a]));
        }
    }
}

/// Where one hue bin is a peak, no other is, and the grey pixels are not more
/// than the given share of all pixels, the peaks are that one peak.
pub proof fn lemma_single_peak(tally: Tally, degree: int, min_percentage: u32)
    requires
        tally.wf(),
        0 < tally.total <= u64::MAX,
        0 <= degree < 360,
        tally.is_peak(degree, min_percentage),
        forall|other: int|
            0 <= other < 360 && other != degree ==> !#[trigger] tally.is_peak(other, min_percentage),
        !tally.exceeds(tally.gray.count, min_percentage),
    ensures
        tally.find_peaks(min_percentage) == seq![tally.peak_at(degree)],
{
    let colored = tally.hue_peaks(360, min_percentage);
    let peaks = tally.find_peaks(min_percentage);
    lemma_hue_peaks(tally, 360, min_percentage);
    lemma_find_peaks_members(tally, min_percentage);
    let peak = tally.peak_at(degree);
    assert(colored.contains(peak));
    if colored.len() > 1 {
        assert(degree_of(colored[0]) < degree_of(colored[1]));
    }
    assert(colored[0] == tally.peak_at(degree_of(colored[0])));
    let order = ranking(keys_of(colored));
    assert(order[0] < colored.len());
    assert(peaks =~= seq![peak]);
}

/// A hue bin is the peak that comes first where it is a peak of coloured
/// mean, holds more pixels than every other hue bin that is a peak, and the
/// grey pixels, if they make a peak of coloured mean, are no more than it
/// holds.
pub open spec fn leads(tally: Tally, degree: int, min_percentage: u32) -> bool {
    &&& 0 <= degree < 360
    &&& tally.is_peak(degree, min_percentage)
    &&& is_colorful(tally.peak_at(degree))
    &&& forall|other: int|
        0 <= other < 360 && other != degree && #[trigger] tally.is_peak(other, min_percentage)
            ==> tally.hue[other].count < tally.hue[degree].count
    &&& tally.exceeds(tally.gray.count, min_percentage) && is_colorful(tally.gray_peak())
        ==> tally.gray.count <= tally.hue[degree].count
}

/// What a peak says of its hue bin: the bin's degrees and its count.
pub proof fn lemma_peak_at(tally: Tally, degree: int)
    requires
        tally.wf(),
        tally.total <= u64::MAX,
        0 <= degree < 360,
    ensures
        degree_of(tally.peak_at(degree)) == degree,
        tally.peak_at(degree).hue == degree * HUE_UNIT,
        tally.peak_at(degree).count == tally.hue[degree].count,
        tally.gray_peak().count == tally.gray.count,
{
    crate::histogram::lemma_bins_bounded(tally);
}

/// A coloured peak's key is above that of every peak with a smaller count,
/// and not below that of one with the same count.
pub proof fn lemma_key_above(top: Peak, other: Peak)
    requires
        is_colorful(top),
        other.count <= top.count,
    ensures
        peak_key(other) <= peak_key(top),
        other.count < top.count ==> peak_key(other) < peak_key(top),
{
}

/// The place of a hue bin that leads stands before every other place among
/// the candidates.
proof fn lemma_top_precedes(tally: Tally, degree: int, min_percentage: u32, top: int, other: int)
    requires
        tally.wf(),
        0 < tally.total <= u64::MAX,
        leads(tally, degree, min_percentage),
        0 <= top < tally.hue_peaks(360, min_percentage).len(),
        tally.hue_peaks(360, min_percentage)[top] == tally.peak_at(degree),
        0 <= other < tally.candidates(min_percentage).len(),
        other != top,
    ensures
        precedes(keys_of(tally.candidates(min_percentage)), top, other),
{
    let colored = tally.hue_peaks(360, min_percentage);
    let found = tally.candidates(min_percentage);
    lemma_hue_peaks(tally, 360, min_percentage);
    lemma_peak_at(tally, degree);
    let top_peak = tally.peak_at(degree);
    assert(found[top] == top_peak);
    if other < colored.len() {
        let peak = colored[other];
        assert(found[other] == peak);
        let d = degree_of(peak);
        if d == degree {
            // Two places with one hue: the hues ascend, so there are none.
            if other < top {
                assert(degree_of(colored[other]) < degree_of(colored[top]));
            } else {
                assert(degree_of(colored[top]) < degree_of(colored[other]));
            }
        }
        assert(tally.is_peak(d, min_percentage));
        lemma_peak_at(tally, d);
        lemma_key_above(top_peak, peak);
    } else {
        let gray = tally.gray_peak();
        assert(found[other] == gray);
        assert(top < other);
        if is_colorful(gray) {
            lemma_key_above(top_peak, gray);
        }
    }
}

/// The peak of a hue bin that leads is the first of the peaks.
pub proof fn lemma_top_peak(tally: Tally, degree: int, min_percentage: u32)
    requires
        tally.wf(),
        0 < tally.total <= u64::MAX,
        leads(tally, degree, min_percentage),
    ensures
        tally.find_peaks(min_percentage).len() > 0,
        tally.find_peaks(min_percentage)[0] == tally.peak_at(degree),
{
    let colored = tally.hue_peaks(360, min_percentage);
    let found = tally.candidates(min_percentage);
    let keys = keys_of(found);
    lemma_hue_peaks(tally, 360, min_percentage);
    lemma_find_peaks_members(tally, min_percentage);
    let top_peak = tally.peak_at(degree);
    assert(colored.contains(top_peak));
    let top = choose|i: int| 0 <= i < colored.len() && colored[i] == top_peak;
    assert(found[top] == top_peak);
    assert forall|other: int| 0 <= other < keys.len() && other != top implies precedes(
        keys,
        top,
        other,
    ) by {
        lemma_top_precedes(tally, degree, min_percentage, top, other);
    }
    lemma_ranking_first(keys, ranking(keys), top);
}

/// A span is the same a full turn further on.
pub proof fn lemma_span_turn(tally: Tally, start: int, len: nat, turns: int)
    ensures
        tally.span(start + 360 * turns, len) == tally.span(start, len),
    decreases len,
{
    if len > 0 {
        lemma_span_turn(tally, start, (len - 1) as nat, turns);
        vstd::arithmetic::div_mod::lemma_mod_multiples_vanish(turns, start + len - 1, 360);
        assert(360 * turns + (start + len - 1) == start + 360 * turns + len - 1);
    }
}

/// A longer span from the same start counts no fewer pixels.
pub proof fn lemma_span_longer(tally: Tally, start: int, shorter: nat, longer: nat)
    requires
        shorter <= longer,
    ensures
        tally.span(start, shorter).count <= tally.span(start, longer).count,
    decreases longer,
{
    if shorter < longer {
        lemma_span_longer(tally, start, shorter, (longer - 1) as nat);
    }
}

/// A span that starts one bin earlier counts that bin besides.
pub proof fn lemma_span_earlier(tally: Tally, start: int, len: nat)
    ensures
        tally.span(start - 1, len + 1).count == tally.hue[(start - 1) % 360].count + tally.span(
            start,
            len,
        ).count,
    decreases len,
{
    if len > 0 {
        lemma_span_earlier(tally, start, (len - 1) as nat);
        assert(tally.span(start - 1, len + 1) == tally.span(start - 1, len).merged(
            tally.hue[(start - 1 + (len + 1) - 1) % 360],
        ));
    } else {
        assert(tally.span(start - 1, 1) == tally.span(start - 1, 0).merged(
            tally.hue[(start - 1) % 360],
        ));
    }
}

/// A span that starts earlier and ends no sooner counts no fewer pixels.
pub proof fn lemma_span_within(tally: Tally, outer: int, outer_len: nat, inner: int, inner_len: nat)
    requires
        outer <= inner,
        inner + inner_len <= outer + outer_len,
    ensures
        tally.span(inner, inner_len).count <= tally.span(outer, outer_len).count,
    decreases inner - outer,
{
    if outer == inner {
        lemma_span_longer(tally, inner, inner_len, outer_len);
    } else {
        lemma_span_within(tally, outer + 1, (outer_len - 1) as nat, inner, inner_len);
        lemma_span_earlier(tally, outer + 1, (outer_len - 1) as nat);
    }
}

/// Round a hue bin the bins hold up for `spread` bins to either side: over
/// each of them the mean of the five bins centred there is at least a fifth
/// of the bin's count.
pub open spec fn holds_up(tally: Tally, degree: int, spread: nat) -> bool {
    forall|forward: bool, steps: int|
        1 <= steps <= spread ==> tally.window(#[trigger] Tally::step_from(degree, forward, steps))
            >= tally.around(degree)
}

/// Where the bins hold up for `spread` bins, the region grows as far.
pub proof fn lemma_reach_at_least(tally: Tally, degree: int, forward: bool, spread: nat)
    requires
        spread <= 15,
        holds_up(tally, degree, spread),
    ensures
        spread <= tally.reach(degree, forward, 0) <= 15,
{
    crate::histogram::lemma_reach_grows(tally, degree, forward, 0);
    let reach = tally.reach(degree, forward, 0);
    if reach < spread {
        assert(tally.window(Tally::step_from(degree, forward, reach as int + 1)) >= tally.around(degree));
    }
}

/// The region of a hue bin as a span round the bin, without regard to
/// where the circle closes.
pub proof fn lemma_region_span(tally: Tally, degree: int)
    requires
        0 <= degree < 360,
    ensures
        tally.region(degree) == tally.span(
            degree - tally.reach(degree, false, 0),
            tally.reach(degree, false, 0) + tally.reach(degree, true, 0) + 1,
        ),
{
    let left = tally.reach(degree, false, 0);
    let right = tally.reach(degree, true, 0);
    crate::histogram::lemma_reach_grows(tally, degree, false, 0);
    let start = degree - left;
    if start >= 0 {
        assert(start % 360 == start);
    } else {
        assert(start % 360 == start + 360);
        lemma_span_turn(tally, start, left + right + 1, 1);
        assert(start + 360 * 1 == start % 360);
    }
}

/// A region counts at least the bins over which the bins hold up, and at
/// most the fifteen bins to either side with the bin itself.
pub proof fn lemma_region_between(tally: Tally, degree: int, spread: nat)
    requires
        0 <= degree < 360,
        spread <= 15,
        holds_up(tally, degree, spread),
    ensures
        tally.span(degree - spread, 2 * spread + 1).count <= tally.region(degree).count,
        tally.region(degree).count <= tally.span(degree - 15, 31).count,
{
    let left = tally.reach(degree, false, 0);
    let right = tally.reach(degree, true, 0);
    lemma_reach_at_least(tally, degree, false, spread);
    lemma_reach_at_least(tally, degree, true, spread);
    lemma_region_span(tally, degree);
    lemma_span_within(tally, degree - left, left + right + 1, degree - spread, 2 * spread + 1);
    lemma_span_within(tally, degree - 15, 31, degree - left, left + right + 1);
}

/// The coverage of a dominant region. Where a hue bin leads, the bins hold
/// up for `spread` bins round it, those bins hold more than half of all
/// pixels, and the bins within fifteen degrees hold less than four fifths
/// of them, the first peak is that of the bin, and its region covers more
/// than half and less than four fifths of the frame. The share in
/// millionths is that coverage rounded down.
pub proof fn lemma_peak_coverage(tally: Tally, degree: int, spread: nat, min_percentage: u32)
    requires
        tally.wf(),
        0 < tally.total <= u64::MAX,
        leads(tally, degree, min_percentage),
        spread <= 15,
        holds_up(tally, degree, spread),
        2 * tally.span(degree - spread, 2 * spread + 1).count > tally.total,
        5 * tally.span(degree - 15, 31).count < 4 * tally.total,
    ensures
        tally.find_peaks(min_percentage).len() > 0,
        tally.find_peaks(min_percentage)[0] == tally.peak_at(degree),
        tally.find_peaks(min_percentage)[0].hue == degree * HUE_UNIT,
        2 * tally.region(degree).count > tally.total,
        5 * tally.region(degree).count < 4 * tally.total,
        500_000 <= tally.find_peaks(min_percentage)[0].percentage < 800_000,
        tally.total <= 500_000 ==> tally.find_peaks(min_percentage)[0].percentage > 500_000,
{
    lemma_top_peak(tally, degree, min_percentage);
    lemma_peak_at(tally, degree);
    lemma_region_between(tally, degree, spread);
    lemma_share_between(tally.region(degree).count as int, tally.total as int);
}

/// A count of more than half and less than four fifths of a total is, as a
/// share in millionths rounded down, at least half a million and less than
/// eight hundred thousand.
pub proof fn lemma_share_between(count: int, total: int)
    requires
        0 <= count,
        0 < total,
        2 * count > total,
        5 * count < 4 * total,
    ensures
        500_000 <= (count * 1_000_000) / total < 800_000,
        total <= 500_000 ==> (count * 1_000_000) / total > 500_000,
{
    let x = count * 1_000_000;
    vstd::arithmetic::div_mod::lemma_fundamental_div_mod(x, total);
    vstd::arithmetic::div_mod::lemma_mod_bound(x, total);
    let q = x / total;
    assert(500_000 <= q < 800_000 && (total <= 500_000 ==> q > 500_000)) by (nonlinear_arith)
        requires
            x == total * q + x % total,
            0 <= x % total < total,
            x == count * 1_000_000,
            2 * count > total,
            5 * count < 4 * total,
            0 < total,
    ;
}

} // verus!
