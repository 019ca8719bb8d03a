//! The consensus over the frames of a video: the per-frame results are
//! grouped by hue, and the largest group is averaged.

use vstd::prelude::*;
use crate::color::{hue_distance, hue_gap, HUE_TURN, RGB, UNIT};
use crate::rounding::{lemma_round_div_at_most, lemma_scaled_quotient_at_most, round_div};
use crate::detection::{ChromakeyResult, DetectionConfig, DetectionMethod};

verus! {

/// Two hues fall in one group when their gap round the wheel is under ten
/// degrees.
pub const HUE_TOLERANCE: u32 = 10_000_000;

/// Whether a hue belongs with a group's first hue.
pub open spec fn similar(a: u32, b: u32) -> bool {
    hue_gap(a, b) < HUE_TOLERANCE
}

/// The first group from `from` on whose first member has a hue similar to
/// `hue`; the number of groups if there is none.
pub open spec fn group_for(
    frames: Seq<ChromakeyResult>,
    groups: Seq<Seq<usize>>,
    hue: u32,
    from: nat,
) -> nat
    decreases groups.len() - from,
{
    if from >= groups.len() {
        groups.len()
    } else if similar(hue, frames[groups[from as int][0] as int].hue) {
        from
    } else {
        group_for(frames, groups, hue, from + 1)
    }
}

/// The groups of the first `upto` frames, each a list of frame numbers in
/// the order of arrival: a frame joins the first group that its hue belongs
/// with, or starts a new one.
pub open spec fn groups_of(frames: Seq<ChromakeyResult>, upto: nat) -> Seq<Seq<usize>>
    decreases upto,
{
    if upto == 0 {
        Seq::empty()
    } else {
        let frame = (upto - 1) as usize;
        let before = groups_of(frames, (upto - 1) as nat);
        let joined = group_for(frames, before, frames[frame as int].hue, 0);
        if joined < before.len() {
            before.update(joined as int, before[joined as int].push(frame))
        } else {
            before.push(seq![frame])
        }
    }
}

/// No group is empty, every member is one of the first `upto` frames, and no
/// group has more members than that.
pub open spec fn groups_wf(groups: Seq<Seq<usize>>, upto: nat) -> bool {
    forall|g: int|
        0 <= g < groups.len() ==> {
            &&& 0 < (#[trigger] groups[g]).len() <= upto
            &&& forall|m: int| 0 <= m < groups[g].len() ==> (#[trigger] groups[g][m]) < upto
        }
}

/// Where a hue is placed: in a group whose first member is similar to it and
/// before which no group's first member is, or after the last group if no
/// group's first member is similar.
pub proof fn lemma_group_for(
    frames: Seq<ChromakeyResult>,
    groups: Seq<Seq<usize>>,
    hue: u32,
    from: nat,
)
    requires
        from <= groups.len(),
    ensures
        from <= group_for(frames, groups, hue, from) <= groups.len(),
        group_for(frames, groups, hue, from) < groups.len() ==> similar(
            hue,
            frames[groups[group_for(frames, groups, hue, from) as int][0] as int].hue,
        ),
        forall|g: int|
            from <= g < group_for(frames, groups, hue, from) ==> !similar(
                hue,
                frames[(#[trigger] groups[g])[0] as int].hue,
            ),
    decreases groups.len() - from,
{
    if from < groups.len() && !similar(hue, frames[groups[from as int][0] as int].hue) {
        lemma_group_for(frames, groups, hue, from + 1);
    }
}

/// The groups of any number of frames are well formed.
pub proof fn lemma_groups_wf(frames: Seq<ChromakeyResult>, upto: nat)
    requires
        upto <= frames.len(),
        upto <= usize::MAX,
    ensures
        groups_wf(groups_of(frames, upto), upto),
        upto > 0 ==> groups_of(frames, upto).len() > 0,
    decreases upto,
{
    if upto > 0 {
        lemma_groups_wf(frames, (upto - 1) as nat);
        let frame = (upto - 1) as usize;
        let before = groups_of(frames, (upto - 1) as nat);
        let joined = group_for(frames, before, frames[frame as int].hue, 0);
        lemma_group_for(frames, before, frames[frame as int].hue, 0);
        let after = groups_of(frames, upto);
        assert forall|g: int| 0 <= g < after.len() implies {
            &&& 0 < (#[trigger] after[g]).len() <= upto
            &&& forall|m: int| 0 <= m < after[g].len() ==> (#[trigger] after[g][m]) < upto
        } by {
            if joined < before.len() {
                if g == joined {
                    assert forall|m: int| 0 <= m < after[g].len() implies (#[trigger] after[g][m])
                        < upto by {
                        if m < before[g].len() {
                            assert(after[g][m] == before[g][m]);
                        }
                    }
                } else {
                    assert(after[g] == before[g]);
                }
            } else {
                if g < before.len() {
                    assert(after[g] == before[g]);
                }
            }
        }
    }
}

/// In every group, each member's hue is within ten degrees of the hue of
/// the group's first member.
pub proof fn lemma_groups_similar(frames: Seq<ChromakeyResult>, upto: nat)
    requires
        upto <= frames.len(),
        upto <= usize::MAX,
    ensures
        forall|g: int, m: int|
            0 <= g < groups_of(frames, upto).len() && 0 <= m < groups_of(frames, upto)[g].len()
                ==> similar(
                frames[#[trigger] groups_of(frames, upto)[g][m] as int].hue,
                frames[groups_of(frames, upto)[g][0] as int].hue,
            ),
    decreases upto,
{
    if upto > 0 {
        lemma_groups_similar(frames, (upto - 1) as nat);
        lemma_groups_wf(frames, (upto - 1) as nat);
        let frame = (upto - 1) as usize;
        let before = groups_of(frames, (upto - 1) as nat);
        let hue = frames[frame as int].hue;
        let joined = group_for(frames, before, hue, 0);
        lemma_group_for(frames, before, hue, 0);
        let after = groups_of(frames, upto);
        assert forall|g: int, m: int| 0 <= g < after.len() && 0 <= m < after[g].len() implies similar(
            frames[#[trigger] after[g][m] as int].hue,
            frames[after[g][0] as int].hue,
        ) by {
            if joined < before.len() {
                if g == joined {
                    assert(after[g][0] == before[g][0]);
                    if m < before[g].len() {
                        assert(after[g][m] == before[g][m]);
                    }
                } else {
                    assert(after[g] == before[g]);
                }
            } else {
                if g < before.len() {
                    assert(after[g] == before[g]);
                }
            }
        }
    }
}

/// The first of the first `upto` groups that has the most members.
pub open spec fn largest_among(groups: Seq<Seq<usize>>, upto: nat) -> int
    decreases upto,
{
    if upto <= 1 {
        0
    } else {
        let best = largest_among(groups, (upto - 1) as nat);
        if groups[upto - 1].len() > groups[best].len() {
            upto - 1
        } else {
            best
        }
    }
}

/// The largest group is a group, no smaller than any other and larger than
/// all before it.
pub proof fn lemma_largest_among(groups: Seq<Seq<usize>>, upto: nat)
    requires
        0 < upto <= groups.len(),
    ensures
        0 <= largest_among(groups, upto) < upto,
        forall|g: int|
            0 <= g < upto ==> (#[trigger] groups[g]).len() <= groups[largest_among(
                groups,
                upto,
            )].len(),
        forall|g: int|
            0 <= g < largest_among(groups, upto) ==> (#[trigger] groups[g]).len() < groups[largest_among(
                groups,
                upto,
            )].len(),
    decreases upto,
{
    if upto > 1 {
        lemma_largest_among(groups, (upto - 1) as nat);
    }
}

/// The sums of the fields of a number of results.
pub struct ResultTotal {
    pub r: nat,
    pub g: nat,
    pub b: nat,
    pub confidence: nat,
    pub coverage: nat,
    pub hue: nat,
    pub count: nat,
}

impl ResultTotal {
    pub open spec fn zero() -> ResultTotal {
        ResultTotal { r: 0, g: 0, b: 0, confidence: 0, coverage: 0, hue: 0, count: 0 }
    }

    /// The total with one more result.
    pub open spec fn plus(self, result: ChromakeyResult) -> ResultTotal {
        ResultTotal {
            r: self.r + result.color.r as nat,
            g: self.g + result.color.g as nat,
            b: self.b + result.color.b as nat,
            confidence: self.confidence + result.confidence as nat,
            coverage: self.coverage + result.coverage as nat,
            hue: self.hue + result.hue as nat,
            count: self.count + 1,
        }
    }

    /// No sum exceeds what `count` results can hold.
    pub open spec fn bounded(self) -> bool {
        &&& self.r <= 255 * self.count
        &&& self.g <= 255 * self.count
        &&& self.b <= 255 * self.count
        &&& self.confidence <= u32::MAX * self.count
        &&& self.coverage <= u32::MAX * self.count
        &&& self.hue <= u32::MAX * self.count
    }

    /// The mean of the results: colour channels rounded to the nearest
    /// step, the other fields rounded down. The hue is averaged as a plain
    /// number, not round the wheel.
    pub open spec fn mean(self) -> ChromakeyResult
        recommends
            self.count > 0,
    {
        ChromakeyResult {
            color: RGB {
                r: round_div(self.r as int, self.count as int) as u8,
                g: round_div(self.g as int, self.count as int) as u8,
                b: round_div(self.b as int, self.count as int) as u8,
            },
            confidence: (self.confidence / self.count) as u32,
            coverage: (self.coverage / self.count) as u32,
            hue: (self.hue / self.count) as u32,
            method_used: DetectionMethod::Hybrid,
        }
    }
}

/// The sums over the first `upto` members of a group.
pub open spec fn group_total(frames: Seq<ChromakeyResult>, members: Seq<usize>, upto: nat) -> ResultTotal
    decreases upto,
{
    if upto == 0 {
        ResultTotal::zero()
    } else {
        group_total(frames, members, (upto - 1) as nat).plus(frames[members[upto - 1] as int])
    }
}

/// The sums over a group are bounded by the number of members summed.
pub proof fn lemma_group_total_bounded(frames: Seq<ChromakeyResult>, members: Seq<usize>, upto: nat)
    ensures
        group_total(frames, members, upto).bounded(),
        group_total(frames, members, upto).count == upto,
    decreases upto,
{
    if upto > 0 {
        lemma_group_total_bounded(frames, members, (upto - 1) as nat);
    }
}

/// Every result has confidence and coverage within one whole and a hue
/// below a full turn.
pub open spec fn all_results_wf(frames: Seq<ChromakeyResult>) -> bool {
    forall|i: int| 0 <= i < frames.len() ==> (#[trigger] frames[i]).wf()
}

/// Over valid results the sums stay within what as many valid results can
/// hold, so their mean is valid.
pub proof fn lemma_group_total_within(frames: Seq<ChromakeyResult>, members: Seq<usize>, upto: nat)
    requires
        all_results_wf(frames),
        upto <= members.len(),
        forall|m: int| 0 <= m < members.len() ==> (#[trigger] members[m]) < frames.len(),
    ensures
        group_total(frames, members, upto).confidence <= UNIT * upto,
        group_total(frames, members, upto).coverage <= UNIT * upto,
        group_total(frames, members, upto).hue <= (HUE_TURN - 1) * upto,
        upto > 0 ==> group_total(frames, members, upto).mean().wf(),
    decreases upto,
{
    if upto > 0 {
        lemma_group_total_within(frames, members, (upto - 1) as nat);
        assert(frames[members[upto - 1] as int].wf());
        lemma_group_total_bounded(frames, members, upto);
        let total = group_total(frames, members, upto);
        lemma_scaled_quotient_at_most(total.confidence as int, upto as int, UNIT as int, 1);
        lemma_scaled_quotient_at_most(total.coverage as int, upto as int, UNIT as int, 1);
        lemma_scaled_quotient_at_most(total.hue as int, upto as int, HUE_TURN - 1, 1);
    }
}

/// The mean of the results of a group.
pub open spec fn group_mean(frames: Seq<ChromakeyResult>, members: Seq<usize>) -> ChromakeyResult {
    group_total(frames, members, members.len()).mean()
}

/// A confidence discounted by the share `part` of `whole`, rounded down.
pub open spec fn discounted(confidence: u32, part: nat, whole: nat) -> u32 {
    ((confidence as nat * part) / whole) as u32
}

/// The consensus of the frames: nothing for no frames, else the mean of the
/// first largest group, its confidence discounted by the share of the
/// frames that are in the group.
pub open spec fn consensus(frames: Seq<ChromakeyResult>) -> Option<ChromakeyResult> {
    if frames.len() == 0 {
        None
    } else {
        let groups = groups_of(frames, frames.len());
        let members = groups[largest_among(groups, groups.len())];
        let mean = group_mean(frames, members);
        Some(
            ChromakeyResult {
                color: mean.color,
                confidence: discounted(mean.confidence, members.len(), frames.len()),
                coverage: mean.coverage,
                hue: mean.hue,
                method_used: DetectionMethod::Hybrid,
            },
        )
    }
}

/// An accumulator of the results of a video's frames. Its view is the
/// results in the order of arrival.
pub struct VideoAnalyzer {
    /// The settings under which the frames are analysed; the consensus does
    /// not read them.
    pub config: DetectionConfig,
    /// The results in the order of arrival.
    pub frame_results: Vec<ChromakeyResult>,
}

impl View for VideoAnalyzer {
    type V = Seq<ChromakeyResult>;

    open spec fn view(&self) -> Seq<ChromakeyResult> {
        self.frame_results@
    }
}

/// The nested lists as sequences.
pub open spec fn lists(groups: Seq<Vec<usize>>) -> Seq<Seq<usize>> {
    Seq::new(groups.len(), |g: int| groups[g]@)
}

impl VideoAnalyzer {
    /// An analyzer without frames.
    pub fn new(config: DetectionConfig) -> (analyzer: VideoAnalyzer)
        ensures
            analyzer@ == Seq::<ChromakeyResult>::empty(),
            analyzer.config == config,
    {
        VideoAnalyzer { config, frame_results: Vec::new() }
    }

    /// Records the result of one more frame.
    pub fn add_frame_result(&mut self, result: ChromakeyResult)
        ensures
            final(self)@ == old(self)@.push(result),
            final(self).config == old(self).config,
    {
        self.frame_results.push(result);
    }

    /// The consensus of the frames recorded so far.
    pub fn compute_consensus(&self) -> (found: Option<ChromakeyResult>)
        ensures
            found == consensus(self@),
            found is Some <==> self@.len() > 0,
            found is Some ==> found->Some_0.method_used == DetectionMethod::Hybrid,
            found is Some && all_results_wf(self@) ==> found->Some_0.wf(),
    {
        let total: usize = self.frame_results.len();
        if total == 0 {
            return None;
        }
        let groups: Vec<Vec<usize>> = self.group_similar_colors();
        proof {
            lemma_groups_wf(self@, total as nat);
        }
        let mut best: usize = 0;
        let mut g: usize = 1;
        while g < groups.len()
            invariant
                1 <= g <= groups.len(),
                best < g,
                best == largest_among(lists(groups@), g as nat),
            decreases groups.len() - g,
        {
            if groups[g].len() > groups[best].len() {
                best = g;
            }
            g += 1;
        }
        let members: &Vec<usize> = &groups[best];
        assert(members@ == lists(groups@)[best as int]);
        let mean: ChromakeyResult = self.average_results(members);
        let size: usize = members.len();
        proof {
            lemma_scaled_quotient_at_most(size as int, total as int, 1, mean.confidence as int);
            assert(mean.confidence as nat * size as nat == mean.confidence as int * size as int);
            if all_results_wf(self@) {
                lemma_group_total_within(self@, members@, members@.len());
            }
        }
        assert(mean.confidence as u128 * size as u128 <= 0xffff_ffff * 0xffff_ffff_ffff_ffff)
            by (nonlinear_arith)
            requires
                mean.confidence <= 0xffff_ffff,
                size <= 0xffff_ffff_ffff_ffff,
        ;
        Some(
            ChromakeyResult {
                color: mean.color,
                confidence: (mean.confidence as u128 * size as u128 / total as u128) as u32,
                coverage: mean.coverage,
                hue: mean.hue,
                method_used: DetectionMethod::Hybrid,
            },
        )
    }

    /// Groups the frames by hue.
    pub fn group_similar_colors(&self) -> (groups: Vec<Vec<usize>>)
        ensures
            lists(groups@) == groups_of(self@, self@.len()),
    {
        let mut groups: Vec<Vec<usize>> = Vec::new();
        let mut frame: usize = 0;
        proof {
            assert(lists(groups@) =~= groups_of(self@, 0));
        }
        while frame < self.frame_results.len()
            invariant
                frame <= self.frame_results.len(),
                lists(groups@) == groups_of(self@, frame as nat),
            decreases self.frame_results.len() - frame,
        {
            let hue: u32 = self.frame_results[frame].hue;
            proof {
                lemma_groups_wf(self@, frame as nat);
            }
            let ghost before = lists(groups@);
            let mut joined: usize = 0;
            let mut placed: bool = false;
            while joined < groups.len() && !placed
                invariant
                    joined <= groups.len(),
                    frame < self.frame_results.len(),
                    hue == self@[frame as int].hue,
                    before == lists(groups@),
                    groups_wf(before, frame as nat),
                    group_for(self@, before, hue, 0) == if placed {
                        joined as nat
                    } else {
                        group_for(self@, before, hue, joined as nat)
                    },
                    placed ==> joined < groups.len(),
                decreases groups.len() - joined + if placed { 0int } else { 1int },
            {
                let first: usize = groups[joined][0];
                assert(first == before[joined as int][0]);
                if hue_distance(hue, self.frame_results[first].hue) < 10_000_000 {
                    placed = true;
                } else {
                    joined += 1;
                }
            }
            if placed {
                let mut members: Vec<usize> = groups[joined].clone();
                assert(members@ == before[joined as int]);
                members.push(frame);
                groups[joined] = members;
                proof {
                    assert(lists(groups@) =~= before.update(
                        joined as int,
                        before[joined as int].push(frame),
                    ));
                }
            } else {
                let mut members: Vec<usize> = Vec::new();
                members.push(frame);
                groups.push(members);
                proof {
                    assert(members@ =~= seq![frame]);
                    assert(lists(groups@) =~= before.push(seq![frame]));
                }
            }
            frame += 1;
        }
        groups
    }

    /// The mean of the results of a group of frames.
    pub fn average_results(&self, members: &Vec<usize>) -> (mean: ChromakeyResult)
        requires
            members.len() > 0,
            forall|m: int| 0 <= m < members.len() ==> (#[trigger] members[m]) < self@.len(),
        ensures
            mean == group_mean(self@, members@),
    {
        let mut r: u128 = 0;
        let mut g: u128 = 0;
        let mut b: u128 = 0;
        let mut confidence: u128 = 0;
        let mut coverage: u128 = 0;
        let mut hue: u128 = 0;
        let mut m: usize = 0;
        while m < members.len()
            invariant
                m <= members.len(),
                forall|j: int| 0 <= j < members.len() ==> (#[trigger] members[j]) < self@.len(),
                group_total(self@, members@, m as nat) == (ResultTotal {
                    r: r as nat,
                    g: g as nat,
                    b: b as nat,
                    confidence: confidence as nat,
                    coverage: coverage as nat,
                    hue: hue as nat,
                    count: m as nat,
                }),
            decreases members.len() - m,
        {
            let result: ChromakeyResult = self.frame_results[members[m]];
            proof {
                lemma_group_total_bounded(self@, members@, m as nat);
                assert(u32::MAX * m <= 0xffff_ffff * 0xffff_ffff_ffff_ffff) by (nonlinear_arith)
                    requires
                        m <= 0xffff_ffff_ffff_ffff,
                ;
                assert(255 * m <= 0xffff_ffff * 0xffff_ffff_ffff_ffff) by (nonlinear_arith)
                    requires
                        m <= 0xffff_ffff_ffff_ffff,
                ;
            }
            r += result.color.r as u128;
            g += result.color.g as u128;
            b += result.color.b as u128;
            confidence += result.confidence as u128;
            coverage += result.coverage as u128;
            hue += result.hue as u128;
            m += 1;
        }
        let count: u128 = members.len() as u128;
        proof {
            lemma_group_total_bounded(self@, members@, members@.len());
            lemma_round_div_at_most(r as int, count as int, 255);
            lemma_round_div_at_most(g as int, count as int, 255);
            lemma_round_div_at_most(b as int, count as int, 255);
            lemma_scaled_quotient_at_most(confidence as int, count as int, u32::MAX as int, 1);
            lemma_scaled_quotient_at_most(coverage as int, count as int, u32::MAX as int, 1);
            lemma_scaled_quotient_at_most(hue as int, count as int, u32::MAX as int, 1);
        }
        ChromakeyResult {
            color: RGB {
                r: ((2 * r + count) / (2 * count)) as u8,
                g: ((2 * g + count) / (2 * count)) as u8,
                b: ((2 * b + count) / (2 * count)) as u8,
            },
            confidence: (confidence / count) as u32,
            coverage: (coverage / count) as u32,
            hue: (hue / count) as u32,
            method_used: DetectionMethod::Hybrid,
        }
    }
}

} // verus!
