//! Deterministic k-means clustering of a frame's pixels in HSV space.

use vstd::prelude::*;
use crate::color::{hue_distance, hue_gap, HSV, RGB, HUE_TURN, UNIT};
use crate::rounding::{lemma_scaled_quotient_at_most, lemma_scaled_quotient_below};
use crate::ranking::{arrange, arranged, precedes, rank_descending, ranking};

verus! {

/// The most assignment passes that one clustering makes.
pub const MAX_ITERATIONS: usize = 10;

/// The number of pixels above which only every fourth is sampled.
pub const FULL_SAMPLING_LIMIT: usize = 1_000_000;

/// The colour of pixel `index` of an RGBA buffer; alpha is ignored.
pub open spec fn pixel_at(bytes: Seq<u8>, index: int) -> RGB {
    RGB { r: bytes[4 * index], g: bytes[4 * index + 1], b: bytes[4 * index + 2] }
}

/// The distance between sampled pixels: 4 among more than a million pixels,
/// else 1.
pub open spec fn sample_stride(pixel_count: nat) -> nat {
    if pixel_count > FULL_SAMPLING_LIMIT {
        4
    } else {
        1
    }
}

/// The pixels sampled from an RGBA buffer: of its whole pixels every one, or
/// every fourth from the first on.
pub open spec fn samples(bytes: Seq<u8>) -> Seq<RGB> {
    let count = bytes.len() / 4;
    let stride = sample_stride(count);
    Seq::new(((count + stride - 1) / (stride as int)) as nat, |i: int| pixel_at(bytes, i * stride))
}

/// Samples the pixels of an RGBA buffer. The frame's dimensions play no
/// part: the buffer's length decides.
pub fn downsample_if_needed(pixels: &[u8], width: u32, height: u32) -> (sampled: Vec<RGB>)
    ensures
        sampled@ == samples(pixels@),
{
    let pixel_count: usize = pixels.len() / 4;
    let stride: usize = if pixel_count > 1_000_000 {
        4
    } else {
        1
    };
    let mut sampled: Vec<RGB> = Vec::new();
    let mut i: usize = 0;
    while i < pixel_count
        invariant
            pixel_count == pixels@.len() / 4,
            pixels@.len() <= usize::MAX,
            stride == sample_stride(pixel_count as nat),
            i == sampled.len() * stride,
            sampled.len() > 0 ==> (sampled.len() - 1) * stride < pixel_count,
            forall|j: int| 0 <= j < sampled.len() ==> sampled[j] == pixel_at(pixels@, j * stride),
        decreases pixel_count + stride - i,
    {
        assert(i * 4 + 3 < pixels@.len());
        sampled.push(RGB { r: pixels[4 * i], g: pixels[4 * i + 1], b: pixels[4 * i + 2] });
        i += stride;
    }
    proof {
        assert(sampled@ =~= samples(pixels@));
    }
    sampled
}

/// The distance of two colours by which pixels are assigned: the hue gap as
/// a share of 180 degrees weighted 0.6, the difference in saturation 0.3 and
/// in value 0.1, all of it times 1800 millions so that it stays whole.
pub open spec fn distance(a: HSV, b: HSV) -> int {
    6 * hue_gap(a.h, b.h) + 540 * (if a.s >= b.s {
        a.s - b.s
    } else {
        b.s - a.s
    }) + 180 * (if a.v >= b.v {
        a.v - b.v
    } else {
        b.v - a.v
    })
}

/// The weighted distance of two colours.
pub fn color_distance(a: &HSV, b: &HSV) -> (far: i64)
    ensures
        far == distance(*a, *b),
{
    let hue: i64 = hue_distance(a.h, b.h);
    let saturation: i64 = if a.s >= b.s {
        (a.s - b.s) as i64
    } else {
        (b.s - a.s) as i64
    };
    let value: i64 = if a.v >= b.v {
        (a.v - b.v) as i64
    } else {
        (b.v - a.v) as i64
    };
    6 * hue + 540 * saturation + 180 * value
}

/// The first of the first `upto` centroids that is nearest to `pixel`.
pub open spec fn nearest_among(centroids: Seq<HSV>, pixel: HSV, upto: nat) -> int
    decreases upto,
{
    if upto <= 1 {
        0
    } else {
        let best = nearest_among(centroids, pixel, (upto - 1) as nat);
        if distance(pixel, centroids[upto - 1]) < distance(pixel, centroids[best]) {
            upto - 1
        } else {
            best
        }
    }
}

/// The centroid to which a pixel goes: the nearest, and of several equally
/// near the first.
pub open spec fn nearest(centroids: Seq<HSV>, pixel: HSV) -> int {
    nearest_among(centroids, pixel, centroids.len())
}

/// The nearest centroid is no farther than any other and nearer than all
/// before it.
pub proof fn lemma_nearest_among(centroids: Seq<HSV>, pixel: HSV, upto: nat)
    requires
        0 < upto <= centroids.len(),
    ensures
        0 <= nearest_among(centroids, pixel, upto) < upto,
        forall|j: int|
            0 <= j < upto ==> distance(pixel, centroids[nearest_among(centroids, pixel, upto)])
                <= distance(pixel, #[trigger] centroids[j]),
        forall|j: int|
            0 <= j < nearest_among(centroids, pixel, upto) ==> distance(
                pixel,
                centroids[nearest_among(centroids, pixel, upto)],
            ) < distance(pixel, #[trigger] centroids[j]),
    decreases upto,
{
    if upto > 1 {
        lemma_nearest_among(centroids, pixel, (upto - 1) as nat);
    }
}

/// Finds the centroid to which a pixel goes.
pub fn nearest_centroid(centroids: &Vec<HSV>, pixel: &HSV) -> (best: usize)
    requires
        centroids.len() > 0,
    ensures
        best == nearest(centroids@, *pixel),
        best < centroids.len(),
{
    let mut best: usize = 0;
    let mut least: i64 = color_distance(pixel, &centroids[0]);
    let mut c: usize = 1;
    while c < centroids.len()
        invariant
            1 <= c <= centroids.len(),
            best < c,
            best == nearest_among(centroids@, *pixel, c as nat),
            least == distance(*pixel, centroids@[best as int]),
        decreases centroids.len() - c,
    {
        let far: i64 = color_distance(pixel, &centroids[c]);
        if far < least {
            least = far;
            best = c;
        }
        c += 1;
    }
    best
}

/// The centroid of every pixel.
pub open spec fn assign(pixels: Seq<HSV>, centroids: Seq<HSV>) -> Seq<usize> {
    Seq::new(pixels.len(), |i: int| nearest(centroids, pixels[i]) as usize)
}

/// Assigns every pixel to its centroid.
pub fn assign_all(pixels: &Vec<HSV>, centroids: &Vec<HSV>) -> (assignment: Vec<usize>)
    requires
        centroids.len() > 0,
    ensures
        assignment@ == assign(pixels@, centroids@),
        forall|i: int| 0 <= i < assignment.len() ==> (#[trigger] assignment[i]) < centroids.len(),
{
    let mut assignment: Vec<usize> = Vec::new();
    let mut i: usize = 0;
    while i < pixels.len()
        invariant
            i <= pixels.len(),
            centroids.len() > 0,
            assignment.len() == i,
            forall|j: int|
                0 <= j < i ==> (#[trigger] assignment[j]) == nearest(centroids@, pixels@[j])
                    && assignment[j] < centroids.len(),
        decreases pixels.len() - i,
    {
        assignment.push(nearest_centroid(centroids, &pixels[i]));
        i += 1;
    }
    proof {
        assert(assignment@ =~= assign(pixels@, centroids@));
    }
    assignment
}

/// The component sums of a number of HSV colours.
pub struct HsvTotal {
    pub h: nat,
    pub s: nat,
    pub v: nat,
    pub count: nat,
}

impl HsvTotal {
    pub open spec fn zero() -> HsvTotal {
        HsvTotal { h: 0, s: 0, v: 0, count: 0 }
    }

    /// The total with one more colour.
    pub open spec fn plus(self, hsv: HSV) -> HsvTotal {
        HsvTotal {
            h: self.h + hsv.h as nat,
            s: self.s + hsv.s as nat,
            v: self.v + hsv.v as nat,
            count: self.count + 1,
        }
    }

    /// No sum exceeds what `count` valid colours can hold.
    pub open spec fn bounded(self) -> bool {
        &&& self.h <= (HUE_TURN - 1) * self.count
        &&& self.s <= UNIT * self.count
        &&& self.v <= UNIT * self.count
    }

    /// The arithmetic mean of each component, rounded down. The hue is
    /// averaged as a plain number, not round the wheel.
    pub open spec fn mean(self) -> HSV
        recommends
            self.count > 0,
    {
        HSV {
            h: (self.h / self.count) as u32,
            s: (self.s / self.count) as u32,
            v: (self.v / self.count) as u32,
        }
    }
}

/// Component sums wide enough for any number of colours that can be counted.
#[derive(Clone, Copy, Debug)]
pub struct HsvSum {
    pub h: u128,
    pub s: u128,
    pub v: u128,
    pub count: u64,
}

impl View for HsvSum {
    type V = HsvTotal;

    open spec fn view(&self) -> HsvTotal {
        HsvTotal { h: self.h as nat, s: self.s as nat, v: self.v as nat, count: self.count as nat }
    }
}

impl HsvSum {
    /// The mean of the colours summed.
    pub fn mean(&self) -> (hsv: HSV)
        requires
            self@.bounded(),
            self.count > 0,
        ensures
            hsv == self@.mean(),
            hsv.wf(),
    {
        let n: u128 = self.count as u128;
        proof {
            lemma_scaled_quotient_at_most(self.h as int, n as int, HUE_TURN - 1, 1);
            lemma_scaled_quotient_at_most(self.s as int, n as int, UNIT as int, 1);
            lemma_scaled_quotient_at_most(self.v as int, n as int, UNIT as int, 1);
        }
        HSV { h: (self.h / n) as u32, s: (self.s / n) as u32, v: (self.v / n) as u32 }
    }
}

/// Every colour of the sequence is valid.
pub open spec fn all_wf(colors: Seq<HSV>) -> bool {
    forall|i: int| 0 <= i < colors.len() ==> (#[trigger] colors[i]).wf()
}

/// Every pixel is assigned to one of `k` clusters.
pub open spec fn assigned_within(assignment: Seq<usize>, k: nat) -> bool {
    forall|i: int| 0 <= i < assignment.len() ==> (#[trigger] assignment[i]) < k
}

/// The sums of those of the first `upto` pixels that are assigned to
/// `cluster`.
pub open spec fn member_total(
    pixels: Seq<HSV>,
    assignment: Seq<usize>,
    cluster: int,
    upto: nat,
) -> HsvTotal
    decreases upto,
{
    if upto == 0 {
        HsvTotal::zero()
    } else {
        let before = member_total(pixels, assignment, cluster, (upto - 1) as nat);
        if assignment[upto - 1] == cluster {
            before.plus(pixels[upto - 1])
        } else {
            before
        }
    }
}

/// The number of pixels assigned to `cluster`.
pub open spec fn cluster_size(pixels: Seq<HSV>, assignment: Seq<usize>, cluster: int) -> nat {
    member_total(pixels, assignment, cluster, pixels.len()).count
}

/// The sums of a cluster's members are bounded by their number, which is at
/// most the number of pixels looked at.
pub proof fn lemma_member_total_bounded(
    pixels: Seq<HSV>,
    assignment: Seq<usize>,
    cluster: int,
    upto: nat,
)
    requires
        all_wf(pixels),
        upto <= pixels.len(),
    ensures
        member_total(pixels, assignment, cluster, upto).bounded(),
        member_total(pixels, assignment, cluster, upto).count <= upto,
    decreases upto,
{
    if upto > 0 {
        lemma_member_total_bounded(pixels, assignment, cluster, (upto - 1) as nat);
        assert(pixels[upto - 1].wf());
    }
}

/// Sums the members of each of `k` clusters.
pub fn member_sums(pixels: &Vec<HSV>, assignment: &Vec<usize>, k: usize) -> (sums: Vec<HsvSum>)
    requires
        all_wf(pixels@),
        assignment.len() == pixels.len(),
        assigned_within(assignment@, k as nat),
    ensures
        sums.len() == k,
        forall|c: int|
            0 <= c < k ==> (#[trigger] sums[c])@ == member_total(
                pixels@,
                assignment@,
                c,
                pixels@.len(),
            ),
        forall|c: int| 0 <= c < k ==> (#[trigger] sums[c])@.bounded() && sums[c].count <= pixels.len(),
{
    let mut sums: Vec<HsvSum> = vec![HsvSum { h: 0, s: 0, v: 0, count: 0 }; k];
    let mut i: usize = 0;
    while i < pixels.len()
        invariant
            i <= pixels.len(),
            all_wf(pixels@),
            assignment.len() == pixels.len(),
            assigned_within(assignment@, k as nat),
            sums.len() == k,
            forall|c: int|
                0 <= c < k ==> (#[trigger] sums[c])@ == member_total(
                    pixels@,
                    assignment@,
                    c,
                    i as nat,
                ),
        decreases pixels.len() - i,
    {
        let c: usize = assignment[i];
        let pixel: HSV = pixels[i];
        let sum: HsvSum = sums[c];
        proof {
            lemma_member_total_bounded(pixels@, assignment@, c as int, i as nat);
            assert(pixel.wf());
            assert(sum@ == member_total(pixels@, assignment@, c as int, i as nat));
            assert((HUE_TURN - 1) * sum.count <= 360_000_000 * 0xffff_ffff_ffff_ffff)
                by (nonlinear_arith)
                requires
                    sum.count <= 0xffff_ffff_ffff_ffff,
            ;
            assert(UNIT * sum.count <= 360_000_000 * 0xffff_ffff_ffff_ffff) by (nonlinear_arith)
                requires
                    sum.count <= 0xffff_ffff_ffff_ffff,
            ;
        }
        sums[c] = HsvSum {
            h: sum.h + pixel.h as u128,
            s: sum.s + pixel.s as u128,
            v: sum.v + pixel.v as u128,
            count: sum.count + 1,
        };
        i += 1;
    }
    proof {
        assert forall|c: int| 0 <= c < k implies (#[trigger] sums[c])@.bounded() && sums[c].count
            <= pixels.len() by {
            lemma_member_total_bounded(pixels@, assignment@, c, pixels@.len());
        }
    }
    sums
}

/// The centroids after an update: each becomes the mean of its members, and
/// one without members stays.
pub open spec fn updated(centroids: Seq<HSV>, pixels: Seq<HSV>, assignment: Seq<usize>) -> Seq<HSV> {
    Seq::new(
        centroids.len(),
        |c: int|
            {
                let total = member_total(pixels, assignment, c, pixels.len());
                if total.count > 0 {
                    total.mean()
                } else {
                    centroids[c]
                }
            },
    )
}

/// Moves each centroid to the mean of its members.
pub fn update_centroids(centroids: &Vec<HSV>, pixels: &Vec<HSV>, assignment: &Vec<usize>) -> (moved:
    Vec<HSV>)
    requires
        all_wf(pixels@),
        all_wf(centroids@),
        assignment.len() == pixels.len(),
        assigned_within(assignment@, centroids@.len()),
    ensures
        moved@ == updated(centroids@, pixels@, assignment@),
        all_wf(moved@),
{
    let k: usize = centroids.len();
    let sums: Vec<HsvSum> = member_sums(pixels, assignment, k);
    let mut moved: Vec<HSV> = Vec::new();
    let mut c: usize = 0;
    while c < k
        invariant
            c <= k,
            k == centroids.len(),
            sums.len() == k,
            moved.len() == c,
            all_wf(centroids@),
            all_wf(moved@),
            forall|j: int|
                0 <= j < k ==> (#[trigger] sums[j])@ == member_total(
                    pixels@,
                    assignment@,
                    j,
                    pixels@.len(),
                ),
            forall|j: int| 0 <= j < k ==> (#[trigger] sums[j])@.bounded(),
            forall|j: int| 0 <= j < c ==> (#[trigger] moved[j]) == updated(centroids@, pixels@, assignment@)[j],
        decreases k - c,
    {
        let sum: HsvSum = sums[c];
        assert(sum@.bounded());
        let centroid: HSV = if sum.count > 0 {
            sum.mean()
        } else {
            assert(centroids@[c as int].wf());
            centroids[c]
        };
        moved.push(centroid);
        c += 1;
    }
    proof {
        assert(moved@ =~= updated(centroids@, pixels@, assignment@));
    }
    moved
}

/// A stage of a clustering: where the centroids stand, and to which of them
/// each pixel was last assigned.
pub struct Grouping {
    pub centroids: Seq<HSV>,
    pub assignment: Seq<usize>,
}

/// The grouping after at most `passes` more passes. A pass assigns every
/// pixel to its centroid; if no pixel changed its cluster the clustering
/// ends there, else the centroids move to the means of their members.
pub open spec fn iterate(pixels: Seq<HSV>, state: Grouping, passes: nat) -> Grouping
    decreases passes,
{
    if passes == 0 {
        state
    } else {
        let assignment = assign(pixels, state.centroids);
        if assignment == state.assignment {
            state
        } else {
            iterate(
                pixels,
                Grouping { centroids: updated(state.centroids, pixels, assignment), assignment },
                (passes - 1) as nat,
            )
        }
    }
}

/// Which pixel seeds centroid `i` of `k`: the pixels are cut in `k + 1` even
/// parts, and the seeds stand at the cuts.
pub open spec fn seed_index(count: nat, k: nat, i: int) -> int {
    (count * (i + 1)) / (k as int + 1)
}

/// The grouping from which a clustering starts: the seeds as centroids,
/// every pixel in the first cluster.
pub open spec fn start(pixels: Seq<HSV>, k: nat) -> Grouping {
    Grouping {
        centroids: Seq::new(k, |i: int| pixels[seed_index(pixels.len(), k, i)]),
        assignment: Seq::new(pixels.len(), |i: int| 0usize),
    }
}

/// Whether two assignments differ.
pub fn differs(a: &Vec<usize>, b: &Vec<usize>) -> (changed: bool)
    requires
        a.len() == b.len(),
    ensures
        changed == (a@ != b@),
{
    let mut i: usize = 0;
    while i < a.len()
        invariant
            i <= a.len(),
            a.len() == b.len(),
            forall|j: int| 0 <= j < i ==> a[j] == b[j],
        decreases a.len() - i,
    {
        if a[i] != b[i] {
            return true;
        }
        i += 1;
    }
    proof {
        assert(a@ =~= b@);
    }
    false
}

/// How many of the first `upto` pixels are assigned to one of the first `k`
/// clusters.
pub open spec fn sizes_sum(pixels: Seq<HSV>, assignment: Seq<usize>, k: nat, upto: nat) -> nat
    decreases k,
{
    if k == 0 {
        0
    } else {
        sizes_sum(pixels, assignment, (k - 1) as nat, upto) + member_total(
            pixels,
            assignment,
            k - 1,
            upto,
        ).count
    }
}

/// One more pixel adds one to the sizes of the clusters that it may be
/// assigned to.
pub proof fn lemma_sizes_step(pixels: Seq<HSV>, assignment: Seq<usize>, k: nat, upto: nat)
    requires
        upto > 0,
    ensures
        sizes_sum(pixels, assignment, k, upto) == sizes_sum(
            pixels,
            assignment,
            k,
            (upto - 1) as nat,
        ) + if assignment[upto - 1] < k {
            1nat
        } else {
            0nat
        },
    decreases k,
{
    if k > 0 {
        lemma_sizes_step(pixels, assignment, (k - 1) as nat, upto);
    }
}

/// Where every pixel is assigned to one of `k` clusters, the sizes of the
/// clusters add up to the number of pixels.
pub proof fn lemma_sizes_cover(pixels: Seq<HSV>, assignment: Seq<usize>, k: nat, upto: nat)
    requires
        assigned_within(assignment, k),
        upto <= assignment.len(),
    ensures
        sizes_sum(pixels, assignment, k, upto) == upto,
    decreases upto,
{
    if upto > 0 {
        lemma_sizes_cover(pixels, assignment, k, (upto - 1) as nat);
        lemma_sizes_step(pixels, assignment, k, upto);
        assert(assignment[upto - 1] < k);
    } else {
        lemma_sizes_empty(pixels, assignment, k);
    }
}

/// Of no pixels, none is in any cluster.
pub proof fn lemma_sizes_empty(pixels: Seq<HSV>, assignment: Seq<usize>, k: nat)
    ensures
        sizes_sum(pixels, assignment, k, 0) == 0,
    decreases k,
{
    if k > 0 {
        lemma_sizes_empty(pixels, assignment, (k - 1) as nat);
    }
}

/// Passes keep the number of centroids, and assign every pixel to one of
/// them.
pub proof fn lemma_iterate_assigned(pixels: Seq<HSV>, state: Grouping, passes: nat)
    requires
        state.centroids.len() > 0,
        state.centroids.len() <= usize::MAX,
        state.assignment.len() == pixels.len(),
        assigned_within(state.assignment, state.centroids.len()),
    ensures
        iterate(pixels, state, passes).centroids.len() == state.centroids.len(),
        iterate(pixels, state, passes).assignment.len() == pixels.len(),
        assigned_within(iterate(pixels, state, passes).assignment, state.centroids.len()),
    decreases passes,
{
    if passes > 0 {
        let assignment = assign(pixels, state.centroids);
        if assignment != state.assignment {
            assert forall|i: int| 0 <= i < assignment.len() implies (#[trigger] assignment[i])
                < state.centroids.len() by {
                lemma_nearest_among(state.centroids, pixels[i], state.centroids.len());
            }
            lemma_iterate_assigned(
                pixels,
                Grouping { centroids: updated(state.centroids, pixels, assignment), assignment },
                (passes - 1) as nat,
            );
        }
    }
}

/// Every pixel falls in exactly one of the clusters formed: their sizes add
/// up to the number of pixels.
pub proof fn lemma_clusters_cover(pixels: Seq<HSV>, k: nat)
    requires
        0 < k <= usize::MAX,
    ensures
        sizes_sum(
            pixels,
            iterate(pixels, start(pixels, k), MAX_ITERATIONS as nat).assignment,
            k,
            pixels.len(),
        ) == pixels.len(),
{
    let settled = iterate(pixels, start(pixels, k), MAX_ITERATIONS as nat);
    lemma_iterate_assigned(pixels, start(pixels, k), MAX_ITERATIONS as nat);
    lemma_sizes_cover(pixels, settled.assignment, k, pixels.len());
}

/// A group of pixels of similar colour.
#[derive(Clone, Copy, Debug)]
pub struct Cluster {
    /// The mean colour of the group.
    pub centroid: HSV,
    /// The number of pixels in the group.
    pub size: u64,
    /// The group's share of the sampled pixels, in millionths.
    pub percentage: u32,
}

/// Cluster `c` of a grouping.
pub open spec fn cluster_at(pixels: Seq<HSV>, state: Grouping, c: int) -> Cluster {
    let size = cluster_size(pixels, state.assignment, c);
    Cluster {
        centroid: state.centroids[c],
        size: size as u64,
        percentage: ((size * UNIT) / (pixels.len() as int)) as u32,
    }
}

/// The `k` clusters of the pixels, in the order of their seeds.
pub open spec fn unranked_clusters(pixels: Seq<HSV>, k: nat) -> Seq<Cluster> {
    let state = iterate(pixels, start(pixels, k), MAX_ITERATIONS as nat);
    Seq::new(k, |c: int| cluster_at(pixels, state, c))
}

/// The colours of the pixels sampled from an RGBA buffer.
pub open spec fn sampled_colors(bytes: Seq<u8>) -> Seq<HSV> {
    samples(bytes).map_values(|pixel: RGB| pixel.spec_to_hsv())
}

/// The clusters of an RGBA buffer: none without samples or without
/// clusters to form, else the `k` clusters by descending size, equal sizes
/// in the order of their seeds.
pub open spec fn clusters_of(bytes: Seq<u8>, k: nat) -> Seq<Cluster> {
    let pixels = sampled_colors(bytes);
    if pixels.len() == 0 || k == 0 {
        Seq::empty()
    } else {
        let found = unranked_clusters(pixels, k);
        arranged(found, ranking(found.map_values(|cluster: Cluster| cluster.size as u128)))
    }
}

/// K-means clustering into a fixed number of clusters.
pub struct KMeans {
    /// The number of clusters.
    pub k: usize,
}

impl KMeans {
    pub fn new(k: usize) -> (kmeans: KMeans)
        ensures
            kmeans.k == k,
    {
        KMeans { k }
    }

    /// Clusters the pixels of an RGBA buffer. The frame's dimensions play no
    /// part: the buffer's length decides.
    pub fn find_clusters(&self, pixels: &[u8], width: u32, height: u32) -> (clusters: Vec<Cluster>)
        ensures
            clusters@ == clusters_of(pixels@, self.k as nat),
            clusters.len() == if samples(pixels@).len() == 0 {
                0
            } else {
                self.k as int
            },
            forall|i: int|
                0 <= i < clusters.len() ==> (#[trigger] clusters[i]).centroid.wf() && clusters[i].percentage
                    <= UNIT && clusters[i].size <= samples(pixels@).len(),
            forall|i: int, j: int|
                0 <= i < j < clusters.len() ==> (#[trigger] clusters[i]).size >= (
                #[trigger] clusters[j]).size,
    {
        let sampled: Vec<RGB> = downsample_if_needed(pixels, width, height);
        let k: usize = self.k;
        let n: usize = sampled.len();
        if n == 0 || k == 0 {
            return Vec::new();
        }
        let colors: Vec<HSV> = colors_of(&sampled);
        let mut centroids: Vec<HSV> = seed_centroids(&colors, k);
        let mut assignment: Vec<usize> = vec![0usize; n];
        let mut pass: usize = 0;
        let mut settled: bool = false;
        proof {
            assert(assignment@ =~= start(colors@, k as nat).assignment);
        }
        while pass < 10 && !settled
            invariant
                pass <= 10,
                k > 0,
                centroids.len() == k,
                assignment.len() == colors.len(),
                all_wf(colors@),
                all_wf(centroids@),
                assigned_within(assignment@, k as nat),
                iterate(colors@, start(colors@, k as nat), MAX_ITERATIONS as nat) == if settled {
                    (Grouping { centroids: centroids@, assignment: assignment@ })
                } else {
                    iterate(
                        colors@,
                        Grouping { centroids: centroids@, assignment: assignment@ },
                        (10 - pass) as nat,
                    )
                },
            decreases 10 - pass + if settled { 0int } else { 1int },
        {
            let next: Vec<usize> = assign_all(&colors, &centroids);
            if differs(&assignment, &next) {
                centroids = update_centroids(&centroids, &colors, &next);
                assignment = next;
                pass += 1;
            } else {
                settled = true;
            }
        }
        let ghost state = Grouping { centroids: centroids@, assignment: assignment@ };
        assert(state == iterate(colors@, start(colors@, k as nat), MAX_ITERATIONS as nat));
        let sums: Vec<HsvSum> = member_sums(&colors, &assignment, k);
        let mut found: Vec<Cluster> = Vec::new();
        let mut keys: Vec<u128> = Vec::new();
        let mut c: usize = 0;
        while c < k
            invariant
                c <= k,
                n > 0,
                n == colors.len(),
                centroids.len() == k,
                sums.len() == k,
                found.len() == c,
                keys.len() == c,
                all_wf(centroids@),
                state == (Grouping { centroids: centroids@, assignment: assignment@ }),
                forall|j: int|
                    0 <= j < k ==> (#[trigger] sums[j])@ == member_total(
                        colors@,
                        assignment@,
                        j,
                        colors@.len(),
                    ),
                forall|j: int| 0 <= j < k ==> (#[trigger] sums[j]).count <= colors.len(),
                forall|j: int| 0 <= j < c ==> (#[trigger] found[j]) == cluster_at(colors@, state, j),
                forall|j: int| 0 <= j < c ==> (#[trigger] keys[j]) == found[j].size as u128,
                forall|j: int|
                    0 <= j < c ==> (#[trigger] found[j]).centroid.wf() && found[j].percentage <= UNIT
                        && found[j].size <= n,
            decreases k - c,
        {
            let size: u64 = sums[c].count;
            proof {
                lemma_scaled_quotient_at_most(size as int, n as int, 1, 1_000_000);
                assert(size as nat * UNIT == 1_000_000 * size as int);
                assert(centroids@[c as int].wf());
            }
            let cluster: Cluster = Cluster {
                centroid: centroids[c],
                size,
                percentage: (size as u128 * 1_000_000 / n as u128) as u32,
            };
            found.push(cluster);
            keys.push(size as u128);
            c += 1;
        }
        let order: Vec<usize> = rank_descending(&keys);
        let clusters: Vec<Cluster> = arrange(&found, &order);
        proof {
            assert(found@ =~= unranked_clusters(colors@, k as nat));
            assert(keys@ =~= found@.map_values(|cluster: Cluster| cluster.size as u128));
            assert forall|i: int, j: int| 0 <= i < j < clusters.len() implies (
            #[trigger] clusters[i]).size >= (#[trigger] clusters[j]).size by {
                assert(precedes(keys@, order@[i] as int, order@[j] as int));
            }
        }
        clusters
    }
}

/// Converts the sampled pixels to HSV.
pub fn colors_of(sampled: &Vec<RGB>) -> (colors: Vec<HSV>)
    ensures
        colors@ == sampled@.map_values(|pixel: RGB| pixel.spec_to_hsv()),
        all_wf(colors@),
{
    let mut colors: Vec<HSV> = Vec::new();
    let mut i: usize = 0;
    while i < sampled.len()
        invariant
            i <= sampled.len(),
            colors.len() == i,
            forall|j: int|
                0 <= j < i ==> (#[trigger] colors[j]) == sampled[j].spec_to_hsv() && colors[j].wf(),
        decreases sampled.len() - i,
    {
        colors.push(sampled[i].to_hsv());
        i += 1;
    }
    proof {
        assert(colors@ =~= sampled@.map_values(|pixel: RGB| pixel.spec_to_hsv()));
    }
    colors
}

/// Picks the `k` seeds among the pixels.
pub fn seed_centroids(colors: &Vec<HSV>, k: usize) -> (seeds: Vec<HSV>)
    requires
        colors.len() > 0,
        all_wf(colors@),
    ensures
        seeds@ == start(colors@, k as nat).centroids,
        seeds.len() == k,
        all_wf(seeds@),
{
    let n: usize = colors.len();
    let mut seeds: Vec<HSV> = Vec::new();
    let mut i: usize = 0;
    while i < k
        invariant
            i <= k,
            n == colors.len(),
            n > 0,
            seeds.len() == i,
            all_wf(colors@),
            all_wf(seeds@),
            forall|j: int|
                0 <= j < i ==> (#[trigger] seeds[j]) == colors[seed_index(n as nat, k as nat, j)],
        decreases k - i,
    {
        proof {
            lemma_scaled_quotient_below(i as int + 1, k as int + 1, 1, n as int);
            assert(n as nat * (i as int + 1) == n as int * (i as int + 1));
            assert(n as u128 * (i as u128 + 1) <= 0xffff_ffff_ffff_ffff * 0x1_0000_0000_0000_0000)
                by (nonlinear_arith)
                requires
                    n <= 0xffff_ffff_ffff_ffff,
                    i < 0xffff_ffff_ffff_ffff,
            ;
        }
        let at: usize = ((n as u128 * (i as u128 + 1)) / (k as u128 + 1)) as usize;
        assert(colors@[at as int].wf());
        seeds.push(colors[at]);
        i += 1;
    }
    proof {
        assert(seeds@ =~= start(colors@, k as nat).centroids);
    }
    seeds
}

} // verus!
