//! The detection of a frame's key colour: a histogram of the whole frame, a
//! histogram of its border and a clustering each propose a candidate, and
//! the most confident one is returned.

use vstd::prelude::*;
use crate::clustering::{clusters_of, pixel_at, Cluster, KMeans};
use crate::color::{HUE_TURN, RGB, UNIT};
use crate::histogram::{lemma_add_wf, ColorHistogram, Peak, Tally};

verus! {

/// The share of pixels that a border peak needs, 5%.
pub const EDGE_MIN_PERCENTAGE: u32 = 50_000;

/// The number of clusters formed for the cluster candidate.
pub const CLUSTER_COUNT: usize = 3;

/// Settings of a detection. Shares are in millionths.
#[derive(Clone, Copy, Debug)]
pub struct DetectionConfig {
    /// The share of the frame that a hue needs to be a peak.
    pub min_area_percentage: u32,
    /// Reserved; no step of the detection reads it.
    pub min_saturation: u32,
    /// The width of the border ring as a share of the frame's width and
    /// height.
    pub edge_sample_percentage: u32,
    /// The confidence above which the whole-frame candidate is returned at
    /// once.
    pub confidence_threshold: u32,
}

impl DetectionConfig {
    /// 25% of the area, saturation 0.6, a border of 15%, confidence 0.7.
    pub open spec fn standard() -> DetectionConfig {
        DetectionConfig {
            min_area_percentage: 250_000,
            min_saturation: 600_000,
            edge_sample_percentage: 150_000,
            confidence_threshold: 700_000,
        }
    }
}

impl Default for DetectionConfig {
    fn default() -> (config: DetectionConfig)
        ensures
            config == DetectionConfig::standard(),
    {
        DetectionConfig {
            min_area_percentage: 250_000,
            min_saturation: 600_000,
            edge_sample_percentage: 150_000,
            confidence_threshold: 700_000,
        }
    }
}

/// The strategy that produced a result.
#[derive(Clone, Copy, Debug, PartialEq, Eq, Structural)]
pub enum DetectionMethod {
    /// The histogram of the border pixels.
    Edge,
    /// The clustering of the frame.
    Cluster,
    /// The histogram of the whole frame, or a consensus over frames.
    Hybrid,
}

/// A detected key colour.
#[derive(Clone, Copy, Debug)]
pub struct ChromakeyResult {
    pub color: RGB,
    /// In millionths.
    pub confidence: u32,
    /// The share of the sampled pixels that have the colour, in millionths.
    pub coverage: u32,
    /// In hue units.
    pub hue: u32,
    pub method_used: DetectionMethod,
}

impl ChromakeyResult {
    /// Confidence and coverage are at most one whole, and the hue is below a
    /// full turn.
    pub open spec fn wf(self) -> bool {
        &&& self.confidence <= UNIT
        &&& self.coverage <= UNIT
        &&& self.hue < HUE_TURN
    }
}

/// Whether pixel `index` lies within the buffer with its three colour bytes.
pub open spec fn readable(bytes: Seq<u8>, index: int) -> bool {
    0 <= index && 4 * index + 2 < bytes.len()
}

/// The pixel at column `x` of row `y`, if it lies in the frame and in the
/// buffer.
pub open spec fn spec_get_pixel(bytes: Seq<u8>, width: u32, height: u32, x: u32, y: u32) -> Option<
    RGB,
> {
    if x < width && y < height && readable(bytes, y * width + x) {
        Some(pixel_at(bytes, y * width + x))
    } else {
        None
    }
}

/// Reads the pixel at column `x` of row `y` of an RGBA buffer.
pub fn get_pixel(pixels: &[u8], width: u32, height: u32, x: u32, y: u32) -> (pixel: Option<RGB>)
    ensures
        pixel == spec_get_pixel(pixels@, width, height, x, y),
{
    if x >= width || y >= height {
        return None;
    }
    assert(y as u64 * width as u64 <= 0xffff_ffff * 0xffff_ffff) by (nonlinear_arith);
    let index: u64 = y as u64 * width as u64 + x as u64;
    let len: usize = pixels.len();
    if len < 3 || index > ((len - 3) / 4) as u64 {
        return None;
    }
    let at: usize = (index * 4) as usize;
    Some(RGB { r: pixels[at], g: pixels[at + 1], b: pixels[at + 2] })
}

/// The number of pixels that lie both in the frame and in the buffer.
pub open spec fn covered(bytes: Seq<u8>, width: u32, height: u32) -> nat {
    let area = width as nat * height as nat;
    let held = ((bytes.len() + 1) / 4) as nat;
    if area <= held {
        area
    } else {
        held
    }
}

/// Which pixels of a frame are counted, and how often.
#[derive(Clone, Copy, Debug)]
pub enum Sampling {
    /// Every `n`-th pixel in row order, from the first on.
    Every(u64),
    /// The pixels of a border ring: the top rows, the bottom rows, and in
    /// the rows between them the left and the right columns.
    Border { columns: u32, rows: u32 },
}

impl Sampling {
    /// How often the pixel at column `x` of row `y` is counted. Where the
    /// top and bottom rows of a border overlap, or its left and right
    /// columns, a pixel is counted twice.
    pub open spec fn weight(self, width: u32, height: u32, x: int, y: int) -> nat {
        match self {
            Sampling::Every(n) => if n > 0 && (y * width + x) % (n as int) == 0 {
                1
            } else {
                0
            },
            Sampling::Border { columns, rows } => {
                let between = rows <= y && y < height - rows;
                (if y < rows {
                    1nat
                } else {
                    0nat
                }) + (if y >= height - rows {
                    1nat
                } else {
                    0nat
                }) + (if between && x < columns {
                    1nat
                } else {
                    0nat
                }) + (if between && x >= width - columns {
                    1nat
                } else {
                    0nat
                })
            },
        }
    }

    /// How often the pixel at column `x` of row `y` is counted.
    pub fn weight_at(&self, width: u32, height: u32, x: u32, y: u32) -> (times: u8)
        requires
            x < width,
            y < height,
        ensures
            times == self.weight(width, height, x as int, y as int),
            times <= 2,
    {
        match self {
            Sampling::Every(n) => {
                assert(y as u64 * width as u64 <= 0xffff_ffff * 0xffff_ffff) by (nonlinear_arith);
                if *n > 0 && (y as u64 * width as u64 + x as u64) % *n == 0 {
                    1
                } else {
                    0
                }
            },
            Sampling::Border { columns, rows } => {
                let rows: u32 = *rows;
                let columns: u32 = *columns;
                let top: bool = y < rows;
                let bottom: bool = rows > height || y >= height - rows;
                let mut times: u8 = 0;
                if top {
                    times += 1;
                }
                if bottom {
                    times += 1;
                }
                if !top && !bottom {
                    if x < columns {
                        times += 1;
                    }
                    if columns > width || x >= width - columns {
                        times += 1;
                    }
                }
                times
            },
        }
    }
}

/// The tally with a pixel added `times` times.
pub open spec fn add_times(tally: Tally, rgb: RGB, times: nat) -> Tally
    decreases times,
{
    if times == 0 {
        tally
    } else {
        add_times(tally, rgb, (times - 1) as nat).add(rgb)
    }
}

/// The tally of the first `upto` pixels of a frame in row order, each as
/// often as the sampling counts it.
pub open spec fn frame_tally(
    bytes: Seq<u8>,
    width: u32,
    height: u32,
    sampling: Sampling,
    upto: nat,
) -> Tally
    decreases upto,
{
    if upto == 0 {
        Tally::empty()
    } else {
        let index = upto - 1;
        add_times(
            frame_tally(bytes, width, height, sampling, index as nat),
            pixel_at(bytes, index),
            sampling.weight(width, height, index % (width as int), index / (width as int)),
        )
    }
}

/// The tally of a frame under a sampling: of all its pixels that lie in the
/// buffer.
pub open spec fn sampled_tally(bytes: Seq<u8>, width: u32, height: u32, sampling: Sampling) -> Tally {
    frame_tally(bytes, width, height, sampling, covered(bytes, width, height))
}

/// Adding a pixel any number of times keeps a tally well formed and counts
/// each time.
pub proof fn lemma_add_times(tally: Tally, rgb: RGB, times: nat)
    requires
        tally.wf(),
    ensures
        add_times(tally, rgb, times).wf(),
        add_times(tally, rgb, times).total == tally.total + times,
    decreases times,
{
    if times > 0 {
        lemma_add_times(tally, rgb, (times - 1) as nat);
        lemma_add_wf(add_times(tally, rgb, (times - 1) as nat), rgb);
    }
}

/// Builds the histogram of a frame under a sampling. Pixels that the buffer
/// does not hold are passed over.
pub fn sample_frame(pixels: &[u8], width: u32, height: u32, sampling: &Sampling) -> (hist:
    ColorHistogram)
    ensures
        hist.wf(),
        hist@ == sampled_tally(pixels@, width, height, *sampling),
{
    let mut hist: ColorHistogram = ColorHistogram::new();
    assert(width as u64 * height as u64 <= 0xffff_ffff * 0xffff_ffff) by (nonlinear_arith);
    let area: u64 = width as u64 * height as u64;
    let len: usize = pixels.len();
    let held: u64 = if len < 3 {
        0
    } else {
        ((len - 3) / 4) as u64 + 1
    };
    let count: u64 = if area <= held {
        area
    } else {
        held
    };
    assert(count == covered(pixels@, width, height));
    let mut index: u64 = 0;
    while index < count
        invariant
            index <= count,
            count <= width as u64 * height as u64,
            count <= (pixels@.len() + 1) / 4,
            pixels@.len() <= usize::MAX,
            hist.wf(),
            hist.total_pixels <= 2 * index,
            hist@ == frame_tally(pixels@, width, height, *sampling, index as nat),
        decreases count - index,
    {
        let column: u64 = index % width as u64;
        let row: u64 = index / width as u64;
        proof {
            vstd::arithmetic::div_mod::lemma_fundamental_div_mod(index as int, width as int);
            assert(row < height) by (nonlinear_arith)
                requires
                    index < width * height,
                    index == width * row + column,
                    0 <= column,
                    0 <= row,
                    0 < width,
            ;
            lemma_add_times(hist@, pixel_at(pixels@, index as int), 0);
            lemma_add_times(hist@, pixel_at(pixels@, index as int), 1);
            lemma_add_times(hist@, pixel_at(pixels@, index as int), 2);
        }
        let x: u32 = column as u32;
        let y: u32 = row as u32;
        let times: u8 = sampling.weight_at(width, height, x, y);
        let ghost before = hist@;
        if let Some(pixel) = get_pixel(pixels, width, height, x, y) {
            if times >= 1 {
                hist.add_pixel(pixel);
            }
            if times >= 2 {
                hist.add_pixel(pixel);
            }
            assert(hist@ == add_times(before, pixel, times as nat)) by {
                assert(add_times(before, pixel, 1) == add_times(before, pixel, 0).add(pixel));
                assert(add_times(before, pixel, 2) == add_times(before, pixel, 1).add(pixel));
            }
        }
        index += 1;
    }
    hist
}

/// The sampling of the whole frame: every pixel of up to 100,000, every
/// second of up to 500,000, every fourth of more.
pub open spec fn frame_sampling(width: u32, height: u32) -> Sampling {
    let area = width as nat * height as nat;
    if area <= 100_000 {
        Sampling::Every(1)
    } else if area <= 500_000 {
        Sampling::Every(2)
    } else {
        Sampling::Every(4)
    }
}

/// The width of a border along an extent: the given share of the extent,
/// rounded down, and at most the extent.
pub open spec fn border_size(extent: u32, share: u32) -> u32 {
    let size = (extent as nat * share as nat) / (UNIT as nat);
    if size >= extent {
        extent
    } else {
        size as u32
    }
}

/// The sampling of the border ring.
pub open spec fn edge_sampling(width: u32, height: u32, share: u32) -> Sampling {
    Sampling::Border { columns: border_size(width, share), rows: border_size(height, share) }
}

/// The candidate that a list of peaks proposes: none if there is no peak,
/// else the first, its coverage as confidence, at most one whole.
pub open spec fn peak_candidate(peaks: Seq<Peak>, method: DetectionMethod) -> Option<
    ChromakeyResult,
> {
    if peaks.len() == 0 {
        None
    } else {
        let top = peaks[0];
        Some(
            ChromakeyResult {
                color: top.color,
                confidence: if top.percentage > UNIT {
                    UNIT
                } else {
                    top.percentage
                },
                coverage: top.percentage,
                hue: top.hue,
                method_used: method,
            },
        )
    }
}

/// The candidate of the whole frame.
pub open spec fn full_frame_candidate(
    bytes: Seq<u8>,
    width: u32,
    height: u32,
    config: DetectionConfig,
) -> Option<ChromakeyResult> {
    peak_candidate(
        sampled_tally(bytes, width, height, frame_sampling(width, height)).find_peaks(
            config.min_area_percentage,
        ),
        DetectionMethod::Hybrid,
    )
}

/// The candidate of the border ring.
pub open spec fn edge_candidate(
    bytes: Seq<u8>,
    width: u32,
    height: u32,
    config: DetectionConfig,
) -> Option<ChromakeyResult> {
    peak_candidate(
        sampled_tally(
            bytes,
            width,
            height,
            edge_sampling(width, height, config.edge_sample_percentage),
        ).find_peaks(EDGE_MIN_PERCENTAGE),
        DetectionMethod::Edge,
    )
}

/// The first cluster from `from` on whose centroid may be a key colour.
pub open spec fn first_key_cluster(clusters: Seq<Cluster>, from: nat) -> Option<Cluster>
    decreases clusters.len() - from,
{
    if from >= clusters.len() {
        None
    } else if clusters[from as int].centroid.spec_is_chromakey_candidate() {
        Some(clusters[from as int])
    } else {
        first_key_cluster(clusters, from + 1)
    }
}

/// The candidate of the clustering: the largest of three clusters whose
/// centroid may be a key colour, its share as confidence.
pub open spec fn cluster_candidate(bytes: Seq<u8>) -> Option<ChromakeyResult> {
    match first_key_cluster(clusters_of(bytes, CLUSTER_COUNT as nat), 0) {
        Some(best) => Some(
            ChromakeyResult {
                color: best.centroid.spec_to_rgb(),
                confidence: if best.percentage > UNIT {
                    UNIT
                } else {
                    best.percentage
                },
                coverage: best.percentage,
                hue: best.centroid.h,
                method_used: DetectionMethod::Cluster,
            },
        ),
        None => None,
    }
}

/// The better of two candidates: the one there is, or of two the more
/// confident, and the first if they are equally confident.
pub open spec fn better_of(first: Option<ChromakeyResult>, second: Option<ChromakeyResult>) -> Option<
    ChromakeyResult,
> {
    match (first, second) {
        (Some(a), Some(b)) => if b.confidence > a.confidence {
            Some(b)
        } else {
            Some(a)
        },
        (Some(a), None) => Some(a),
        (None, Some(b)) => Some(b),
        (None, None) => None,
    }
}

/// The better of two candidates is one of them, at least as confident as
/// either, and there is none only if there is neither.
pub proof fn lemma_better_of(first: Option<ChromakeyResult>, second: Option<ChromakeyResult>)
    ensures
        better_of(first, second) is None <==> first is None && second is None,
        better_of(first, second) == first || better_of(first, second) == second,
        first is Some ==> better_of(first, second)->Some_0.confidence >= first->Some_0.confidence,
        second is Some ==> better_of(first, second)->Some_0.confidence
            >= second->Some_0.confidence,
        first is Some && second is Some && first->Some_0.confidence == second->Some_0.confidence
            ==> better_of(first, second) == first,
{
}

/// What a detection finds: the whole-frame candidate if its confidence
/// exceeds the threshold, else the best of the whole-frame, border and
/// cluster candidates, the earlier of equals; nothing if there is none.
pub open spec fn detected(bytes: Seq<u8>, width: u32, height: u32, config: DetectionConfig) -> Option<
    ChromakeyResult,
> {
    let full = full_frame_candidate(bytes, width, height, config);
    if full is Some && full->Some_0.confidence > config.confidence_threshold {
        full
    } else {
        better_of(
            better_of(full, edge_candidate(bytes, width, height, config)),
            cluster_candidate(bytes),
        )
    }
}

/// The candidate that the first of a list of peaks proposes.
pub fn candidate_of_peaks(peaks: &Vec<Peak>, method: DetectionMethod) -> (found: Option<
    ChromakeyResult,
>)
    requires
        forall|i: int|
            0 <= i < peaks.len() ==> (#[trigger] peaks[i]).percentage <= UNIT && peaks[i].hue
                < HUE_TURN,
    ensures
        found == peak_candidate(peaks@, method),
        found is Some ==> found->Some_0.wf(),
{
    if peaks.len() == 0 {
        None
    } else {
        let top: Peak = peaks[0];
        Some(
            ChromakeyResult {
                color: top.color,
                confidence: if top.percentage > 1_000_000 {
                    1_000_000
                } else {
                    top.percentage
                },
                coverage: top.percentage,
                hue: top.hue,
                method_used: method,
            },
        )
    }
}

/// Proposes the dominant hue of the whole frame.
pub fn analyze_full_frame(pixels: &[u8], width: u32, height: u32, config: &DetectionConfig) -> (found:
    Option<ChromakeyResult>)
    ensures
        found == full_frame_candidate(pixels@, width, height, *config),
        found is Some ==> found->Some_0.wf(),
{
    assert(width as u64 * height as u64 <= 0xffff_ffff * 0xffff_ffff) by (nonlinear_arith);
    let area: u64 = width as u64 * height as u64;
    let sampling: Sampling = if area <= 100_000 {
        Sampling::Every(1)
    } else if area <= 500_000 {
        Sampling::Every(2)
    } else {
        Sampling::Every(4)
    };
    let hist: ColorHistogram = sample_frame(pixels, width, height, &sampling);
    let peaks: Vec<Peak> = hist.find_peaks(config.min_area_percentage);
    candidate_of_peaks(&peaks, DetectionMethod::Hybrid)
}

/// The width of a border along an extent.
pub fn border_of(extent: u32, share: u32) -> (size: u32)
    ensures
        size == border_size(extent, share),
        size <= extent,
{
    assert(extent as u64 * share as u64 <= 0xffff_ffff * 0xffff_ffff) by (nonlinear_arith);
    let size: u64 = extent as u64 * share as u64 / 1_000_000;
    if size >= extent as u64 {
        extent
    } else {
        size as u32
    }
}

/// Proposes the dominant hue of the frame's border.
pub fn analyze_edges(pixels: &[u8], width: u32, height: u32, config: &DetectionConfig) -> (found:
    Option<ChromakeyResult>)
    ensures
        found == edge_candidate(pixels@, width, height, *config),
        found is Some ==> found->Some_0.wf(),
{
    let sampling: Sampling = Sampling::Border {
        columns: border_of(width, config.edge_sample_percentage),
        rows: border_of(height, config.edge_sample_percentage),
    };
    let hist: ColorHistogram = sample_frame(pixels, width, height, &sampling);
    let peaks: Vec<Peak> = hist.find_peaks(EDGE_MIN_PERCENTAGE);
    candidate_of_peaks(&peaks, DetectionMethod::Edge)
}

/// Proposes the largest cluster of the frame that may be a key colour.
pub fn analyze_clusters(pixels: &[u8], width: u32, height: u32, config: &DetectionConfig) -> (found:
    Option<ChromakeyResult>)
    ensures
        found == cluster_candidate(pixels@),
        found is Some ==> found->Some_0.wf(),
{
    let kmeans: KMeans = KMeans::new(CLUSTER_COUNT);
    let clusters: Vec<Cluster> = kmeans.find_clusters(pixels, width, height);
    let mut i: usize = 0;
    while i < clusters.len()
        invariant
            i <= clusters.len(),
            clusters@ == clusters_of(pixels@, CLUSTER_COUNT as nat),
            first_key_cluster(clusters@, 0) == first_key_cluster(clusters@, i as nat),
            forall|j: int|
                0 <= j < clusters.len() ==> (#[trigger] clusters[j]).centroid.wf() && clusters[j].percentage
                    <= UNIT,
        decreases clusters.len() - i,
    {
        let best: Cluster = clusters[i];
        if best.centroid.is_chromakey_candidate() {
            return Some(
                ChromakeyResult {
                    color: best.centroid.to_rgb(),
                    confidence: if best.percentage > 1_000_000 {
                        1_000_000
                    } else {
                        best.percentage
                    },
                    coverage: best.percentage,
                    hue: best.centroid.h,
                    method_used: DetectionMethod::Cluster,
                },
            );
        }
        i += 1;
    }
    None
}

/// The better of two candidates.
pub fn choose_best_result(r1: Option<ChromakeyResult>, r2: Option<ChromakeyResult>) -> (best: Option<
    ChromakeyResult,
>)
    ensures
        best == better_of(r1, r2),
{
    match (r1, r2) {
        (Some(a), Some(b)) => {
            if b.confidence > a.confidence {
                Some(b)
            } else {
                Some(a)
            }
        },
        (Some(a), None) => Some(a),
        (None, Some(b)) => Some(b),
        (None, None) => None,
    }
}

/// Detects the key colour of an RGBA frame, or reports that there is none.
/// The buffer may be shorter than the frame: pixels that it does not hold
/// are passed over.
pub fn detect_chromakey(pixels: &[u8], width: u32, height: u32, config: &DetectionConfig) -> (found:
    Option<ChromakeyResult>)
    ensures
        found == detected(pixels@, width, height, *config),
        found is Some ==> found->Some_0.wf(),
        found is None <==> full_frame_candidate(pixels@, width, height, *config) is None
            && edge_candidate(pixels@, width, height, *config) is None && cluster_candidate(
            pixels@,
        ) is None,
{
    let full: Option<ChromakeyResult> = analyze_full_frame(pixels, width, height, config);
    if let Some(result) = full {
        if result.confidence > config.confidence_threshold {
            return Some(result);
        }
    }
    let edge: Option<ChromakeyResult> = analyze_edges(pixels, width, height, config);
    let cluster: Option<ChromakeyResult> = analyze_clusters(pixels, width, height, config);
    choose_best_result(choose_best_result(full, edge), cluster)
}

} // verus!
