//! Detection of the dominant chromakey background colour of a frame.
//!
//! All fractional quantities are fixed-point integers: saturation, value,
//! coverage and confidence are counted in millionths, hue in millionths of a
//! degree. A quantity that is handed on (a colour's hue, saturation and
//! value, a share, a mean) is rounded down to its unit, a colour channel to
//! the nearest step, and what follows works on the rounded quantity. Where
//! counts of pixels decide (which bin a pixel falls in, whether a bin holds
//! a given share of all pixels, how far a region grows), the decision is
//! made on the exact fractions. Every function is total on its stated
//! inputs and proved free of overflow.

pub mod rounding;
pub mod color;
pub mod round_trip;
pub mod ranking;
pub mod histogram;
pub mod peak_facts;
pub mod clustering;
pub mod detection;
pub mod video;

use vstd::prelude::*;
use crate::detection::{detect_chromakey, detected, ChromakeyResult, DetectionConfig};
use crate::video::{consensus, VideoAnalyzer};

verus! {

/// A detection session: the settings in force, and the video analysis in
/// progress if one was started.
pub struct ChromaDetect {
    pub config: DetectionConfig,
    pub video_analyzer: Option<VideoAnalyzer>,
}

impl ChromaDetect {
    /// A session with the standard settings and no video analysis.
    pub fn new() -> (session: ChromaDetect)
        ensures
            session.config == DetectionConfig::standard(),
            session.video_analyzer is None,
    {
        ChromaDetect { config: DetectionConfig::default(), video_analyzer: None }
    }

    /// Detects the key colour of one RGBA image under the session's
    /// settings.
    pub fn detect_from_image(&self, pixels: &[u8], width: u32, height: u32) -> (found: Option<
        ChromakeyResult,
    >)
        ensures
            found == detected(pixels@, width, height, self.config),
            found is Some ==> found->Some_0.wf(),
    {
        detect_chromakey(pixels, width, height, &self.config)
    }

    /// Starts a video analysis under the settings now in force; one in
    /// progress is dropped.
    pub fn start_video_analysis(&mut self)
        ensures
            final(self).config == old(self).config,
            final(self).video_analyzer is Some,
            final(self).video_analyzer->Some_0@ == Seq::<ChromakeyResult>::empty(),
            final(self).video_analyzer->Some_0.config == old(self).config,
    {
        self.video_analyzer = Some(VideoAnalyzer::new(self.config));
    }

    /// Detects the key colour of one frame and records it in the video
    /// analysis. Says whether a result was recorded: that takes an analysis
    /// in progress and a detection that finds a colour; otherwise nothing
    /// changes.
    pub fn add_video_frame(&mut self, pixels: &[u8], width: u32, height: u32) -> (recorded: bool)
        ensures
            final(self).config == old(self).config,
            recorded == (old(self).video_analyzer is Some && detected(
                pixels@,
                width,
                height,
                old(self).config,
            ) is Some),
            recorded ==> final(self).video_analyzer is Some && final(self).video_analyzer->Some_0@
                == old(self).video_analyzer->Some_0@.push(
                detected(pixels@, width, height, old(self).config)->Some_0,
            ) && final(self).video_analyzer->Some_0.config == old(self).video_analyzer->Some_0.config,
            !recorded ==> *final(self) == *old(self),
    {
        let config: DetectionConfig = self.config;
        match &mut self.video_analyzer {
            Some(analyzer) => {
                match detect_chromakey(pixels, width, height, &config) {
                    Some(result) => {
                        analyzer.add_frame_result(result);
                        true
                    },
                    None => false,
                }
            },
            None => false,
        }
    }

    /// The consensus of the frames recorded in the video analysis; nothing
    /// without an analysis or without frames.
    pub fn get_video_consensus(&self) -> (found: Option<ChromakeyResult>)
        ensures
            found == match self.video_analyzer {
                Some(analyzer) => consensus(analyzer@),
                None => None,
            },
    {
        match &self.video_analyzer {
            Some(analyzer) => analyzer.compute_consensus(),
            None => None,
        }
    }

    /// Replaces the settings for the calls that follow. Where the caller
    /// could not read new settings and passes none, nothing changes. A video
    /// analysis in progress is left as it is.
    pub fn set_config(&mut self, config: Option<DetectionConfig>)
        ensures
            final(self).config == match config {
                Some(given) => given,
                None => old(self).config,
            },
            final(self).video_analyzer == old(self).video_analyzer,
    {
        if let Some(given) = config {
            self.config = given;
        }
    }
}

} // verus!
