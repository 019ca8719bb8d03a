use chroma_detect::detection::{DetectionConfig, DetectionMethod};
use chroma_detect::ChromaDetect;

fn solid(width: u32, height: u32, r: u8, g: u8, b: u8) -> Vec<u8> {
    let mut pixels = Vec::new();
    for _ in 0..width * height {
        pixels.extend_from_slice(&[r, g, b, 255]);
    }
    pixels
}

#[test]
fn new_session_has_the_standard_settings() {
    let session = ChromaDetect::new();
    assert_eq!(session.config.min_area_percentage, 250_000);
    assert_eq!(session.config.min_saturation, 600_000);
    assert_eq!(session.config.edge_sample_percentage, 150_000);
    assert_eq!(session.config.confidence_threshold, 700_000);
    assert!(session.video_analyzer.is_none());
    assert!(session.get_video_consensus().is_none());
}

#[test]
fn image_detection_uses_the_session_settings() {
    let session = ChromaDetect::new();
    let result = session.detect_from_image(&solid(8, 8, 0, 255, 0), 8, 8).unwrap();
    assert_eq!(result.hue, 120_000_000);
    assert_eq!(result.confidence, 1_000_000);
    assert!(session.detect_from_image(&[], 8, 8).is_none());
}

#[test]
fn frames_are_recorded_only_in_a_started_analysis() {
    let mut session = ChromaDetect::new();
    let green = solid(8, 8, 0, 255, 0);
    assert!(!session.add_video_frame(&green, 8, 8));
    assert!(session.get_video_consensus().is_none());

    session.start_video_analysis();
    assert!(session.get_video_consensus().is_none());
    assert!(session.add_video_frame(&green, 8, 8));
    // A frame in which nothing is detected is not recorded.
    assert!(!session.add_video_frame(&[], 8, 8));
    assert!(session.add_video_frame(&green, 8, 8));
    assert!(session.add_video_frame(&solid(8, 8, 0, 0, 255), 8, 8));
    assert_eq!(session.video_analyzer.as_ref().unwrap().frame_results.len(), 3);

    let consensus = session.get_video_consensus().unwrap();
    assert_eq!(consensus.hue, 120_000_000);
    assert_eq!(consensus.confidence, 666_666);
    assert_eq!(consensus.method_used, DetectionMethod::Hybrid);

    // Starting again drops the frames.
    session.start_video_analysis();
    assert!(session.get_video_consensus().is_none());
}

#[test]
fn settings_are_replaced_only_by_settings() {
    let mut session = ChromaDetect::new();
    session.start_video_analysis();
    let given = DetectionConfig {
        min_area_percentage: 900_000,
        min_saturation: 1,
        edge_sample_percentage: 2,
        confidence_threshold: 3,
    };
    session.set_config(None);
    assert_eq!(session.config.min_area_percentage, 250_000);
    session.set_config(Some(given));
    assert_eq!(session.config.min_area_percentage, 900_000);
    assert_eq!(session.config.confidence_threshold, 3);
    // The analysis in progress keeps the settings it was started with.
    assert_eq!(session.video_analyzer.as_ref().unwrap().config.min_area_percentage, 250_000);
    session.set_config(None);
    assert_eq!(session.config.edge_sample_percentage, 2);
}
