use chroma_detect::color::RGB;
use chroma_detect::detection::{
    analyze_clusters, analyze_edges, analyze_full_frame, border_of, choose_best_result,
    detect_chromakey, get_pixel, sample_frame, ChromakeyResult, DetectionConfig, DetectionMethod,
    Sampling,
};

fn degrees(h: u32) -> f64 {
    h as f64 / 1_000_000.0
}

fn fraction(level: u32) -> f64 {
    level as f64 / 1_000_000.0
}

fn create_solid_color_image(width: u32, height: u32, r: u8, g: u8, b: u8) -> Vec<u8> {
    let mut pixels = Vec::with_capacity((width * height * 4) as usize);
    for _ in 0..height {
        for _ in 0..width {
            pixels.push(r);
            pixels.push(g);
            pixels.push(b);
            pixels.push(255); // Alpha
        }
    }
    pixels
}

fn green_band_on_black() -> Vec<u8> {
    let width = 100;
    let height = 100;
    // Create black image
    let mut pixels = create_solid_color_image(width, height, 0, 0, 0);

    // Rows 30-70, Cols 0-100
    for y in 30..70 {
        for x in 0..100 {
            let idx = ((y * width + x) * 4) as usize;
            pixels[idx] = 0;
            pixels[idx + 1] = 255;
            pixels[idx + 2] = 0;
            pixels[idx + 3] = 255;
        }
    }
    pixels
}

fn candidate(confidence: u32, method_used: DetectionMethod) -> ChromakeyResult {
    ChromakeyResult {
        color: RGB { r: 0, g: 0, b: 0 },
        confidence,
        coverage: confidence,
        hue: 0,
        method_used,
    }
}

#[test]
fn test_pure_green_screen() {
    let width = 100;
    let height = 100;
    let pixels = create_solid_color_image(width, height, 0, 255, 0);

    let config = DetectionConfig::default();
    let result = detect_chromakey(&pixels, width, height, &config).expect("Should detect green");

    // Green hue is 120
    assert!(
        (degrees(result.hue) - 120.0).abs() < 5.0,
        "Hue should be near 120, got {}",
        degrees(result.hue)
    );
    assert!(fraction(result.confidence) > 0.8, "Confidence should be high");
    assert!(result.color.g > 240);
    assert_eq!(result.confidence, 1_000_000);
    assert_eq!(result.method_used, DetectionMethod::Hybrid);
}

#[test]
fn test_pure_blue_screen() {
    let width = 100;
    let height = 100;
    let pixels = create_solid_color_image(width, height, 0, 0, 255);

    let config = DetectionConfig::default();
    let result = detect_chromakey(&pixels, width, height, &config).expect("Should detect blue");

    // Blue hue is 240
    assert!(
        (degrees(result.hue) - 240.0).abs() < 5.0,
        "Hue should be near 240, got {}",
        degrees(result.hue)
    );
    assert!(fraction(result.confidence) > 0.8);
}

#[test]
fn test_center_subject_fallback() {
    let width = 100;
    let height = 100;
    let pixels = green_band_on_black();

    let config = DetectionConfig::default();
    let result =
        detect_chromakey(&pixels, width, height, &config).expect("Should detect green center");

    assert!((degrees(result.hue) - 120.0).abs() < 5.0);
    // Coverage is 40% (40 rows of 100)
    assert!(fraction(result.coverage) > 0.35);
    assert_eq!(result.coverage, 400_000);
    // The whole-frame and the cluster candidate are equally confident: the
    // earlier one is kept.
    assert_eq!(result.method_used, DetectionMethod::Hybrid);
}

#[test]
fn each_strategy_proposes_its_candidate() {
    let pixels = green_band_on_black();
    let config = DetectionConfig::default();
    let green = RGB { r: 0, g: 255, b: 0 };

    let full = analyze_full_frame(&pixels, 100, 100, &config).unwrap();
    assert_eq!((full.hue, full.coverage, full.confidence), (120_000_000, 400_000, 400_000));
    assert_eq!((full.color, full.method_used), (green, DetectionMethod::Hybrid));

    // The ring is 15 pixels wide: 3000 black pixels in the top and bottom
    // rows, and in the 70 rows between them 30 columns, 1200 of them green.
    let edge = analyze_edges(&pixels, 100, 100, &config).unwrap();
    assert_eq!(edge.coverage, 1200 * 1_000_000 / 5100);
    assert_eq!((edge.hue, edge.confidence), (120_000_000, edge.coverage));
    assert_eq!((edge.color, edge.method_used), (green, DetectionMethod::Edge));

    let cluster = analyze_clusters(&pixels, 100, 100, &config).unwrap();
    assert_eq!((cluster.hue, cluster.coverage, cluster.confidence), (120_000_000, 400_000, 400_000));
    assert_eq!((cluster.color, cluster.method_used), (green, DetectionMethod::Cluster));
}

#[test]
fn nothing_is_detected_without_pixels_or_colour() {
    let config = DetectionConfig::default();
    assert!(detect_chromakey(&[], 0, 0, &config).is_none());
    assert!(detect_chromakey(&[], 100, 100, &config).is_none());
    let pixels = create_solid_color_image(10, 10, 0, 255, 0);
    assert!(detect_chromakey(&pixels, 0, 10, &config).is_some());
    assert!(analyze_full_frame(&pixels, 0, 10, &config).is_none());
    assert!(analyze_edges(&pixels, 0, 10, &config).is_none());
}

#[test]
fn grey_frame_yields_its_grey_mass() {
    let config = DetectionConfig::default();
    let pixels = create_solid_color_image(10, 10, 128, 128, 128);
    let result = detect_chromakey(&pixels, 10, 10, &config).unwrap();
    assert_eq!(result.color, RGB { r: 128, g: 128, b: 128 });
    assert_eq!((result.hue, result.coverage, result.confidence), (0, 1_000_000, 1_000_000));
    assert_eq!(result.method_used, DetectionMethod::Hybrid);
    // No cluster of a grey frame may be a key colour.
    assert!(analyze_clusters(&pixels, 10, 10, &config).is_none());
}

#[test]
fn undersized_buffer_is_read_as_far_as_it_goes() {
    let config = DetectionConfig::default();
    // Two whole green pixels and three bytes of a blue one, in a frame of
    // 100 by 100.
    let pixels = [0u8, 255, 0, 255, 0, 255, 0, 255, 0, 0, 255];
    // The histograms read all three pixels.
    let full = analyze_full_frame(&pixels, 100, 100, &config).unwrap();
    assert_eq!((full.hue, full.coverage), (120_000_000, 666_666));
    let edge = analyze_edges(&pixels, 100, 100, &config).unwrap();
    assert_eq!((edge.hue, edge.coverage), (120_000_000, 666_666));
    // The clustering takes whole pixels of four bytes only, both green.
    let result = detect_chromakey(&pixels, 100, 100, &config).unwrap();
    assert_eq!((result.hue, result.coverage), (120_000_000, 1_000_000));
    assert_eq!(result.method_used, DetectionMethod::Cluster);
    assert_eq!(get_pixel(&pixels, 100, 100, 2, 0), Some(RGB { r: 0, g: 0, b: 255 }));
    assert_eq!(get_pixel(&pixels, 100, 100, 3, 0), None);
    assert_eq!(get_pixel(&pixels, 100, 100, 0, 1), None);
}

#[test]
fn get_pixel_checks_frame_and_buffer() {
    let pixels = [1u8, 2, 3, 255, 4, 5, 6, 255, 7, 8, 9, 255, 10, 11, 12, 255];
    assert_eq!(get_pixel(&pixels, 2, 2, 0, 0), Some(RGB { r: 1, g: 2, b: 3 }));
    assert_eq!(get_pixel(&pixels, 2, 2, 1, 1), Some(RGB { r: 10, g: 11, b: 12 }));
    assert_eq!(get_pixel(&pixels, 2, 2, 0, 1), Some(RGB { r: 7, g: 8, b: 9 }));
    assert_eq!(get_pixel(&pixels, 2, 2, 2, 0), None);
    assert_eq!(get_pixel(&pixels, 2, 2, 0, 2), None);
    assert_eq!(get_pixel(&pixels, 4_000_000_000, 4_000_000_000, 5, 3_000_000_000), None);
}

#[test]
fn the_earlier_of_equally_confident_candidates_is_kept() {
    let a = candidate(500_000, DetectionMethod::Hybrid);
    let b = candidate(500_000, DetectionMethod::Edge);
    let c = candidate(500_001, DetectionMethod::Cluster);
    assert_eq!(choose_best_result(Some(a), Some(b)).unwrap().method_used, DetectionMethod::Hybrid);
    assert_eq!(choose_best_result(Some(b), Some(a)).unwrap().method_used, DetectionMethod::Edge);
    assert_eq!(choose_best_result(Some(a), Some(c)).unwrap().method_used, DetectionMethod::Cluster);
    assert_eq!(choose_best_result(Some(c), Some(a)).unwrap().method_used, DetectionMethod::Cluster);
    assert_eq!(choose_best_result(None, Some(a)).unwrap().method_used, DetectionMethod::Hybrid);
    assert_eq!(choose_best_result(Some(b), None).unwrap().method_used, DetectionMethod::Edge);
    assert!(choose_best_result(None, None).is_none());
}

#[test]
fn confident_whole_frame_result_is_returned_at_once() {
    // 80 of 100 pixels green in the middle rows, a red border row above and
    // below: the border alone would say red.
    let mut pixels = create_solid_color_image(10, 10, 0, 255, 0);
    for x in 0..10 {
        for y in [0usize, 9] {
            let idx = (y * 10 + x) * 4;
            pixels[idx] = 255;
            pixels[idx + 1] = 0;
        }
    }
    let mut config = DetectionConfig::default();
    let result = detect_chromakey(&pixels, 10, 10, &config).unwrap();
    assert_eq!((result.hue, result.coverage), (120_000_000, 800_000));
    assert_eq!(result.method_used, DetectionMethod::Hybrid);
    // A confidence that only equals the threshold does not exceed it: the
    // other strategies are asked. All three seeds of the clustering are
    // green, so every pixel falls in the first cluster, which is the most
    // confident candidate.
    config.confidence_threshold = 800_000;
    let result = detect_chromakey(&pixels, 10, 10, &config).unwrap();
    assert_eq!((result.hue, result.confidence), (120_000_000, 1_000_000));
    assert_eq!(result.method_used, DetectionMethod::Cluster);
    // The border alone says red: 20 of its 36 pixels.
    let edge = analyze_edges(&pixels, 10, 10, &config).unwrap();
    assert_eq!((edge.hue, edge.coverage), (0, 555_555));
}

#[test]
fn border_is_a_share_of_the_extent() {
    assert_eq!(border_of(100, 150_000), 15);
    assert_eq!(border_of(99, 150_000), 14);
    assert_eq!(border_of(0, 150_000), 0);
    assert_eq!(border_of(100, 1_000_000), 100);
    assert_eq!(border_of(100, 4_000_000_000), 100);
    assert_eq!(border_of(4_294_967_295, 500_000), 2_147_483_647);
}

#[test]
fn sampling_counts_pixels_by_its_pattern() {
    let ring = Sampling::Border { columns: 1, rows: 2 };
    // Top and bottom rows count once, the rows between them only at the
    // sides.
    assert_eq!(ring.weight_at(5, 6, 2, 0), 1);
    assert_eq!(ring.weight_at(5, 6, 2, 1), 1);
    assert_eq!(ring.weight_at(5, 6, 2, 2), 0);
    assert_eq!(ring.weight_at(5, 6, 0, 2), 1);
    assert_eq!(ring.weight_at(5, 6, 4, 3), 1);
    assert_eq!(ring.weight_at(5, 6, 3, 3), 0);
    assert_eq!(ring.weight_at(5, 6, 2, 4), 1);
    assert_eq!(ring.weight_at(5, 6, 0, 5), 1);
    // Overlapping top and bottom rows count a pixel twice.
    let thick = Sampling::Border { columns: 0, rows: 4 };
    assert_eq!(thick.weight_at(5, 6, 0, 0), 1);
    assert_eq!(thick.weight_at(5, 6, 0, 2), 2);
    assert_eq!(thick.weight_at(5, 6, 0, 3), 2);
    assert_eq!(thick.weight_at(5, 6, 0, 5), 1);
    // So do overlapping left and right columns.
    let wide = Sampling::Border { columns: 5, rows: 1 };
    assert_eq!(wide.weight_at(5, 6, 2, 3), 2);
    assert_eq!(wide.weight_at(5, 6, 2, 0), 1);

    let every_other = Sampling::Every(2);
    assert_eq!(every_other.weight_at(5, 6, 0, 0), 1);
    assert_eq!(every_other.weight_at(5, 6, 1, 0), 0);
    assert_eq!(every_other.weight_at(5, 6, 0, 1), 0);
    assert_eq!(every_other.weight_at(5, 6, 1, 1), 1);
    assert_eq!(Sampling::Every(0).weight_at(5, 6, 0, 0), 0);
}

#[test]
fn frames_are_sampled_by_their_area() {
    // 400 by 300 is over 100,000 pixels: every second pixel is counted.
    let pixels = create_solid_color_image(400, 300, 0, 0, 255);
    let hist = sample_frame(&pixels, 400, 300, &Sampling::Every(2));
    assert_eq!(hist.total_pixels, 60_000);
    let config = DetectionConfig::default();
    let result = analyze_full_frame(&pixels, 400, 300, &config).unwrap();
    assert_eq!((result.hue, result.coverage), (240_000_000, 1_000_000));
    // The ring of a 20 by 10 frame under a 15% border: 3 columns, 1 row.
    let pixels = create_solid_color_image(20, 10, 0, 0, 255);
    let hist = sample_frame(&pixels, 20, 10, &Sampling::Border { columns: 3, rows: 1 });
    assert_eq!(hist.total_pixels, 2 * 20 + 8 * 6);
    assert_eq!(hist.hue_count(240), 88);
}
