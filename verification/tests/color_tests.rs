use chroma_detect::color::{hue_distance, HSV, RGB};

fn degrees(h: u32) -> f64 {
    h as f64 / 1_000_000.0
}

fn fraction(level: u32) -> f64 {
    level as f64 / 1_000_000.0
}

fn hsv(h: f64, s: f64, v: f64) -> HSV {
    HSV {
        h: (h * 1_000_000.0).round() as u32,
        s: (s * 1_000_000.0).round() as u32,
        v: (v * 1_000_000.0).round() as u32,
    }
}

#[test]
fn test_rgb_to_hsv_pure_red() {
    let rgb = RGB { r: 255, g: 0, b: 0 };
    let hsv = rgb.to_hsv();
    assert_eq!(degrees(hsv.h), 0.0);
    assert_eq!(fraction(hsv.s), 1.0);
    assert_eq!(fraction(hsv.v), 1.0);
}

#[test]
fn test_rgb_to_hsv_pure_green() {
    let rgb = RGB { r: 0, g: 255, b: 0 };
    let hsv = rgb.to_hsv();
    assert_eq!(degrees(hsv.h), 120.0);
    assert_eq!(fraction(hsv.s), 1.0);
    assert_eq!(fraction(hsv.v), 1.0);
}

#[test]
fn test_rgb_to_hsv_pure_blue() {
    let rgb = RGB { r: 0, g: 0, b: 255 };
    let hsv = rgb.to_hsv();
    assert_eq!(degrees(hsv.h), 240.0);
    assert_eq!(fraction(hsv.s), 1.0);
    assert_eq!(fraction(hsv.v), 1.0);
}

#[test]
fn test_hsv_to_rgb_pure_red() {
    let hsv = hsv(0.0, 1.0, 1.0);
    let rgb = hsv.to_rgb();
    assert_eq!(rgb.r, 255);
    assert_eq!(rgb.g, 0);
    assert_eq!(rgb.b, 0);
}

#[test]
fn test_hsv_to_rgb_pure_green() {
    let hsv = hsv(120.0, 1.0, 1.0);
    let rgb = hsv.to_rgb();
    assert_eq!(rgb.r, 0);
    assert_eq!(rgb.g, 255);
    assert_eq!(rgb.b, 0);
}

#[test]
fn test_is_chromakey_candidate() {
    // High saturation, high value -> Candidate
    let hsv_vivid = hsv(120.0, 0.8, 0.8);
    assert!(hsv_vivid.is_chromakey_candidate());

    // Low saturation -> Not candidate
    let hsv_pale = hsv(120.0, 0.2, 0.8);
    assert!(!hsv_pale.is_chromakey_candidate());

    // Low value -> Not candidate
    let hsv_dark = hsv(120.0, 0.8, 0.1);
    assert!(!hsv_dark.is_chromakey_candidate());
}

#[test]
fn hsv_to_rgb_pure_blue() {
    let rgb = hsv(240.0, 1.0, 1.0).to_rgb();
    assert_eq!(rgb, RGB { r: 0, g: 0, b: 255 });
}

#[test]
fn primaries_survive_the_round_trip() {
    for c in [
        RGB { r: 255, g: 0, b: 0 },
        RGB { r: 0, g: 255, b: 0 },
        RGB { r: 0, g: 0, b: 255 },
    ] {
        assert_eq!(c.to_hsv().to_rgb(), c);
    }
}

#[test]
fn round_trip_drifts_by_at_most_one_step() {
    let mut r: u32 = 0;
    while r < 256 {
        let mut g: u32 = 0;
        while g < 256 {
            let mut b: u32 = 0;
            while b < 256 {
                let c = RGB { r: r as u8, g: g as u8, b: b as u8 };
                let back = c.to_hsv().to_rgb();
                assert!((back.r as i32 - c.r as i32).abs() <= 1);
                assert!((back.g as i32 - c.g as i32).abs() <= 1);
                assert!((back.b as i32 - c.b as i32).abs() <= 1);
                assert_eq!(back, c);
                b += 5;
            }
            g += 3;
        }
        r += 3;
    }
}

#[test]
fn grey_and_black_have_hue_zero() {
    let grey = RGB { r: 100, g: 100, b: 100 }.to_hsv();
    assert_eq!(grey.h, 0);
    assert_eq!(grey.s, 0);
    assert_eq!(grey.v, 100 * 1_000_000 / 255);
    let black = RGB { r: 0, g: 0, b: 0 }.to_hsv();
    assert_eq!((black.h, black.s, black.v), (0, 0, 0));
}

#[test]
fn hsv_components_are_rounded_down() {
    // max 200, min 50: s = 150/200, v = 200/255, h = 60 * (100 - 50) / 150 = 20 degrees.
    let hsv = RGB { r: 200, g: 100, b: 50 }.to_hsv();
    assert_eq!(hsv.h, 20_000_000);
    assert_eq!(hsv.s, 750_000);
    assert_eq!(hsv.v, 784_313);
    // Red largest with green under blue: the hue wraps to the last sector.
    let magenta_side = RGB { r: 255, g: 0, b: 128 }.to_hsv();
    assert_eq!(magenta_side.h, (60_000_000u64 * (6 * 255 - 128) / 255) as u32);
    assert!(magenta_side.h >= 300_000_000 && magenta_side.h < 360_000_000);
}

#[test]
fn half_value_grey_rounds_to_nearest_channel() {
    // v = 0.5 gives 127.5, which rounds up.
    let rgb = hsv(0.0, 0.0, 0.5).to_rgb();
    assert_eq!(rgb, RGB { r: 128, g: 128, b: 128 });
    // Yellow: hue 60 stands on the boundary of the first two sectors.
    assert_eq!(hsv(60.0, 1.0, 1.0).to_rgb(), RGB { r: 255, g: 255, b: 0 });
    assert_eq!(hsv(300.0, 1.0, 1.0).to_rgb(), RGB { r: 255, g: 0, b: 255 });
    assert_eq!(hsv(180.0, 1.0, 0.5).to_rgb(), RGB { r: 0, g: 128, b: 128 });
}

#[test]
fn candidate_thresholds_are_strict() {
    assert!(!HSV { h: 0, s: 300_000, v: 900_000 }.is_chromakey_candidate());
    assert!(HSV { h: 0, s: 300_001, v: 100_001 }.is_chromakey_candidate());
    assert!(!HSV { h: 0, s: 300_001, v: 100_000 }.is_chromakey_candidate());
}

#[test]
fn hue_distance_wraps_round_the_wheel() {
    assert_eq!(hue_distance(355_000_000, 2_000_000), 7_000_000);
    assert_eq!(hue_distance(2_000_000, 355_000_000), 7_000_000);
    assert_eq!(hue_distance(0, 180_000_000), 180_000_000);
    assert_eq!(hue_distance(120_000_000, 240_000_000), 120_000_000);
    assert_eq!(hue_distance(10, 10), 0);
}
