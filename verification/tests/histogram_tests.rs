use chroma_detect::color::RGB;
use chroma_detect::histogram::{
    hue_index, saturation_index, value_index, ColorHistogram, ColorSum,
};

fn degrees(h: u32) -> f64 {
    h as f64 / 1_000_000.0
}

fn fraction(level: u32) -> f64 {
    level as f64 / 1_000_000.0
}

/// A fully saturated colour between yellow and cyan whose hue has the given
/// whole degrees.
fn greenish(degree: u32) -> RGB {
    let mut other: u32 = 0;
    while other < 256 {
        let c = if degree < 120 {
            RGB { r: other as u8, g: 255, b: 0 }
        } else {
            RGB { r: 0, g: 255, b: other as u8 }
        };
        if hue_index(c.to_hsv().h) == degree as usize {
            return c;
        }
        other += 1;
    }
    panic!("no colour with hue {}", degree);
}

#[test]
fn test_histogram_population() {
    let mut hist = ColorHistogram::new();

    // Add 10 pure green pixels (Hue 120)
    let green = RGB { r: 0, g: 255, b: 0 };
    for _ in 0..10 {
        hist.add_pixel(green);
    }

    assert_eq!(hist.total_pixels, 10);
    assert_eq!(hist.hue_bins[120].count, 10);
    assert_eq!(hist.hue_count(120), 10);
}

#[test]
fn test_histogram_filtering() {
    let mut hist = ColorHistogram::new();

    // Add 10 gray pixels (low saturation): they are counted as grey and
    // enter no hue bin.
    let gray = RGB { r: 100, g: 100, b: 100 };
    for _ in 0..10 {
        hist.add_pixel(gray);
    }

    assert_eq!(hist.hue_bins.iter().map(|bin| bin.count).sum::<u64>(), 0);
    assert_eq!(hist.saturation_bins.iter().sum::<u64>(), 0);
    assert_eq!(hist.gray_count(), 10);
    assert_eq!(hist.total_pixels, 10);
}

#[test]
fn test_peak_finding() {
    let mut hist = ColorHistogram::new();

    // Create a peak at 120 (Green)
    let green = RGB { r: 0, g: 255, b: 0 };
    for _ in 0..100 {
        hist.add_pixel(green);
    }

    // Create a smaller peak at 240 (Blue)
    let blue = RGB { r: 0, g: 0, b: 255 };
    for _ in 0..50 {
        hist.add_pixel(blue);
    }

    let peaks = hist.find_peaks(100_000); // 10% threshold

    assert_eq!(peaks.len(), 2);
    assert!((degrees(peaks[0].hue) - 120.0).abs() < 1.0);
    assert!((degrees(peaks[1].hue) - 240.0).abs() < 1.0);
    assert_eq!(peaks[0].count, 100);
    assert_eq!(peaks[1].count, 50);
    assert_eq!(peaks[0].percentage, 666_666);
    assert_eq!(peaks[1].percentage, 333_333);
    assert_eq!(peaks[0].color, green);
    assert_eq!(peaks[1].color, blue);
}

#[test]
fn peak_region_covers_a_spread_of_hues() {
    let mut hist = ColorHistogram::new();
    // A green region over hues 115 to 125: 680 pixels.
    let spread: [(u32, u32); 11] = [
        (115, 20),
        (116, 40),
        (117, 60),
        (118, 80),
        (119, 90),
        (120, 100),
        (121, 90),
        (122, 80),
        (123, 60),
        (124, 40),
        (125, 20),
    ];
    let mut region_pixels = 0;
    for (degree, count) in spread {
        let c = greenish(degree);
        for _ in 0..count {
            hist.add_pixel(c);
        }
        region_pixels += count;
    }
    assert_eq!(region_pixels, 680);
    // 320 pixels of other colours.
    for c in [
        RGB { r: 255, g: 0, b: 0 },
        RGB { r: 0, g: 0, b: 255 },
        RGB { r: 255, g: 255, b: 0 },
        RGB { r: 255, g: 0, b: 255 },
    ] {
        for _ in 0..80 {
            hist.add_pixel(c);
        }
    }
    assert_eq!(hist.total_pixels, 1000);

    let peaks = hist.find_peaks(50_000);
    assert_eq!(peaks.len(), 5);
    let top = peaks[0];
    assert!((degrees(top.hue) - 120.0).abs() < 10.0);
    assert!(fraction(top.percentage) > 0.50);
    assert!(fraction(top.percentage) < 0.80);
    assert_eq!(top.hue, 120_000_000);
    assert_eq!(top.count, 100);
    assert_eq!(top.percentage, 680_000);
    // The four other peaks hold 80 pixels each and come by ascending hue.
    assert_eq!(
        peaks[1..].iter().map(|p| (p.hue, p.count, p.percentage)).collect::<Vec<_>>(),
        vec![
            (0, 80, 80_000),
            (60_000_000, 80, 80_000),
            (240_000_000, 80, 80_000),
            (300_000_000, 80, 80_000),
        ]
    );
}

#[test]
fn empty_histogram_has_no_peaks() {
    let hist = ColorHistogram::new();
    assert_eq!(hist.total_pixels, 0);
    assert!(hist.find_peaks(0).is_empty());
    assert!(hist.find_peaks(250_000).is_empty());
}

#[test]
fn coloured_peak_comes_before_a_larger_grey_peak() {
    let mut hist = ColorHistogram::new();
    for _ in 0..60 {
        hist.add_pixel(RGB { r: 0, g: 0, b: 0 });
    }
    for _ in 0..40 {
        hist.add_pixel(RGB { r: 0, g: 255, b: 0 });
    }
    let peaks = hist.find_peaks(250_000);
    assert_eq!(peaks.len(), 2);
    assert_eq!((peaks[0].hue, peaks[0].count, peaks[0].percentage), (120_000_000, 40, 400_000));
    assert_eq!(peaks[0].color, RGB { r: 0, g: 255, b: 0 });
    assert_eq!((peaks[1].hue, peaks[1].count, peaks[1].percentage), (0, 60, 600_000));
    assert_eq!(peaks[1].color, RGB { r: 0, g: 0, b: 0 });
}

#[test]
fn grey_mass_must_exceed_the_threshold() {
    let mut hist = ColorHistogram::new();
    for _ in 0..25 {
        hist.add_pixel(RGB { r: 128, g: 128, b: 128 });
    }
    for _ in 0..75 {
        hist.add_pixel(RGB { r: 0, g: 0, b: 255 });
    }
    // Exactly 25% grey does not exceed 25%.
    let peaks = hist.find_peaks(250_000);
    assert_eq!(peaks.len(), 1);
    assert_eq!(peaks[0].hue, 240_000_000);
    // Under a lower threshold the grey peak appears, after the coloured one.
    let peaks = hist.find_peaks(240_000);
    assert_eq!(peaks.len(), 2);
    assert_eq!(peaks[1].count, 25);
    assert_eq!(peaks[1].color, RGB { r: 128, g: 128, b: 128 });
}

#[test]
fn equal_neighbours_are_no_peak() {
    let mut hist = ColorHistogram::new();
    // Two bins three degrees apart with the same count: neither holds more
    // than every bin within five degrees.
    for _ in 0..10 {
        hist.add_pixel(greenish(120));
        hist.add_pixel(greenish(123));
    }
    assert!(hist.find_peaks(100_000).is_empty());
    // One more pixel decides it.
    hist.add_pixel(greenish(123));
    let peaks = hist.find_peaks(100_000);
    assert_eq!(peaks.len(), 1);
    assert_eq!((peaks[0].hue, peaks[0].count), (123_000_000, 11));
    // The region grows two bins to each side and stops short of bin 120.
    assert_eq!(peaks[0].percentage, 523_809);
}

#[test]
fn peak_window_wraps_round_the_circle() {
    let mut hist = ColorHistogram::new();
    let red = RGB { r: 255, g: 0, b: 0 };
    let near_red = RGB { r: 255, g: 0, b: 8 };
    assert_eq!(hue_index(red.to_hsv().h), 0);
    assert_eq!(hue_index(near_red.to_hsv().h), 358);
    for _ in 0..30 {
        hist.add_pixel(red);
    }
    for _ in 0..20 {
        hist.add_pixel(near_red);
    }
    let peaks = hist.find_peaks(100_000);
    assert_eq!(peaks.len(), 1);
    assert_eq!((peaks[0].hue, peaks[0].count), (0, 30));
    // The region reaches back past zero and takes bin 358 in.
    assert_eq!(peaks[0].percentage, 1_000_000);
    assert_eq!(peaks[0].color, RGB { r: 255, g: 0, b: 3 });
}

#[test]
fn bins_follow_hue_saturation_and_value() {
    assert_eq!(hue_index(0), 0);
    assert_eq!(hue_index(359_999_999), 359);
    assert_eq!(hue_index(400_000_000), 359);
    assert_eq!(hue_index(120_500_000), 120);
    assert_eq!(value_index(RGB { r: 0, g: 0, b: 0 }), 0);
    assert_eq!(value_index(RGB { r: 255, g: 255, b: 255 }), 99);
    assert_eq!(value_index(RGB { r: 128, g: 12, b: 128 }), 49);
    // A value of exactly one third fills 33 of the 99, not a little less.
    assert_eq!(value_index(RGB { r: 85, g: 85, b: 85 }), 33);
    assert_eq!(value_index(RGB { r: 84, g: 84, b: 84 }), 32);
    assert_eq!(saturation_index(RGB { r: 0, g: 0, b: 0 }), 0);
    assert_eq!(saturation_index(RGB { r: 255, g: 0, b: 0 }), 99);
    assert_eq!(saturation_index(RGB { r: 200, g: 100, b: 50 }), 74);
    // A saturation of exactly two thirds fills 66 of the 99.
    assert_eq!(saturation_index(RGB { r: 3, g: 1, b: 2 }), 66);

    let mut hist = ColorHistogram::new();
    hist.add_pixel(RGB { r: 200, g: 100, b: 50 });
    assert_eq!(hist.hue_count(20), 1);
    assert_eq!(hist.saturation_count(74), 1);
    assert_eq!(hist.gray_count(), 0);
    hist.add_pixel(RGB { r: 128, g: 128, b: 128 });
    assert_eq!(hist.gray_count(), 1);
    assert_eq!(hist.value_count(49), 1);
    hist.add_pixel(RGB { r: 85, g: 85, b: 85 });
    assert_eq!(hist.value_count(33), 1);
    assert_eq!(hist.value_count(32), 0);
    assert_eq!(hist.total_pixels, 3);
}

#[test]
fn saturation_cutoff_for_grey_is_fifteen_percent() {
    let mut hist = ColorHistogram::new();
    // 30/200 is exactly 0.15: coloured.
    hist.add_pixel(RGB { r: 200, g: 170, b: 170 });
    assert_eq!(hist.gray_count(), 0);
    // 29/200 is under it: grey.
    hist.add_pixel(RGB { r: 200, g: 171, b: 171 });
    assert_eq!(hist.gray_count(), 1);
}

#[test]
fn colour_sums_average_to_the_nearest_step() {
    let sum = ColorSum::empty()
        .with_pixel(RGB { r: 0, g: 10, b: 255 })
        .with_pixel(RGB { r: 1, g: 11, b: 255 });
    assert_eq!(sum.count, 2);
    assert_eq!(sum.average(), RGB { r: 1, g: 11, b: 255 });
    let both = sum.with_sum(&ColorSum::empty().with_pixel(RGB { r: 0, g: 0, b: 0 }));
    assert_eq!(both.count, 3);
    assert_eq!(both.average(), RGB { r: 0, g: 7, b: 170 });
    assert_eq!(ColorSum::empty().average(), RGB { r: 0, g: 0, b: 0 });
}

#[test]
fn a_bin_must_hold_the_whole_share_to_be_a_peak() {
    let mut hist = ColorHistogram::new();
    hist.add_pixel(RGB { r: 0, g: 255, b: 0 });
    hist.add_pixel(RGB { r: 0, g: 255, b: 0 });
    hist.add_pixel(RGB { r: 0, g: 0, b: 255 });
    // 40% of three pixels are 1.2 pixels: blue's single pixel is not enough.
    let peaks = hist.find_peaks(400_000);
    assert_eq!(peaks.len(), 1);
    assert_eq!((peaks[0].hue, peaks[0].count), (120_000_000, 2));
    assert_eq!(peaks[0].percentage, 666_666);
    // A third of three pixels is one pixel: blue holds exactly that.
    let peaks = hist.find_peaks(333_333);
    assert_eq!(peaks.len(), 2);
    assert_eq!((peaks[1].hue, peaks[1].count), (240_000_000, 1));
    // Just over a third is more than blue holds.
    assert_eq!(hist.find_peaks(333_334).len(), 1);
    // More than two thirds is more than any bin holds.
    assert!(hist.find_peaks(666_667).is_empty());
    assert_eq!(hist.find_peaks(666_666).len(), 1);
}

fn frame_of(green: &[(u32, u32)]) -> ColorHistogram {
    let mut hist = ColorHistogram::new();
    for &(degree, count) in green {
        let c = greenish(degree);
        for _ in 0..count {
            hist.add_pixel(c);
        }
    }
    for c in [
        RGB { r: 255, g: 0, b: 0 },
        RGB { r: 0, g: 0, b: 255 },
        RGB { r: 255, g: 255, b: 0 },
        RGB { r: 255, g: 0, b: 255 },
    ] {
        for _ in 0..80 {
            hist.add_pixel(c);
        }
    }
    hist
}

#[test]
fn region_stops_where_the_bins_thin_out() {
    // 680 green pixels again, but with gaps beside the largest bin: the five
    // bins centred at 117 hold 225, less than the 230 of the peak, so the
    // region ends at 118.
    let hist = frame_of(&[
        (115, 75),
        (116, 75),
        (117, 75),
        (120, 230),
        (123, 75),
        (124, 75),
        (125, 75),
    ]);
    assert_eq!(hist.total_pixels, 1000);
    let peaks = hist.find_peaks(50_000);
    assert_eq!(peaks.len(), 5);
    assert_eq!((peaks[0].hue, peaks[0].count), (120_000_000, 230));
    assert_eq!(peaks[0].percentage, 230_000);
}

#[test]
fn flat_region_below_the_share_gives_no_peak() {
    // 680 green pixels spread so evenly that no bin holds a tenth of the
    // frame, and no other colour does either.
    let hist = frame_of(&[
        (115, 61),
        (116, 61),
        (117, 61),
        (118, 61),
        (119, 61),
        (120, 70),
        (121, 61),
        (122, 61),
        (123, 61),
        (124, 61),
        (125, 61),
    ]);
    assert_eq!(hist.total_pixels, 1000);
    assert!(hist.find_peaks(100_000).is_empty());
    // At a share of 7% the bin at 120 is a peak, and its region takes all
    // eleven bins in; but the four other colours hold 80 pixels each in one
    // bin, more than the 70 of the green bin, and come before it.
    let peaks = hist.find_peaks(70_000);
    assert_eq!(peaks.len(), 5);
    assert_eq!((peaks[0].hue, peaks[0].count, peaks[0].percentage), (0, 80, 80_000));
    assert_eq!((peaks[4].hue, peaks[4].count, peaks[4].percentage), (120_000_000, 70, 680_000));
}
