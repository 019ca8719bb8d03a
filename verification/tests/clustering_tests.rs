use chroma_detect::clustering::{
    assign_all, color_distance, downsample_if_needed, nearest_centroid, update_centroids, KMeans,
};
use chroma_detect::color::HSV;

fn degrees(h: u32) -> f64 {
    h as f64 / 1_000_000.0
}

#[test]
fn test_kmeans_simple_clustering() {
    let mut pixels = Vec::new();
    // Create 100 green pixels
    for _ in 0..100 {
        pixels.extend_from_slice(&[0, 255, 0, 255]);
    }
    // Create 50 blue pixels
    for _ in 0..50 {
        pixels.extend_from_slice(&[0, 0, 255, 255]);
    }
    // Total 150 pixels

    let kmeans = KMeans::new(2);
    let clusters = kmeans.find_clusters(&pixels, 150, 1);

    assert_eq!(clusters.len(), 2);

    // Largest cluster should be green (Hue 120)
    assert!((degrees(clusters[0].centroid.h) - 120.0).abs() < 5.0);
    assert_eq!(clusters[0].size, 100);

    // Second cluster should be blue (Hue 240)
    assert!((degrees(clusters[1].centroid.h) - 240.0).abs() < 5.0);
    assert_eq!(clusters[1].size, 50);

    assert_eq!(clusters[0].percentage, 666_666);
    assert_eq!(clusters[1].percentage, 333_333);
}

#[test]
fn test_downsampling() {
    // Create 10 pixels
    let mut pixels = Vec::new();
    for i in 0..10 {
        pixels.extend_from_slice(&[i as u8, 0, 0, 255]);
    }

    let sampled = downsample_if_needed(&pixels, 10, 1);
    assert_eq!(sampled.len(), 10);
    assert_eq!(sampled[0].r, 0);
    assert_eq!(sampled[9].r, 9);
}

#[test]
fn large_buffers_are_sampled_every_fourth_pixel() {
    let count: usize = 1_000_002;
    let mut pixels = vec![0u8; count * 4];
    for i in 0..count {
        pixels[4 * i] = (i % 251) as u8;
    }
    let sampled = downsample_if_needed(&pixels, 1, 1);
    assert_eq!(sampled.len(), 250_001);
    assert_eq!(sampled[0].r, 0);
    assert_eq!(sampled[1].r, 4);
    assert_eq!(sampled[250_000].r, (1_000_000 % 251) as u8);

    // A million pixels are still sampled in full.
    let sampled = downsample_if_needed(&pixels[..4_000_000], 1, 1);
    assert_eq!(sampled.len(), 1_000_000);
}

#[test]
fn trailing_bytes_make_no_pixel() {
    let pixels = [1u8, 2, 3, 4, 5, 6, 7];
    let sampled = downsample_if_needed(&pixels, 2, 1);
    assert_eq!(sampled.len(), 1);
    assert_eq!((sampled[0].r, sampled[0].g, sampled[0].b), (1, 2, 3));
    assert!(downsample_if_needed(&[], 0, 0).is_empty());
    assert!(downsample_if_needed(&[9, 9, 9], 1, 1).is_empty());
}

#[test]
fn no_pixels_or_no_clusters_give_an_empty_list() {
    assert!(KMeans::new(3).find_clusters(&[], 0, 0).is_empty());
    assert!(KMeans::new(0).find_clusters(&[0, 255, 0, 255], 1, 1).is_empty());
}

#[test]
fn uniform_frame_leaves_the_other_clusters_empty() {
    let mut pixels = Vec::new();
    for _ in 0..20 {
        pixels.extend_from_slice(&[255, 0, 0, 255]);
    }
    let clusters = KMeans::new(3).find_clusters(&pixels, 20, 1);
    assert_eq!(clusters.len(), 3);
    assert_eq!(clusters.iter().map(|c| c.size).collect::<Vec<_>>(), vec![20, 0, 0]);
    assert_eq!(clusters[0].percentage, 1_000_000);
    assert_eq!(clusters[1].percentage, 0);
    for c in &clusters {
        assert_eq!(c.centroid, HSV { h: 0, s: 1_000_000, v: 1_000_000 });
    }
}

#[test]
fn sizes_add_up_and_descend() {
    let mut pixels = Vec::new();
    for i in 0..300u32 {
        let c: [u8; 4] = match i % 6 {
            0 => [255, 0, 0, 255],
            1 | 2 => [0, 255, 0, 255],
            _ => [0, 0, 255, 255],
        };
        pixels.extend_from_slice(&c);
    }
    let clusters = KMeans::new(3).find_clusters(&pixels, 300, 1);
    assert_eq!(clusters.len(), 3);
    assert_eq!(clusters.iter().map(|c| c.size).sum::<u64>(), 300);
    assert!(clusters[0].size >= clusters[1].size && clusters[1].size >= clusters[2].size);
    assert_eq!(clusters[0].size, 150);
    assert_eq!(clusters[0].centroid.h, 240_000_000);
    assert_eq!(clusters[0].percentage, 500_000);
}

#[test]
fn distance_weighs_hue_most() {
    let green = HSV { h: 120_000_000, s: 1_000_000, v: 1_000_000 };
    let blue = HSV { h: 240_000_000, s: 1_000_000, v: 1_000_000 };
    let black = HSV { h: 0, s: 0, v: 0 };
    // 120 of 180 degrees weighted 0.6 is 0.4, times 1800 millions.
    assert_eq!(color_distance(&green, &blue), 720_000_000);
    assert_eq!(color_distance(&green, &green), 0);
    // To black: hue 120 degrees, saturation 1 at 0.3, value 1 at 0.1.
    assert_eq!(color_distance(&green, &black), 720_000_000 + 540_000_000 + 180_000_000);
    // Hue distance goes round the wheel: 350 and 10 degrees are 20 apart.
    let a = HSV { h: 350_000_000, s: 500_000, v: 500_000 };
    let b = HSV { h: 10_000_000, s: 500_000, v: 500_000 };
    assert_eq!(color_distance(&a, &b), 120_000_000);
    assert_eq!(color_distance(&b, &a), 120_000_000);
}

#[test]
fn nearest_centroid_is_the_first_of_equals() {
    let green = HSV { h: 120_000_000, s: 1_000_000, v: 1_000_000 };
    let blue = HSV { h: 240_000_000, s: 1_000_000, v: 1_000_000 };
    let centroids = vec![blue, green, green];
    assert_eq!(nearest_centroid(&centroids, &green), 1);
    assert_eq!(nearest_centroid(&centroids, &blue), 0);
    let pixels = vec![green, blue, green];
    assert_eq!(assign_all(&pixels, &centroids), vec![1, 0, 1]);
}

#[test]
fn centroids_move_to_the_mean_of_their_members() {
    let pixels = vec![
        HSV { h: 100_000_000, s: 200_000, v: 1_000_000 },
        HSV { h: 121_000_000, s: 400_000, v: 0 },
        HSV { h: 300_000_000, s: 1_000_000, v: 500_000 },
    ];
    let centroids = vec![
        HSV { h: 1, s: 2, v: 3 },
        HSV { h: 4, s: 5, v: 6 },
        HSV { h: 7, s: 8, v: 9 },
    ];
    let moved = update_centroids(&centroids, &pixels, &vec![0, 0, 2]);
    assert_eq!(moved[0], HSV { h: 110_500_000, s: 300_000, v: 500_000 });
    // A centroid without members stays.
    assert_eq!(moved[1], HSV { h: 4, s: 5, v: 6 });
    assert_eq!(moved[2], pixels[2]);
}
