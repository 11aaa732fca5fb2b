use distil::{
    count_colors, distil_clusters, merge_by_distance, get_pixels, has_transparency, is_black, is_white, quantize,
    remove_similar_colors, scaled_dimensions, Bucket, Config, Distil, DistilError, PixelGrid, Rgb,
};

fn rgb(r: u8, g: u8, b: u8) -> Rgb {
    Rgb { r, g, b }
}

fn bucket(r: u8, g: u8, b: u8, count: usize) -> Bucket {
    Bucket { rgb: rgb(r, g, b), count }
}

fn grid_of(width: u32, height: u32, px: &[[u8; 4]]) -> PixelGrid {
    let mut data = Vec::new();
    for p in px {
        data.extend_from_slice(p);
    }
    PixelGrid::new(width, height, data).unwrap()
}

#[test]
fn filter_keeps_dark_grey_at_threshold() {
    let kept = get_pixels(&vec![8, 8, 8, 255], 8, 247).unwrap();
    assert_eq!(kept, vec![8, 8, 8, 255]);
    assert!(!is_black([8, 8, 8, 255], 8));
}

#[test]
fn filter_drops_black_below_threshold() {
    assert!(is_black([7, 7, 7, 255], 8));
    assert_eq!(get_pixels(&vec![7, 7, 7, 255], 8, 247), Err(DistilError::Uninteresting));
}

#[test]
fn filter_keeps_light_grey_at_threshold() {
    let kept = get_pixels(&vec![247, 247, 247, 255], 8, 247).unwrap();
    assert_eq!(kept, vec![247, 247, 247, 255]);
    assert!(!is_white([247, 247, 247, 255], 247));
}

#[test]
fn filter_drops_white_above_threshold() {
    assert!(is_white([248, 248, 248, 255], 247));
    assert_eq!(get_pixels(&vec![248, 248, 248, 255], 8, 247), Err(DistilError::Uninteresting));
}

#[test]
fn filter_drops_translucent_and_keeps_scan_order() {
    assert!(has_transparency([10, 20, 30, 254]));
    assert!(!has_transparency([10, 20, 30, 255]));
    let data = vec![1, 2, 3, 255, 10, 20, 30, 0, 200, 0, 0, 255, 0, 0, 0, 255, 40, 50, 60, 255];
    let kept = get_pixels(&data, 8, 247).unwrap();
    assert_eq!(kept, vec![200, 0, 0, 255, 40, 50, 60, 255]);
}

#[test]
fn filter_mixed_channels_are_not_black() {
    let kept = get_pixels(&vec![7, 7, 8, 255], 8, 247).unwrap();
    assert_eq!(kept.len(), 4);
}

#[test]
fn all_transparent_grid_is_uninteresting() {
    let g = grid_of(2, 2, &[[255, 0, 0, 0], [0, 255, 0, 10], [0, 0, 255, 128], [9, 9, 9, 254]]);
    let r = distil_clusters(g, &Config::default());
    assert!(matches!(r, Err(DistilError::Uninteresting)));
}

#[test]
fn all_near_white_grid_is_uninteresting() {
    let g = grid_of(2, 1, &[[250, 250, 250, 255], [255, 255, 255, 255]]);
    let r = distil_clusters(g, &Config::default());
    assert!(matches!(r, Err(DistilError::Uninteresting)));
}

#[test]
fn scaled_dimensions_within_budget_unchanged() {
    assert_eq!(scaled_dimensions(10, 10, 1000), (10, 10));
    assert_eq!(scaled_dimensions(1000, 1, 1000), (1000, 1));
}

#[test]
fn scaled_dimensions_square() {
    assert_eq!(scaled_dimensions(100, 100, 1000), (31, 31));
}

#[test]
fn scaled_dimensions_wide_and_tall() {
    assert_eq!(scaled_dimensions(200, 50, 1000), (63, 15));
    assert_eq!(scaled_dimensions(2000, 1, 1000), (1000, 1));
    assert_eq!(scaled_dimensions(1, 5000, 1000), (1, 1000));
}

#[test]
fn sample_downscales_to_budget() {
    let px = vec![[200, 30, 30, 255]; 100 * 100];
    let g = grid_of(100, 100, &px).sample(1000);
    assert_eq!((g.width, g.height), (31, 31));
    assert_eq!(g.data.len(), 4 * 31 * 31);
    assert!(g.data[0] >= 198 && g.data[0] <= 202);
    assert!(g.data[1] >= 28 && g.data[1] <= 32);
    assert_eq!(g.data[3], 255);
}

#[test]
fn count_colors_groups_and_ranks() {
    let (a, b, c) = (rgb(1, 2, 3), rgb(4, 5, 6), rgb(7, 8, 9));
    let buckets = count_colors(&vec![c, a, b, a, c, a]);
    assert_eq!(buckets, vec![Bucket { rgb: a, count: 3 }, Bucket { rgb: c, count: 2 }, Bucket { rgb: b, count: 1 }]);
}

#[test]
fn count_colors_ties_keep_first_occurrence() {
    let (a, b) = (rgb(9, 9, 9), rgb(1, 1, 1));
    let buckets = count_colors(&vec![a, b, b, a]);
    assert_eq!(buckets, vec![Bucket { rgb: a, count: 2 }, Bucket { rgb: b, count: 2 }]);
}

#[test]
fn count_colors_empty() {
    assert!(count_colors(&vec![]).is_empty());
}

#[test]
fn merge_scenario_red_shades_join_green_stays() {
    let input = vec![bucket(255, 0, 0, 1), bucket(254, 1, 1, 1), bucket(0, 255, 0, 1)];
    let merged = remove_similar_colors(&input, 10);
    assert_eq!(merged.clusters.len(), 2);
    assert_eq!(merged.clusters[0].leader.rgb, rgb(255, 0, 0));
    assert_eq!(merged.clusters[0].count, 2);
    assert_eq!(merged.clusters[1].leader.rgb, rgb(0, 255, 0));
    assert_eq!(merged.clusters[1].count, 1);
    assert_eq!(merged.merges.len(), 1);
    assert_eq!(merged.merges[0].target, 0);
    assert_eq!(merged.merges[0].bucket, bucket(254, 1, 1, 1));
}

#[test]
fn merge_conserves_counts() {
    let input = vec![
        bucket(10, 10, 200, 7),
        bucket(200, 10, 10, 5),
        bucket(12, 10, 198, 4),
        bucket(201, 11, 10, 3),
        bucket(10, 200, 10, 2),
    ];
    let merged = remove_similar_colors(&input, 10);
    let before: usize = input.iter().map(|b| b.count).sum();
    let after: usize = merged.clusters.iter().map(|c| c.count).sum();
    assert_eq!(before, after);
    assert_eq!(merged.clusters.len(), 3);
}

#[test]
fn merge_output_sorted_by_count() {
    let input = vec![bucket(10, 10, 200, 3), bucket(200, 10, 10, 2), bucket(201, 10, 10, 2), bucket(202, 11, 12, 2)];
    let merged = remove_similar_colors(&input, 10);
    for w in merged.clusters.windows(2) {
        assert!(w[0].count >= w[1].count);
    }
    assert_eq!(merged.clusters[0].leader.rgb, rgb(200, 10, 10));
    assert_eq!(merged.clusters[0].count, 6);
}

#[test]
fn merge_leaders_are_distinct() {
    let input = vec![bucket(10, 10, 200, 3), bucket(200, 10, 10, 2), bucket(10, 200, 10, 2), bucket(12, 12, 198, 1)];
    let merged = remove_similar_colors(&input, 10);
    let cs = &merged.clusters;
    for i in 0..cs.len() {
        for j in 0..cs.len() {
            if i != j {
                let x = [cs[i].leader.rgb.r, cs[i].leader.rgb.g, cs[i].leader.rgb.b];
                let y = [cs[j].leader.rgb.r, cs[j].leader.rgb.g, cs[j].leader.rgb.b];
                assert!(delta_e::DE2000::from_rgb(&x, &y) >= 10.0);
            }
        }
    }
}

#[test]
fn merge_first_match_wins_and_distance_zero_threshold_keeps_all() {
    let input = vec![bucket(100, 100, 100, 2), bucket(100, 100, 100, 1)];
    let merged = remove_similar_colors(&input, 0);
    assert_eq!(merged.clusters.len(), 2);
    let merged = remove_similar_colors(&input, 1);
    assert_eq!(merged.clusters.len(), 1);
    assert_eq!(merged.clusters[0].count, 3);
}

#[test]
fn quantize_returns_working_size_colors() {
    let pixels = vec![255, 0, 0, 255, 254, 1, 1, 255, 0, 255, 0, 255, 0, 250, 3, 255, 9, 9, 200, 255];
    let colors = quantize(&pixels, 1, 4);
    assert_eq!(colors.len(), 4);
    assert_ne!(colors, vec![rgb(0, 0, 0); 4]);
}

#[test]
fn end_to_end_two_by_two_grid() {
    let g = grid_of(2, 2, &[[255, 0, 0, 255], [254, 1, 1, 255], [0, 255, 0, 255], [0, 0, 0, 255]]);
    let cfg = Config { palette_size: 4, sample_fraction: 1, ..Config::default() };
    let merged = distil_clusters(g, &cfg).unwrap();
    let total: usize = merged.clusters.iter().map(|c| c.count).sum();
    assert_eq!(total, 4);
    for w in merged.clusters.windows(2) {
        assert!(w[0].count >= w[1].count);
    }
    assert!(merged.clusters.len() >= 2);
}

#[test]
fn repeated_runs_are_identical() {
    let px: Vec<[u8; 4]> = (0..64u32).map(|i| [(i * 4) as u8, (255 - i * 3) as u8, (i * 7 % 256) as u8, 255]).collect();
    let a = distil_clusters(grid_of(8, 8, &px), &Config::default()).unwrap();
    let b = distil_clusters(grid_of(8, 8, &px), &Config::default()).unwrap();
    assert_eq!(a.clusters, b.clusters);
    assert_eq!(a.merges, b.merges);
    let total: usize = a.clusters.iter().map(|c| c.count).sum();
    assert_eq!(total, 256);
}

#[test]
fn pixel_grid_rejects_wrong_length() {
    assert!(PixelGrid::new(2, 2, vec![0; 15]).is_none());
    assert!(PixelGrid::new(2, 2, vec![0; 16]).is_some());
}

#[test]
fn default_config_values() {
    let c = Config::default();
    assert_eq!(c.max_sample_count, 1000);
    assert_eq!(c.sample_fraction, 10);
    assert_eq!(c.palette_size, 256);
    assert_eq!(c.min_black, 8);
    assert_eq!(c.max_white, 247);
    assert_eq!(c.min_distance, 10);
}

#[test]
fn distil_from_palette_counts_by_position() {
    let merged = remove_similar_colors(&vec![bucket(255, 0, 0, 3), bucket(0, 0, 255, 1)], 10);
    let d = Distil::from_palette(vec![[255, 0, 0], [0, 0, 255]], &merged.clusters);
    assert_eq!(d.colors, vec![[255, 0, 0], [0, 0, 255]]);
    assert_eq!(d.color_count.get(&0), Some(&3));
    assert_eq!(d.color_count.get(&1), Some(&1));
    assert_eq!(d.color_count.len(), 2);
}

#[test]
fn swatch_strip_zero_requested_is_error() {
    let d = Distil::from_palette(vec![[1, 2, 3]], &remove_similar_colors(&vec![bucket(1, 2, 3, 1)], 10).clusters);
    assert!(matches!(d.as_img(0), Err(DistilError::NoSwatches)));
}

#[test]
fn swatch_strip_layout() {
    let clusters = remove_similar_colors(&vec![bucket(255, 0, 0, 3), bucket(0, 0, 255, 2), bucket(0, 255, 0, 1)], 10).clusters;
    let d = Distil::from_palette(vec![[255, 0, 0], [0, 0, 255], [0, 255, 0]], &clusters);
    let g = d.as_img(2).unwrap();
    assert_eq!((g.width, g.height), (160, 80));
    assert_eq!(g.data.len(), 4 * 160 * 80);
    let at = |x: usize, y: usize| -> &[u8] { &g.data[4 * (y * 160 + x)..4 * (y * 160 + x) + 4] };
    assert_eq!(at(0, 0), &[255, 0, 0, 255]);
    assert_eq!(at(79, 79), &[255, 0, 0, 255]);
    assert_eq!(at(80, 5), &[0, 0, 255, 255]);
    assert_eq!(at(159, 40), &[0, 0, 255, 255]);
    let all = d.as_img(9).unwrap();
    assert_eq!(all.width, 240);
}

#[test]
fn error_messages() {
    assert_eq!(DistilError::Uninteresting.message(), "The passed image does not contain any interesting colours");
    assert_eq!(DistilError::UnsupportedFormat.message(), "The passed image isn't a JPEG or a PNG");
}

#[test]
fn merge_by_distance_first_match_on_given_distances() {
    let input = vec![bucket(1, 1, 1, 4), bucket(2, 2, 2, 3), bucket(3, 3, 3, 2), bucket(4, 4, 4, 1)];
    // bucket 2 is close to both leaders 0 and 1: the first one wins.
    let d = vec![vec![], vec![20], vec![5, 5], vec![30, 9, 1]];
    let merged = merge_by_distance(&input, &d, 10);
    assert_eq!(merged.clusters.len(), 2);
    assert_eq!(merged.clusters[0].leader, bucket(1, 1, 1, 4));
    assert_eq!(merged.clusters[0].count, 6);
    assert_eq!(merged.clusters[1].leader, bucket(2, 2, 2, 3));
    assert_eq!(merged.clusters[1].count, 4);
    assert_eq!(merged.merges.len(), 2);
    assert_eq!((merged.merges[0].target, merged.merges[0].bucket), (0, bucket(3, 3, 3, 2)));
    assert_eq!((merged.merges[1].target, merged.merges[1].bucket), (1, bucket(4, 4, 4, 1)));
}

#[test]
fn merge_by_distance_compares_with_leader_as_first_seen() {
    // bucket 2 is far from leader 0's colour though leader 0 absorbed bucket 1.
    let input = vec![bucket(1, 1, 1, 1), bucket(2, 2, 2, 1), bucket(3, 3, 3, 1)];
    let d = vec![vec![], vec![3], vec![12, 2]];
    let merged = merge_by_distance(&input, &d, 10);
    assert_eq!(merged.clusters.len(), 2);
    assert_eq!(merged.clusters[0].count, 2);
    assert_eq!(merged.clusters[0].origin, 0);
    assert_eq!(merged.clusters[1].origin, 2);
    assert_eq!(merged.clusters[1].id, 1);
}
