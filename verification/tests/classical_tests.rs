use rl_matting::classical::{
    adaptive_block, analyze_components, background_size_threshold, component_sizes, foreground_mask,
    label_components, labels_to_mask, merge_adaptive_threshold, postprocess_mask, rank_components,
    select_foreground, trim_mask_edges, ComponentRanking,
};

#[test]
fn isolated_pixel_is_removed_by_cleanup() {
    let mut m = vec![0u8; 100];
    m[5 * 10 + 5] = 255;
    assert_eq!(postprocess_mask(m, 10, 10, 3), vec![0u8; 100]);
}

#[test]
fn full_mask_survives_cleanup() {
    assert_eq!(postprocess_mask(vec![255u8; 100], 10, 10, 3), vec![255u8; 100]);
    assert_eq!(postprocess_mask(vec![0u8; 100], 10, 10, 0), vec![0u8; 100]);
}

#[test]
fn adaptive_block_is_odd_and_at_least_three() {
    assert_eq!(adaptive_block(0), 3);
    assert_eq!(adaptive_block(3), 3);
    assert_eq!(adaptive_block(4), 5);
    assert_eq!(adaptive_block(15), 15);
    assert_eq!(adaptive_block(16), 17);
}

#[test]
fn adaptive_threshold_adds_bright_pixels() {
    let score = [200u8, 10, 200];
    assert_eq!(merge_adaptive_threshold(vec![0, 0, 0], &score, 3, 1, 0), vec![255, 0, 255]);
    assert_eq!(merge_adaptive_threshold(vec![0, 255, 0], &score, 3, 1, 15), vec![255, 255, 255]);
}

#[test]
fn adaptive_threshold_ignores_dim_pixels() {
    let score = [100u8, 100, 100];
    assert_eq!(merge_adaptive_threshold(vec![0, 255, 0], &score, 3, 1, 3), vec![0, 255, 0]);
}

#[test]
fn weak_pixels_next_to_the_background_are_trimmed() {
    let keep = [false, true, true, true];
    let weak = [true, true, true, true];
    assert_eq!(trim_mask_edges(&keep, &weak, 4, 1), vec![false, false, true, true]);
}

#[test]
fn strong_or_inner_pixels_stay() {
    let keep = [false, true, true, true];
    let weak = [false, false, true, true];
    assert_eq!(trim_mask_edges(&keep, &weak, 4, 1), vec![false, true, true, true]);
    assert_eq!(trim_mask_edges(&[true, true], &[true, true], 2, 1), vec![true, true]);
}

#[test]
fn diagonal_neighbour_of_the_background_is_not_trimmed() {
    let keep = [true, true, true, false];
    let weak = [true, true, true, true];
    assert_eq!(trim_mask_edges(&keep, &weak, 2, 2), vec![true, false, false, false]);
}

#[test]
fn components_are_labelled_in_raster_order() {
    let m = vec![255, 0, 255, 0, 0, 0, 0, 0, 255];
    assert_eq!(label_components(m, 3, 3), vec![1, 0, 2, 0, 0, 0, 0, 0, 3]);
}

#[test]
fn diagonal_neighbours_are_connected() {
    assert_eq!(label_components(vec![255, 0, 0, 255], 2, 2), vec![1, 0, 0, 1]);
    assert_eq!(label_components(vec![0, 255, 255, 0], 2, 2), vec![0, 1, 1, 0]);
}

#[test]
fn sizes_per_label() {
    assert_eq!(component_sizes(&[0, 1, 1, 2, 0, 2, 2]), vec![0, 2, 3]);
    assert_eq!(component_sizes(&[0, 0]), vec![0]);
    assert_eq!(component_sizes(&[]), vec![0]);
}

#[test]
fn two_largest_components() {
    let r = rank_components(&[0, 2, 3, 3, 1]);
    assert_eq!(
        r,
        ComponentRanking { largest_label: 2, largest_size: 3, second_label: 3, second_size: 3 }
    );
    let none = rank_components(&[0]);
    assert_eq!(none, ComponentRanking { largest_label: 0, largest_size: 0, second_label: 0, second_size: 0 });
}

#[test]
fn selection_keeps_largest_then_large_enough() {
    let sizes = [0u64, 2, 3, 3, 1];
    let rk = rank_components(&sizes);
    assert_eq!(select_foreground(&sizes, &rk, 100, 1, 2), vec![2, 3, 1]);
}

#[test]
fn selection_drops_a_background_sized_component() {
    let sizes = [0u64, 2, 3, 3, 1];
    let rk = rank_components(&sizes);
    assert_eq!(select_foreground(&sizes, &rk, 2, 3, 0), vec![3]);
    assert_eq!(select_foreground(&sizes, &rk, 2, 10, 0), vec![2]);
}

#[test]
fn selection_second_component_needs_the_threshold() {
    let sizes = [0u64, 5, 1];
    let rk = rank_components(&sizes);
    assert_eq!(select_foreground(&sizes, &rk, 100, 0, 2), vec![1]);
    assert_eq!(select_foreground(&sizes, &rk, 100, 0, 0), vec![1, 2]);
}

#[test]
fn mask_from_kept_labels() {
    assert_eq!(labels_to_mask(&[0, 1, 2, 3], &[2, 3]), vec![false, false, true, true]);
    assert_eq!(labels_to_mask(&[0, 0], &[0]), vec![false, false]);
}

#[test]
fn background_threshold_is_thirty_percent() {
    assert_eq!(background_size_threshold(10, 10), 30);
    assert_eq!(background_size_threshold(7, 3), 6);
}

#[test]
fn foreground_of_an_analysed_mask() {
    let m = vec![
        255, 255, 0, 0, //
        255, 255, 0, 0, //
        0, 0, 0, 0, //
        0, 0, 0, 255,
    ];
    let a = analyze_components(m, 4, 4);
    assert_eq!(a.sizes, vec![0, 4, 1]);
    assert_eq!(a.bg_threshold, 4);
    let all = foreground_mask(&a, 1, 1);
    assert_eq!(
        all,
        vec![true, true, false, false, true, true, false, false, false, false, false, false, false, false, false, true]
    );
    let big = foreground_mask(&a, 1, 2);
    assert_eq!(
        big,
        vec![true, true, false, false, true, true, false, false, false, false, false, false, false, false, false, false]
    );
}

#[test]
fn background_sized_component_is_dropped_from_the_mask() {
    let m = vec![
        255, 255, 255, 0, //
        255, 255, 0, 0, //
        0, 0, 0, 0, //
        0, 0, 0, 255,
    ];
    let a = analyze_components(m, 4, 4);
    assert_eq!(a.ranking.largest_size, 5);
    let fg = foreground_mask(&a, 1, 1);
    assert_eq!(
        fg,
        vec![false, false, false, false, false, false, false, false, false, false, false, false, false, false, false, true]
    );
}

#[test]
fn touching_mask_pixels_share_a_label_and_fate() {
    let m = vec![
        255, 0, 0, 0, //
        0, 255, 0, 0, //
        0, 0, 255, 0, //
        0, 0, 0, 0,
    ];
    let a = analyze_components(m, 4, 4);
    assert_eq!(a.labels[0], a.labels[5]);
    assert_eq!(a.labels[5], a.labels[10]);
    let fg = foreground_mask(&a, 1, 1);
    assert!(fg[0] && fg[5] && fg[10]);
    assert_eq!(fg.iter().filter(|&&b| b).count(), 3);
}

#[test]
fn empty_mask_keeps_nothing_and_any_foreground_keeps_something() {
    let a = analyze_components(vec![0u8; 9], 3, 3);
    assert!(foreground_mask(&a, 100, 100).iter().all(|&b| !b));
    let mut m = vec![0u8; 9];
    m[4] = 255;
    let a = analyze_components(m, 3, 3);
    let fg = foreground_mask(&a, 100, 100);
    assert!(fg[4]);
}
