use rl_matting::geometry::{
    apply_action, center_half, crop_bounds, feature_step, grid_dims, patch_rect, sample_coord,
    sample_side, BoundingBox, MIN_BOX_SIDE,
};

fn bx(x: u32, y: u32, width: u32, height: u32) -> BoundingBox {
    BoundingBox { x, y, width, height }
}

#[test]
fn move_left_by_a_tenth() {
    let b = bx(100, 100, 200, 150);
    assert_eq!(apply_action(&b, 0, 640, 480), bx(80, 100, 200, 150));
}

#[test]
fn move_right_by_a_tenth() {
    let b = bx(100, 100, 200, 150);
    assert_eq!(apply_action(&b, 1, 640, 480), bx(120, 100, 200, 150));
}

#[test]
fn move_up_and_down_by_a_tenth() {
    let b = bx(100, 100, 200, 150);
    assert_eq!(apply_action(&b, 2, 640, 480), bx(100, 85, 200, 150));
    assert_eq!(apply_action(&b, 3, 640, 480), bx(100, 115, 200, 150));
}

#[test]
fn zoom_in_shrinks_by_eight_percent_around_the_centre() {
    let b = bx(100, 100, 200, 150);
    assert_eq!(apply_action(&b, 4, 640, 480), bx(108, 106, 184, 138));
}

#[test]
fn zoom_out_grows_by_eight_percent() {
    let b = bx(100, 100, 200, 150);
    assert_eq!(apply_action(&b, 5, 640, 480), bx(92, 94, 216, 162));
}

#[test]
fn trigger_and_unknown_actions_keep_the_box() {
    let b = bx(100, 100, 200, 150);
    assert_eq!(apply_action(&b, 6, 640, 480), b);
    assert_eq!(apply_action(&b, 42, 640, 480), b);
}

#[test]
fn move_left_stops_at_the_border() {
    let b = bx(0, 10, 200, 150);
    assert_eq!(apply_action(&b, 0, 640, 480), bx(0, 10, 200, 150));
}

#[test]
fn move_right_is_clamped_inside_the_image() {
    let b = bx(600, 10, 100, 100);
    assert_eq!(apply_action(&b, 1, 640, 480), bx(539, 10, 100, 100));
}

#[test]
fn zoom_out_of_the_whole_image_stays_the_whole_image() {
    let b = BoundingBox::full(640, 480);
    assert_eq!(apply_action(&b, 5, 640, 480), bx(0, 0, 640, 480));
}

#[test]
fn zoom_in_never_goes_below_the_minimum_side() {
    let b = bx(5, 5, 20, 20);
    let r = apply_action(&b, 4, 640, 480);
    assert_eq!(r, bx(5, 5, MIN_BOX_SIDE, MIN_BOX_SIDE));
}

#[test]
fn small_sides_are_raised_to_twenty() {
    let b = bx(0, 0, 3, 4);
    assert_eq!(apply_action(&b, 6, 10, 10), bx(0, 0, 20, 20));
}

#[test]
fn full_box_covers_the_image() {
    assert_eq!(BoundingBox::full(320, 200), bx(0, 0, 320, 200));
}

#[test]
fn crop_bounds_are_clipped_to_the_image() {
    assert_eq!(crop_bounds(&bx(600, 400, 100, 100), 640, 480), (600, 400, 640, 480));
    assert_eq!(crop_bounds(&bx(10, 20, 30, 40), 640, 480), (10, 20, 40, 60));
    assert_eq!(crop_bounds(&bx(700, 500, 10, 10), 640, 480), (640, 480, 640, 480));
}

#[test]
fn patch_rect_moves_the_corner_to_the_last_pixel() {
    assert_eq!(patch_rect(&bx(700, 10, 50, 50), 640, 480), bx(639, 10, 1, 50));
    assert_eq!(patch_rect(&bx(10, 10, 50, 50), 640, 480), bx(10, 10, 50, 50));
}

#[test]
fn center_half_of_a_box() {
    assert_eq!(center_half(&bx(100, 100, 200, 150)), bx(150, 137, 100, 75));
}

#[test]
fn feature_step_is_a_24th_of_the_short_side_at_least_four() {
    assert_eq!(feature_step(640, 480), 20);
    assert_eq!(feature_step(50, 60), 4);
    assert_eq!(feature_step(0, 0), 4);
}

#[test]
fn grid_dims_cover_the_crop() {
    assert_eq!(grid_dims(100, 50, 20), (5, 3));
    assert_eq!(grid_dims(100, 40, 20), (5, 2));
    assert_eq!(grid_dims(0, 0, 4), (0, 0));
}

#[test]
fn sample_side_is_the_short_side_at_least_32() {
    assert_eq!(sample_side(100, 20), 32);
    assert_eq!(sample_side(100, 64), 64);
}

#[test]
fn sample_coord_scales_and_clamps() {
    assert_eq!(sample_coord(10, 112, 32, 224, 30), 26);
    assert_eq!(sample_coord(10, 112, 32, 224, 20), 19);
    assert_eq!(sample_coord(0, 223, 32, 224, 100), 31);
}
