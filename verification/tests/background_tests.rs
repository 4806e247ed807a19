use rl_matting::background::{border_size, estimate_background_color};

fn image(w: usize, h: usize, f: impl Fn(usize, usize) -> [u8; 4]) -> Vec<u8> {
    let mut v = Vec::new();
    for y in 0..h {
        for x in 0..w {
            v.extend_from_slice(&f(x, y));
        }
    }
    v
}

#[test]
fn border_band_width() {
    assert_eq!(border_size(100, 100), 5);
    assert_eq!(border_size(1000, 50), 3);
    assert_eq!(border_size(1000, 1000), 10);
    assert_eq!(border_size(0, 0), 3);
}

#[test]
fn uniform_crop_has_its_colour_as_background() {
    let d = image(3, 3, |_, _| [10, 20, 30, 255]);
    assert_eq!(estimate_background_color(&d, 3, 3), (10, 20, 30));
}

#[test]
fn a_few_odd_pixels_do_not_move_the_median() {
    let d = image(5, 5, |x, y| if x == 2 && y == 2 { [200, 200, 200, 255] } else { [10, 20, 30, 0] });
    assert_eq!(estimate_background_color(&d, 5, 5), (10, 20, 30));
    let d = image(3, 3, |_, y| if y == 0 { [0, 0, 0, 255] } else { [100, 100, 100, 255] });
    assert_eq!(estimate_background_color(&d, 3, 3), (100, 100, 100));
}

#[test]
fn even_sample_count_averages_the_middle_values() {
    let d = image(4, 3, |x, _| if x < 2 { [0, 7, 255, 255] } else { [100, 7, 255, 255] });
    assert_eq!(estimate_background_color(&d, 4, 3), (50, 7, 255));
}

#[test]
fn empty_crop_is_white() {
    assert_eq!(estimate_background_color(&[], 0, 0), (255, 255, 255));
}
