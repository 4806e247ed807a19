use rl_matting::compose::{
    alpha_mask, combine_masks, crop_rgba, cutout, decode_image, nonempty_crop, refine_with_segmentation, render_cutout,
};
use rl_matting::encoding::decode_base64_bytes;
use rl_matting::geometry::BoundingBox;

/// A 2 x 2 RGBA image: pixels (0,0), (1,0), (0,1), (1,1).
fn src() -> Vec<u8> {
    vec![10, 20, 30, 40, 50, 60, 70, 80, 90, 100, 110, 120, 130, 140, 150, 160]
}

fn decode_png_text(t: &str) -> (u32, u32, Vec<u8>) {
    let png = decode_base64_bytes(t.as_bytes()).unwrap();
    let img = image::load_from_memory(&png).unwrap().to_rgba8();
    (img.width(), img.height(), img.into_raw())
}

#[test]
fn cutout_keeps_masked_crop_pixels_only() {
    let out = cutout(&src(), 2, 2, (0, 0, 1, 2), &[true, false]);
    assert_eq!(out, vec![10, 20, 30, 255, 0, 0, 0, 0, 0, 0, 0, 0, 0, 0, 0, 0]);
}

#[test]
fn cutout_with_short_mask_drops_the_rest() {
    let out = cutout(&src(), 2, 2, (0, 0, 2, 2), &[false, true]);
    assert_eq!(out, vec![0, 0, 0, 0, 50, 60, 70, 255, 0, 0, 0, 0, 0, 0, 0, 0]);
}

#[test]
fn combined_mask_prefers_the_classical_pixel() {
    let trad = vec![1, 2, 3, 0, 5, 6, 7, 200, 9, 9, 9, 9, 1, 1, 1, 0];
    let out = combine_masks(&src(), &trad, 2, 2, 2, 2, (0, 0, 2, 2), &[true, true, false, true]);
    assert_eq!(out, vec![10, 20, 30, 255, 5, 6, 7, 200, 0, 0, 0, 0, 130, 140, 150, 255]);
}

#[test]
fn rendered_cutout_is_a_png_of_the_cutout() {
    let b = BoundingBox { x: 1, y: 0, width: 5, height: 1 };
    let t = render_cutout(&src(), 2, 2, &b, &[true]).unwrap();
    let (w, h, px) = decode_png_text(&t);
    assert_eq!((w, h), (2, 2));
    assert_eq!(px, vec![0, 0, 0, 0, 50, 60, 70, 255, 0, 0, 0, 0, 0, 0, 0, 0]);
}

#[test]
fn refinement_combines_with_the_classical_mask() {
    let full = BoundingBox { x: 0, y: 0, width: 2, height: 2 };
    let trad = render_cutout(&src(), 2, 2, &full, &[true, false, false, false]).unwrap();
    let r = refine_with_segmentation(&src(), 2, 2, &full, &[true, true, false, false], &trad).unwrap();
    let (w, h, px) = decode_png_text(&r);
    assert_eq!((w, h), (2, 2));
    assert_eq!(px, vec![10, 20, 30, 255, 50, 60, 70, 255, 0, 0, 0, 0, 0, 0, 0, 0]);
}

#[test]
fn empty_segmentation_keeps_the_classical_mask() {
    let full = BoundingBox { x: 0, y: 0, width: 2, height: 2 };
    let r = refine_with_segmentation(&src(), 2, 2, &full, &[], "not even base64").unwrap();
    assert_eq!(r, "not even base64");
}

#[test]
fn empty_crop_keeps_the_classical_mask() {
    let off = BoundingBox { x: 5, y: 5, width: 20, height: 20 };
    let r = refine_with_segmentation(&src(), 2, 2, &off, &[true], "abc").unwrap();
    assert_eq!(r, "abc");
}

#[test]
fn undecodable_classical_mask_is_an_error() {
    let full = BoundingBox { x: 0, y: 0, width: 2, height: 2 };
    assert!(refine_with_segmentation(&src(), 2, 2, &full, &[true], "%%%").is_err());
    assert!(refine_with_segmentation(&src(), 2, 2, &full, &[true], "TWFu").is_err());
}

#[test]
fn classical_mask_that_misses_the_crop_is_an_error() {
    let one = vec![1, 2, 3, 4];
    let b = BoundingBox { x: 0, y: 0, width: 1, height: 1 };
    let small = render_cutout(&one, 1, 1, &b, &[true]).unwrap();
    let full = BoundingBox { x: 0, y: 0, width: 2, height: 2 };
    let r = refine_with_segmentation(&src(), 2, 2, &full, &[true], &small);
    assert_eq!(r, Err("mask does not cover the crop".to_string()));
}

#[test]
fn small_classical_mask_covering_the_crop_is_used() {
    let one = vec![1, 2, 3, 4];
    let b = BoundingBox { x: 0, y: 0, width: 1, height: 1 };
    let small = render_cutout(&one, 1, 1, &b, &[true]).unwrap();
    let r = refine_with_segmentation(&src(), 2, 2, &b, &[true], &small).unwrap();
    let (w, h, px) = decode_png_text(&r);
    assert_eq!((w, h), (2, 2));
    assert_eq!(px, vec![1, 2, 3, 255, 0, 0, 0, 0, 0, 0, 0, 0, 0, 0, 0, 0]);
}

#[test]
fn larger_classical_mask_is_read_at_image_coordinates() {
    let big_src: Vec<u8> = (0..36u8).collect();
    let big = BoundingBox { x: 0, y: 0, width: 3, height: 3 };
    let trad = render_cutout(&big_src, 3, 3, &big, &[false, false, false, false, true, false, false, false, false]).unwrap();
    let full = BoundingBox { x: 0, y: 0, width: 2, height: 2 };
    let r = refine_with_segmentation(&src(), 2, 2, &full, &[false, false, false, true], &trad).unwrap();
    let (w, h, px) = decode_png_text(&r);
    assert_eq!((w, h), (2, 2));
    assert_eq!(px, vec![0, 0, 0, 0, 0, 0, 0, 0, 0, 0, 0, 0, 16, 17, 18, 255]);
}

#[test]
fn combined_mask_reads_a_wider_classical_mask() {
    let mut trad = vec![0u8; 36];
    trad[16..20].copy_from_slice(&[7, 8, 9, 200]);
    let out = combine_masks(&src(), &trad, 2, 2, 3, 3, (0, 0, 2, 2), &[true, false, false, true]);
    assert_eq!(out, vec![10, 20, 30, 255, 0, 0, 0, 0, 0, 0, 0, 0, 7, 8, 9, 200]);
}

#[test]
fn empty_crop_is_refused() {
    assert_eq!(nonempty_crop(&BoundingBox { x: 5, y: 0, width: 3, height: 3 }, 2, 2), Err("empty bbox".to_string()));
    assert_eq!(nonempty_crop(&BoundingBox { x: 0, y: 1, width: 3, height: 0 }, 2, 2), Err("empty bbox".to_string()));
    assert_eq!(nonempty_crop(&BoundingBox { x: 1, y: 0, width: 5, height: 1 }, 2, 2), Ok((1, 0, 2, 1)));
}

#[test]
fn crop_of_raw_rgba() {
    assert_eq!(crop_rgba(&src(), 2, 2, (1, 0, 2, 2)), vec![50, 60, 70, 80, 130, 140, 150, 160]);
    assert_eq!(crop_rgba(&src(), 2, 2, (0, 1, 2, 2)), vec![90, 100, 110, 120, 130, 140, 150, 160]);
    assert!(crop_rgba(&src(), 2, 2, (1, 1, 1, 2)).is_empty());
}

#[test]
fn alpha_above_128_is_foreground() {
    let raw = vec![0, 0, 0, 200, 0, 0, 0, 128, 0, 0, 0, 129];
    assert_eq!(alpha_mask(&raw, 3, 1), vec![true, false, true]);
    assert_eq!(alpha_mask(&raw[..8], 3, 1), vec![true, false, false]);
}

#[test]
fn image_file_is_decoded_by_its_extension() {
    let full = BoundingBox { x: 0, y: 0, width: 2, height: 2 };
    let t = render_cutout(&src(), 2, 2, &full, &[true, true, false, true]).unwrap();
    let png = decode_base64_bytes(t.as_bytes()).unwrap();
    let expected = vec![10, 20, 30, 255, 50, 60, 70, 255, 0, 0, 0, 0, 130, 140, 150, 255];
    assert_eq!(decode_image("png", &png), Ok((2, 2, expected.clone())));
    assert_eq!(decode_image("PNG", &png), Ok((2, 2, expected)));
}

#[test]
fn unknown_extension_or_bad_bytes_fail_to_decode() {
    let full = BoundingBox { x: 0, y: 0, width: 2, height: 2 };
    let t = render_cutout(&src(), 2, 2, &full, &[true]).unwrap();
    let png = decode_base64_bytes(t.as_bytes()).unwrap();
    assert!(decode_image("xyz", &png).is_err());
    assert!(decode_image("", &png).is_err());
    assert!(decode_image("png", b"not an image").is_err());
    assert!(decode_image("jpg", &png).is_err());
}
