//! The classical mask pipeline's integer stages: morphological clean-up,
//! adaptive-threshold merging, connected-component selection and
//! distance-based edge trimming.
//!
//! Grey images are raw bytes in row-major order, one byte per pixel.

use vstd::prelude::*;
use image::GrayImage;
use imageproc::distance_transform::Norm;

verus! {

/// `imageproc::morphology::open` with the L1 norm and radius `k`.
pub uninterp spec fn morph_open(w: u32, h: u32, data: Seq<u8>, k: u8) -> Seq<u8>;
/// `imageproc::morphology::close` with the L1 norm and radius `k`.
pub uninterp spec fn morph_close(w: u32, h: u32, data: Seq<u8>, k: u8) -> Seq<u8>;
/// `imageproc::morphology::erode` with the L1 norm and radius `k`.
pub uninterp spec fn morph_erode(w: u32, h: u32, data: Seq<u8>, k: u8) -> Seq<u8>;
/// `imageproc::morphology::dilate` with the L1 norm and radius `k`.
pub uninterp spec fn morph_dilate(w: u32, h: u32, data: Seq<u8>, k: u8) -> Seq<u8>;
/// `imageproc::contrast::adaptive_threshold` with block radius `r`.
pub uninterp spec fn adaptive_threshold_of(w: u32, h: u32, data: Seq<u8>, r: u32) -> Seq<u8>;
/// `imageproc::distance_transform::distance_transform` with the L2 norm.
pub uninterp spec fn distance_l2(w: u32, h: u32, data: Seq<u8>) -> Seq<u8>;
/// `imageproc::region_labelling::connected_components` with eight-way
/// connectivity and background 0.
pub uninterp spec fn component_labels(w: u32, h: u32, data: Seq<u8>) -> Seq<u32>;

/// The sum of the first `x` pixels of row `y` of a `w`-wide grey image.
pub open spec fn row_prefix(data: Seq<u8>, w: int, y: int, x: int) -> int
    decreases x,
{
    if x <= 0 { 0 } else { row_prefix(data, w, y, x - 1) + data[y * w + x - 1] }
}

/// The sum of the pixels left of column `x` and above row `y`: entry
/// (`x`, `y`) of the integral image.
pub open spec fn prefix_sum(data: Seq<u8>, w: int, x: int, y: int) -> int
    decreases y,
{
    if y <= 0 { 0 } else { prefix_sum(data, w, x, y - 1) + row_prefix(data, w, y - 1, x) }
}

pub open spec fn sat_sub(a: int, b: int) -> int {
    if a >= b { a - b } else { 0 }
}

pub open spec fn min_int(a: int, b: int) -> int {
    if a <= b { a } else { b }
}

/// The two integral-image entries that are added first when the block sum of
/// radius `r` around pixel (`x`, `y`) is computed.
pub open spec fn block_corner_sum(data: Seq<u8>, w: int, h: int, r: int, x: int, y: int) -> int {
    prefix_sum(data, w, min_int(x + r, w - 1) + 1, min_int(y + r, h - 1) + 1)
        + prefix_sum(data, w, sat_sub(x, r), sat_sub(y, r))
}

/// Conditions under which `imageproc::contrast::adaptive_threshold` with
/// radius `r` neither asserts nor overflows on a `w` x `h` grey image: a
/// positive radius that fits `i32`, coordinates that fit `i32` and stay in
/// `u32` when the radius is added, an integral image whose size fits `usize`,
/// a block area that fits `u32`, and `u32` integral sums, including the first
/// addition of each block sum.
pub open spec fn adaptive_threshold_fits(data: Seq<u8>, w: u32, h: u32, r: u32) -> bool {
    &&& r > 0
    &&& r <= i32::MAX
    &&& w <= i32::MAX as int + 1
    &&& h <= i32::MAX as int + 1
    &&& w + r <= u32::MAX as int + 1
    &&& h + r <= u32::MAX as int + 1
    &&& (w + 1) * (h + 1) <= usize::MAX
    &&& min_int(w as int, 2 * r + 1) * min_int(h as int, 2 * r + 1) <= u32::MAX
    &&& prefix_sum(data, w as int, w as int, h as int) <= u32::MAX
    &&& forall|x: int, y: int| 0 <= x < w && 0 <= y < h ==>
        #[trigger] block_corner_sum(data, w as int, h as int, r as int, x, y) <= u32::MAX
}

/// Pixels `i` and `j` of a `w`-wide row-major image are distinct and touch,
/// sideways, vertically or diagonally.
pub open spec fn adjacent8(i: int, j: int, w: int) -> bool {
    &&& i != j
    &&& w > 0
    &&& -1 <= i % w - j % w <= 1
    &&& -1 <= i / w - j / w <= 1
}

/// `p` is a path of 8-adjacent pixels of a `w`-wide image, all of the same
/// non-zero value.
pub open spec fn is_path8(data: Seq<u8>, w: int, p: Seq<int>) -> bool {
    &&& p.len() >= 1
    &&& forall|k: int| 0 <= k < p.len() ==> 0 <= #[trigger] p[k] < data.len() && data[p[k]] != 0 && data[p[k]] == data[p[0]]
    &&& forall|k: int| 0 <= k < p.len() - 1 ==> adjacent8(#[trigger] p[k], p[k + 1], w)
}

/// Pixels `i` and `j` lie in the same 8-connected component of equal non-zero
/// pixels.
pub open spec fn connected8(data: Seq<u8>, w: int, i: int, j: int) -> bool {
    exists|p: Seq<int>| #[trigger] is_path8(data, w, p) && p[0] == i && p[p.len() - 1] == j
}

/// Every byte of the image is 0 or 255.
pub open spec fn binary(data: Seq<u8>) -> bool {
    forall|i: int| 0 <= i < data.len() ==> #[trigger] data[i] == 0 || data[i] == 255
}

/// The raw grey image is `w` x `h`.
pub open spec fn gray_dims(data: Seq<u8>, w: u32, h: u32) -> bool {
    data.len() == w * h && w * h <= usize::MAX
}

/// `imageproc::morphology::open` with the L1 norm: the opening of the grey
/// image by radius `k`, named by `morph_open`, of the same size (the L1
/// distance transform it runs adds width and height in `u32`); its last step
/// writes 255 or 0 to every pixel. The buffer holds exactly the image, so
/// `GrayImage::from_raw` accepts it.
#[verifier::external_body]
fn open_image(w: u32, h: u32, data: Vec<u8>, k: u8) -> (r: Vec<u8>)
    requires
        gray_dims(data@, w, h),
        w + h <= u32::MAX,
    ensures
        r@ == morph_open(w, h, data@, k),
        r@.len() == data@.len(),
        binary(r@),
{
    match GrayImage::from_raw(w, h, data) {
        Some(img) => imageproc::morphology::open(&img, Norm::L1, k).into_raw(),
        None => Vec::new(),
    }
}

/// `imageproc::morphology::close` with the L1 norm: the closing of the grey
/// image by radius `k`, named by `morph_close`, of the same size (the L1
/// distance transform it runs adds width and height in `u32`); its last step
/// writes 255 or 0 to every pixel. The buffer holds exactly the image, so
/// `GrayImage::from_raw` accepts it.
#[verifier::external_body]
fn close_image(w: u32, h: u32, data: Vec<u8>, k: u8) -> (r: Vec<u8>)
    requires
        gray_dims(data@, w, h),
        w + h <= u32::MAX,
    ensures
        r@ == morph_close(w, h, data@, k),
        r@.len() == data@.len(),
        binary(r@),
{
    match GrayImage::from_raw(w, h, data) {
        Some(img) => imageproc::morphology::close(&img, Norm::L1, k).into_raw(),
        None => Vec::new(),
    }
}

/// `imageproc::morphology::erode` with the L1 norm: the erosion of the grey
/// image by radius `k`, named by `morph_erode`, of the same size (the L1
/// distance transform it runs adds width and height in `u32`); it writes 255
/// or 0 to every pixel. The buffer holds exactly the image, so
/// `GrayImage::from_raw` accepts it.
#[verifier::external_body]
fn erode_image(w: u32, h: u32, data: Vec<u8>, k: u8) -> (r: Vec<u8>)
    requires
        gray_dims(data@, w, h),
        w + h <= u32::MAX,
    ensures
        r@ == morph_erode(w, h, data@, k),
        r@.len() == data@.len(),
        binary(r@),
{
    match GrayImage::from_raw(w, h, data) {
        Some(img) => imageproc::morphology::erode(&img, Norm::L1, k).into_raw(),
        None => Vec::new(),
    }
}

/// `imageproc::morphology::dilate` with the L1 norm: the dilation of the grey
/// image by radius `k`, named by `morph_dilate`, of the same size (the L1
/// distance transform it runs adds width and height in `u32`); it writes 255
/// or 0 to every pixel. The buffer holds exactly the image, so
/// `GrayImage::from_raw` accepts it.
#[verifier::external_body]
fn dilate_image(w: u32, h: u32, data: Vec<u8>, k: u8) -> (r: Vec<u8>)
    requires
        gray_dims(data@, w, h),
        w + h <= u32::MAX,
    ensures
        r@ == morph_dilate(w, h, data@, k),
        r@.len() == data@.len(),
        binary(r@),
{
    match GrayImage::from_raw(w, h, data) {
        Some(img) => imageproc::morphology::dilate(&img, Norm::L1, k).into_raw(),
        None => Vec::new(),
    }
}

/// `imageproc::contrast::adaptive_threshold`: the thresholded image, named by
/// `adaptive_threshold_of`, of the same size, with 255 or 0 at every pixel.
/// The function asserts a positive radius, computes coordinates in `i32` and
/// `u32`, allocates an integral image of (width + 1) x (height + 1) `u32`
/// entries, multiplies block sides in `u32`, and sums pixel values in `u32`:
/// running sums of at most the whole image's sum, and each block sum adds two
/// integral entries before subtracting two. `adaptive_threshold_fits` rules
/// out each of these failures; for radii up to `i32::MAX` it excludes no other
/// input.
#[verifier::external_body]
fn adaptive_threshold_image(w: u32, h: u32, data: Vec<u8>, r: u32) -> (out: Vec<u8>)
    requires
        gray_dims(data@, w, h),
        adaptive_threshold_fits(data@, w, h, r),
    ensures
        out@ == adaptive_threshold_of(w, h, data@, r),
        out@.len() == data@.len(),
        binary(out@),
{
    match GrayImage::from_raw(w, h, data) {
        Some(img) => imageproc::contrast::adaptive_threshold(&img, r).into_raw(),
        None => Vec::new(),
    }
}

/// `imageproc::distance_transform::distance_transform` with the L2 norm: each
/// pixel's distance to the nearest non-zero pixel (rounded up, at most 255),
/// named by `distance_l2`, in an image of the same size.
#[verifier::external_body]
fn distance_transform_l2(w: u32, h: u32, data: Vec<u8>) -> (out: Vec<u8>)
    requires
        gray_dims(data@, w, h),
    ensures
        out@ == distance_l2(w, h, data@),
        out@.len() == data@.len(),
{
    match GrayImage::from_raw(w, h, data) {
        Some(img) => imageproc::distance_transform::distance_transform(&img, Norm::L2).into_raw(),
        None => Vec::new(),
    }
}

/// `imageproc::region_labelling::connected_components` with eight-way
/// connectivity and background 0: one label per pixel, named by
/// `component_labels`; background pixels get 0 and every other pixel a
/// positive label; two 8-adjacent pixels of the same non-zero value get the
/// same label (each pixel is joined to its equal left, upper, upper-left and
/// upper-right neighbours), and two pixels get the same label only when a path
/// of such joins links them (labels are the union-find roots of these joins). Labels are numbered from 1 without gaps, one per
/// provisional label at most, and every provisional label is below the pixel
/// count, so every label is. The function panics for images of 2^32 or more
/// pixels, and when a provisional label reaches the pixel count, which for a
/// 0/255 mask happens only for a single foreground pixel.
#[verifier::external_body]
fn connected_component_labels(w: u32, h: u32, data: Vec<u8>) -> (out: Vec<u32>)
    requires
        gray_dims(data@, w, h),
        w * h <= u32::MAX,
        binary(data@),
        w * h != 1 || data@[0] == 0,
    ensures
        out@ == component_labels(w, h, data@),
        out@.len() == data@.len(),
        forall|i: int| 0 <= i < out@.len() ==> (out@[i] == 0 <==> data@[i] == 0),
        forall|i: int| 0 <= i < out@.len() ==> out@[i] < w * h,
        forall|i: int, j: int|
            0 <= i < out@.len() && 0 <= j < out@.len() && data@[i] != 0 && data@[i] == data@[j]
                && #[trigger] adjacent8(i, j, w as int) ==> out@[i] == out@[j],
        forall|i: int, j: int|
            0 <= i < out@.len() && 0 <= j < out@.len() && out@[i] != 0 && out@[i] == out@[j]
                ==> #[trigger] connected8(data@, w as int, i, j),
{
    match GrayImage::from_raw(w, h, data) {
        Some(img) => imageproc::region_labelling::connected_components(
            &img,
            imageproc::region_labelling::Connectivity::Eight,
            image::Luma([0u8]),
        ).into_raw(),
        None => Vec::new(),
    }
}

/// The morphology radius used: the configured radius clamped to 1..=8.
pub open spec fn clamp_radius(radius: u32) -> u8 {
    (if radius < 1 { 1 } else if radius > 8 { 8 } else { radius }) as u8
}

/// The clean-up applied to a binary mask: open and close with the radius,
/// erode with one less (at least 1), dilate with the radius, close with one
/// less, and dilate by 1.
pub open spec fn spec_postprocess(w: u32, h: u32, m: Seq<u8>, radius: u32) -> Seq<u8> {
    let r = clamp_radius(radius);
    let r2 = (if r >= 2 { r - 1 } else { 1 }) as u8;
    let a = morph_open(w, h, m, r);
    let b = morph_close(w, h, a, r);
    let c = morph_erode(w, h, b, r2);
    let d = morph_dilate(w, h, c, r);
    let e = morph_close(w, h, d, r2);
    morph_dilate(w, h, e, 1)
}

/// The clean-up at the configured radius clamped to 1..=8 (`r`), with `r2`
/// one less (at least 1): open and close by `r`, erode by `r2`, dilate by `r`,
/// close by `r2`, dilate by 1. Radii below 1 act as 1 and above 8 as 8.
pub proof fn lemma_postprocess_steps(w: u32, h: u32, m: Seq<u8>, radius: u32)
    ensures
        ({
            let r: u8 = if radius < 1 { 1u8 } else if radius > 8 { 8u8 } else { radius as u8 };
            let r2: u8 = if r >= 2 { (r - 1) as u8 } else { 1u8 };
            spec_postprocess(w, h, m, radius) == morph_dilate(w, h,
                morph_close(w, h,
                    morph_dilate(w, h,
                        morph_erode(w, h,
                            morph_close(w, h, morph_open(w, h, m, r), r),
                        r2),
                    r),
                r2),
            1)
        }),
        1 <= radius <= 8 ==> spec_postprocess(w, h, m, radius) == morph_dilate(w, h,
            morph_close(w, h,
                morph_dilate(w, h,
                    morph_erode(w, h,
                        morph_close(w, h, morph_open(w, h, m, radius as u8), radius as u8),
                    (if radius >= 2 { radius - 1 } else { 1 }) as u8),
                radius as u8),
            (if radius >= 2 { radius - 1 } else { 1 }) as u8),
        1),
        radius == 0 ==> spec_postprocess(w, h, m, radius) == spec_postprocess(w, h, m, 1),
        radius > 8 ==> spec_postprocess(w, h, m, radius) == spec_postprocess(w, h, m, 8),
{
}

/// Cleans up a binary mask with the morphology sequence of `spec_postprocess`.
pub fn postprocess_mask(mask: Vec<u8>, w: u32, h: u32, radius: u32) -> (r: Vec<u8>)
    requires
        gray_dims(mask@, w, h),
        w + h <= u32::MAX,
    ensures
        r@ == spec_postprocess(w, h, mask@, radius),
        r@.len() == mask@.len(),
        binary(r@),
{
    let r: u8 = if radius < 1 { 1 } else if radius > 8 { 8 } else { radius as u8 };
    let r2: u8 = if r >= 2 { r - 1 } else { 1 };
    let a = open_image(w, h, mask, r);
    let b = close_image(w, h, a, r);
    let c = erode_image(w, h, b, r2);
    let d = dilate_image(w, h, c, r);
    let e = close_image(w, h, d, r2);
    dilate_image(w, h, e, 1)
}

/// The adaptive-threshold block radius: the configured value, at least 3,
/// made odd by adding 1.
pub open spec fn spec_adaptive_block(block: u32) -> u32 {
    let b: int = if block < 3 { 3 } else { block as int };
    (if b % 2 == 0 { b + 1 } else { b }) as u32
}

/// The adaptive-threshold block radius from the configured value.
pub fn adaptive_block(block: u32) -> (r: u32)
    ensures
        r == spec_adaptive_block(block),
        r >= 3,
{
    let b = if block < 3 { 3 } else { block };
    if b % 2 == 0 { b + 1 } else { b }
}

/// Byte `i` of the binary mask after merging the adaptive threshold: set to
/// 255 where the adaptive threshold of the score image is 255 and the score
/// is above 128, else unchanged.
pub open spec fn merged_pixel(binary: Seq<u8>, score: Seq<u8>, adaptive: Seq<u8>, i: int) -> u8 {
    if adaptive[i] == 255 && score[i] > 128 { 255 } else { binary[i] }
}

/// Adds to a binary mask the pixels that the adaptive threshold of the score
/// image keeps and whose score is above 128.
pub fn merge_adaptive_threshold(binary: Vec<u8>, score: &[u8], w: u32, h: u32, block: u32) -> (r: Vec<u8>)
    requires
        gray_dims(score@, w, h),
        binary@.len() == score@.len(),
        adaptive_threshold_fits(score@, w, h, spec_adaptive_block(block)),
    ensures
        r@.len() == binary@.len(),
        forall|i: int| 0 <= i < r@.len() ==> r@[i] == merged_pixel(
            binary@,
            score@,
            adaptive_threshold_of(w, h, score@, spec_adaptive_block(block)),
            i,
        ),
{
    let blk = adaptive_block(block);
    let mut score_copy: Vec<u8> = Vec::new();
    let mut k: usize = 0;
    while k < score.len()
        invariant
            k <= score@.len(),
            score_copy@ == score@.subrange(0, k as int),
        decreases score@.len() - k,
    {
        score_copy.push(score[k]);
        k = k + 1;
        assert(score_copy@ =~= score@.subrange(0, k as int));
    }
    assert(score_copy@ =~= score@);
    let adaptive = adaptive_threshold_image(w, h, score_copy, blk);
    merge_threshold_pixels(binary, score, adaptive.as_slice())
}

/// Sets to 255 the pixels of `binary` where `adaptive` is 255 and `score` is
/// above 128; other pixels keep their value.
pub fn merge_threshold_pixels(binary: Vec<u8>, score: &[u8], adaptive: &[u8]) -> (r: Vec<u8>)
    requires
        score@.len() == binary@.len(),
        adaptive@.len() == binary@.len(),
    ensures
        r@.len() == binary@.len(),
        forall|i: int| 0 <= i < r@.len() ==> r@[i] == merged_pixel(binary@, score@, adaptive@, i),
{
    let mut out = binary;
    let ghost orig = out@;
    let mut i: usize = 0;
    while i < out.len()
        invariant
            out@.len() == orig.len() == score@.len() == adaptive@.len(),
            i <= out@.len(),
            forall|j: int| 0 <= j < i ==> out@[j] == merged_pixel(orig, score@, adaptive@, j),
            forall|j: int| i <= j < out@.len() ==> out@[j] == orig[j],
        decreases out@.len() - i,
    {
        if adaptive[i] == 255 && score[i] > 128 {
            out.set(i, 255);
        }
        i = i + 1;
    }
    out
}

/// Whether pixel `i` stays in the mask after edge trimming: it is in the mask
/// and not both weakly scored and below 2 in the distance image.
pub open spec fn trimmed_pixel(keep: Seq<bool>, weak: Seq<bool>, dist: Seq<u8>, i: int) -> bool {
    keep[i] && !(dist[i] < 2 && weak[i])
}

/// The background of a mask as a binary image: 255 where not kept, 0 where
/// kept.
pub open spec fn background_image(keep: Seq<bool>) -> Seq<u8> {
    Seq::new(keep.len(), |i: int| if keep[i] { 0u8 } else { 255u8 })
}

fn background_to_image(keep: &[bool]) -> (r: Vec<u8>)
    ensures
        r@ == background_image(keep@),
{
    let mut out: Vec<u8> = Vec::new();
    let mut i: usize = 0;
    while i < keep.len()
        invariant
            i <= keep@.len(),
            out@.len() == i,
            forall|j: int| 0 <= j < i ==> out@[j] == (if keep@[j] { 0u8 } else { 255u8 }),
        decreases keep@.len() - i,
    {
        out.push(if keep[i] { 0u8 } else { 255u8 });
        i = i + 1;
    }
    assert(out@ =~= background_image(keep@));
    out
}

/// Removes weak boundary pixels: drops from the mask the weakly scored pixels
/// whose L2 distance to the nearest pixel outside the mask (rounded up) is
/// below 2.
pub fn trim_mask_edges(keep: &[bool], weak: &[bool], w: u32, h: u32) -> (r: Vec<bool>)
    requires
        keep@.len() == w * h,
        w * h <= usize::MAX,
        weak@.len() == keep@.len(),
    ensures
        r@.len() == keep@.len(),
        forall|i: int| 0 <= i < r@.len() ==> r@[i] == trimmed_pixel(
            keep@,
            weak@,
            distance_l2(w, h, background_image(keep@)),
            i,
        ),
{
    let img = background_to_image(keep);
    let dist = distance_transform_l2(w, h, img);
    trim_by_distance(keep, weak, dist.as_slice())
}

/// Keeps the pixels of `keep` except those that are weakly scored and whose
/// value in the distance image `dist` is below 2.
pub fn trim_by_distance(keep: &[bool], weak: &[bool], dist: &[u8]) -> (r: Vec<bool>)
    requires
        weak@.len() == keep@.len(),
        dist@.len() == keep@.len(),
    ensures
        r@.len() == keep@.len(),
        forall|i: int| 0 <= i < r@.len() ==> r@[i] == trimmed_pixel(keep@, weak@, dist@, i),
{
    let mut out: Vec<bool> = Vec::new();
    let mut i: usize = 0;
    while i < keep.len()
        invariant
            keep@.len() == weak@.len() == dist@.len(),
            i <= keep@.len(),
            out@.len() == i,
            forall|j: int| 0 <= j < i ==> out@[j] == trimmed_pixel(keep@, weak@, dist@, j),
        decreases keep@.len() - i,
    {
        out.push(keep[i] && !(dist[i] < 2 && weak[i]));
        i = i + 1;
    }
    out
}


/// The largest label (0 for no pixels).
pub open spec fn max_label(labels: Seq<u32>) -> u32
    decreases labels.len(),
{
    if labels.len() == 0 {
        0
    } else {
        let m = max_label(labels.drop_last());
        if labels.last() > m { labels.last() } else { m }
    }
}

/// Number of pixels with label `l`.
pub open spec fn count_label(labels: Seq<u32>, l: int) -> nat
    decreases labels.len(),
{
    if labels.len() == 0 {
        0
    } else {
        count_label(labels.drop_last(), l) + (if labels.last() == l { 1nat } else { 0nat })
    }
}

proof fn lemma_count_bounded(labels: Seq<u32>, l: int)
    ensures
        count_label(labels, l) <= labels.len(),
        l > max_label(labels) ==> count_label(labels, l) == 0,
    decreases labels.len(),
{
    if labels.len() > 0 {
        lemma_count_bounded(labels.drop_last(), l);
    }
}

/// The size of each component, indexed by label from 0 to the largest label;
/// background pixels (label 0) are not counted.
pub fn component_sizes(labels: &[u32]) -> (sizes: Vec<u64>)
    requires
        max_label(labels@) < usize::MAX,
    ensures
        sizes@.len() == max_label(labels@) + 1,
        sizes@[0] == 0,
        forall|l: int| 1 <= l < sizes@.len() ==> sizes@[l] == count_label(labels@, l),
{
    let mut m: u32 = 0;
    let mut i: usize = 0;
    while i < labels.len()
        invariant
            i <= labels@.len(),
            m == max_label(labels@.subrange(0, i as int)),
        decreases labels@.len() - i,
    {
        proof {
            assert(labels@.subrange(0, i + 1).drop_last() =~= labels@.subrange(0, i as int));
        }
        if labels[i] > m {
            m = labels[i];
        }
        i = i + 1;
    }
    proof {
        assert(labels@.subrange(0, labels@.len() as int) =~= labels@);
    }
    let len = (m as usize) + 1;
    let mut sizes: Vec<u64> = Vec::new();
    let mut j: usize = 0;
    while j < len
        invariant
            j <= len,
            len == m + 1,
            sizes@.len() == j,
            forall|l: int| 0 <= l < j ==> sizes@[l] == 0,
        decreases len - j,
    {
        sizes.push(0);
        j = j + 1;
    }
    let mut k: usize = 0;
    while k < labels.len()
        invariant
            k <= labels@.len(),
            m == max_label(labels@),
            sizes@.len() == m + 1,
            sizes@[0] == 0,
            forall|l: int| 1 <= l < sizes@.len() ==> sizes@[l] == count_label(labels@.subrange(0, k as int), l),
        decreases labels@.len() - k,
    {
        let ghost pre = labels@.subrange(0, k as int);
        proof {
            assert(labels@.subrange(0, k + 1).drop_last() =~= pre);
            lemma_count_bounded(pre, labels@[k as int] as int);
            lemma_max_label_bound(labels@, k as int);
        }
        let label = labels[k] as usize;
        if label > 0 && label < sizes.len() {
            let c = sizes[label];
            sizes.set(label, c + 1);
        }
        k = k + 1;
    }
    proof {
        assert(labels@.subrange(0, labels@.len() as int) =~= labels@);
    }
    sizes
}

proof fn lemma_max_label_bound(labels: Seq<u32>, k: int)
    requires
        0 <= k < labels.len(),
    ensures
        labels[k] <= max_label(labels),
    decreases labels.len(),
{
    if k < labels.len() - 1 {
        lemma_max_label_bound(labels.drop_last(), k);
    }
}


/// Labels the connected components (eight-way, background 0) of a 0/255 mask;
/// a single-pixel image must be background.
pub fn label_components(mask: Vec<u8>, w: u32, h: u32) -> (labels: Vec<u32>)
    requires
        gray_dims(mask@, w, h),
        w * h <= u32::MAX,
        binary(mask@),
        w * h != 1 || mask@[0] == 0,
    ensures
        labels@ == component_labels(w, h, mask@),
        labels@.len() == mask@.len(),
        forall|i: int| 0 <= i < labels@.len() ==> (labels@[i] == 0 <==> mask@[i] == 0),
        max_label(labels@) < u32::MAX,
        forall|i: int, j: int|
            0 <= i < labels@.len() && 0 <= j < labels@.len() && mask@[i] != 0 && mask@[j] != 0
                && #[trigger] adjacent8(i, j, w as int) ==> labels@[i] == labels@[j],
        forall|i: int, j: int|
            0 <= i < labels@.len() && 0 <= j < labels@.len() && labels@[i] != 0 && labels@[i] == labels@[j]
                ==> #[trigger] connected8(mask@, w as int, i, j),
{
    let ghost m = mask@;
    let labels = connected_component_labels(w, h, mask);
    proof {
        lemma_max_label_attained_or_zero(labels@);
        assert forall|i: int, j: int|
            0 <= i < labels@.len() && 0 <= j < labels@.len() && m[i] != 0 && m[j] != 0
                && #[trigger] adjacent8(i, j, w as int) implies labels@[i] == labels@[j] by {
            assert(m[i] == 255 && m[j] == 255);
        }
    }
    labels
}

proof fn lemma_max_label_attained_or_zero(labels: Seq<u32>)
    ensures
        max_label(labels) == 0 || exists|i: int| 0 <= i < labels.len() && labels[i] == max_label(labels),
    decreases labels.len(),
{
    if labels.len() > 0 {
        lemma_max_label_attained_or_zero(labels.drop_last());
        if labels.last() <= max_label(labels.drop_last()) && max_label(labels.drop_last()) != 0 {
            let i = choose|i: int| 0 <= i < labels.drop_last().len() && labels.drop_last()[i] == max_label(labels.drop_last());
            assert(labels[i] == max_label(labels));
        } else if labels.last() > max_label(labels.drop_last()) {
            assert(labels[labels.len() - 1] == max_label(labels));
        }
    }
}

/// The two largest components (by strictly larger size, so the lower label
/// wins a tie); labels and sizes are 0 where there is no such component.
#[derive(Clone, Copy, Debug, PartialEq, Eq, Structural)]
pub struct ComponentRanking {
    pub largest_label: u32,
    pub largest_size: u64,
    pub second_label: u32,
    pub second_size: u64,
}

/// The ranking over labels `1..n`, visited in increasing order.
pub open spec fn rank_upto(sizes: Seq<u64>, n: int) -> ComponentRanking
    decreases n,
{
    if n <= 1 {
        ComponentRanking { largest_label: 0, largest_size: 0, second_label: 0, second_size: 0 }
    } else {
        let r = rank_upto(sizes, n - 1);
        let l = n - 1;
        let sz = sizes[l];
        if sz > r.largest_size {
            ComponentRanking {
                largest_label: l as u32,
                largest_size: sz,
                second_label: r.largest_label,
                second_size: r.largest_size,
            }
        } else if sz > r.second_size {
            ComponentRanking { second_label: l as u32, second_size: sz, ..r }
        } else {
            r
        }
    }
}

/// Finds the two largest components among the sizes of labels 1 and up.
pub fn rank_components(sizes: &[u64]) -> (r: ComponentRanking)
    requires
        sizes@.len() <= u32::MAX as int + 1,
    ensures
        r == rank_upto(sizes@, sizes@.len() as int),
{
    let mut r = ComponentRanking { largest_label: 0, largest_size: 0, second_label: 0, second_size: 0 };
    let mut l: usize = 1;
    if sizes.len() <= 1 {
        return r;
    }
    while l < sizes.len()
        invariant
            1 <= l <= sizes@.len(),
            sizes@.len() <= u32::MAX as int + 1,
            r == rank_upto(sizes@, l as int),
        decreases sizes@.len() - l,
    {
        let sz = sizes[l];
        if sz > r.largest_size {
            r = ComponentRanking {
                largest_label: l as u32,
                largest_size: sz,
                second_label: r.largest_label,
                second_size: r.largest_size,
            };
        } else if sz > r.second_size {
            r = ComponentRanking { second_label: l as u32, second_size: sz, ..r };
        }
        l = l + 1;
    }
    r
}

/// Labels `1..n` other than `ex1` and `ex2` whose size is at least `thr`, in
/// increasing order.
pub open spec fn labels_at_least(sizes: Seq<u64>, n: int, ex1: u32, ex2: u32, thr: u64) -> Seq<u32>
    decreases n,
{
    if n <= 1 {
        Seq::empty()
    } else {
        labels_at_least(sizes, n - 1, ex1, ex2, thr) + (
            if n - 1 != ex1 && n - 1 != ex2 && sizes[n - 1] >= thr { seq![(n - 1) as u32] } else { Seq::empty() }
        )
    }
}

pub open spec fn at_least_one(v: u64) -> u64 {
    if v >= 1 { v } else { 1 }
}

/// The components kept as foreground. When the largest component is larger
/// than `bg_threshold` it is taken for background and every other component
/// of at least `min_component_size` pixels is kept; otherwise the largest is
/// kept, then the second when it has at least `min_size_threshold` pixels,
/// then every other component of at least that size. Thresholds below 1 count
/// as 1. When nothing is kept, the largest component is.
pub open spec fn spec_select_foreground(
    sizes: Seq<u64>,
    rk: ComponentRanking,
    bg_threshold: u64,
    min_component_size: u64,
    min_size_threshold: u64,
) -> Seq<u32> {
    let n = sizes.len() as int;
    let picked = if rk.largest_size > bg_threshold {
        labels_at_least(sizes, n, rk.largest_label, rk.largest_label, at_least_one(min_component_size))
    } else {
        let t = at_least_one(min_size_threshold);
        seq![rk.largest_label] + (if rk.second_size >= t { seq![rk.second_label] } else { Seq::empty() })
            + labels_at_least(sizes, n, rk.largest_label, rk.second_label, t)
    };
    if picked.len() == 0 { seq![rk.largest_label] } else { picked }
}

fn push_labels_at_least(out: &mut Vec<u32>, sizes: &[u64], ex1: u32, ex2: u32, thr: u64)
    requires
        sizes@.len() <= u32::MAX as int + 1,
    ensures
        final(out)@ == old(out)@ + labels_at_least(sizes@, sizes@.len() as int, ex1, ex2, thr),
{
    let ghost start = out@;
    let mut l: usize = 1;
    if sizes.len() <= 1 {
        assert(out@ =~= start + labels_at_least(sizes@, sizes@.len() as int, ex1, ex2, thr));
        return;
    }
    assert(out@ =~= start + labels_at_least(sizes@, 1, ex1, ex2, thr));
    while l < sizes.len()
        invariant
            1 <= l <= sizes@.len(),
            sizes@.len() <= u32::MAX as int + 1,
            out@ == start + labels_at_least(sizes@, l as int, ex1, ex2, thr),
        decreases sizes@.len() - l,
    {
        let lu = l as u32;
        if lu != ex1 && lu != ex2 && sizes[l] >= thr {
            out.push(lu);
        }
        l = l + 1;
        assert(out@ =~= start + labels_at_least(sizes@, l as int, ex1, ex2, thr));
    }
}

/// Chooses the foreground components (see `spec_select_foreground`).
pub fn select_foreground(
    sizes: &[u64],
    rk: &ComponentRanking,
    bg_threshold: u64,
    min_component_size: u64,
    min_size_threshold: u64,
) -> (r: Vec<u32>)
    requires
        sizes@.len() <= u32::MAX as int + 1,
    ensures
        r@ == spec_select_foreground(sizes@, *rk, bg_threshold, min_component_size, min_size_threshold),
{
    let mut out: Vec<u32> = Vec::new();
    if rk.largest_size > bg_threshold {
        let t = if min_component_size >= 1 { min_component_size } else { 1 };
        push_labels_at_least(&mut out, sizes, rk.largest_label, rk.largest_label, t);
    } else {
        let t = if min_size_threshold >= 1 { min_size_threshold } else { 1 };
        out.push(rk.largest_label);
        if rk.second_size >= t {
            out.push(rk.second_label);
        }
        push_labels_at_least(&mut out, sizes, rk.largest_label, rk.second_label, t);
    }
    if out.len() == 0 {
        out.push(rk.largest_label);
    }
    proof {
        let n = sizes@.len() as int;
        if rk.largest_size > bg_threshold {
        } else {
            let t = at_least_one(min_size_threshold);
            assert(out@ =~= seq![rk.largest_label] + (if rk.second_size >= t { seq![rk.second_label] } else { Seq::empty() })
                + labels_at_least(sizes@, n, rk.largest_label, rk.second_label, t));
        }
    }
    out
}

/// Whether a list of labels holds `l`.
fn contains_label(v: &[u32], l: u32) -> (r: bool)
    ensures
        r == v@.contains(l),
{
    let mut i: usize = 0;
    while i < v.len()
        invariant
            i <= v@.len(),
            forall|j: int| 0 <= j < i ==> v@[j] != l,
        decreases v@.len() - i,
    {
        if v[i] == l {
            return true;
        }
        i = i + 1;
    }
    false
}

/// The foreground mask: the pixels whose label is one of the kept components
/// (background, label 0, is never kept).
pub fn labels_to_mask(labels: &[u32], keep: &[u32]) -> (r: Vec<bool>)
    ensures
        r@.len() == labels@.len(),
        forall|i: int| 0 <= i < r@.len() ==> r@[i] == (labels@[i] != 0 && keep@.contains(labels@[i])),
{
    let mut out: Vec<bool> = Vec::new();
    let mut i: usize = 0;
    while i < labels.len()
        invariant
            i <= labels@.len(),
            out@.len() == i,
            forall|j: int| 0 <= j < i ==> out@[j] == (labels@[j] != 0 && keep@.contains(labels@[j])),
        decreases labels@.len() - i,
    {
        let l = labels[i];
        out.push(l != 0 && contains_label(keep, l));
        i = i + 1;
    }
    out
}

/// The size above which the largest component is taken for background:
/// 30 percent of the crop's pixels, rounded down.
pub fn background_size_threshold(w: u32, h: u32) -> (r: u64)
    requires
        w * h * 3 <= u64::MAX,
    ensures
        r == w * h * 3 / 10,
{
    (w as u64) * (h as u64) * 3 / 10
}

/// The connected components of a binary crop mask: each pixel's label, the
/// size of each label, the two largest components, and the size above which
/// the largest is taken for background (30 percent of the crop).
pub struct ComponentAnalysis {
    pub labels: Vec<u32>,
    pub sizes: Vec<u64>,
    pub ranking: ComponentRanking,
    pub bg_threshold: u64,
}

impl ComponentAnalysis {
    /// The analysis is that of some `w` x `h` binary mask.
    pub open spec fn wf(&self, w: u32, h: u32, mask: Seq<u8>) -> bool {
        &&& self.labels@ == component_labels(w, h, mask)
        &&& self.labels@.len() == mask.len()
        &&& forall|i: int| 0 <= i < mask.len() ==> (self.labels@[i] == 0 <==> mask[i] == 0)
        &&& forall|i: int, j: int|
            0 <= i < mask.len() && 0 <= j < mask.len() && mask[i] != 0 && mask[j] != 0
                && #[trigger] adjacent8(i, j, w as int) ==> self.labels@[i] == self.labels@[j]
        &&& forall|i: int, j: int|
            0 <= i < mask.len() && 0 <= j < mask.len() && self.labels@[i] != 0 && self.labels@[i] == self.labels@[j]
                ==> #[trigger] connected8(mask, w as int, i, j)
        &&& self.sizes@.len() == max_label(self.labels@) + 1
        &&& self.sizes@[0] == 0
        &&& forall|l: int| 1 <= l < self.sizes@.len() ==> self.sizes@[l] == count_label(self.labels@, l)
        &&& self.sizes@.len() <= u32::MAX as int + 1
        &&& self.ranking == rank_upto(self.sizes@, self.sizes@.len() as int)
        &&& self.bg_threshold == w * h * 3 / 10
    }

    /// Pixel `i` is kept as foreground for the two size thresholds: its label
    /// is a component that `spec_select_foreground` keeps.
    pub open spec fn keeps_pixel(&self, min_component_size: u64, min_size_threshold: u64, i: int) -> bool {
        &&& self.labels@[i] != 0
        &&& spec_select_foreground(
            self.sizes@,
            self.ranking,
            self.bg_threshold,
            min_component_size,
            min_size_threshold,
        ).contains(self.labels@[i])
    }
}

/// Labels the components of a `w` x `h` 0/255 mask (eight-way, background
/// 0), counts their sizes and finds the two largest; a single-pixel image must
/// be background.
pub fn analyze_components(mask: Vec<u8>, w: u32, h: u32) -> (r: ComponentAnalysis)
    requires
        gray_dims(mask@, w, h),
        w * h <= u32::MAX,
        binary(mask@),
        w * h != 1 || mask@[0] == 0,
    ensures
        r.wf(w, h, mask@),
{
    let labels = label_components(mask, w, h);
    let sizes = component_sizes(labels.as_slice());
    let ranking = rank_components(sizes.as_slice());
    proof {
        assert(w * h * 3 <= u64::MAX) by (nonlinear_arith)
            requires w * h <= u32::MAX;
    }
    let bg_threshold = background_size_threshold(w, h);
    ComponentAnalysis { labels, sizes, ranking, bg_threshold }
}

/// The foreground of an analysed mask: the pixels of the components that
/// `spec_select_foreground` keeps, for the two size thresholds (components of
/// at least `min_component_size` pixels when the largest is background, of at
/// least `min_size_threshold` pixels otherwise).
pub fn foreground_mask(a: &ComponentAnalysis, min_component_size: u64, min_size_threshold: u64) -> (r: Vec<bool>)
    requires
        a.sizes@.len() <= u32::MAX as int + 1,
    ensures
        r@.len() == a.labels@.len(),
        forall|i: int| 0 <= i < r@.len() ==> r@[i] == a.keeps_pixel(min_component_size, min_size_threshold, i),
{
    let keep = select_foreground(
        a.sizes.as_slice(),
        &a.ranking,
        a.bg_threshold,
        min_component_size,
        min_size_threshold,
    );
    labels_to_mask(a.labels.as_slice(), keep.as_slice())
}

/// The foreground selection never comes back empty, and when the largest
/// component is not taken for background it is the first component kept.
pub proof fn lemma_selection_keeps_largest(
    sizes: Seq<u64>,
    rk: ComponentRanking,
    bg_threshold: u64,
    min_component_size: u64,
    min_size_threshold: u64,
)
    ensures
        spec_select_foreground(sizes, rk, bg_threshold, min_component_size, min_size_threshold).len() > 0,
        rk.largest_size <= bg_threshold ==>
            spec_select_foreground(sizes, rk, bg_threshold, min_component_size, min_size_threshold)[0] == rk.largest_label,
{
}

/// A component taken for background is never kept when any other component
/// is large enough to keep.
pub proof fn lemma_background_component_dropped(
    sizes: Seq<u64>,
    rk: ComponentRanking,
    bg_threshold: u64,
    min_component_size: u64,
    min_size_threshold: u64,
)
    requires
        sizes.len() <= u32::MAX as int + 1,
        rk.largest_size > bg_threshold,
        labels_at_least(sizes, sizes.len() as int, rk.largest_label, rk.largest_label, at_least_one(min_component_size)).len() > 0,
    ensures
        !spec_select_foreground(sizes, rk, bg_threshold, min_component_size, min_size_threshold).contains(rk.largest_label),
{
    lemma_labels_at_least_excludes(sizes, sizes.len() as int, rk.largest_label, rk.largest_label, at_least_one(min_component_size));
}

proof fn lemma_labels_at_least_excludes(sizes: Seq<u64>, n: int, ex1: u32, ex2: u32, thr: u64)
    requires
        n <= u32::MAX as int + 1,
    ensures
        !labels_at_least(sizes, n, ex1, ex2, thr).contains(ex1),
        !labels_at_least(sizes, n, ex1, ex2, thr).contains(ex2),
    decreases n,
{
    if n > 1 {
        lemma_labels_at_least_excludes(sizes, n - 1, ex1, ex2, thr);
        let prev = labels_at_least(sizes, n - 1, ex1, ex2, thr);
        let tail: Seq<u32> = if n - 1 != ex1 && n - 1 != ex2 && sizes[n - 1] >= thr { seq![(n - 1) as u32] } else { Seq::empty() };
        assert(labels_at_least(sizes, n, ex1, ex2, thr) == prev + tail);
        assert forall|i: int| 0 <= i < (prev + tail).len() implies (prev + tail)[i] != ex1 && (prev + tail)[i] != ex2 by {
            if i >= prev.len() {
                assert(tail.len() == 1);
            } else {
                assert(prev.contains(prev[i]));
            }
        }
    }
}

/// The foreground of a 0/255 mask is made of whole 8-connected components of
/// the mask: it keeps only mask pixels, and two touching mask pixels are both
/// kept or both dropped.
pub proof fn lemma_foreground_whole_components(
    a: ComponentAnalysis,
    w: u32,
    h: u32,
    mask: Seq<u8>,
    min_component_size: u64,
    min_size_threshold: u64,
)
    requires
        a.wf(w, h, mask),
    ensures
        forall|i: int| 0 <= i < mask.len() && a.keeps_pixel(min_component_size, min_size_threshold, i)
            ==> mask[i] != 0,
        forall|i: int, j: int|
            0 <= i < mask.len() && 0 <= j < mask.len() && mask[i] != 0 && mask[j] != 0
                && #[trigger] adjacent8(i, j, w as int)
                ==> a.keeps_pixel(min_component_size, min_size_threshold, i)
                    == a.keeps_pixel(min_component_size, min_size_threshold, j),
{
}

/// The foreground keeps some pixel exactly when the mask has a foreground
/// pixel: when no component qualifies the largest one is kept.
pub proof fn lemma_foreground_nonempty(
    a: ComponentAnalysis,
    w: u32,
    h: u32,
    mask: Seq<u8>,
    min_component_size: u64,
    min_size_threshold: u64,
)
    requires
        a.wf(w, h, mask),
    ensures
        (exists|i: int| 0 <= i < mask.len() && a.keeps_pixel(min_component_size, min_size_threshold, i))
            <==> (exists|i: int| 0 <= i < mask.len() && mask[i] != 0),
{
    let labels = a.labels@;
    let sizes = a.sizes@;
    let n = sizes.len() as int;
    let sel = spec_select_foreground(sizes, a.ranking, a.bg_threshold, min_component_size, min_size_threshold);
    if exists|i: int| 0 <= i < mask.len() && mask[i] != 0 {
        let i0 = choose|i: int| 0 <= i < mask.len() && mask[i] != 0;
        let l0 = labels[i0];
        lemma_max_label_bound(labels, i0);
        lemma_count_pos(labels, i0);
        assert(sizes[l0 as int] >= 1);
        lemma_rank_upto(sizes, n);
        let rk = a.ranking;
        assert(rk.largest_size >= 1);
        let picked = labels_at_least(sizes, n, rk.largest_label, rk.largest_label, at_least_one(min_component_size));
        let s0: u32 = if rk.largest_size > a.bg_threshold && picked.len() > 0 {
            lemma_labels_at_least_members(sizes, n, rk.largest_label, rk.largest_label, at_least_one(min_component_size));
            assert(sel == picked);
            picked[0]
        } else {
            rk.largest_label
        };
        assert(sel[0] == s0);
        assert(1 <= s0 < n && sizes[s0 as int] >= 1);
        assert(count_label(labels, s0 as int) >= 1);
        lemma_count_exists(labels, s0 as int);
        let j = choose|j: int| 0 <= j < labels.len() && labels[j] == s0;
        assert(sel.contains(s0));
        assert(0 <= j < mask.len() && a.keeps_pixel(min_component_size, min_size_threshold, j));
    } else {
        assert forall|i: int| 0 <= i < mask.len() implies !a.keeps_pixel(min_component_size, min_size_threshold, i) by {
            assert(mask[i] == 0);
        }
    }
}

proof fn lemma_count_pos(labels: Seq<u32>, i: int)
    requires
        0 <= i < labels.len(),
    ensures
        count_label(labels, labels[i] as int) >= 1,
    decreases labels.len(),
{
    if i < labels.len() - 1 {
        assert(labels.drop_last()[i] == labels[i]);
        lemma_count_pos(labels.drop_last(), i);
    }
}

proof fn lemma_count_exists(labels: Seq<u32>, l: int)
    requires
        count_label(labels, l) >= 1,
    ensures
        exists|j: int| 0 <= j < labels.len() && labels[j] == l,
    decreases labels.len(),
{
    if labels.last() == l {
        assert(labels[labels.len() - 1] == l);
    } else {
        lemma_count_exists(labels.drop_last(), l);
        let j = choose|j: int| 0 <= j < labels.drop_last().len() && labels.drop_last()[j] == l;
        assert(labels[j] == l);
    }
}

proof fn lemma_rank_upto(sizes: Seq<u64>, n: int)
    requires
        0 <= n <= sizes.len(),
        n <= u32::MAX as int + 1,
    ensures
        forall|l: int| 1 <= l < n ==> sizes[l] <= rank_upto(sizes, n).largest_size,
        rank_upto(sizes, n).largest_size > 0 ==> 1 <= rank_upto(sizes, n).largest_label < n
            && sizes[rank_upto(sizes, n).largest_label as int] == rank_upto(sizes, n).largest_size,
    decreases n,
{
    if n > 1 {
        lemma_rank_upto(sizes, n - 1);
    }
}

proof fn lemma_labels_at_least_members(sizes: Seq<u64>, n: int, ex1: u32, ex2: u32, thr: u64)
    requires
        n <= sizes.len(),
        n <= u32::MAX as int + 1,
    ensures
        forall|k: int| 0 <= k < labels_at_least(sizes, n, ex1, ex2, thr).len() ==>
            1 <= #[trigger] labels_at_least(sizes, n, ex1, ex2, thr)[k] < n
            && sizes[labels_at_least(sizes, n, ex1, ex2, thr)[k] as int] >= thr,
    decreases n,
{
    if n > 1 {
        lemma_labels_at_least_members(sizes, n - 1, ex1, ex2, thr);
        let prev = labels_at_least(sizes, n - 1, ex1, ex2, thr);
        let tail: Seq<u32> = if n - 1 != ex1 && n - 1 != ex2 && sizes[n - 1] >= thr { seq![(n - 1) as u32] } else { Seq::empty() };
        assert(labels_at_least(sizes, n, ex1, ex2, thr) == prev + tail);
        assert forall|k: int| 0 <= k < (prev + tail).len() implies
            1 <= #[trigger] (prev + tail)[k] < n && sizes[(prev + tail)[k] as int] >= thr by {
            if k >= prev.len() {
                assert(tail.len() == 1);
            } else {
                assert((prev + tail)[k] == prev[k]);
            }
        }
    }
}

proof fn lemma_path_same_label(a: ComponentAnalysis, w: u32, h: u32, mask: Seq<u8>, p: Seq<int>)
    requires
        a.wf(w, h, mask),
        is_path8(mask, w as int, p),
    ensures
        a.labels@[p[0]] == a.labels@[p[p.len() - 1]],
    decreases p.len(),
{
    if p.len() > 1 {
        let q = p.drop_last();
        assert forall|k: int| 0 <= k < q.len() implies 0 <= #[trigger] q[k] < mask.len() && mask[q[k]] != 0
            && mask[q[k]] == mask[q[0]] by {
            assert(q[k] == p[k]);
        }
        assert forall|k: int| 0 <= k < q.len() - 1 implies adjacent8(#[trigger] q[k], q[k + 1], w as int) by {
            assert(q[k] == p[k] && q[k + 1] == p[k + 1]);
            assert(adjacent8(p[k], p[k + 1], w as int));
        }
        lemma_path_same_label(a, w, h, mask, q);
        let n = p.len();
        assert(adjacent8(p[n - 2], p[n - 1], w as int));
        assert(0 <= p[n - 2] < mask.len() && 0 <= p[n - 1] < mask.len());
    }
}

/// The labels of an analysed mask are exactly its 8-connected components:
/// two mask pixels share a label if and only if a path of touching mask pixels
/// links them.
pub proof fn lemma_labels_are_components(a: ComponentAnalysis, w: u32, h: u32, mask: Seq<u8>)
    requires
        a.wf(w, h, mask),
    ensures
        forall|i: int, j: int|
            0 <= i < mask.len() && 0 <= j < mask.len() && mask[i] != 0 && mask[j] != 0 ==>
                (a.labels@[i] == a.labels@[j] <==> #[trigger] connected8(mask, w as int, i, j)),
{
    assert forall|i: int, j: int|
        0 <= i < mask.len() && 0 <= j < mask.len() && mask[i] != 0 && mask[j] != 0 implies
            (a.labels@[i] == a.labels@[j] <==> #[trigger] connected8(mask, w as int, i, j)) by {
        if connected8(mask, w as int, i, j) {
            let p = choose|p: Seq<int>| #[trigger] is_path8(mask, w as int, p) && p[0] == i && p[p.len() - 1] == j;
            lemma_path_same_label(a, w, h, mask, p);
        }
    }
}

/// When the largest component is taken for background and some other
/// component is large enough to keep, no pixel of the largest component is
/// kept: every pixel connected to a pixel `j0` labelled as the largest is
/// dropped.
pub proof fn lemma_background_component_pixels_dropped(
    a: ComponentAnalysis,
    w: u32,
    h: u32,
    mask: Seq<u8>,
    min_component_size: u64,
    min_size_threshold: u64,
    j0: int,
)
    requires
        a.wf(w, h, mask),
        a.ranking.largest_size > a.bg_threshold,
        labels_at_least(a.sizes@, a.sizes@.len() as int, a.ranking.largest_label, a.ranking.largest_label,
            at_least_one(min_component_size)).len() > 0,
        0 <= j0 < mask.len(),
        a.labels@[j0] == a.ranking.largest_label,
    ensures
        forall|i: int| 0 <= i < mask.len() && #[trigger] connected8(mask, w as int, i, j0)
            ==> !a.keeps_pixel(min_component_size, min_size_threshold, i),
{
    lemma_background_component_dropped(a.sizes@, a.ranking, a.bg_threshold, min_component_size, min_size_threshold);
    assert forall|i: int| 0 <= i < mask.len() && #[trigger] connected8(mask, w as int, i, j0)
        implies !a.keeps_pixel(min_component_size, min_size_threshold, i) by {
        let p = choose|p: Seq<int>| #[trigger] is_path8(mask, w as int, p) && p[0] == i && p[p.len() - 1] == j0;
        lemma_path_same_label(a, w, h, mask, p);
    }
}

} // verus!
