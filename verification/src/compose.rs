//! Composing the final cut-out image: the source pixels kept by a mask over
//! the crop of a box, everything else transparent, encoded as base64 PNG.
//!
//! Images are raw RGBA bytes in row-major order, four bytes per pixel.

use vstd::prelude::*;
use crate::geometry::{crop_bounds, spec_crop_bounds, BoundingBox};
use crate::encoding::{base64_encoding, base64_standard_decode, decode_base64_bytes, encode_base64};

verus! {

/// The PNG file that encodes a `width` x `height` RGBA image with the
/// image crate's default PNG settings; `None` when the encoder refuses it.
pub uninterp spec fn png_file(width: u32, height: u32, rgba: Seq<u8>) -> Option<Seq<u8>>;

/// An image file decoded (format guessed from its bytes) and converted to
/// RGBA: width, height and raw pixels; `None` when it cannot be decoded.
pub uninterp spec fn decoded_rgba(file: Seq<u8>) -> Option<(u32, u32, Seq<u8>)>;

/// `image::RgbaImage::from_raw` followed by `write_to(.., ImageFormat::Png)`:
/// the PNG bytes of the image, named by `png_file`; an encoder error gives its
/// display text, left unstated. The buffer holds exactly the image, so
/// `from_raw` accepts it.
#[verifier::external_body]
fn encode_png(width: u32, height: u32, rgba: Vec<u8>) -> (r: Result<Vec<u8>, String>)
    requires
        rgba@.len() == 4 * width * height,
    ensures
        match r {
            Ok(v) => png_file(width, height, rgba@) == Some(v@),
            Err(_) => png_file(width, height, rgba@) is None,
        },
{
    match image::RgbaImage::from_raw(width, height, rgba) {
        Some(img) => {
            let mut out: Vec<u8> = Vec::new();
            match img.write_to(&mut std::io::Cursor::new(&mut out), image::ImageFormat::Png) {
                Ok(()) => Ok(out),
                Err(e) => Err(e.to_string()),
            }
        },
        None => Err(String::new()),
    }
}

/// `image::load_from_memory` followed by `to_rgba8`: width, height and raw
/// pixels of the decoded image, named by `decoded_rgba`; the RGBA buffer that
/// `to_rgba8` makes holds exactly four bytes per pixel. A decoding error gives
/// its display text, left unstated.
#[verifier::external_body]
fn decode_image_rgba(file: &[u8]) -> (r: Result<(u32, u32, Vec<u8>), String>)
    ensures
        match r {
            Ok((w, h, d)) => decoded_rgba(file@) == Some((w, h, d@)) && d@.len() == 4 * w * h,
            Err(_) => decoded_rgba(file@) is None,
        },
{
    match image::load_from_memory(file) {
        Ok(img) => {
            let rgba = img.to_rgba8();
            let (w, h) = rgba.dimensions();
            Ok((w, h, rgba.into_raw()))
        },
        Err(e) => Err(e.to_string()),
    }
}

/// An image file decoded as the format its file extension `ext` names (the
/// image crate's table of extensions, compared without regard to case) and
/// converted to RGBA: width, height and raw pixels; `None` when the extension
/// names no supported format or the bytes do not decode as that format.
pub uninterp spec fn decoded_file_rgba(ext: Seq<char>, file: Seq<u8>) -> Option<(u32, u32, Seq<u8>)>;

/// `image::ImageFormat::from_extension` followed by
/// `ImageReader::with_format(..).decode()` and `to_rgba8`, the steps
/// `image::open` takes after reading the file: width, height and raw pixels,
/// named by `decoded_file_rgba`; the RGBA buffer holds exactly four bytes per
/// pixel. An extension that names no format, or a decoding error, gives an
/// error whose text is left unstated.
#[verifier::external_body]
fn decode_file_rgba(ext: &str, file: &[u8]) -> (r: Result<(u32, u32, Vec<u8>), String>)
    ensures
        match r {
            Ok((w, h, d)) => decoded_file_rgba(ext@, file@) == Some((w, h, d@)) && d@.len() == 4 * w * h,
            Err(_) => decoded_file_rgba(ext@, file@) is None,
        },
{
    match image::ImageFormat::from_extension(ext) {
        Some(format) => match image::ImageReader::with_format(std::io::Cursor::new(file), format).decode() {
            Ok(img) => {
                let rgba = img.to_rgba8();
                let (w, h) = rgba.dimensions();
                Ok((w, h, rgba.into_raw()))
            },
            Err(e) => Err(e.to_string()),
        },
        None => Err(image::ImageError::Unsupported(
            image::error::ImageFormatHint::PathExtension(std::path::PathBuf::from(ext)).into(),
        ).to_string()),
    }
}

/// Decodes the bytes of an image file whose name has extension `ext` (empty
/// when it has none) into RGBA: width, height and raw pixels, row-major. The
/// extension chooses the format; an unsupported extension or undecodable
/// bytes give an error.
pub fn decode_image(ext: &str, file: &[u8]) -> (r: Result<(u32, u32, Vec<u8>), String>)
    ensures
        match r {
            Ok((w, h, d)) => decoded_file_rgba(ext@, file@) == Some((w, h, d@)) && d@.len() == 4 * w * h,
            Err(_) => decoded_file_rgba(ext@, file@) is None,
        },
{
    decode_file_rgba(ext, file)
}

/// The pixel at (`px`, `py`) lies in the crop `(x1, y1, x2, y2)`.
pub open spec fn in_crop(px: int, py: int, b: (u32, u32, u32, u32)) -> bool {
    b.0 <= px < b.2 && b.1 <= py < b.3
}

/// Index in a row-major crop mask of the pixel at (`px`, `py`).
pub open spec fn crop_index(px: int, py: int, b: (u32, u32, u32, u32)) -> int {
    (py - b.1) * (b.2 - b.0) + (px - b.0)
}

/// The crop mask keeps the pixel at (`px`, `py`): it lies in the crop and the
/// mask has a `true` at its index.
pub open spec fn kept(keep: Seq<bool>, px: int, py: int, b: (u32, u32, u32, u32)) -> bool {
    in_crop(px, py, b) && crop_index(px, py, b) < keep.len() && keep[crop_index(px, py, b)]
}

/// Byte `k` of the cut-out of a `w`-wide image: a kept pixel keeps its colour
/// and becomes opaque, every other pixel is transparent black.
pub open spec fn cutout_byte(src: Seq<u8>, w: int, keep: Seq<bool>, b: (u32, u32, u32, u32), k: int) -> u8 {
    let i = k / 4;
    if kept(keep, i % w, i / w, b) {
        if k % 4 < 3 { src[k] } else { 255 }
    } else {
        0
    }
}

/// Byte `k` of the segmentation-refined mask of a `w`-wide image, with the
/// classical mask `trad` a `tw`-wide RGBA image read at the same pixel
/// coordinates: a pixel kept by the segmentation mask takes the classical
/// mask's pixel when that one is not transparent, else the source colour made
/// opaque; all other pixels are transparent black.
pub open spec fn combined_byte(
    src: Seq<u8>,
    trad: Seq<u8>,
    w: int,
    tw: int,
    keep: Seq<bool>,
    b: (u32, u32, u32, u32),
    k: int,
) -> u8 {
    let i = k / 4;
    let t = 4 * ((i / w) * tw + i % w);
    if kept(keep, i % w, i / w, b) {
        if trad[t + 3] > 0 {
            trad[t + k % 4]
        } else if k % 4 < 3 {
            src[k]
        } else {
            255
        }
    } else {
        0
    }
}

/// The raw image is a `w` x `h` RGBA image and its byte count fits in `usize`.
pub open spec fn rgba_dims(data: Seq<u8>, w: int, h: int) -> bool {
    data.len() == 4 * w * h && 4 * w * h <= usize::MAX
}

proof fn lemma_pixel_coords(i: int, w: int, h: int)
    requires
        0 <= i < w * h,
        0 < w,
        0 <= h,
    ensures
        0 <= i % w < w,
        0 <= i / w < h,
        (i / w) * w + i % w == i,
{
    vstd::arithmetic::div_mod::lemma_fundamental_div_mod(i, w);
    vstd::arithmetic::div_mod::lemma_mod_pos_bound(i, w);
    vstd::arithmetic::div_mod::lemma_div_pos_is_pos(i, w);
    assert(i / w < h) by {
        vstd::arithmetic::div_mod::lemma_div_is_ordered(i, w * h - 1, w);
        assert(w * h - 1 == w * (h - 1) + (w - 1)) by (nonlinear_arith);
        vstd::arithmetic::div_mod::lemma_fundamental_div_mod_converse(w * h - 1, w, h - 1, w - 1);
    }
    assert((i / w) * w == w * (i / w)) by (nonlinear_arith);
}

proof fn lemma_crop_index_bound(px: int, py: int, b: (u32, u32, u32, u32), w: int, h: int)
    requires
        in_crop(px, py, b),
        b.2 <= w,
        b.3 <= h,
        0 <= w,
        0 <= h,
    ensures
        0 <= crop_index(px, py, b) < w * h,
{
    let cw = b.2 - b.0;
    let ch = b.3 - b.1;
    let r = py - b.1;
    let c = px - b.0;
    assert(0 <= r < ch && 0 <= c < cw);
    assert(r * cw + c < ch * cw) by (nonlinear_arith)
        requires 0 <= r < ch, 0 <= c < cw;
    assert(ch * cw <= h * w) by (nonlinear_arith)
        requires 0 <= ch <= h, 0 <= cw <= w;
    assert(0 <= r * cw) by (nonlinear_arith)
        requires 0 <= r, 0 <= cw;
    assert(h * w == w * h) by (nonlinear_arith);
}

/// Whether the crop mask keeps the pixel at (`px`, `py`).
fn kept_exec(keep: &[bool], px: usize, py: usize, b: (u32, u32, u32, u32), w: usize, h: usize) -> (r: bool)
    requires
        b.0 <= b.2 <= w,
        b.1 <= b.3 <= h,
        w * h <= usize::MAX,
    ensures
        r == kept(keep@, px as int, py as int, b),
{
    let x1 = b.0 as usize;
    let y1 = b.1 as usize;
    let x2 = b.2 as usize;
    let y2 = b.3 as usize;
    if x1 <= px && px < x2 && y1 <= py && py < y2 {
        proof {
            lemma_crop_index_bound(px as int, py as int, b, w as int, h as int);
            assert(0 <= (py - y1) * (x2 - x1)) by (nonlinear_arith)
                requires y1 <= py, x1 <= x2;
        }
        let idx = (py - y1) * (x2 - x1) + (px - x1);
        idx < keep.len() && keep[idx]
    } else {
        false
    }
}

/// The cut-out of a `w` x `h` RGBA image by a crop mask: pixels of the crop
/// `b` kept by `keep` (row-major over the crop) keep their colour and become
/// opaque; all others are transparent black.
pub fn cutout(src: &[u8], w: u32, h: u32, b: (u32, u32, u32, u32), keep: &[bool]) -> (out: Vec<u8>)
    requires
        rgba_dims(src@, w as int, h as int),
        b.0 <= b.2 <= w,
        b.1 <= b.3 <= h,
    ensures
        out@.len() == src@.len(),
        forall|k: int| 0 <= k < out@.len() ==> out@[k] == cutout_byte(src@, w as int, keep@, b, k),
{
    let wu = w as usize;
    let hu = h as usize;
    proof {
        assert(wu * hu <= usize::MAX && 4 * (wu * hu) == 4 * wu * hu) by (nonlinear_arith)
            requires 4 * wu * hu <= usize::MAX, 0 <= wu, 0 <= hu;
    }
    let n = wu * hu;
    assert(4 * n == src@.len());
    let mut out: Vec<u8> = Vec::new();
    let mut i: usize = 0;
    while i < n
        invariant
            rgba_dims(src@, w as int, h as int),
            wu == w, hu == h,
            n == wu * hu,
            4 * n == src@.len(),
            b.0 <= b.2 <= w,
            b.1 <= b.3 <= h,
            i <= n,
            out@.len() == 4 * i,
            forall|k: int| 0 <= k < out@.len() ==> out@[k] == cutout_byte(src@, w as int, keep@, b, k),
        decreases n - i,
    {
        proof {
            lemma_pixel_coords(i as int, wu as int, hu as int);
        }
        let px = i % wu;
        let py = i / wu;
        let base = 4 * i;
        let keep_it = kept_exec(keep, px, py, b, wu, hu);
        let ghost before = out@;
        if keep_it {
            out.push(src[base]);
            out.push(src[base + 1]);
            out.push(src[base + 2]);
            out.push(255u8);
        } else {
            out.push(0u8);
            out.push(0u8);
            out.push(0u8);
            out.push(0u8);
        }
        proof {
            assert forall|k: int| 0 <= k < out@.len() implies out@[k] == cutout_byte(src@, w as int, keep@, b, k) by {
                if k >= 4 * i {
                    assert(k / 4 == i as int);
                    assert(k % 4 == k - 4 * i);
                } else {
                    assert(out@[k] == before[k]);
                }
            }
        }
        i = i + 1;
    }
    out
}

/// The segmentation-refined mask of a `w` x `h` RGBA image: in the crop `b`,
/// pixels kept by the segmentation mask `keep` take the pixel at the same
/// coordinates of the classical mask `trad` (a `tw` x `th` RGBA image that
/// covers the crop) when that one is not transparent, else the source colour
/// made opaque; all other pixels are transparent black.
pub fn combine_masks(
    src: &[u8],
    trad: &[u8],
    w: u32,
    h: u32,
    tw: u32,
    th: u32,
    b: (u32, u32, u32, u32),
    keep: &[bool],
) -> (out: Vec<u8>)
    requires
        rgba_dims(src@, w as int, h as int),
        trad@.len() == 4 * tw * th,
        b.0 <= b.2 <= w,
        b.1 <= b.3 <= h,
        b.2 <= tw,
        b.3 <= th,
    ensures
        out@.len() == src@.len(),
        forall|k: int| 0 <= k < out@.len() ==> out@[k] == combined_byte(src@, trad@, w as int, tw as int, keep@, b, k),
{
    let wu = w as usize;
    let hu = h as usize;
    let twu = tw as usize;
    let tl = trad.len();
    proof {
        assert(wu * hu <= usize::MAX && 4 * (wu * hu) == 4 * wu * hu) by (nonlinear_arith)
            requires 4 * wu * hu <= usize::MAX, 0 <= wu, 0 <= hu;
    }
    let n = wu * hu;
    assert(4 * n == src@.len());
    let mut out: Vec<u8> = Vec::new();
    let mut i: usize = 0;
    while i < n
        invariant
            rgba_dims(src@, w as int, h as int),
            trad@.len() == 4 * tw * th,
            wu == w, hu == h, twu == tw,
            tl == trad@.len(),
            n == wu * hu,
            4 * n == src@.len(),
            b.0 <= b.2 <= w,
            b.1 <= b.3 <= h,
            b.2 <= tw,
            b.3 <= th,
            i <= n,
            out@.len() == 4 * i,
            forall|k: int| 0 <= k < out@.len() ==> out@[k] == combined_byte(src@, trad@, w as int, tw as int, keep@, b, k),
        decreases n - i,
    {
        proof {
            lemma_pixel_coords(i as int, wu as int, hu as int);
        }
        let px = i % wu;
        let py = i / wu;
        let base = 4 * i;
        let keep_it = kept_exec(keep, px, py, b, wu, hu);
        let ghost before = out@;
        if keep_it {
            proof {
                assert(py * tw + px < tw * th && 0 <= py * tw + px) by (nonlinear_arith)
                    requires py < th, px < tw, 0 <= py, 0 <= px;
                assert(4 * (py * tw + px) + 3 < 4 * tw * th) by (nonlinear_arith)
                    requires py * tw + px < tw * th;
                assert(4 * tw * th == tl);
            }
            let t = 4 * (py * twu + px);
            if trad[t + 3] > 0 {
                out.push(trad[t]);
                out.push(trad[t + 1]);
                out.push(trad[t + 2]);
                out.push(trad[t + 3]);
            } else {
                out.push(src[base]);
                out.push(src[base + 1]);
                out.push(src[base + 2]);
                out.push(255u8);
            }
        } else {
            out.push(0u8);
            out.push(0u8);
            out.push(0u8);
            out.push(0u8);
        }
        proof {
            assert forall|k: int| 0 <= k < out@.len() implies out@[k] == combined_byte(src@, trad@, w as int, tw as int, keep@, b, k) by {
                if k >= 4 * i {
                    assert(k / 4 == i as int);
                    assert(k % 4 == k - 4 * i);
                } else {
                    assert(out@[k] == before[k]);
                }
            }
        }
        i = i + 1;
    }
    out
}


/// The cut-out image as a whole (see `cutout_byte`).
pub open spec fn cutout_image(src: Seq<u8>, w: int, keep: Seq<bool>, b: (u32, u32, u32, u32)) -> Seq<u8> {
    Seq::new(src.len(), |k: int| cutout_byte(src, w, keep, b, k))
}

/// The refined mask as a whole (see `combined_byte`).
pub open spec fn combined_image(src: Seq<u8>, trad: Seq<u8>, w: int, tw: int, keep: Seq<bool>, b: (u32, u32, u32, u32)) -> Seq<u8> {
    Seq::new(src.len(), |k: int| combined_byte(src, trad, w, tw, keep, b, k))
}

/// The box's corner and size additions fit in `u32`.
pub open spec fn box_fits(b: BoundingBox) -> bool {
    b.x + b.width <= u32::MAX && b.y + b.height <= u32::MAX
}

/// The base64 PNG of the cut-out, `None` when the encoder refuses it.
pub open spec fn spec_render_cutout(src: Seq<u8>, w: u32, h: u32, bbox: BoundingBox, keep: Seq<bool>) -> Option<Seq<char>> {
    match png_file(w, h, cutout_image(src, w as int, keep, spec_crop_bounds(bbox, w, h))) {
        Some(p) => Some(base64_encoding(p)),
        None => None,
    }
}

/// The mask image of a `w` x `h` RGBA image as base64 PNG: pixels of the crop
/// of `bbox` kept by `keep` (row-major over the crop) keep their colour and
/// become opaque, all others are transparent. An encoder error is returned as
/// its text.
pub fn render_cutout(src: &[u8], w: u32, h: u32, bbox: &BoundingBox, keep: &[bool]) -> (r: Result<String, String>)
    requires
        rgba_dims(src@, w as int, h as int),
        box_fits(*bbox),
    ensures
        match spec_render_cutout(src@, w, h, *bbox, keep@) {
            Some(s) => r is Ok && r->Ok_0@ == s,
            None => r is Err,
        },
{
    let b = crop_bounds(bbox, w, h);
    let img = cutout(src, w, h, b, keep);
    proof {
        assert(img@ =~= cutout_image(src@, w as int, keep@, b));
    }
    match encode_png(w, h, img) {
        Ok(png) => Ok(encode_base64(png.as_slice())),
        Err(e) => Err(e),
    }
}

/// The result of refining a classical mask (base64 PNG `trad_b64`) with the
/// segmentation mask `keep`: the classical mask unchanged when the
/// segmentation mask or the crop is empty, else the base64 PNG of the combined
/// image; `None` when the classical mask cannot be decoded, does not cover the
/// crop, or the result cannot be encoded.
pub open spec fn spec_refine(
    src: Seq<u8>,
    w: u32,
    h: u32,
    bbox: BoundingBox,
    keep: Seq<bool>,
    trad_b64: Seq<char>,
) -> Option<Seq<char>> {
    let b = spec_crop_bounds(bbox, w, h);
    if keep.len() == 0 || b.2 == b.0 || b.3 == b.1 {
        Some(trad_b64)
    } else {
        match base64_standard_decode(vstd::utf8::encode_utf8(trad_b64)) {
            None => None,
            Some(file) => match decoded_rgba(file) {
                None => None,
                Some((tw, th, td)) => if tw < b.2 || th < b.3 {
                    None
                } else {
                    match png_file(w, h, combined_image(src, td, w as int, tw as int, keep, b)) {
                        Some(p) => Some(base64_encoding(p)),
                        None => None,
                    }
                },
            },
        }
    }
}

/// The classical mask decodes to an image that does not cover the crop `b`.
pub open spec fn mask_misses_crop(trad_b64: Seq<char>, b: (u32, u32, u32, u32)) -> bool {
    match base64_standard_decode(vstd::utf8::encode_utf8(trad_b64)) {
        Some(file) => match decoded_rgba(file) {
            Some((tw, th, _)) => tw < b.2 || th < b.3,
            None => false,
        },
        None => false,
    }
}

/// The message of the error for a classical mask that does not cover the crop.
pub open spec fn mask_misses_crop_message() -> Seq<char> {
    "mask does not cover the crop"@
}

/// Refines a classical mask (base64 PNG) with a segmentation mask over the
/// crop of `bbox` (see `spec_refine`), reading the classical mask at image
/// coordinates; errors are returned as text, a classical mask that does not
/// cover the crop with its own message.
pub fn refine_with_segmentation(
    src: &[u8],
    w: u32,
    h: u32,
    bbox: &BoundingBox,
    keep: &[bool],
    trad_b64: &str,
) -> (r: Result<String, String>)
    requires
        rgba_dims(src@, w as int, h as int),
        box_fits(*bbox),
    ensures
        match spec_refine(src@, w, h, *bbox, keep@, trad_b64@) {
            Some(s) => r is Ok && r->Ok_0@ == s,
            None => r is Err,
        },
        ({
            let b = spec_crop_bounds(*bbox, w, h);
            keep@.len() > 0 && b.2 != b.0 && b.3 != b.1 && mask_misses_crop(trad_b64@, b)
        }) ==> r is Err && r->Err_0@ == mask_misses_crop_message(),
{
    if keep.len() == 0 {
        return Ok(String::from_str(trad_b64));
    }
    let b = crop_bounds(bbox, w, h);
    if b.2 - b.0 == 0 || b.3 - b.1 == 0 {
        return Ok(String::from_str(trad_b64));
    }
    let file = match decode_base64_bytes(trad_b64.as_bytes()) {
        Ok(f) => f,
        Err(e) => return Err(e),
    };
    let (tw, th, td) = match decode_image_rgba(file.as_slice()) {
        Ok(t) => t,
        Err(e) => return Err(e),
    };
    if tw < b.2 || th < b.3 {
        proof {
            reveal_strlit("mask does not cover the crop");
        }
        return Err(String::from_str("mask does not cover the crop"));
    }
    let img = combine_masks(src, td.as_slice(), w, h, tw, th, b, keep);
    proof {
        assert(img@ =~= combined_image(src@, td@, w as int, tw as int, keep@, b));
    }
    match encode_png(w, h, img) {
        Ok(png) => Ok(encode_base64(png.as_slice())),
        Err(e) => Err(e),
    }
}


/// The message of the error for an empty crop.
pub open spec fn empty_bbox_message() -> Seq<char> {
    "empty bbox"@
}

/// The crop of `bbox` in a `w` x `h` image as corners `(x1, y1, x2, y2)`; an
/// error when the crop has no pixel.
pub fn nonempty_crop(bbox: &BoundingBox, w: u32, h: u32) -> (r: Result<(u32, u32, u32, u32), String>)
    requires
        box_fits(*bbox),
    ensures
        ({
            let b = spec_crop_bounds(*bbox, w, h);
            if b.2 == b.0 || b.3 == b.1 {
                r is Err && r->Err_0@ == empty_bbox_message()
            } else {
                r == Ok::<(u32, u32, u32, u32), String>(b)
            }
        }),
{
    let b = crop_bounds(bbox, w, h);
    if b.2 == b.0 || b.3 == b.1 {
        proof {
            reveal_strlit("empty bbox");
        }
        Err(String::from_str("empty bbox"))
    } else {
        Ok(b)
    }
}

/// Byte `k` of the crop `b` of a `w`-wide RGBA image, row-major over the crop.
pub open spec fn crop_byte(src: Seq<u8>, w: int, b: (u32, u32, u32, u32), k: int) -> u8 {
    let cw = b.2 - b.0;
    let i = k / 4;
    src[4 * ((b.1 + i / cw) * w + b.0 + i % cw) + k % 4]
}

/// The RGBA pixels of the crop `(x1, y1, x2, y2)` of a `w` x `h` RGBA image,
/// row by row.
pub fn crop_rgba(src: &[u8], w: u32, h: u32, b: (u32, u32, u32, u32)) -> (r: Vec<u8>)
    requires
        rgba_dims(src@, w as int, h as int),
        b.0 <= b.2 <= w,
        b.1 <= b.3 <= h,
    ensures
        r@.len() == 4 * (b.2 - b.0) * (b.3 - b.1),
        forall|k: int| 0 <= k < r@.len() ==> r@[k] == crop_byte(src@, w as int, b, k),
{
    let wu = w as usize;
    let cw = (b.2 - b.0) as usize;
    let ch = (b.3 - b.1) as usize;
    let x1 = b.0 as usize;
    let y1 = b.1 as usize;
    proof {
        assert(cw * ch <= w * h && 4 * w * h == 4 * (w * h)) by (nonlinear_arith)
            requires cw <= w, ch <= h, 0 <= cw, 0 <= ch;
        assert(4 * cw * ch == 4 * (cw * ch)) by (nonlinear_arith);
    }
    let n = cw * ch;
    let mut out: Vec<u8> = Vec::new();
    let mut i: usize = 0;
    while i < n
        invariant
            rgba_dims(src@, w as int, h as int),
            b.0 <= b.2 <= w,
            b.1 <= b.3 <= h,
            wu == w, cw == b.2 - b.0, ch == b.3 - b.1, x1 == b.0, y1 == b.1,
            n == cw * ch,
            4 * w * h == 4 * (w * h),
            i <= n,
            out@.len() == 4 * i,
            forall|k: int| 0 <= k < out@.len() ==> out@[k] == crop_byte(src@, w as int, b, k),
        decreases n - i,
    {
        proof {
            lemma_pixel_coords(i as int, cw as int, ch as int);
        }
        let px = i % cw;
        let py = i / cw;
        proof {
            assert((y1 + py) * w + x1 + px < w * h && 0 <= (y1 + py) * w + x1 + px) by (nonlinear_arith)
                requires y1 + py < h, x1 + px < w, 0 <= y1 + py, 0 <= x1 + px;
        }
        let base = 4 * ((y1 + py) * wu + x1 + px);
        let ghost before = out@;
        out.push(src[base]);
        out.push(src[base + 1]);
        out.push(src[base + 2]);
        out.push(src[base + 3]);
        proof {
            assert forall|k: int| 0 <= k < out@.len() implies out@[k] == crop_byte(src@, w as int, b, k) by {
                if k >= 4 * i {
                    assert(k / 4 == i as int);
                    assert(k % 4 == k - 4 * i);
                } else {
                    assert(out@[k] == before[k]);
                }
            }
        }
        i = i + 1;
    }
    proof {
        assert(4 * n == 4 * (b.2 - b.0) * (b.3 - b.1)) by (nonlinear_arith)
            requires n == cw * ch, cw == b.2 - b.0, ch == b.3 - b.1;
    }
    out
}

/// Pixel `i` of a resized segmentation mask counts as foreground: its alpha
/// byte exists and is above 128.
pub open spec fn alpha_keeps(raw: Seq<u8>, i: int) -> bool {
    4 * i + 3 < raw.len() && raw[4 * i + 3] > 128
}

/// The foreground flags of a `w` x `h` RGBA segmentation mask, row-major:
/// alpha above 128.
pub fn alpha_mask(raw: &[u8], w: usize, h: usize) -> (r: Vec<bool>)
    requires
        w * h <= usize::MAX,
    ensures
        r@.len() == w * h,
        forall|i: int| 0 <= i < r@.len() ==> r@[i] == alpha_keeps(raw@, i),
{
    let n = w * h;
    let rl = raw.len();
    let mut out: Vec<bool> = Vec::new();
    let mut i: usize = 0;
    while i < n
        invariant
            rl == raw@.len(),
            n == w * h,
            i <= n,
            out@.len() == i,
            forall|j: int| 0 <= j < i ==> out@[j] == alpha_keeps(raw@, j),
        decreases n - i,
    {
        let keep = if i <= (usize::MAX - 3) / 4 && 4 * i + 3 < raw.len() { raw[4 * i + 3] > 128 } else { false };
        proof {
            if !(i <= (usize::MAX - 3) / 4) {
                assert(4 * i + 3 > usize::MAX);
            }
        }
        out.push(keep);
        i = i + 1;
    }
    out
}

/// In the cut-out and in the refined mask, a pixel the crop mask does not keep
/// (in particular any pixel outside the box's crop) is fully transparent,
/// and a kept pixel of the cut-out is opaque with its source colour.
pub proof fn lemma_unkept_pixels_transparent(
    src: Seq<u8>,
    trad: Seq<u8>,
    w: int,
    tw: int,
    keep: Seq<bool>,
    b: (u32, u32, u32, u32),
    k: int,
)
    requires
        0 <= k,
        w > 0,
    ensures
        !kept(keep, (k / 4) % w, (k / 4) / w, b) ==> cutout_byte(src, w, keep, b, k) == 0
            && combined_byte(src, trad, w, tw, keep, b, k) == 0,
        !in_crop((k / 4) % w, (k / 4) / w, b) ==> cutout_byte(src, w, keep, b, k) == 0
            && combined_byte(src, trad, w, tw, keep, b, k) == 0,
        kept(keep, (k / 4) % w, (k / 4) / w, b) ==> cutout_byte(src, w, keep, b, k)
            == (if k % 4 == 3 { 255u8 } else { src[k] }),
{
}

} // verus!
