//! Bounding boxes in image pixel coordinates, the seven agent actions that
//! move and resize them, and the crop rectangles derived from a box.

use vstd::prelude::*;

verus! {

/// Smallest width and height a box keeps after any action.
pub const MIN_BOX_SIDE: u32 = 20;

/// An axis-aligned rectangle: top-left corner and size, in pixels.
#[derive(Clone, Copy, Debug, PartialEq, Eq, Structural)]
pub struct BoundingBox {
    pub x: u32,
    pub y: u32,
    pub width: u32,
    pub height: u32,
}

/// Saturating subtraction on naturals.
pub open spec fn sat_sub(a: int, b: int) -> int {
    if a >= b { a - b } else { 0 }
}

pub open spec fn min_int(a: int, b: int) -> int {
    if a <= b { a } else { b }
}

pub open spec fn max_int(a: int, b: int) -> int {
    if a >= b { a } else { b }
}

/// One move step: a tenth of the side, rounded down.
pub open spec fn move_step(side: int) -> int {
    side / 10
}

/// One zoom step: eight percent of the side, rounded down.
pub open spec fn zoom_step(side: int) -> int {
    (2 * side) / 25
}

/// The box covering the whole image.
pub open spec fn full_box(img_w: u32, img_h: u32) -> BoundingBox {
    BoundingBox { x: 0, y: 0, width: img_w, height: img_h }
}

/// The box after moving/resizing by `action`, before the minimum side is applied.
pub open spec fn moved_box(b: BoundingBox, action: u32, img_w: u32, img_h: u32) -> (int, int, int, int) {
    let (x, y, w, h) = (b.x as int, b.y as int, b.width as int, b.height as int);
    if action == 0 {
        (sat_sub(x, move_step(w)), y, w, h)
    } else if action == 1 {
        (min_int(x + move_step(w), sat_sub(sat_sub(img_w as int, 1), w)), y, w, h)
    } else if action == 2 {
        (x, sat_sub(y, move_step(h)), w, h)
    } else if action == 3 {
        (x, min_int(y + move_step(h), sat_sub(sat_sub(img_h as int, 1), h)), w, h)
    } else if action == 4 {
        let sw = zoom_step(w);
        let sh = zoom_step(h);
        (x + sw / 2, y + sh / 2, w - sw, h - sh)
    } else if action == 5 {
        let gw = zoom_step(w);
        let gh = zoom_step(h);
        let nw = min_int(w + gw, img_w as int);
        let nh = min_int(h + gh, img_h as int);
        (min_int(sat_sub(x, gw / 2), sat_sub(img_w as int, nw)),
         min_int(sat_sub(y, gh / 2), sat_sub(img_h as int, nh)), nw, nh)
    } else {
        (x, y, w, h)
    }
}

/// What `apply_action` returns: the moved box with each side raised to at least 20.
pub open spec fn spec_apply_action(b: BoundingBox, action: u32, img_w: u32, img_h: u32) -> BoundingBox {
    let (x, y, w, h) = moved_box(b, action, img_w, img_h);
    BoundingBox {
        x: x as u32,
        y: y as u32,
        width: max_int(w, MIN_BOX_SIDE as int) as u32,
        height: max_int(h, MIN_BOX_SIDE as int) as u32,
    }
}

/// The additions performed by `action` stay within `u32`.
pub open spec fn action_fits(b: BoundingBox, action: u32) -> bool {
    &&& action == 1 ==> b.x + move_step(b.width as int) <= u32::MAX
    &&& action == 3 ==> b.y + move_step(b.height as int) <= u32::MAX
    &&& action == 4 ==> b.x + zoom_step(b.width as int) / 2 <= u32::MAX
        && b.y + zoom_step(b.height as int) / 2 <= u32::MAX
    &&& action == 5 ==> b.width + zoom_step(b.width as int) <= u32::MAX
        && b.height + zoom_step(b.height as int) <= u32::MAX
}

/// The position/length pair of one axis lies in the image: for an image side
/// of at least 20 the segment is inside it and at least 20 long; for a smaller
/// side the segment starts at 0 and is at most 20 long.
pub open spec fn axis_ok(pos: int, len: int, limit: int) -> bool {
    ||| (limit >= MIN_BOX_SIDE && len >= MIN_BOX_SIDE && pos + len <= limit)
    ||| (limit < MIN_BOX_SIDE && pos == 0 && (len == limit || len == MIN_BOX_SIDE))
}

/// The box lies in the image in the sense of `axis_ok` on both axes.
pub open spec fn box_in_image(b: BoundingBox, img_w: u32, img_h: u32) -> bool {
    &&& axis_ok(b.x as int, b.width as int, img_w as int)
    &&& axis_ok(b.y as int, b.height as int, img_h as int)
}

/// Image sides for which a zoom-out of a box inside the image cannot overflow.
pub open spec fn image_supported(img_w: u32, img_h: u32) -> bool {
    &&& img_w + zoom_step(img_w as int) <= u32::MAX
    &&& img_h + zoom_step(img_h as int) <= u32::MAX
    &&& MIN_BOX_SIDE + zoom_step(MIN_BOX_SIDE as int) <= u32::MAX
}

impl BoundingBox {
    /// The box covering a whole `img_w` x `img_h` image.
    pub fn full(img_w: u32, img_h: u32) -> (b: BoundingBox)
        ensures
            b == full_box(img_w, img_h),
    {
        BoundingBox { x: 0, y: 0, width: img_w, height: img_h }
    }
}

fn move_step_of(side: u32) -> (r: u32)
    ensures
        r == move_step(side as int),
{
    side / 10
}

fn zoom_step_of(side: u32) -> (r: u32)
    ensures
        r == zoom_step(side as int),
{
    let wide: u64 = (side as u64) * 2 / 25;
    wide as u32
}

/// Moves or resizes `bbox` by one agent action inside an `img_w` x `img_h` image.
///
/// Actions: 0 left, 1 right, 2 up, 3 down (by a tenth of the box side),
/// 4 zoom in (shrink by eight percent, keeping the centre), 5 zoom out
/// (grow by eight percent, clamped to the image), 6 trigger and anything
/// else leave the box in place. Both sides are then raised to at least 20.
/// The tenth and the eight percent are rounded down; for sides below 2^24
/// this equals the single-precision product truncated to an integer.
pub fn apply_action(bbox: &BoundingBox, action: u32, img_w: u32, img_h: u32) -> (r: BoundingBox)
    requires
        action_fits(*bbox, action),
    ensures
        r == spec_apply_action(*bbox, action, img_w, img_h),
{
    let step_w = move_step_of(bbox.width);
    let step_h = move_step_of(bbox.height);
    let mut new = *bbox;
    if action == 0 {
        new.x = new.x.saturating_sub(step_w);
    } else if action == 1 {
        let limit = img_w.saturating_sub(1).saturating_sub(new.width);
        let moved = new.x + step_w;
        new.x = if moved <= limit { moved } else { limit };
    } else if action == 2 {
        new.y = new.y.saturating_sub(step_h);
    } else if action == 3 {
        let limit = img_h.saturating_sub(1).saturating_sub(new.height);
        let moved = new.y + step_h;
        new.y = if moved <= limit { moved } else { limit };
    } else if action == 4 {
        let shrink_w = zoom_step_of(new.width);
        let shrink_h = zoom_step_of(new.height);
        new.x = new.x + shrink_w / 2;
        new.y = new.y + shrink_h / 2;
        new.width = new.width.saturating_sub(shrink_w);
        new.height = new.height.saturating_sub(shrink_h);
    } else if action == 5 {
        let grow_w = zoom_step_of(new.width);
        let grow_h = zoom_step_of(new.height);
        new.x = new.x.saturating_sub(grow_w / 2);
        new.y = new.y.saturating_sub(grow_h / 2);
        let gw = new.width + grow_w;
        let gh = new.height + grow_h;
        new.width = if gw <= img_w { gw } else { img_w };
        new.height = if gh <= img_h { gh } else { img_h };
        let lim_x = img_w.saturating_sub(new.width);
        let lim_y = img_h.saturating_sub(new.height);
        new.x = if new.x <= lim_x { new.x } else { lim_x };
        new.y = if new.y <= lim_y { new.y } else { lim_y };
    }
    if new.width < MIN_BOX_SIDE {
        new.width = MIN_BOX_SIDE;
    }
    if new.height < MIN_BOX_SIDE {
        new.height = MIN_BOX_SIDE;
    }
    new
}

proof fn lemma_axis_step(pos: int, len: int, limit: int)
    requires
        axis_ok(pos, len, limit),
        0 <= pos,
        0 <= len,
        0 <= limit,
    ensures
        axis_ok(sat_sub(pos, move_step(len)), max_int(len, MIN_BOX_SIDE as int), limit),
        axis_ok(min_int(pos + move_step(len), sat_sub(sat_sub(limit, 1), len)),
            max_int(len, MIN_BOX_SIDE as int), limit),
        axis_ok(pos + zoom_step(len) / 2, max_int(len - zoom_step(len), MIN_BOX_SIDE as int), limit),
        axis_ok(min_int(sat_sub(pos, zoom_step(len) / 2), sat_sub(limit, min_int(len + zoom_step(len), limit))),
            max_int(min_int(len + zoom_step(len), limit), MIN_BOX_SIDE as int), limit),
        axis_ok(pos, max_int(len, MIN_BOX_SIDE as int), limit),
{
    let z = zoom_step(len);
    assert(0 <= z <= len) by {
        assert(0 <= 2 * len);
    }
    assert(0 <= move_step(len) <= len);
    if len < 25 {
        assert(z <= 1);
        assert(z / 2 == 0);
    } else {
        assert(len - z >= 23);
        assert(z / 2 <= z);
    }
    let nl = min_int(len + z, limit);
    if limit >= MIN_BOX_SIDE {
        assert(nl >= MIN_BOX_SIDE);
        if len <= limit - 1 {
            assert(sat_sub(sat_sub(limit, 1), len) == limit - 1 - len);
        } else {
            assert(sat_sub(sat_sub(limit, 1), len) == 0);
        }
    } else {
        assert(nl <= limit);
    }
}

/// The box clipped to the image, as corner coordinates `(x1, y1, x2, y2)`.
pub open spec fn spec_crop_bounds(b: BoundingBox, img_w: u32, img_h: u32) -> (u32, u32, u32, u32) {
    (
        min_int(b.x as int, img_w as int) as u32,
        min_int(b.y as int, img_h as int) as u32,
        min_int(b.x + b.width, img_w as int) as u32,
        min_int(b.y + b.height, img_h as int) as u32,
    )
}

/// Clips `bbox` to the image and returns its corners `(x1, y1, x2, y2)`,
/// with `x1 <= x2` and `y1 <= y2`.
pub fn crop_bounds(bbox: &BoundingBox, img_w: u32, img_h: u32) -> (r: (u32, u32, u32, u32))
    requires
        bbox.x + bbox.width <= u32::MAX,
        bbox.y + bbox.height <= u32::MAX,
    ensures
        r == spec_crop_bounds(*bbox, img_w, img_h),
        r.0 <= r.2 <= img_w,
        r.1 <= r.3 <= img_h,
{
    let x1 = if bbox.x <= img_w { bbox.x } else { img_w };
    let y1 = if bbox.y <= img_h { bbox.y } else { img_h };
    let xe = bbox.x + bbox.width;
    let ye = bbox.y + bbox.height;
    let x2 = if xe <= img_w { xe } else { img_w };
    let y2 = if ye <= img_h { ye } else { img_h };
    (x1, y1, x2, y2)
}

/// The rectangle cut out of the image for the agent's view of `b`.
pub open spec fn spec_patch_rect(b: BoundingBox, img_w: u32, img_h: u32) -> BoundingBox {
    let x = min_int(b.x as int, sat_sub(img_w as int, 1));
    let y = min_int(b.y as int, sat_sub(img_h as int, 1));
    BoundingBox {
        x: x as u32,
        y: y as u32,
        width: min_int(b.width as int, sat_sub(img_w as int, x)) as u32,
        height: min_int(b.height as int, sat_sub(img_h as int, y)) as u32,
    }
}

/// The part of `bbox` that the agent looks at: the corner is moved to the last
/// pixel at most and the size is cut to what remains of the image.
pub fn patch_rect(bbox: &BoundingBox, img_w: u32, img_h: u32) -> (r: BoundingBox)
    ensures
        r == spec_patch_rect(*bbox, img_w, img_h),
        r.x + r.width <= img_w || img_w == 0,
        r.y + r.height <= img_h || img_h == 0,
{
    let x = if bbox.x <= img_w.saturating_sub(1) { bbox.x } else { img_w.saturating_sub(1) };
    let y = if bbox.y <= img_h.saturating_sub(1) { bbox.y } else { img_h.saturating_sub(1) };
    let rw = img_w.saturating_sub(x);
    let rh = img_h.saturating_sub(y);
    BoundingBox {
        x,
        y,
        width: if bbox.width <= rw { bbox.width } else { rw },
        height: if bbox.height <= rh { bbox.height } else { rh },
    }
}

/// The central half of a box: a quarter of each side is cut on the left and top,
/// and the size is halved (rounded down).
pub open spec fn spec_center_half(b: BoundingBox) -> BoundingBox {
    BoundingBox {
        x: (b.x + b.width / 4) as u32,
        y: (b.y + b.height / 4) as u32,
        width: (b.width / 2) as u32,
        height: (b.height / 2) as u32,
    }
}

/// The central half of `bbox`, from which the final feature vector is read.
pub fn center_half(bbox: &BoundingBox) -> (r: BoundingBox)
    requires
        bbox.x + bbox.width / 4 <= u32::MAX,
        bbox.y + bbox.height / 4 <= u32::MAX,
    ensures
        r == spec_center_half(*bbox),
{
    BoundingBox {
        x: bbox.x + bbox.width / 4,
        y: bbox.y + bbox.height / 4,
        width: bbox.width / 2,
        height: bbox.height / 2,
    }
}

/// Side of a feature-grid cell for a crop: a 24th of the shorter side, at least 4.
pub open spec fn spec_feature_step(crop_w: int, crop_h: int) -> int {
    max_int(min_int(crop_w, crop_h) / 24, 4)
}

/// Side of a feature-grid cell for a `crop_w` x `crop_h` crop: the shorter side
/// divided by 24 (rounded down), at least 4. For sides below 2^24 this equals
/// the single-precision quotient truncated to an integer.
pub fn feature_step(crop_w: usize, crop_h: usize) -> (r: usize)
    ensures
        r == spec_feature_step(crop_w as int, crop_h as int),
        r >= 4,
{
    let m = if crop_w <= crop_h { crop_w } else { crop_h };
    let q = m / 24;
    if q >= 4 { q } else { 4 }
}

/// Number of grid cells needed to cover `len` pixels with cells of side `step`.
pub open spec fn cells_for(len: int, step: int) -> int {
    (len + step - 1) / step
}

/// Columns and rows of the feature grid over a `crop_w` x `crop_h` crop.
pub fn grid_dims(crop_w: usize, crop_h: usize, step: usize) -> (r: (usize, usize))
    requires
        step > 0,
        crop_w + step <= usize::MAX,
        crop_h + step <= usize::MAX,
    ensures
        r.0 == cells_for(crop_w as int, step as int),
        r.1 == cells_for(crop_h as int, step as int),
        r.0 * step >= crop_w,
        r.1 * step >= crop_h,
{
    let cols = (crop_w + step - 1) / step;
    let rows = (crop_h + step - 1) / step;
    proof {
        lemma_cells_cover(crop_w as int, step as int);
        lemma_cells_cover(crop_h as int, step as int);
    }
    (cols, rows)
}

proof fn lemma_cells_cover(len: int, step: int)
    requires
        0 <= len,
        0 < step,
    ensures
        cells_for(len, step) * step >= len,
{
    let n = len + step - 1;
    vstd::arithmetic::div_mod::lemma_fundamental_div_mod(n, step);
    assert(n == step * (n / step) + n % step);
    assert(n % step < step) by {
        vstd::arithmetic::div_mod::lemma_mod_pos_bound(n, step);
    }
    assert(cells_for(len, step) * step == step * (n / step)) by {
        vstd::arithmetic::mul::lemma_mul_is_commutative(cells_for(len, step), step);
    }
}

/// Side of the source square sampled for one grid patch: the shorter crop side,
/// at least 32.
pub open spec fn spec_sample_side(max_w: int, max_h: int) -> int {
    max_int(min_int(max_w, max_h), 32)
}

/// Side of the source square sampled for one grid patch.
pub fn sample_side(max_w: usize, max_h: usize) -> (r: usize)
    ensures
        r == spec_sample_side(max_w as int, max_h as int),
        r >= 32,
{
    let m = if max_w <= max_h { max_w } else { max_h };
    if m >= 32 { m } else { 32 }
}

/// Crop coordinate sampled for output offset `d` of a patch of side
/// `patch_size` that starts at `start` and covers `src_side` source pixels.
pub open spec fn spec_sample_coord(start: int, d: int, src_side: int, patch_size: int, max: int) -> int {
    let idx = min_int(d * src_side / patch_size, sat_sub(src_side, 1));
    min_int(start + idx, sat_sub(max, 1))
}

/// Crop coordinate sampled for output offset `d`: the source offset is scaled
/// by `src_side / patch_size` (rounded down, at most `src_side - 1`) and the
/// result is clamped to the last crop pixel.
pub fn sample_coord(start: usize, d: usize, src_side: usize, patch_size: usize, max: usize) -> (r: usize)
    requires
        patch_size > 0,
        d * src_side <= usize::MAX,
        start + sat_sub(src_side as int, 1) <= usize::MAX,
    ensures
        r == spec_sample_coord(start as int, d as int, src_side as int, patch_size as int, max as int),
{
    let scaled = d * src_side / patch_size;
    let last = src_side.saturating_sub(1);
    let idx = if scaled <= last { scaled } else { last };
    let abs = start + idx;
    let lim = max.saturating_sub(1);
    if abs <= lim { abs } else { lim }
}

/// Every action keeps a box that lies in the image inside it (in the sense of
/// `box_in_image`), and the addresses it computes fit in `u32` for supported
/// image sizes. The whole-image box is such a box.
pub proof fn lemma_apply_action_keeps_box_in_image(b: BoundingBox, action: u32, img_w: u32, img_h: u32)
    requires
        box_in_image(b, img_w, img_h),
        image_supported(img_w, img_h),
    ensures
        action_fits(b, action),
        box_in_image(spec_apply_action(b, action, img_w, img_h), img_w, img_h),
{
    let (x, y, w, h) = (b.x as int, b.y as int, b.width as int, b.height as int);
    lemma_zoom_step_bounded(w, img_w as int);
    lemma_zoom_step_bounded(h, img_h as int);
    lemma_axis_step(x, w, img_w as int);
    lemma_axis_step(y, h, img_h as int);
    let r = spec_apply_action(b, action, img_w, img_h);
    let m = moved_box(b, action, img_w, img_h);
    if action == 0 {
        assert(m == (sat_sub(x, move_step(w)), y, w, h));
    } else if action == 1 {
        assert(m == (min_int(x + move_step(w), sat_sub(sat_sub(img_w as int, 1), w)), y, w, h));
    } else if action == 2 {
        assert(m == (x, sat_sub(y, move_step(h)), w, h));
    } else if action == 3 {
        assert(m == (x, min_int(y + move_step(h), sat_sub(sat_sub(img_h as int, 1), h)), w, h));
    } else if action == 4 {
        assert(m == (x + zoom_step(w) / 2, y + zoom_step(h) / 2, w - zoom_step(w), h - zoom_step(h)));
    } else if action == 5 {
    } else {
        assert(m == (x, y, w, h));
    }
}

proof fn lemma_zoom_step_bounded(len: int, limit: int)
    requires
        0 <= len,
        0 <= limit,
        len <= limit || len <= MIN_BOX_SIDE,
    ensures
        0 <= zoom_step(len) <= len,
        zoom_step(len) <= zoom_step(limit) || zoom_step(len) <= zoom_step(MIN_BOX_SIDE as int),
{
    assert(0 <= zoom_step(len) <= len) by {
        assert(0 <= 2 * len);
    }
    if len <= limit {
        assert(2 * len <= 2 * limit);
        vstd::arithmetic::div_mod::lemma_div_is_ordered(2 * len, 2 * limit, 25);
    } else {
        vstd::arithmetic::div_mod::lemma_div_is_ordered(2 * len, 2 * MIN_BOX_SIDE as int, 25);
    }
}

/// The trigger, and any number past the six moves, leaves a box whose sides
/// are at least 20 unchanged; smaller sides are raised to 20.
pub proof fn lemma_trigger_keeps_box(b: BoundingBox, action: u32, img_w: u32, img_h: u32)
    requires
        action >= 6,
    ensures
        spec_apply_action(b, action, img_w, img_h) == (BoundingBox {
            width: max_int(b.width as int, MIN_BOX_SIDE as int) as u32,
            height: max_int(b.height as int, MIN_BOX_SIDE as int) as u32,
            ..b
        }),
        b.width >= MIN_BOX_SIDE && b.height >= MIN_BOX_SIDE ==> spec_apply_action(b, action, img_w, img_h) == b,
{
}

/// The whole-image box lies in the image.
pub proof fn lemma_full_box_in_image(img_w: u32, img_h: u32)
    ensures
        box_in_image(full_box(img_w, img_h), img_w, img_h),
{
}

/// What each action does, with the arithmetic written out: a move shifts the
/// box by a tenth of its side (rounded down) towards the image border, stopping
/// at 0 on the left and top and at `image side - 1 - box side` on the right and
/// bottom; zoom in shrinks each side by 2/25 of it (rounded down) and moves the
/// corner by half of that; zoom out grows each side by 2/25 up to the image
/// side and moves the corner back by half of the growth, within the image;
/// any other action changes nothing. Afterwards each side is at least 20.
pub proof fn lemma_action_effects(b: BoundingBox, img_w: u32, img_h: u32)
    ensures
        ({
            let (x, y, w, h) = (b.x as int, b.y as int, b.width as int, b.height as int);
            let (iw, ih) = (img_w as int, img_h as int);
            let fw: int = if w >= 20 { w } else { 20 };
            let fh: int = if h >= 20 { h } else { 20 };
            let (mw, mh) = (w / 10, h / 10);
            let (zw, zh) = ((2 * w) / 25, (2 * h) / 25);
            let lim_x: int = if iw >= w + 1 { iw - 1 - w } else { 0 };
            let lim_y: int = if ih >= h + 1 { ih - 1 - h } else { 0 };
            let nw: int = if w + zw <= iw { w + zw } else { iw };
            let nh: int = if h + zh <= ih { h + zh } else { ih };
            let gx: int = if x >= zw / 2 { x - zw / 2 } else { 0 };
            let gy: int = if y >= zh / 2 { y - zh / 2 } else { 0 };
            let left = spec_apply_action(b, 0, img_w, img_h);
            let right = spec_apply_action(b, 1, img_w, img_h);
            let up = spec_apply_action(b, 2, img_w, img_h);
            let down = spec_apply_action(b, 3, img_w, img_h);
            let zin = spec_apply_action(b, 4, img_w, img_h);
            let zout = spec_apply_action(b, 5, img_w, img_h);
            &&& left.x == (if x >= mw { x - mw } else { 0 }) && left.y == y && left.width == fw && left.height == fh
            &&& right.x == (if x + mw <= lim_x { x + mw } else { lim_x }) && right.y == y
                && right.width == fw && right.height == fh
            &&& up.y == (if y >= mh { y - mh } else { 0 }) && up.x == x && up.width == fw && up.height == fh
            &&& down.y == (if y + mh <= lim_y { y + mh } else { lim_y }) && down.x == x
                && down.width == fw && down.height == fh
            &&& (x + zw / 2 <= u32::MAX && y + zh / 2 <= u32::MAX) ==> zin.x == x + zw / 2 && zin.y == y + zh / 2
                && zin.width == (if w - zw >= 20 { w - zw } else { 20 })
                && zin.height == (if h - zh >= 20 { h - zh } else { 20 })
            &&& zout.width == (if nw >= 20 { nw } else { 20 }) && zout.height == (if nh >= 20 { nh } else { 20 })
            &&& zout.x == (if gx <= iw - nw { gx } else { iw - nw })
            &&& zout.y == (if gy <= ih - nh { gy } else { ih - nh })
            &&& forall|a: u32| a >= 6 ==> #[trigger] spec_apply_action(b, a, img_w, img_h)
                == (BoundingBox { width: fw as u32, height: fh as u32, ..b })
        }),
{
}

/// Moving up or left never moves the box down or right, moves it by at most a
/// tenth of its side, and moves it whenever it is off the border and at least
/// 10 pixels along that side.
pub proof fn lemma_move_up_left_progress(b: BoundingBox, img_w: u32, img_h: u32)
    ensures
        spec_apply_action(b, 2, img_w, img_h).y <= b.y,
        spec_apply_action(b, 2, img_w, img_h).y + b.height / 10 >= b.y,
        b.y > 0 && b.height >= 10 ==> spec_apply_action(b, 2, img_w, img_h).y < b.y,
        spec_apply_action(b, 0, img_w, img_h).x <= b.x,
        spec_apply_action(b, 0, img_w, img_h).x + b.width / 10 >= b.x,
        b.x > 0 && b.width >= 10 ==> spec_apply_action(b, 0, img_w, img_h).x < b.x,
{
}

} // verus!
