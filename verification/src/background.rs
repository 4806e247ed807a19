//! Estimating the background colour of a crop from the pixels along its
//! border: the per-channel median of a border band.

use vstd::prelude::*;
use vstd::relations::{sorted_by, total_ordering};

verus! {

/// Width of the border band: a twentieth of the shorter side, clamped to 3..=10.
pub open spec fn spec_border_size(w: int, h: int) -> int {
    let m = if w <= h { w } else { h };
    let b = m / 20;
    if b < 3 { 3 } else if b > 10 { 10 } else { b }
}

/// Width of the border band of a `w` x `h` crop (see `spec_border_size`). For
/// sides below 2^50 this equals the double-precision product by 0.05
/// truncated to an integer.
pub fn border_size(w: usize, h: usize) -> (r: usize)
    ensures
        r == spec_border_size(w as int, h as int),
{
    let m = if w <= h { w } else { h };
    let b = m / 20;
    if b < 3 { 3 } else if b > 10 { 10 } else { b }
}

/// Coordinates of border sample `j`: first, for each column, the top band
/// then the bottom band; then, for each row, the left band then the right
/// band. Pixels in two bands are sampled twice.
pub open spec fn sample_xy(w: int, h: int, bs: int, j: int) -> (int, int) {
    let per = 2 * bs;
    if j < per * w {
        let k = j % per;
        (j / per, if k < bs { k } else { h - bs + (k - bs) })
    } else {
        let j2 = j - per * w;
        let k = j2 % per;
        (if k < bs { k } else { w - bs + (k - bs) }, j2 / per)
    }
}

/// Number of border samples.
pub open spec fn sample_count(w: int, h: int, bs: int) -> int {
    2 * bs * w + 2 * bs * h
}

/// Channel `c` of the border samples of a `w` x `h` RGBA crop.
pub open spec fn border_samples(data: Seq<u8>, w: int, h: int, c: int) -> Seq<u8> {
    let bs = spec_border_size(w, h);
    Seq::new(
        sample_count(w, h, bs) as nat,
        |j: int| {
            let (x, y) = sample_xy(w, h, bs, j);
            data[4 * (y * w + x) + c]
        },
    )
}

pub open spec fn byte_leq() -> spec_fn(u8, u8) -> bool {
    |a: u8, b: u8| a <= b
}

/// The median of a non-empty list of bytes: the middle of the sorted list,
/// or the mean (rounded down) of the two middle values for an even count.
pub open spec fn median(v: Seq<u8>) -> u8 {
    let s = v.sort_by(byte_leq());
    let n = s.len() as int;
    if n % 2 == 0 {
        ((s[n / 2 - 1] as int + s[n / 2] as int) / 2) as u8
    } else {
        s[n / 2]
    }
}

/// The estimated background colour: per channel, the median of the border
/// samples; white when there is no pixel.
pub open spec fn spec_background_color(data: Seq<u8>, w: int, h: int) -> (u8, u8, u8) {
    if sample_count(w, h, spec_border_size(w, h)) == 0 {
        (255, 255, 255)
    } else {
        (
            median(border_samples(data, w, h, 0)),
            median(border_samples(data, w, h, 1)),
            median(border_samples(data, w, h, 2)),
        )
    }
}

/// `<[u8]>::sort` on the vector's contents: afterwards they are sorted
/// ascending and hold the same values as before.
#[verifier::external_body]
fn sort_bytes(v: &mut Vec<u8>)
    ensures
        sorted_by(final(v)@, byte_leq()),
        final(v)@.to_multiset() == old(v)@.to_multiset(),
{
    v.sort();
}

proof fn lemma_byte_leq_total()
    ensures
        total_ordering(byte_leq()),
{
}

/// The median of a list of bytes.
fn median_of(v: Vec<u8>) -> (r: u8)
    requires
        v@.len() > 0,
    ensures
        r == median(v@),
{
    let ghost orig = v@;
    let mut s = v;
    sort_bytes(&mut s);
    proof {
        lemma_byte_leq_total();
        orig.lemma_sort_by_ensures(byte_leq());
        vstd::seq_lib::lemma_sorted_unique(s@, orig.sort_by(byte_leq()), byte_leq());
        vstd::seq_lib::to_multiset_len(s@);
        vstd::seq_lib::to_multiset_len(orig);
    }
    let n = s.len();
    if n % 2 == 0 {
        ((s[n / 2 - 1] as u16 + s[n / 2] as u16) / 2) as u8
    } else {
        s[n / 2]
    }
}

proof fn lemma_sample_in_image(w: int, h: int, bs: int, j: int)
    requires
        0 <= j < sample_count(w, h, bs),
        3 <= bs <= w,
        bs <= h,
    ensures
        ({
            let (x, y) = sample_xy(w, h, bs, j);
            0 <= x < w && 0 <= y < h && 0 <= y * w + x < w * h
        }),
{
    let per = 2 * bs;
    let (x, y) = sample_xy(w, h, bs, j);
    if j < per * w {
        vstd::arithmetic::div_mod::lemma_fundamental_div_mod(j, per);
        vstd::arithmetic::div_mod::lemma_mod_pos_bound(j, per);
        vstd::arithmetic::div_mod::lemma_div_pos_is_pos(j, per);
        vstd::arithmetic::div_mod::lemma_div_is_ordered(j, per * w - 1, per);
        assert(per * w - 1 == per * (w - 1) + (per - 1)) by (nonlinear_arith);
        vstd::arithmetic::div_mod::lemma_fundamental_div_mod_converse(per * w - 1, per, w - 1, per - 1);
    } else {
        let j2 = j - per * w;
        assert(j2 < per * h) by (nonlinear_arith)
            requires j2 == j - per * w, j < 2 * bs * w + 2 * bs * h, per == 2 * bs;
        vstd::arithmetic::div_mod::lemma_fundamental_div_mod(j2, per);
        vstd::arithmetic::div_mod::lemma_mod_pos_bound(j2, per);
        vstd::arithmetic::div_mod::lemma_div_pos_is_pos(j2, per);
        vstd::arithmetic::div_mod::lemma_div_is_ordered(j2, per * h - 1, per);
        assert(per * h - 1 == per * (h - 1) + (per - 1)) by (nonlinear_arith);
        vstd::arithmetic::div_mod::lemma_fundamental_div_mod_converse(per * h - 1, per, h - 1, per - 1);
    }
    assert(0 <= y * w + x < w * h) by (nonlinear_arith)
        requires 0 <= x < w, 0 <= y < h;
}

/// Estimates the background colour of a `w` x `h` RGBA crop as the
/// per-channel median of a border band (see `spec_background_color`). A crop
/// with pixels must be at least 3 pixels on each side.
pub fn estimate_background_color(data: &[u8], w: usize, h: usize) -> (r: (u8, u8, u8))
    requires
        data@.len() == 4 * w * h,
        (w == 0 && h == 0) || (w >= 3 && h >= 3),
        4 * w * h <= usize::MAX,
    ensures
        r == spec_background_color(data@, w as int, h as int),
{
    let bs = border_size(w, h);
    if w == 0 {
        assert(sample_count(w as int, h as int, bs as int) == 0) by (nonlinear_arith)
            requires w == 0, h == 0;
        return (255, 255, 255);
    }
    proof {
        assert(bs <= w && bs <= h);
        assert(2 * bs * w + 2 * bs * h <= 4 * w * h) by (nonlinear_arith)
            requires bs <= w, bs <= h, 0 <= w, 0 <= h, 0 <= bs;
        assert(4 * w * h == 4 * (w * h)) by (nonlinear_arith);
        assert(2 * bs * w + 2 * bs * h > 0) by (nonlinear_arith)
            requires bs >= 3, w >= 3, h >= 0;
    }
    let per = 2 * bs;
    let top = per * w;
    let n = top + per * h;
    let mut rv: Vec<u8> = Vec::new();
    let mut gv: Vec<u8> = Vec::new();
    let mut bv: Vec<u8> = Vec::new();
    let mut j: usize = 0;
    while j < n
        invariant
            data@.len() == 4 * w * h,
            4 * w * h <= usize::MAX,
            4 * w * h == 4 * (w * h),
            w >= 3 && h >= 3,
            bs == spec_border_size(w as int, h as int),
            3 <= bs <= w && bs <= h,
            per == 2 * bs,
            top == per * w,
            n == sample_count(w as int, h as int, bs as int),
            j <= n,
            n > 0,
            rv@.len() == j && gv@.len() == j && bv@.len() == j,
            forall|i: int| 0 <= i < j ==> #[trigger] rv@[i] == border_samples(data@, w as int, h as int, 0)[i],
            forall|i: int| 0 <= i < j ==> #[trigger] gv@[i] == border_samples(data@, w as int, h as int, 1)[i],
            forall|i: int| 0 <= i < j ==> #[trigger] bv@[i] == border_samples(data@, w as int, h as int, 2)[i],
        decreases n - j,
    {
        proof {
            lemma_sample_in_image(w as int, h as int, bs as int, j as int);
        }
        let (x, y) = if j < top {
            let k = j % per;
            (j / per, if k < bs { k } else { h - bs + (k - bs) })
        } else {
            let j2 = j - top;
            let k = j2 % per;
            (if k < bs { k } else { w - bs + (k - bs) }, j2 / per)
        };
        proof {
            assert((x as int, y as int) == sample_xy(w as int, h as int, bs as int, j as int));
            assert(4 * (y * w + x) + 3 <= 4 * (w * h)) by (nonlinear_arith)
                requires 0 <= y * w + x < w * h;
        }
        let base = 4 * (y * w + x);
        rv.push(data[base]);
        gv.push(data[base + 1]);
        bv.push(data[base + 2]);
        j = j + 1;
    }
    proof {
        assert(rv@ =~= border_samples(data@, w as int, h as int, 0));
        assert(gv@ =~= border_samples(data@, w as int, h as int, 1));
        assert(bv@ =~= border_samples(data@, w as int, h as int, 2));
    }
    (median_of(rv), median_of(gv), median_of(bv))
}

/// Red, green and blue of pixel `p` of a raw RGBA image.
pub open spec fn rgb_at(data: Seq<u8>, p: int) -> (u8, u8, u8) {
    (data[4 * p], data[4 * p + 1], data[4 * p + 2])
}

proof fn lemma_median_constant(v: Seq<u8>, c: u8)
    requires
        v.len() > 0,
        forall|i: int| 0 <= i < v.len() ==> v[i] == c,
    ensures
        median(v) == c,
{
    lemma_byte_leq_total();
    v.lemma_sort_by_ensures(byte_leq());
    let s = v.sort_by(byte_leq());
    vstd::seq_lib::to_multiset_len(s);
    vstd::seq_lib::to_multiset_len(v);
    assert forall|k: int| 0 <= k < s.len() implies s[k] == c by {
        assert(s.contains(s[k]));
        if !v.contains(s[k]) {
            assert(!s.contains(s[k]));
        }
    }
    let n = s.len() as int;
    if n % 2 == 0 {
        assert(s[n / 2 - 1] == c && s[n / 2] == c);
    } else {
        assert(s[n / 2] == c);
    }
}

/// A crop of a single colour (at least 3 pixels on each side) has that
/// colour as its estimated background.
pub proof fn lemma_uniform_crop_background(data: Seq<u8>, w: int, h: int, c: (u8, u8, u8))
    requires
        w >= 3,
        h >= 3,
        data.len() == 4 * w * h,
        forall|p: int| 0 <= p < w * h ==> #[trigger] rgb_at(data, p) == c,
    ensures
        spec_background_color(data, w, h) == c,
{
    let bs = spec_border_size(w, h);
    assert(sample_count(w, h, bs) > 0) by (nonlinear_arith)
        requires bs >= 3, w >= 3, h >= 3;
    assert(4 * w * h == 4 * (w * h)) by (nonlinear_arith);
    let n = sample_count(w, h, bs);
    assert forall|j: int| 0 <= j < n implies
        #[trigger] border_samples(data, w, h, 0)[j] == c.0
        && border_samples(data, w, h, 1)[j] == c.1
        && border_samples(data, w, h, 2)[j] == c.2 by {
        lemma_sample_in_image(w, h, bs, j);
        let (x, y) = sample_xy(w, h, bs, j);
        assert(rgb_at(data, y * w + x) == c);
    }
    lemma_median_constant(border_samples(data, w, h, 0), c.0);
    assert forall|j: int| 0 <= j < n implies #[trigger] border_samples(data, w, h, 1)[j] == c.1 by {
        assert(border_samples(data, w, h, 0)[j] == c.0);
    }
    lemma_median_constant(border_samples(data, w, h, 1), c.1);
    assert forall|j: int| 0 <= j < n implies #[trigger] border_samples(data, w, h, 2)[j] == c.2 by {
        assert(border_samples(data, w, h, 0)[j] == c.0);
    }
    lemma_median_constant(border_samples(data, w, h, 2), c.2);
}

/// Byte `c` of pixel (`x`, `y`) of a `w`-wide raw RGBA image.
pub open spec fn pixel_channel(data: Seq<u8>, w: int, x: int, y: int, c: int) -> u8 {
    data[4 * (y * w + x) + c]
}

/// The `2 * bs` samples of column `x`: its pixels in the top band (rows
/// `0..bs`), then its pixels in the bottom band (rows `h - bs..h`).
pub open spec fn column_samples_are_bands(data: Seq<u8>, w: int, h: int, c: int, x: int, t: int) -> bool {
    let bs = spec_border_size(w, h);
    let s = border_samples(data, w, h, c);
    &&& s[x * (2 * bs) + t] == pixel_channel(data, w, x, t, c)
    &&& s[x * (2 * bs) + bs + t] == pixel_channel(data, w, x, h - bs + t, c)
}

/// The `2 * bs` samples of row `y`, after all column samples: its pixels in
/// the left band (columns `0..bs`), then in the right band (`w - bs..w`).
pub open spec fn row_samples_are_bands(data: Seq<u8>, w: int, h: int, c: int, y: int, t: int) -> bool {
    let bs = spec_border_size(w, h);
    let s = border_samples(data, w, h, c);
    &&& s[2 * bs * w + y * (2 * bs) + t] == pixel_channel(data, w, t, y, c)
    &&& s[2 * bs * w + y * (2 * bs) + bs + t] == pixel_channel(data, w, w - bs + t, y, c)
}

/// The border samples of a crop (at least 3 pixels on each side) are, for
/// each column, its top-band then its bottom-band pixels, followed, for each
/// row, by its left-band then its right-band pixels; there are
/// `2 * bs * (w + h)` of them.
pub proof fn lemma_border_samples_are_bands(data: Seq<u8>, w: int, h: int, c: int)
    requires
        w >= 3,
        h >= 3,
    ensures
        border_samples(data, w, h, c).len() == 2 * spec_border_size(w, h) * w + 2 * spec_border_size(w, h) * h,
        forall|x: int, t: int| 0 <= x < w && 0 <= t < spec_border_size(w, h) ==>
            #[trigger] column_samples_are_bands(data, w, h, c, x, t),
        forall|y: int, t: int| 0 <= y < h && 0 <= t < spec_border_size(w, h) ==>
            #[trigger] row_samples_are_bands(data, w, h, c, y, t),
{
    let bs = spec_border_size(w, h);
    let per = 2 * bs;
    assert(3 <= bs <= w && bs <= h);
    assert forall|x: int, t: int| 0 <= x < w && 0 <= t < bs implies
        #[trigger] column_samples_are_bands(data, w, h, c, x, t) by {
        let j1 = x * per + t;
        let j2 = x * per + bs + t;
        vstd::arithmetic::div_mod::lemma_fundamental_div_mod_converse(j1, per, x, t);
        vstd::arithmetic::div_mod::lemma_fundamental_div_mod_converse(j2, per, x, bs + t);
        assert((x + 1) * per <= w * per) by (nonlinear_arith)
            requires x + 1 <= w, 0 <= per;
        assert((x + 1) * per == x * per + per) by (nonlinear_arith);
        assert(w * per == per * w) by (nonlinear_arith);
        assert(0 <= j1) by (nonlinear_arith)
            requires j1 == x * per + t, 0 <= x, 0 <= t, 0 <= per;
        assert(per * w <= sample_count(w, h, bs)) by (nonlinear_arith)
            requires per == 2 * bs, 0 <= bs, 0 <= h;
    }
    assert forall|y: int, t: int| 0 <= y < h && 0 <= t < bs implies
        #[trigger] row_samples_are_bands(data, w, h, c, y, t) by {
        let base = per * w;
        let k1 = y * per + t;
        let k2 = y * per + bs + t;
        vstd::arithmetic::div_mod::lemma_fundamental_div_mod_converse(k1, per, y, t);
        vstd::arithmetic::div_mod::lemma_fundamental_div_mod_converse(k2, per, y, bs + t);
        assert((y + 1) * per <= h * per) by (nonlinear_arith)
            requires y + 1 <= h, 0 <= per;
        assert((y + 1) * per == y * per + per) by (nonlinear_arith);
        assert(h * per == per * h) by (nonlinear_arith);
        assert(0 <= k1) by (nonlinear_arith)
            requires k1 == y * per + t, 0 <= y, 0 <= t, 0 <= per;
        assert(2 * bs * w == base);
        assert((base + k1) - per * w == k1);
        assert((base + k2) - per * w == k2);
    }
}

} // verus!
