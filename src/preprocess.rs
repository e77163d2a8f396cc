use vstd::arithmetic::div_mod::{lemma_fundamental_div_mod, lemma_fundamental_div_mod_converse};
use vstd::prelude::*;

use crate::arith::{
    lemma_bilinear_terms, lemma_div_below, lemma_flat_index_bound, lemma_mul_abs_bound,
    lemma_mul_le_mono, lemma_scaled_below, lemma_square_unique,
};
use crate::image::{array_fits, image_data, image_shape, Image};

verus! {

/// Bounding box in image pixels: top-left corner and size.
#[derive(Debug, Clone, Copy)]
pub struct BBox {
    pub x: i32,
    pub y: i32,
    pub width: i32,
    pub height: i32,
}

/// Rust's `/` on integers rounds toward zero.
pub open spec fn div_trunc(a: int, b: int) -> int
    recommends
        b > 0,
{
    if a >= 0 {
        a / b
    } else {
        -((-a) / b)
    }
}

impl Default for BBox {
    fn default() -> (r: Self)
        ensures
            r.x == 0 && r.y == 0 && r.width == 0 && r.height == 0,
    {
        BBox { x: 0, y: 0, width: 0, height: 0 }
    }
}

impl BBox {
    pub fn new(x: i32, y: i32, width: i32, height: i32) -> (r: Self)
        ensures
            r.x == x && r.y == y && r.width == width && r.height == height,
    {
        BBox { x, y, width, height }
    }

    pub open spec fn area_spec(&self) -> int {
        self.width * self.height
    }

    /// The sequence `[x, y, width, height]`.
    pub open spec fn as_seq(&self) -> Seq<i32> {
        seq![self.x, self.y, self.width, self.height]
    }

    /// `width * height`, exact.
    pub fn area(&self) -> (r: i64)
        ensures
            r == self.area_spec(),
    {
        proof {
            lemma_mul_abs_bound(self.width as int, self.height as int, 0x8000_0000);
        }
        (self.width as i64) * (self.height as i64)
    }

    pub fn to_array(&self) -> (r: [i32; 4])
        ensures
            r@ == self.as_seq(),
    {
        let r = [self.x, self.y, self.width, self.height];
        assert(r@ =~= self.as_seq());
        r
    }

    pub fn from_array(arr: &[i32; 4]) -> (r: Self)
        ensures
            r.as_seq() == arr@,
    {
        let r = BBox { x: arr[0], y: arr[1], width: arr[2], height: arr[3] };
        assert(r.as_seq() =~= arr@);
        r
    }

    /// The center, with the half sizes rounded toward zero.
    pub fn center(&self) -> (r: (i32, i32))
        requires
            i32::MIN <= self.x + div_trunc(self.width as int, 2) <= i32::MAX,
            i32::MIN <= self.y + div_trunc(self.height as int, 2) <= i32::MAX,
        ensures
            r.0 == self.x + div_trunc(self.width as int, 2),
            r.1 == self.y + div_trunc(self.height as int, 2),
    {
        (self.x + self.width / 2, self.y + self.height / 2)
    }
}

/// `c` is the least natural number whose square reaches `t`.
pub open spec fn is_ceil_sqrt(c: int, t: int) -> bool {
    c >= 1 && (c - 1) * (c - 1) < t <= c * c
}

/// Side of the square crop for a box of area `area` and scale `factor`:
/// `ceil(sqrt(area) * factor)`, that is the ceiling of the square root of
/// `area * factor * factor`. A box without positive area gives 0, and the side
/// saturates at `i32::MAX`.
pub open spec fn crop_size_spec(area: int, factor: int) -> int {
    let t = area * factor * factor;
    if t <= 0 {
        0
    } else if t > i32::MAX * i32::MAX {
        i32::MAX as int
    } else {
        choose|c: int| #[trigger] is_ceil_sqrt(c, t)
    }
}

/// Side of the square crop taken around `bbox` with scale `factor`.
pub fn crop_size(bbox: &BBox, factor: u32) -> (r: i32)
    ensures
        r == crop_size_spec(bbox.area_spec(), factor as int),
        r >= 0,
{
    let area: i64 = bbox.area();
    if area <= 0 {
        proof {
            assert(area * factor * factor <= 0) by (nonlinear_arith)
                requires
                    area <= 0,
            ;
        }
        return 0;
    }
    proof {
        lemma_mul_le_mono(factor as int, 0x1_0000_0000, factor as int, 0x1_0000_0000);
        lemma_mul_le_mono(
            area as int,
            0x8000_0000_0000_0000,
            factor * factor,
            0x1_0000_0000_0000_0000,
        );
    }
    let ff: u128 = (factor as u128) * (factor as u128);
    let t: u128 = (area as u128) * ff;
    let max: u128 = i32::MAX as u128;
    assert(t == area * factor * factor) by (nonlinear_arith)
        requires
            t == area * ff,
            ff == factor * factor,
    ;
    if t == 0 {
        return 0;
    }
    if t > max * max {
        return i32::MAX;
    }
    let mut lo: u128 = 0;
    let mut hi: u128 = max;
    while lo < hi
        invariant
            max == 0x7fff_ffff,
            0 < t <= max * max,
            0 <= lo <= hi <= max,
            t <= hi * hi,
            lo == 0 || (lo - 1) * (lo - 1) < t,
        decreases hi - lo,
    {
        let mid: u128 = lo + (hi - lo) / 2;
        proof {
            lemma_mul_le_mono(mid as int, max as int, mid as int, max as int);
        }
        if mid * mid >= t {
            hi = mid;
        } else {
            lo = mid + 1;
        }
    }
    proof {
        assert(lo >= 1) by (nonlinear_arith)
            requires
                t <= lo * lo,
                t > 0,
                lo >= 0,
        ;
        assert(is_ceil_sqrt(lo as int, t as int));
        let c = choose|c: int| #[trigger] is_ceil_sqrt(c, t as int);
        lemma_square_unique(c, lo as int, t as int);
    }
    lo as i32
}

/// Top-left corner of the crop of side `crop` centered on `bbox`.
pub open spec fn crop_origin_spec(bbox: BBox, crop: int) -> (int, int) {
    (
        bbox.x + div_trunc(bbox.width - crop, 2),
        bbox.y + div_trunc(bbox.height - crop, 2),
    )
}

/// Top-left corner, in image coordinates, of the square crop of side `crop`
/// centered on `bbox`.
pub fn crop_origin(bbox: &BBox, crop: i32) -> (r: (i64, i64))
    requires
        crop >= 0,
    ensures
        (r.0 as int, r.1 as int) == crop_origin_spec(*bbox, crop as int),
{
    let x0: i64 = bbox.x as i64 + (bbox.width as i64 - crop as i64) / 2;
    let y0: i64 = bbox.y as i64 + (bbox.height as i64 - crop as i64) / 2;
    (x0, y0)
}

/// Channel `ch` of the pixel at row `r`, column `c` of the square crop whose
/// top-left corner lies at `(x1, y1)` in `img`: the image's pixel where the
/// crop lies over the image, black outside it.
pub open spec fn padded_at(img: Image, x1: int, y1: int, r: int, c: int, ch: int) -> int {
    let iy = y1 + r;
    let ix = x1 + c;
    if 0 <= iy < img.height() && 0 <= ix < img.width() {
        img.at(iy, ix, ch)
    } else {
        0
    }
}

/// The crop of side `crop` at `(x1, y1)`, laid out as an image.
pub open spec fn padded_crop(img: Image, x1: int, y1: int, crop: int) -> Seq<u8> {
    Seq::new(
        (crop * crop * 3) as nat,
        |i: int| padded_at(img, x1, y1, (i / 3) / crop, (i / 3) % crop, i % 3) as u8,
    )
}

/// One channel of one pixel of the padded crop.
fn padded_pixel(
    img: &Image,
    height: usize,
    width: usize,
    x1: i64,
    y1: i64,
    r: usize,
    c: usize,
    ch: usize,
) -> (v: u8)
    requires
        img.wf(),
        image_shape(*img) == (height, width),
        ch < 3,
        r <= i32::MAX,
        c <= i32::MAX,
        -0x1_0000_0000 <= x1 <= 0x1_0000_0000,
        -0x1_0000_0000 <= y1 <= 0x1_0000_0000,
    ensures
        v == padded_at(*img, x1 as int, y1 as int, r as int, c as int, ch as int),
{
    let iy: i64 = y1 + r as i64;
    let ix: i64 = x1 + c as i64;
    if iy >= 0 && ix >= 0 && (iy as u64) < (height as u64) && (ix as u64) < (width as u64) {
        img.get(iy as usize, ix as usize, ch)
    } else {
        0
    }
}

/// The square crop of side `crop` whose top-left corner lies at `(x1, y1)`,
/// zero-filled where it leaves the image.
fn pad_crop(img: &Image, x1: i64, y1: i64, crop: usize) -> (v: Image)
    requires
        img.wf(),
        crop <= i32::MAX,
        array_fits(crop as int, crop as int),
        -0x1_0000_0000 <= x1 <= 0x1_0000_0000,
        -0x1_0000_0000 <= y1 <= 0x1_0000_0000,
    ensures
        v.wf(),
        image_shape(v) == (crop, crop),
        image_data(v) == padded_crop(*img, x1 as int, y1 as int, crop as int),
{
    let (height, width) = img.dim();
    let n: usize = crop * crop;
    let mut v: Image = Image::zeros(crop, crop);
    let mut p: usize = 0;
    while p < n
        invariant
            img.wf(),
            image_shape(*img) == (height, width),
            n == crop * crop,
            crop <= i32::MAX,
            p <= n,
            -0x1_0000_0000 <= x1 <= 0x1_0000_0000,
            -0x1_0000_0000 <= y1 <= 0x1_0000_0000,
            image_shape(v) == (crop, crop),
            array_fits(crop as int, crop as int),
            image_data(v).len() == n * 3,
            forall|i: int|
                0 <= i < p * 3 ==> image_data(v)[i] == padded_at(
                    *img,
                    x1 as int,
                    y1 as int,
                    (i / 3) / crop as int,
                    (i / 3) % crop as int,
                    i % 3,
                ) as u8,
        decreases n - p,
    {
        proof {
            if crop == 0 {
                assert(n == 0);
            }
            lemma_div_below(p as int, crop as int, crop as int);
            lemma_fundamental_div_mod(p as int, crop as int);
        }
        let r: usize = p / crop;
        let c: usize = p % crop;
        proof {
            lemma_flat_index_bound(r as int, c as int, 2, crop as int, crop as int);
            assert(r * crop + c == p) by (nonlinear_arith)
                requires
                    p == crop * r + c,
            ;
        }
        v.set(r, c, 0, padded_pixel(img, height, width, x1, y1, r, c, 0));
        v.set(r, c, 1, padded_pixel(img, height, width, x1, y1, r, c, 1));
        v.set(r, c, 2, padded_pixel(img, height, width, x1, y1, r, c, 2));
        p = p + 1;
    }
    assert(image_data(v) =~= padded_crop(*img, x1 as int, y1 as int, crop as int));
    v
}

/// Channel `ch` of the pixel at row `y`, column `x` of an image of width `w`
/// laid out in `s`.
pub open spec fn sample(s: Seq<u8>, w: int, y: int, x: int, ch: int) -> int {
    s[(y * w + x) * 3 + ch] as int
}

/// `v` rounded half up and held to the 8-bit range, for `v = num / den`.
pub open spec fn round_to_u8(num: int, den: int) -> int {
    let v = (2 * num + den) / (2 * den);
    if v > 255 {
        255
    } else {
        v
    }
}

/// Bilinear sample of channel `ch` at row `y`, column `x` of an image of
/// `old_h` by `old_w` pixels laid out in `s`, resized to `new_h` by `new_w`.
/// The source position is `(y * old_h / new_h, x * old_w / new_w)`, taken
/// exactly: its integer part picks the pixel, the remainders `ay / new_h` and
/// `ax / new_w` are the fractional weights, and the second row and column are
/// held to the last ones. An empty source gives black.
pub open spec fn bilinear_at(
    s: Seq<u8>,
    old_h: int,
    old_w: int,
    new_h: int,
    new_w: int,
    y: int,
    x: int,
    ch: int,
) -> int {
    if old_h == 0 || old_w == 0 {
        0
    } else {
        let y0 = (y * old_h) / new_h;
        let ay = (y * old_h) % new_h;
        let y1 = if y0 + 1 < old_h {
            y0 + 1
        } else {
            old_h - 1
        };
        let x0 = (x * old_w) / new_w;
        let ax = (x * old_w) % new_w;
        let x1 = if x0 + 1 < old_w {
            x0 + 1
        } else {
            old_w - 1
        };
        let num = sample(s, old_w, y0, x0, ch) * (new_w - ax) * (new_h - ay) + sample(
            s,
            old_w,
            y0,
            x1,
            ch,
        ) * ax * (new_h - ay) + sample(s, old_w, y1, x0, ch) * (new_w - ax) * ay + sample(
            s,
            old_w,
            y1,
            x1,
            ch,
        ) * ax * ay;
        round_to_u8(num, new_h * new_w)
    }
}

/// The image laid out in `s`, resized from `old_h` by `old_w` to `new_h` by
/// `new_w` pixels by bilinear interpolation.
pub open spec fn resized(s: Seq<u8>, old_h: int, old_w: int, new_h: int, new_w: int) -> Seq<u8> {
    Seq::new(
        (new_h * new_w * 3) as nat,
        |i: int| bilinear_at(s, old_h, old_w, new_h, new_w, (i / 3) / new_w, (i / 3) % new_w, i % 3) as u8,
    )
}

/// The four neighbours weighted by the remainders `ax` of `nw` and `ay` of
/// `nh`, rounded to the nearest 8-bit value.
fn interpolate(v00: u8, v01: u8, v10: u8, v11: u8, ax: u128, ay: u128, nw: u128, nh: u128) -> (r: u8)
    requires
        ax < nw,
        ay < nh,
        nh * nw <= 0xffff_ffff_ffff_ffff,
    ensures
        r == round_to_u8(
            v00 * (nw - ax) * (nh - ay) + v01 * ax * (nh - ay) + v10 * (nw - ax) * ay + v11 * ax
                * ay,
            nh * nw,
        ),
{
    proof {
        lemma_bilinear_terms(
            v00 as int,
            v01 as int,
            v10 as int,
            v11 as int,
            ax as int,
            ay as int,
            nw as int,
            nh as int,
        );
        assert(nw <= nh * nw) by (nonlinear_arith)
            requires
                nh >= 1,
        ;
    }
    let num: u128 = (v00 as u128) * (nw - ax) * (nh - ay) + (v01 as u128) * ax * (nh - ay) + (
    v10 as u128) * (nw - ax) * ay + (v11 as u128) * ax * ay;
    let den: u128 = nh * nw;
    let v: u128 = (2 * num + den) / (2 * den);
    if v > 255 {
        255
    } else {
        v as u8
    }
}

/// One output value of `resize_bilinear`.
fn bilinear_pixel(
    src: &Image,
    old_h: usize,
    old_w: usize,
    new_h: usize,
    new_w: usize,
    y: usize,
    x: usize,
    ch: usize,
) -> (r: u8)
    requires
        src.wf(),
        image_shape(*src) == (old_h, old_w),
        y < new_h,
        x < new_w,
        ch < 3,
        new_h * new_w * 3 <= isize::MAX,
    ensures
        r == bilinear_at(
            image_data(*src),
            old_h as int,
            old_w as int,
            new_h as int,
            new_w as int,
            y as int,
            x as int,
            ch as int,
        ),
{
    if old_h == 0 || old_w == 0 {
        return 0;
    }
    proof {
        lemma_scaled_below(y as int, new_h as int, old_h as int);
        lemma_scaled_below(x as int, new_w as int, old_w as int);
        lemma_mul_le_mono(old_h as int, 0xffff_ffff_ffff_ffff, new_h as int, 0xffff_ffff_ffff_ffff);
        lemma_mul_le_mono(old_w as int, 0xffff_ffff_ffff_ffff, new_w as int, 0xffff_ffff_ffff_ffff);
        lemma_div_below((y * old_h) as int, old_h as int, new_h as int);
        lemma_div_below((x * old_w) as int, old_w as int, new_w as int);
        lemma_mul_le_mono(new_h as int * new_w as int, new_h as int * new_w as int, 1, 3);
    }
    let sy: u128 = (y as u128) * (old_h as u128);
    let sx: u128 = (x as u128) * (old_w as u128);
    let y0: usize = (sy / (new_h as u128)) as usize;
    let ay: u128 = sy % (new_h as u128);
    let x0: usize = (sx / (new_w as u128)) as usize;
    let ax: u128 = sx % (new_w as u128);
    let y1: usize = if y0 + 1 < old_h {
        y0 + 1
    } else {
        old_h - 1
    };
    let x1: usize = if x0 + 1 < old_w {
        x0 + 1
    } else {
        old_w - 1
    };
    let v00: u8 = src.get(y0, x0, ch);
    let v01: u8 = src.get(y0, x1, ch);
    let v10: u8 = src.get(y1, x0, ch);
    let v11: u8 = src.get(y1, x1, ch);
    interpolate(v00, v01, v10, v11, ax, ay, new_w as u128, new_h as u128)
}

/// Resize `src` to `new_h` by `new_w` pixels by bilinear interpolation.
fn resize_bilinear(src: &Image, new_h: usize, new_w: usize) -> (v: Image)
    requires
        src.wf(),
        new_h > 0,
        new_w > 0,
        array_fits(new_h as int, new_w as int),
    ensures
        v.wf(),
        image_shape(v) == (new_h, new_w),
        image_data(v) == resized(
            image_data(*src),
            src.height(),
            src.width(),
            new_h as int,
            new_w as int,
        ),
{
    let (old_h, old_w) = src.dim();
    let n: usize = new_h * new_w;
    let mut v: Image = Image::zeros(new_h, new_w);
    let mut p: usize = 0;
    while p < n
        invariant
            src.wf(),
            image_shape(*src) == (old_h, old_w),
            new_h > 0,
            new_w > 0,
            n == new_h * new_w,
            n * 3 <= isize::MAX,
            p <= n,
            image_shape(v) == (new_h, new_w),
            array_fits(new_h as int, new_w as int),
            image_data(v).len() == n * 3,
            forall|i: int|
                0 <= i < p * 3 ==> image_data(v)[i] == resized(
                    image_data(*src),
                    old_h as int,
                    old_w as int,
                    new_h as int,
                    new_w as int,
                )[i],
        decreases n - p,
    {
        proof {
            lemma_div_below(p as int, new_h as int, new_w as int);
            lemma_fundamental_div_mod(p as int, new_w as int);
        }
        let y: usize = p / new_w;
        let x: usize = p % new_w;
        proof {
            lemma_flat_index_bound(y as int, x as int, 2, new_h as int, new_w as int);
            assert(y * new_w + x == p) by (nonlinear_arith)
                requires
                    p == new_w * y + x,
            ;
        }
        v.set(y, x, 0, bilinear_pixel(src, old_h, old_w, new_h, new_w, y, x, 0));
        v.set(y, x, 1, bilinear_pixel(src, old_h, old_w, new_h, new_w, y, x, 1));
        v.set(y, x, 2, bilinear_pixel(src, old_h, old_w, new_h, new_w, y, x, 2));
        p = p + 1;
    }
    assert(image_data(v) =~= resized(
        image_data(*src),
        old_h as int,
        old_w as int,
        new_h as int,
        new_w as int,
    ));
    v
}

/// The 8-bit model input of side `out`, for the crop of side `crop` centered
/// on `bbox`: the padded crop, resized.
pub open spec fn preprocessed(img: Image, bbox: BBox, crop: int, out: int) -> Seq<u8> {
    let origin = crop_origin_spec(bbox, crop);
    resized(padded_crop(img, origin.0, origin.1, crop), crop, crop, out, out)
}

/// The crop buffer for `bbox` and `factor` can be laid out in memory.
pub open spec fn crop_fits_spec(bbox: BBox, factor: int) -> bool {
    array_fits(crop_size_spec(bbox.area_spec(), factor), crop_size_spec(bbox.area_spec(), factor))
}

/// Whether the crop buffer for `bbox` and `factor` can be laid out in memory.
pub fn crop_fits(bbox: &BBox, factor: u32) -> (r: bool)
    ensures
        r == crop_fits_spec(*bbox, factor as int),
{
    let crop: u64 = crop_size(bbox, factor) as u64;
    let limit: u64 = (isize::MAX as u64) / 3;
    proof {
        lemma_mul_le_mono(crop as int, 0x7fff_ffff, crop as int, 0x7fff_ffff);
    }
    crop <= limit && crop * crop <= limit
}

/// Crop a square around `bbox` whose side is `ceil(sqrt(area) * factor)`,
/// black where it leaves the image, and resize it to `output_size` by
/// `output_size` pixels. Returns the resized crop and the crop's side in
/// image pixels.
pub fn crop_and_preprocess(image: &Image, bbox: &BBox, factor: u32, output_size: usize) -> (r: (
    Image,
    i32,
))
    requires
        image.wf(),
        output_size > 0,
        array_fits(output_size as int, output_size as int),
        crop_fits_spec(*bbox, factor as int),
    ensures
        r.1 == crop_size_spec(bbox.area_spec(), factor as int),
        r.0.wf(),
        image_shape(r.0) == (output_size, output_size),
        image_data(r.0) == preprocessed(*image, *bbox, r.1 as int, output_size as int),
        image_data(r.0).len() == output_size * output_size * 3,
{
    let crop: i32 = crop_size(bbox, factor);
    let (x1, y1) = crop_origin(bbox, crop);
    let side: usize = crop as usize;
    let padded: Image = pad_crop(image, x1, y1, side);
    let out: Image = resize_bilinear(&padded, output_size, output_size);
    (out, crop)
}

/// A square box of side `w` gets a crop of side `w * factor`, held to
/// `i32::MAX`, wherever it lies.
pub proof fn lemma_square_box_crop(bbox: BBox, factor: u32)
    requires
        bbox.width == bbox.height,
        bbox.width >= 0,
    ensures
        crop_size_spec(bbox.area_spec(), factor as int) == if bbox.width * factor <= i32::MAX {
            bbox.width * factor
        } else {
            i32::MAX as int
        },
{
    let w = bbox.width as int;
    let f = factor as int;
    let c = w * f;
    let t = bbox.area_spec() * f * f;
    assert(t == c * c) by (nonlinear_arith)
        requires
            t == (w * w) * f * f,
            c == w * f,
    ;
    lemma_mul_le_mono(0, w, 0, f);
    if c == 0 {
    } else if c <= i32::MAX {
        lemma_mul_le_mono(c, i32::MAX as int, c, i32::MAX as int);
        assert((c - 1) * (c - 1) < c * c) by (nonlinear_arith)
            requires
                c >= 1,
        ;
        assert(is_ceil_sqrt(c, t));
        let d = choose|d: int| #[trigger] is_ceil_sqrt(d, t);
        lemma_square_unique(c, d, t);
    } else {
        assert(c * c > i32::MAX * i32::MAX) by (nonlinear_arith)
            requires
                c > i32::MAX,
        ;
    }
}

proof fn lemma_zero_product(v: int, a: int, b: int)
    requires
        v == 0,
    ensures
        v * a * b == 0,
{
    assert(v * a * b == 0) by (nonlinear_arith)
        requires
            v == 0,
    ;
}

/// Resizing a black image gives a black image.
pub proof fn lemma_resize_black(s: Seq<u8>, old: int, out: int)
    requires
        old >= 0,
        out > 0,
        s.len() == old * old * 3,
        forall|j: int| 0 <= j < s.len() ==> s[j] == 0,
    ensures
        forall|i: int| 0 <= i < out * out * 3 ==> #[trigger] resized(s, old, old, out, out)[i] == 0,
{
    assert forall|i: int| 0 <= i < out * out * 3 implies #[trigger] resized(s, old, old, out, out)[i]
        == 0 by {
        lemma_div_below(i / 3, out, out);
        let y = (i / 3) / out;
        let x = (i / 3) % out;
        if old > 0 {
            lemma_scaled_below(y, out, old);
            lemma_scaled_below(x, out, old);
            lemma_div_below(y * old, old, out);
            lemma_div_below(x * old, old, out);
            let y0 = (y * old) / out;
            let x0 = (x * old) / out;
            let y1 = if y0 + 1 < old { y0 + 1 } else { old - 1 };
            let x1 = if x0 + 1 < old { x0 + 1 } else { old - 1 };
            lemma_flat_index_bound(y0, x0, i % 3, old, old);
            lemma_flat_index_bound(y0, x1, i % 3, old, old);
            lemma_flat_index_bound(y1, x0, i % 3, old, old);
            lemma_flat_index_bound(y1, x1, i % 3, old, old);
            let d = out * out;
            lemma_mul_le_mono(1, out, 1, out);
            lemma_fundamental_div_mod_converse(d, 2 * d, 0, d);
            assert(sample(s, old, y0, x0, i % 3) == 0);
            assert(sample(s, old, y0, x1, i % 3) == 0);
            assert(sample(s, old, y1, x0, i % 3) == 0);
            assert(sample(s, old, y1, x1, i % 3) == 0);
            assert(round_to_u8(0, d) == 0);
            let ay = (y * old) % out;
            let ax = (x * old) % out;
            lemma_zero_product(sample(s, old, y0, x0, i % 3), out - ax, out - ay);
            lemma_zero_product(sample(s, old, y0, x1, i % 3), ax, out - ay);
            lemma_zero_product(sample(s, old, y1, x0, i % 3), out - ax, ay);
            lemma_zero_product(sample(s, old, y1, x1, i % 3), ax, ay);
            assert(bilinear_at(s, old, old, out, out, y, x, i % 3) == 0);
        }
        assert(bilinear_at(s, old, old, out, out, y, x, i % 3) == 0);
    }
}

/// A crop that lies wholly outside the image comes out black, whatever the
/// image holds.
pub proof fn lemma_out_of_frame_black(img: Image, bbox: BBox, factor: u32, out: int)
    requires
        img.wf(),
        out > 0,
        ({
            let crop = crop_size_spec(bbox.area_spec(), factor as int);
            let origin = crop_origin_spec(bbox, crop);
            origin.0 + crop <= 0 || origin.0 >= img.width() || origin.1 + crop <= 0 || origin.1
                >= img.height()
        }),
    ensures
        forall|i: int|
            0 <= i < out * out * 3 ==> #[trigger] preprocessed(
                img,
                bbox,
                crop_size_spec(bbox.area_spec(), factor as int),
                out,
            )[i] == 0,
{
    let crop = crop_size_spec(bbox.area_spec(), factor as int);
    let origin = crop_origin_spec(bbox, crop);
    let s = padded_crop(img, origin.0, origin.1, crop);
    assert(crop >= 0) by {
        let t = bbox.area_spec() * factor * factor;
        if t > 0 {
            ceil_sqrt_exists(t);
        }
    }
    lemma_mul_le_mono(crop, crop, 0, 3);
    assert forall|j: int| 0 <= j < s.len() implies s[j] == 0 by {
        lemma_div_below(j / 3, crop, crop);
    }
    lemma_resize_black(s, crop, out);
}

/// Every positive number has a least integer whose square reaches it.
proof fn ceil_sqrt_exists(t: int)
    requires
        t > 0,
    ensures
        exists|c: int| #[trigger] is_ceil_sqrt(c, t),
    decreases t,
{
    if t == 1 {
        assert(is_ceil_sqrt(1, 1));
    } else {
        ceil_sqrt_exists(t - 1);
        let c = choose|c: int| #[trigger] is_ceil_sqrt(c, t - 1);
        if t <= c * c {
            assert(is_ceil_sqrt(c, t));
        } else {
            assert(c * c == t - 1);
            assert((c + 1) * (c + 1) == c * c + 2 * c + 1) by (nonlinear_arith);
            assert(is_ceil_sqrt(c + 1, t));
        }
    }
}

} // verus!
