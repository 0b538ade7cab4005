use vstd::prelude::*;

use vstd::arithmetic::div_mod::lemma_fundamental_div_mod_converse;
use vstd::slice::slice_to_vec;

use image::ImageEncoder;
use std::hash::{Hash, Hasher};

use crate::text::{decimal, decimal_chars, string_from_chars};

verus! {

/// Largest raw RGBA buffer (48 MiB) the clipboard reader accepts.
pub const MAX_IMAGE_BYTES: usize = 48 * 1024 * 1024;

/// Largest pixel count an image is stored with.
pub const MAX_IMAGE_PIXELS: usize = 2_600_000;

/// Largest width or height an image is stored with.
pub const MAX_IMAGE_DIMENSION: usize = 2200;

/// Largest encoded PNG (6 MiB) that is stored.
pub const MAX_ENCODED_IMAGE_BYTES: usize = 6 * 1024 * 1024;

/// Index of the source pixel that nearest-neighbour scaling from `w` x `h`
/// to `tw` x `th` reads for the target pixel at row `ty`, column `tx`.
pub open spec fn source_pixel(w: int, h: int, tw: int, th: int, ty: int, tx: int) -> int {
    (ty * h / th) * w + tx * w / tw
}

/// Nearest-neighbour scaling of the RGBA image `rgba` (`w` x `h`) to
/// `tw` x `th`: four bytes per pixel, each target pixel a copy of its
/// source pixel.
pub open spec fn downscaled(w: int, h: int, rgba: Seq<u8>, tw: int, th: int) -> Seq<u8> {
    Seq::new(
        (tw * th * 4) as nat,
        |i: int| rgba[source_pixel(w, h, tw, th, (i / 4) / tw, (i / 4) % tw) * 4 + i % 4],
    )
}

/// Every source pixel that scaling reads lies inside `rgba`.
pub open spec fn sources_in_bounds(w: int, h: int, len: int, tw: int, th: int) -> bool {
    forall|ty: int, tx: int|
        0 <= ty < th && 0 <= tx < tw ==> #[trigger] source_pixel(w, h, tw, th, ty, tx) * 4 + 4 <= len
}

proof fn lemma_position(tw: int, ty: int, tx: int, c: int)
    requires
        tw > 0,
        0 <= tx < tw,
        0 <= ty,
        0 <= c < 4,
    ensures
        ({
            let i = (ty * tw + tx) * 4 + c;
            &&& i / 4 == ty * tw + tx
            &&& i % 4 == c
            &&& (i / 4) / tw == ty
            &&& (i / 4) % tw == tx
        }),
{
    let p = ty * tw + tx;
    lemma_fundamental_div_mod_converse(p * 4 + c, 4, p, c);
    lemma_fundamental_div_mod_converse(p, tw, ty, tx);
}

/// Scales an RGBA image to `target_width` x `target_height` by picking, for
/// each target pixel, the source pixel at the proportional position.
pub fn downscale_rgba_nearest(
    width: usize,
    height: usize,
    rgba: &[u8],
    target_width: usize,
    target_height: usize,
) -> (out: Vec<u8>)
    requires
        target_width * target_height * 4 <= usize::MAX,
        target_height * height <= usize::MAX,
        target_width * width <= usize::MAX,
        sources_in_bounds(width as int, height as int, rgba@.len() as int, target_width as int, target_height as int),
    ensures
        out@ == downscaled(width as int, height as int, rgba@, target_width as int, target_height as int),
{
    let ghost d = downscaled(width as int, height as int, rgba@, target_width as int, target_height as int);
    let total = target_width * target_height * 4;
    let mut out: Vec<u8> = Vec::new();
    while out.len() < total
        invariant
            out.len() <= total,
        decreases total - out.len(),
    {
        out.push(0);
    }
    let mut ty: usize = 0;
    while ty < target_height
        invariant
            ty <= target_height,
            out.len() == total,
            total == target_width * target_height * 4,
            target_width * target_height * 4 <= usize::MAX,
            target_height * height <= usize::MAX,
            target_width * width <= usize::MAX,
            sources_in_bounds(width as int, height as int, rgba@.len() as int, target_width as int, target_height as int),
            d == downscaled(width as int, height as int, rgba@, target_width as int, target_height as int),
            forall|i: int| 0 <= i < ty * target_width * 4 ==> #[trigger] out@[i] == d[i],
        decreases target_height - ty,
    {
        proof {
            assert(ty * height <= target_height * height) by (nonlinear_arith)
                requires ty < target_height;
        }
        let sy = ty * height / target_height;
        let mut tx: usize = 0;
        while tx < target_width
            invariant
                ty < target_height,
                tx <= target_width,
                out.len() == total,
                total == target_width * target_height * 4,
                target_width * target_height * 4 <= usize::MAX,
                target_width * width <= usize::MAX,
                sy as int == (ty as int) * (height as int) / (target_height as int),
                sources_in_bounds(width as int, height as int, rgba@.len() as int, target_width as int, target_height as int),
                d == downscaled(width as int, height as int, rgba@, target_width as int, target_height as int),
                forall|i: int| 0 <= i < (ty * target_width + tx) * 4 ==> #[trigger] out@[i] == d[i],
            decreases target_width - tx,
        {
            proof {
                assert(tx * width <= target_width * width) by (nonlinear_arith)
                    requires tx < target_width;
                assert(source_pixel(width as int, height as int, target_width as int, target_height as int, ty as int, tx as int) * 4 + 4 <= rgba@.len());
                assert((ty * target_width + tx) * 4 + 4 <= total) by (nonlinear_arith)
                    requires
                        ty < target_height,
                        tx < target_width,
                        total == target_width * target_height * 4;
            }
            let sx = tx * width / target_width;
            let rgba_len = rgba.len();
            proof {
                let sp = source_pixel(width as int, height as int, target_width as int, target_height as int, ty as int, tx as int);
                assert(sp == (sy as int) * (width as int) + (sx as int));
                assert(0 <= (sy as int) * (width as int)) by (nonlinear_arith);
                assert(sp * 4 + 4 <= rgba@.len());
                assert(rgba_len == rgba@.len());
            }
            let src = (sy * width + sx) * 4;
            let dst = (ty * target_width + tx) * 4;
            let mut c: usize = 0;
            while c < 4
                invariant
                    c <= 4,
                    ty < target_height,
                    tx < target_width,
                    out.len() == total,
                    dst == (ty * target_width + tx) * 4,
                    dst + 4 <= total,
                    src == source_pixel(width as int, height as int, target_width as int, target_height as int, ty as int, tx as int) * 4,
                    src + 4 <= rgba@.len(),
                    d == downscaled(width as int, height as int, rgba@, target_width as int, target_height as int),
                    total == target_width * target_height * 4,
                    forall|i: int| 0 <= i < dst + c ==> #[trigger] out@[i] == d[i],
                decreases 4 - c,
            {
                proof {
                    lemma_position(target_width as int, ty as int, tx as int, c as int);
                }
                out.set(dst + c, rgba[src + c]);
                c = c + 1;
            }
            tx = tx + 1;
            assert((ty * target_width + tx) * 4 == dst + 4) by (nonlinear_arith)
                requires
                    dst == (ty * target_width + (tx - 1)) * 4;
        }
        assert((ty + 1) * target_width * 4 == (ty * target_width + target_width) * 4) by (nonlinear_arith);
        ty = ty + 1;
    }
    assert(target_height * target_width * 4 == total) by (nonlinear_arith)
        requires total == target_width * target_height * 4;
    assert(out@ =~= d);
    out
}

// ---------------------------------------------------------------------------
// Size normalisation
// ---------------------------------------------------------------------------

/// An image is scaled down when a side exceeds 2200 pixels or it has more
/// than 2 600 000 pixels.
pub open spec fn needs_downscale(w: int, h: int) -> bool {
    w > 2200 || h > 2200 || w * h > 2_600_000
}

/// The width bound is the tightest one: the scale factor `w / 2200` is at
/// least each other factor that applies (`h / 2200`, `sqrt(w·h / 2600000)`).
pub open spec fn width_bound_rules(w: int, h: int) -> bool {
    &&& w > 2200
    &&& (h <= 2200 || w >= h)
    &&& (w * h <= 2_600_000 || w * 2_600_000 >= h * 2200 * 2200)
}

/// The height bound is the tightest one (and the width bound is not).
pub open spec fn height_bound_rules(w: int, h: int) -> bool {
    &&& !width_bound_rules(w, h)
    &&& h > 2200
    &&& (w * h <= 2_600_000 || h * 2_600_000 >= w * 2200 * 2200)
}

/// `a / b` rounded to the nearest integer, halves up.
pub open spec fn round_div(a: int, b: int) -> int {
    (2 * a + b) / (2 * b)
}

/// The integer square root: the largest `m` with `m * m <= q`.
pub open spec fn isqrt(q: nat) -> nat
    decreases q,
{
    if q == 0 {
        0
    } else {
        let r = isqrt((q - 1) as nat);
        if (r + 1) * (r + 1) <= q {
            r + 1
        } else {
            r
        }
    }
}

/// `sqrt(num / den)` rounded to the nearest integer, halves up.
pub open spec fn round_sqrt(num: int, den: int) -> int {
    ((isqrt((4 * num / den) as nat) + 1) / 2) as int
}

/// `v`, but at least 1.
pub open spec fn at_least_one(v: int) -> int {
    if v < 1 {
        1
    } else {
        v
    }
}

/// The size an image of `w` x `h` scales to: divided by the largest
/// applicable scale factor (`w / 2200`, `h / 2200`, `sqrt(w·h / 2600000)`),
/// each side rounded to the nearest integer and kept at least 1.
pub open spec fn rounded_size(w: int, h: int) -> (int, int) {
    if width_bound_rules(w, h) {
        (2200, at_least_one(round_div(2200 * h, w)))
    } else if height_bound_rules(w, h) {
        (at_least_one(round_div(2200 * w, h)), 2200)
    } else {
        (at_least_one(round_sqrt(w * 2_600_000, h)), at_least_one(round_sqrt(h * 2_600_000, w)))
    }
}

/// `a` x `b` kept within 2,600,000 pixels: when rounding went over, the
/// longer side is shortened to the most that fits.
pub open spec fn within_pixel_cap(a: int, b: int) -> (int, int) {
    if a * b <= 2_600_000 {
        (a, b)
    } else if a >= b {
        (2_600_000int / b, b)
    } else {
        (a, 2_600_000int / a)
    }
}

/// The size an image is stored with: the rounded scaled size, kept within
/// the pixel cap.
pub open spec fn scaled_size(w: int, h: int) -> (int, int) {
    within_pixel_cap(rounded_size(w, h).0, rounded_size(w, h).1)
}

proof fn lemma_isqrt(q: nat)
    ensures
        isqrt(q) * isqrt(q) <= q < (isqrt(q) + 1) * (isqrt(q) + 1),
    decreases q,
{
    if q > 0 {
        lemma_isqrt((q - 1) as nat);
        let r = isqrt((q - 1) as nat);
        assert(isqrt(q) == if (r + 1) * (r + 1) <= q { r + 1 } else { r });
        assert((r + 2) * (r + 2) > q) by (nonlinear_arith)
            requires
                q - 1 < (r + 1) * (r + 1),
                r >= 0;
        let m = isqrt(q);
        assert(r * r <= q - 1);
        if (r + 1) * (r + 1) <= q {
            assert(m == r + 1);
            assert(m * m <= q);
            assert((m + 1) * (m + 1) == (r + 2) * (r + 2));
            assert(q < (m + 1) * (m + 1));
        } else {
            assert(m == r);
            assert(m * m <= q);
            assert(q < (m + 1) * (m + 1));
        }
    } else {
        assert(isqrt(q) == 0);
        let z = isqrt(q);
        assert((z + 1) * (z + 1) == 1) by (nonlinear_arith)
            requires z == 0;
    }
}

proof fn lemma_isqrt_unique(q: nat, m: nat)
    requires
        m * m <= q < (m + 1) * (m + 1),
    ensures
        isqrt(q) == m,
{
    lemma_isqrt(q);
    let r = isqrt(q);
    if r < m {
        assert((r + 1) * (r + 1) <= m * m) by (nonlinear_arith)
            requires r < m, r >= 0;
    } else if r > m {
        assert((m + 1) * (m + 1) <= r * r) by (nonlinear_arith)
            requires m < r, m >= 0;
    }
}

/// The integer square root of `q`.
fn integer_sqrt(q: u128) -> (m: u128)
    requires
        q < 0x1_0000_0000_0000_0000_0000_0000u128,
    ensures
        m == isqrt(q as nat),
{
    let mut lo: u128 = 0;
    let mut hi: u128 = 0x10_0000_0000_0000u128;
    assert(hi * hi > q) by (nonlinear_arith)
        requires
            hi == 0x10_0000_0000_0000u128,
            q < 0x1_0000_0000_0000_0000_0000_0000u128;
    while hi - lo > 1
        invariant
            lo < hi <= 0x10_0000_0000_0000u128,
            lo * lo <= q,
            q < hi * hi,
        decreases hi - lo,
    {
        let mid = lo + (hi - lo) / 2;
        assert(mid * mid <= hi * hi) by (nonlinear_arith)
            requires mid <= hi, 0 <= mid;
        assert(hi * hi <= 0x10_0000_0000_0000u128 * 0x10_0000_0000_0000u128) by (nonlinear_arith)
            requires hi <= 0x10_0000_0000_0000u128, 0 <= hi;
        if mid * mid <= q {
            lo = mid;
        } else {
            hi = mid;
        }
    }
    proof {
        lemma_isqrt_unique(q as nat, lo as nat);
    }
    lo
}

/// `a / b` rounded to the nearest integer, halves up.
pub(crate) fn rounded_quotient(a: u128, b: u128) -> (r: u128)
    requires
        b > 0,
        a <= 0x1_0000_0000_0000_0000_0000_0000u128,
        b <= 0x1_0000_0000_0000_0000_0000_0000u128,
    ensures
        r == round_div(a as int, b as int),
{
    (2 * a + b) / (2 * b)
}

/// The rounded scaled size of an image of `width` x `height`.
fn rounded_dimensions(width: usize, height: usize) -> (r: (usize, usize))
    requires
        needs_downscale(width as int, height as int),
        width * height <= usize::MAX,
    ensures
        (r.0 as int, r.1 as int) == rounded_size(width as int, height as int),
        1 <= r.0 <= 2200,
        1 <= r.1 <= 2200,
        width > 0 ==> r.0 <= width,
        height > 0 ==> r.1 <= height,
{
    let w = width as u128;
    let h = height as u128;
    let p: u128 = 2_600_000;
    let dd: u128 = 2200 * 2200;
    proof {
        assert(w * h <= 0x1_0000_0000_0000_0000u128);
        assert(w <= 0x1_0000_0000_0000_0000u128 && h <= 0x1_0000_0000_0000_0000u128);
        assert(w * p <= 0x1_0000_0000_0000_0000u128 * 2_600_000) by (nonlinear_arith)
            requires w <= 0x1_0000_0000_0000_0000u128, p == 2_600_000;
        assert(h * p <= 0x1_0000_0000_0000_0000u128 * 2_600_000) by (nonlinear_arith)
            requires h <= 0x1_0000_0000_0000_0000u128, p == 2_600_000;
        assert(w * dd <= 0x1_0000_0000_0000_0000u128 * 4_840_000) by (nonlinear_arith)
            requires w <= 0x1_0000_0000_0000_0000u128, dd == 4_840_000;
        assert(h * dd <= 0x1_0000_0000_0000_0000u128 * 4_840_000) by (nonlinear_arith)
            requires h <= 0x1_0000_0000_0000_0000u128, dd == 4_840_000;
    }
    let pixels = w * h;
    let by_width = w > 2200 && (h <= 2200 || w >= h) && (pixels <= p || w * p >= h * dd);
    let by_height = !by_width && h > 2200 && (pixels <= p || h * p >= w * dd);
    if by_width {
        let t = rounded_quotient(2200 * h, w);
        proof {
            assert(t <= 2200) by (nonlinear_arith)
                requires
                    t == (2 * (2200 * h) + w) / (2 * w),
                    w > 2200,
                    h <= 2200 || w >= h;
            assert(h > 0 ==> t <= h) by (nonlinear_arith)
                requires
                    t == (2 * (2200 * h) + w) / (2 * w),
                    w > 2200;
        }
        let th: usize = if t < 1 { 1 } else { t as usize };
        (2200, th)
    } else if by_height {
        let t = rounded_quotient(2200 * w, h);
        proof {
            assert(h > 2200);
            assert(w <= 2200 || w < h);
            assert(t <= 2200) by (nonlinear_arith)
                requires
                    t == (2 * (2200 * w) + h) / (2 * h),
                    h > 2200,
                    w <= 2200 || w < h;
            assert(w > 0 ==> t <= w) by (nonlinear_arith)
                requires
                    t == (2 * (2200 * w) + h) / (2 * h),
                    h > 2200;
        }
        let tw: usize = if t < 1 { 1 } else { t as usize };
        (tw, 2200)
    } else {
        proof {
            lemma_pixel_bound_case(width as int, height as int);
        }
        let qw = 4 * (w * p) / h;
        let qh = 4 * (h * p) / w;
        proof {
            assert(qw <= 4 * dd) by (nonlinear_arith)
                requires qw as int == 4 * (w as int * p as int) / (h as int), w * p <= h * dd, h > 0;
            assert(qh <= 4 * dd) by (nonlinear_arith)
                requires qh as int == 4 * (h as int * p as int) / (w as int), h * p <= w * dd, w > 0;
        }
        let mw = integer_sqrt(qw);
        let mh = integer_sqrt(qh);
        proof {
            lemma_isqrt(qw as nat);
            lemma_isqrt(qh as nat);
            assert(mw <= 4400) by (nonlinear_arith)
                requires mw * mw <= qw, qw <= 4 * 4_840_000, mw >= 0;
            assert(mh <= 4400) by (nonlinear_arith)
                requires mh * mh <= qh, qh <= 4 * 4_840_000, mh >= 0;
            assert(qw < 4 * w * w) by (nonlinear_arith)
                requires qw as int == 4 * (w as int * p as int) / (h as int), w * h > p, h > 0, w > 0;
            assert(qh < 4 * h * h) by (nonlinear_arith)
                requires qh as int == 4 * (h as int * p as int) / (w as int), w * h > p, h > 0, w > 0;
            assert(mw < 2 * w) by (nonlinear_arith)
                requires mw * mw <= qw, qw < 4 * w * w, mw >= 0, w > 0;
            assert(mh < 2 * h) by (nonlinear_arith)
                requires mh * mh <= qh, qh < 4 * h * h, mh >= 0, h > 0;
        }
        let tw0 = (mw + 1) / 2;
        let th0 = (mh + 1) / 2;
        let tw: usize = if tw0 < 1 { 1 } else { tw0 as usize };
        let th: usize = if th0 < 1 { 1 } else { th0 as usize };
        (tw, th)
    }
}

/// The size an image of `width` x `height` is stored with: at most 2200
/// on a side, at most 2,600,000 pixels, and no larger than the image.
pub fn scaled_dimensions(width: usize, height: usize) -> (r: (usize, usize))
    requires
        needs_downscale(width as int, height as int),
        width * height <= usize::MAX,
    ensures
        (r.0 as int, r.1 as int) == scaled_size(width as int, height as int),
        1 <= r.0 <= 2200,
        1 <= r.1 <= 2200,
        r.0 * r.1 <= 2_600_000,
        width > 0 ==> r.0 <= width,
        height > 0 ==> r.1 <= height,
{
    let (a, b) = rounded_dimensions(width, height);
    proof {
        lemma_within_pixel_cap(a as int, b as int);
        assert(a * b <= 2200 * 2200) by (nonlinear_arith)
            requires a <= 2200, b <= 2200, a >= 1, b >= 1;
    }
    let pixels = a * b;
    if pixels <= 2_600_000 {
        (a, b)
    } else if a >= b {
        (2_600_000 / b, b)
    } else {
        (a, 2_600_000 / a)
    }
}

proof fn lemma_within_pixel_cap(a: int, b: int)
    requires
        1 <= a <= 2200,
        1 <= b <= 2200,
    ensures
        1 <= within_pixel_cap(a, b).0 <= a,
        1 <= within_pixel_cap(a, b).1 <= b,
        within_pixel_cap(a, b).0 * within_pixel_cap(a, b).1 <= 2_600_000,
{
    if a * b > 2_600_000 {
        if a >= b {
            assert(1 <= 2_600_000int / b <= a && (2_600_000int / b) * b <= 2_600_000) by (nonlinear_arith)
                requires a * b > 2_600_000, 1 <= b <= 2200, a >= 1;
        } else {
            assert(1 <= 2_600_000int / a <= b && a * (2_600_000int / a) <= 2_600_000) by (nonlinear_arith)
                requires a * b > 2_600_000, 1 <= a <= 2200, b >= 1;
        }
    }
}

pub(crate) proof fn lemma_sources_in_bounds(w: int, h: int, len: int, tw: int, th: int)
    requires
        w > 0,
        h > 0,
        tw > 0,
        th > 0,
        w * h * 4 <= len,
    ensures
        sources_in_bounds(w, h, len, tw, th),
{
    assert forall|ty: int, tx: int| 0 <= ty < th && 0 <= tx < tw implies #[trigger] source_pixel(w, h, tw, th, ty, tx) * 4 + 4 <= len by {
        let sy = ty * h / th;
        let sx = tx * w / tw;
        assert(sy < h) by (nonlinear_arith)
            requires sy == ty * h / th, 0 <= ty < th, h > 0;
        assert(sx < w) by (nonlinear_arith)
            requires sx == tx * w / tw, 0 <= tx < tw, w > 0;
        assert(sy >= 0 && sx >= 0) by (nonlinear_arith)
            requires sy == ty * h / th, sx == tx * w / tw, 0 <= ty, 0 <= tx, th > 0, tw > 0, h > 0, w > 0;
        assert((sy * w + sx) * 4 + 4 <= w * h * 4) by (nonlinear_arith)
            requires 0 <= sy < h, 0 <= sx < w;
    }
}

/// Brings an image within the storage limits: unchanged (and `false`) when
/// it already is, else scaled down by nearest neighbour to
/// [`scaled_size`] (and `true`): at most 2200 on a side and 2,600,000
/// pixels in all.
pub fn normalize_image_for_storage(width: usize, height: usize, rgba: &[u8]) -> (r: (usize, usize, Vec<u8>, bool))
    requires
        needs_downscale(width as int, height as int) ==> {
            &&& width > 0
            &&& height > 0
            &&& width * height * 4 <= rgba@.len()
            &&& width * 2200 <= usize::MAX
            &&& height * 2200 <= usize::MAX
        },
    ensures
        !needs_downscale(width as int, height as int) ==> r.0 == width && r.1 == height && r.2@ == rgba@ && !r.3,
        needs_downscale(width as int, height as int) ==> {
            &&& (r.0 as int, r.1 as int) == scaled_size(width as int, height as int)
            &&& r.2@ == downscaled(width as int, height as int, rgba@, r.0 as int, r.1 as int)
            &&& r.3
            &&& r.0 <= width
            &&& r.1 <= height
            &&& r.0 * r.1 <= 2_600_000
        },
{
    let ghost big = needs_downscale(width as int, height as int);
    let pixels_over = if width > 0 && height > 2_600_000 / width {
        true
    } else {
        proof {
            if width > 0 {
                assert(width * height <= 2_600_000) by (nonlinear_arith)
                    requires width > 0, height <= 2_600_000usize / width;
            }
        }
        width * height > 2_600_000
    };
    proof {
        if width > 0 && height > 2_600_000usize / width {
            assert(width * height > 2_600_000) by (nonlinear_arith)
                requires width > 0, height > 2_600_000usize / width;
        }
    }
    if !(width > 2200 || height > 2200 || pixels_over) {
        return (width, height, slice_to_vec(rgba), false);
    }
    let rgba_len = rgba.len();
    assert(width * height <= usize::MAX) by (nonlinear_arith)
        requires width * height * 4 <= rgba_len, rgba_len <= usize::MAX;
    let (tw, th) = scaled_dimensions(width, height);
    proof {
        lemma_sources_in_bounds(width as int, height as int, rgba@.len() as int, tw as int, th as int);
        assert(th * height <= usize::MAX) by (nonlinear_arith)
            requires th <= 2200, height * 2200 <= usize::MAX, height >= 0;
        assert(tw * width <= usize::MAX) by (nonlinear_arith)
            requires tw <= 2200, width * 2200 <= usize::MAX, width >= 0;
        assert(tw * th * 4 <= 2200 * 2200 * 4) by (nonlinear_arith)
            requires tw <= 2200, th <= 2200, tw >= 0, th >= 0;
    }
    let out = downscale_rgba_nearest(width, height, rgba, tw, th);
    (tw, th, out, true)
}

/// A stored image never exceeds 2200 pixels on a side nor 2,600,000
/// pixels in all.
pub proof fn scaled_size_within_limits(w: int, h: int)
    requires
        needs_downscale(w, h),
        w > 0,
        h > 0,
    ensures
        1 <= scaled_size(w, h).0 <= 2200,
        1 <= scaled_size(w, h).1 <= 2200,
        scaled_size(w, h).0 * scaled_size(w, h).1 <= 2_600_000,
{
    rounded_size_within_limits(w, h);
    lemma_within_pixel_cap(rounded_size(w, h).0, rounded_size(w, h).1);
}

proof fn rounded_size_within_limits(w: int, h: int)
    requires
        needs_downscale(w, h),
        w > 0,
        h > 0,
    ensures
        1 <= rounded_size(w, h).0 <= 2200,
        1 <= rounded_size(w, h).1 <= 2200,
{
    if width_bound_rules(w, h) {
        assert(round_div(2200 * h, w) <= 2200) by (nonlinear_arith)
            requires
                w > 2200,
                h <= 2200 || w >= h,
                h > 0;
    } else if height_bound_rules(w, h) {
        assert(round_div(2200 * w, h) <= 2200) by (nonlinear_arith)
            requires
                h > 2200,
                w <= 2200 || w < h,
                w > 0;
    } else {
        lemma_pixel_bound_case(w, h);
        lemma_round_sqrt_bound(w * 2_600_000, h);
        lemma_round_sqrt_bound(h * 2_600_000, w);
    }
}

proof fn lemma_round_sqrt_bound(num: int, den: int)
    requires
        den > 0,
        num >= 0,
        num <= den * 2200 * 2200,
    ensures
        round_sqrt(num, den) <= 2200,
{
    let q = 4 * num / den;
    assert(0 <= q <= 4 * 2200 * 2200) by (nonlinear_arith)
        requires q == 4 * num / den, den > 0, num >= 0, num <= den * 2200 * 2200;
    lemma_isqrt(q as nat);
    let m = isqrt(q as nat);
    assert(m <= 4400) by (nonlinear_arith)
        requires m * m <= q, q <= 4 * 2200 * 2200, m >= 0;
}

/// When neither side bound is the tightest, the pixel bound applies and
/// `sqrt(w·h / 2600000)` is at least `w / 2200` and `h / 2200`.
proof fn lemma_pixel_bound_case(w: int, h: int)
    requires
        needs_downscale(w, h),
        !width_bound_rules(w, h),
        !height_bound_rules(w, h),
        w > 0,
        h > 0,
    ensures
        w * h > 2_600_000,
        w * 2_600_000 <= h * 2200 * 2200,
        h * 2_600_000 <= w * 2200 * 2200,
{
    let p = 2_600_000int;
    let dd = 2200 * 2200int;
    if w > 2200 {
        if !(w * h > p && w * p < h * dd) {
            assert(h > 2200 && w < h);
            assert(w * h > p && h * p < w * dd);
            assert(w * p <= h * dd) by (nonlinear_arith)
                requires w < h, h * p < w * dd, w > 0, p > 0;
        }
    } else {
        assert(w * h > p);
        assert(w * p <= h * dd) by (nonlinear_arith)
            requires w <= 2200, w * h > p, dd == 2200 * 2200, w > 0, h > 0;
    }
    if h > 2200 {
        assert(w * h > p);
        assert(h * p < w * dd);
    } else {
        assert(w * h > p);
        assert(h * p <= w * dd) by (nonlinear_arith)
            requires h <= 2200, w * h > p, dd == 2200 * 2200, w > 0, h > 0;
    }
}

// ---------------------------------------------------------------------------
// PNG and signatures
// ---------------------------------------------------------------------------

/// The PNG file that the `image` crate's `PngEncoder` writes for the RGBA8
/// image `rgba` of `width` x `height`, or `None` when it reports an error.
pub uninterp spec fn png_encoding(width: usize, height: usize, rgba: Seq<u8>) -> Option<Seq<u8>>;

/// The RGBA8 image (width, height, pixels) that `image::load_from_memory_with_format`
/// reads from a PNG file, or `None` when it reports an error.
pub uninterp spec fn png_decoding(png: Seq<u8>) -> Option<(usize, usize, Seq<u8>)>;

/// Encodes an RGBA8 buffer as PNG with `image::codecs::png::PngEncoder`.
/// The encoder panics unless the buffer holds exactly `width·height·4`
/// bytes, hence the precondition. The file's bytes are only named.
#[verifier::external_body]
pub fn encode_rgba_to_png(width: usize, height: usize, rgba: &[u8]) -> (r: Result<Vec<u8>, String>)
    requires
        width <= u32::MAX,
        height <= u32::MAX,
        rgba@.len() == width * height * 4,
    ensures
        match r {
            Ok(png) => png_encoding(width, height, rgba@) == Some(png@),
            Err(_) => png_encoding(width, height, rgba@) is None,
        },
{
    let mut out = Vec::new();
    let encoder = image::codecs::png::PngEncoder::new(&mut out);
    encoder
        .write_image(rgba, width as u32, height as u32, image::ColorType::Rgba8.into())
        .map_err(|e| format!("PNG编码失败: {}", e))?;
    Ok(out)
}

/// Decodes a PNG file into RGBA8 with `image::load_from_memory_with_format`
/// and `to_rgba8`. The pixels are named; `to_rgba8` gives four bytes per
/// pixel, which the contract states.
#[verifier::external_body]
pub fn decode_png_rgba(png_bytes: &[u8]) -> (r: Result<(usize, usize, Vec<u8>), String>)
    ensures
        match r {
            Ok((w, h, rgba)) => png_decoding(png_bytes@) == Some((w, h, rgba@)) && rgba@.len() == w * h * 4,
            Err(_) => png_decoding(png_bytes@) is None,
        },
{
    let image = image::load_from_memory_with_format(png_bytes, image::ImageFormat::Png)
        .map_err(|e| format!("加载PNG失败: {}", e))?;
    let rgba = image.to_rgba8();
    let (width, height) = rgba.dimensions();
    Ok((width as usize, height as usize, rgba.into_raw()))
}

/// The std `DefaultHasher` value of width, height and buffer length (each
/// as a `usize`) followed by the sample bytes.
pub uninterp spec fn sample_hash(width: usize, height: usize, len: usize, sample: Seq<u8>) -> u64;

/// Hashes the image facts with `std::collections::hash_map::DefaultHasher`
/// (fixed keys, so equal inputs give equal hashes). Only named.
#[verifier::external_body]
fn hash_image_sample(width: usize, height: usize, len: usize, sample: &[u8]) -> (r: u64)
    ensures
        r == sample_hash(width, height, len, sample@),
{
    let mut hasher = std::collections::hash_map::DefaultHasher::new();
    width.hash(&mut hasher);
    height.hash(&mut hasher);
    len.hash(&mut hasher);
    hasher.write(sample);
    hasher.finish()
}

/// The bytes an image signature samples: the first 4096 bytes, then the
/// last 4096 bytes from the end backwards (fewer when the image is smaller).
pub open spec fn signature_sample(rgba: Seq<u8>) -> Seq<u8> {
    let k = if rgba.len() < 4096 { rgba.len() as int } else { 4096 };
    rgba.take(k) + rgba.skip(rgba.len() - k).reverse()
}

/// `image:<width>:<height>:<hash>`, the fingerprint by which repeated
/// clipboard images are recognised.
pub open spec fn image_signature_text(width: usize, height: usize, rgba: Seq<u8>) -> Seq<char> {
    "image:"@ + decimal(width as nat) + ":"@ + decimal(height as nat) + ":"@ + decimal(
        sample_hash(width, height, rgba.len() as usize, signature_sample(rgba)) as nat,
    )
}

/// A cheap fingerprint of an image: size, length and 8 KiB sampled from
/// both ends, hashed.
pub fn image_signature(width: usize, height: usize, rgba: &[u8]) -> (r: String)
    ensures
        r@ == image_signature_text(width, height, rgba@),
{
    let n = rgba.len();
    let k: usize = if n < 4096 { n } else { 4096 };
    let mut sample: Vec<u8> = Vec::new();
    let mut i: usize = 0;
    while i < k
        invariant
            i <= k <= n,
            n == rgba@.len(),
            sample@ == rgba@.take(i as int),
        decreases k - i,
    {
        sample.push(rgba[i]);
        assert(sample@ =~= rgba@.take(i + 1));
        i = i + 1;
    }
    let mut j: usize = 0;
    while j < k
        invariant
            j <= k <= n,
            n == rgba@.len(),
            sample@ == rgba@.take(k as int) + rgba@.skip(n - k).reverse().take(j as int),
        decreases k - j,
    {
        sample.push(rgba[n - 1 - j]);
        assert(rgba@.skip(n - k).reverse()[j as int] == rgba@[n - 1 - j]);
        assert(sample@ =~= rgba@.take(k as int) + rgba@.skip(n - k).reverse().take(j + 1));
        j = j + 1;
    }
    assert(rgba@.skip(n - k).reverse().take(k as int) =~= rgba@.skip(n - k).reverse());
    let hash = hash_image_sample(width, height, n, sample.as_slice());
    let mut text: Vec<char> = vec!['i', 'm', 'a', 'g', 'e', ':'];
    let wd = decimal_chars(width as u64);
    let hd = decimal_chars(height as u64);
    let sd = decimal_chars(hash);
    append_chars(&mut text, &wd);
    text.push(':');
    append_chars(&mut text, &hd);
    text.push(':');
    append_chars(&mut text, &sd);
    proof {
        reveal_strlit("image:");
        reveal_strlit(":");
        assert(text@ =~= image_signature_text(width, height, rgba@));
    }
    string_from_chars(text.as_slice())
}

/// Appends `tail` to `v`.
pub fn append_chars(v: &mut Vec<char>, tail: &Vec<char>)
    ensures
        final(v)@ == old(v)@ + tail@,
{
    let mut i: usize = 0;
    let ghost start = v@;
    while i < tail.len()
        invariant
            i <= tail.len(),
            v@ == start + tail@.take(i as int),
        decreases tail.len() - i,
    {
        v.push(tail[i]);
        assert(v@ =~= start + tail@.take(i + 1));
        i = i + 1;
    }
    assert(tail@.take(tail.len() as int) =~= tail@);
}

} // verus!
