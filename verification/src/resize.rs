//! Nearest-neighbor resizing.

use vstd::prelude::*;
use crate::pixel::{PixelBuffer, Rgba, lemma_mul_fits_u64};

verus! {

/// The source coordinate sampled for destination coordinate `d` when an axis
/// of `sdim` source pixels is resized to `tdim` target pixels.
pub open spec fn nn_coord(sdim: int, tdim: int, d: int) -> int {
    d * sdim / tdim
}

/// The source pixel sampled for destination pixel (x, y) when `src` is
/// resized to `tw` by `th` with nearest-neighbor sampling.
pub open spec fn nn_px(src: PixelBuffer, tw: int, th: int, x: int, y: int) -> Rgba {
    src.px(nn_coord(src.width as int, tw, x), nn_coord(src.height as int, th, y))
}

/// Whether `out` is exactly `src` resized to `tw` by `th` under
/// nearest-neighbor sampling.
pub open spec fn resized_to(out: PixelBuffer, src: PixelBuffer, tw: u32, th: u32) -> bool {
    &&& out.wf()
    &&& out.width == tw
    &&& out.height == th
    &&& forall|x: int, y: int|
        out.in_bounds(x, y) ==> out.px(x, y) == nn_px(src, tw as int, th as int, x, y)
}

/// The sampled source coordinate stays within the source axis.
pub proof fn lemma_nn_coord_bounds(sdim: int, tdim: int, d: int)
    requires
        0 <= d < tdim,
        0 < sdim,
    ensures
        0 <= nn_coord(sdim, tdim, d) < sdim,
{
    vstd::arithmetic::mul::lemma_mul_nonnegative(d, sdim);
    vstd::arithmetic::div_mod::lemma_div_pos_is_pos(d * sdim, tdim);
    assert(d * sdim < tdim * sdim) by {
        vstd::arithmetic::mul::lemma_mul_strict_inequality(d, tdim, sdim);
    }
    vstd::arithmetic::div_mod::lemma_multiply_divide_lt(d * sdim, tdim, sdim);
}

/// Resizing an axis to its own extent samples every coordinate from itself.
pub proof fn lemma_nn_coord_identity(sdim: int, d: int)
    requires
        0 < sdim,
        0 <= d,
    ensures
        nn_coord(sdim, sdim, d) == d,
{
    assert(d * sdim == sdim * d);
    vstd::arithmetic::div_mod::lemma_div_multiples_vanish(d, sdim);
}

/// Law: nearest-neighbor resizing is idempotent at the source's own
/// dimensions.  Any buffer that is `src` resized to (src.width, src.height)
/// holds exactly the bytes of `src`.
pub proof fn lemma_resize_idempotent(src: PixelBuffer, out: PixelBuffer)
    requires
        src.wf(),
        src.width > 0,
        src.height > 0,
        resized_to(out, src, src.width, src.height),
    ensures
        out.width == src.width,
        out.height == src.height,
        out.pixels@ == src.pixels@,
{
    assert forall|x: int, y: int|
        0 <= x < src.width && 0 <= y < src.height implies crate::pixel::pixel_at(
        out.pixels@,
        src.width as int,
        x,
        y,
    ) == crate::pixel::pixel_at(src.pixels@, src.width as int, x, y) by {
        lemma_nn_coord_identity(src.width as int, x);
        lemma_nn_coord_identity(src.height as int, y);
        assert(out.px(x, y) == nn_px(src, src.width as int, src.height as int, x, y));
    }
    crate::pixel::lemma_px_determines_pixels(
        out.pixels@,
        src.pixels@,
        src.width as int,
        src.height as int,
    );
}

/// Scale `src` to `target_w` by `target_h` pixels: destination pixel (x, y)
/// is the source pixel at (x * src_w / target_w, y * src_h / target_h).
/// A zero target dimension is a precondition violation.
pub fn resize(src: &PixelBuffer, target_w: u32, target_h: u32) -> (out: PixelBuffer)
    requires
        src.wf(),
        src.width > 0,
        src.height > 0,
        target_w > 0,
        target_h > 0,
        4 * (target_w as int) * (target_h as int) <= usize::MAX,
    ensures
        resized_to(out, *src, target_w, target_h),
{
    let mut out = PixelBuffer::new_canvas(target_w, target_h);
    let mut cy: u32 = 0;
    while cy < target_h
        invariant
            src.wf(),
            src.width > 0,
            src.height > 0,
            target_w > 0,
            target_h > 0,
            out.wf(),
            out.width == target_w,
            out.height == target_h,
            0 <= cy <= target_h,
            forall|x: int, y: int|
                out.in_bounds(x, y) && y < cy ==> out.px(x, y) == nn_px(
                    *src,
                    target_w as int,
                    target_h as int,
                    x,
                    y,
                ),
        decreases target_h as int - cy as int,
    {
        proof {
            lemma_mul_fits_u64(cy as int, src.height as int);
            lemma_nn_coord_bounds(src.height as int, target_h as int, cy as int);
        }
        let sy = ((cy as u64 * src.height as u64) / (target_h as u64)) as u32;
        let mut cx: u32 = 0;
        while cx < target_w
            invariant
                src.wf(),
                src.width > 0,
                src.height > 0,
                target_w > 0,
                target_h > 0,
                out.wf(),
                out.width == target_w,
                out.height == target_h,
                0 <= cy < target_h,
                0 <= cx <= target_w,
                sy == nn_coord(src.height as int, target_h as int, cy as int),
                0 <= sy < src.height,
                forall|x: int, y: int|
                    out.in_bounds(x, y) && y < cy ==> out.px(x, y) == nn_px(
                        *src,
                        target_w as int,
                        target_h as int,
                        x,
                        y,
                    ),
                forall|x: int, y: int|
                    out.in_bounds(x, y) && y == cy && x < cx ==> out.px(x, y) == nn_px(
                        *src,
                        target_w as int,
                        target_h as int,
                        x,
                        y,
                    ),
            decreases target_w as int - cx as int,
        {
            proof {
                lemma_mul_fits_u64(cx as int, src.width as int);
                lemma_nn_coord_bounds(src.width as int, target_w as int, cx as int);
            }
            let sx = ((cx as u64 * src.width as u64) / (target_w as u64)) as u32;
            let p = src.get_pixel(sx, sy);
            out.put_pixel(cx, cy, p);
            cx = cx + 1;
        }
        cy = cy + 1;
    }
    out
}

/// Replace every buffer of `imgs` by itself resized to a common
/// `img_width` by `img_height`, in place.
pub fn resize_imgs(imgs: &mut Vec<PixelBuffer>, img_width: u32, img_height: u32)
    requires
        forall|i: int|
            0 <= i < old(imgs)@.len() ==> (#[trigger] old(imgs)@[i]).wf() && old(imgs)@[i].width
                > 0 && old(imgs)@[i].height > 0,
        img_width > 0,
        img_height > 0,
        4 * (img_width as int) * (img_height as int) <= usize::MAX,
    ensures
        final(imgs)@.len() == old(imgs)@.len(),
        forall|i: int|
            0 <= i < old(imgs)@.len() ==> resized_to(
                #[trigger] final(imgs)@[i],
                old(imgs)@[i],
                img_width,
                img_height,
            ),
{
    let n = imgs.len();
    let mut i: usize = 0;
    while i < n
        invariant
            n == old(imgs)@.len(),
            imgs@.len() == n,
            0 <= i <= n,
            img_width > 0,
            img_height > 0,
            4 * (img_width as int) * (img_height as int) <= usize::MAX,
            forall|j: int|
                i <= j < n ==> (#[trigger] imgs@[j]) == old(imgs)@[j],
            forall|j: int|
                0 <= j < n ==> (#[trigger] old(imgs)@[j]).wf() && old(imgs)@[j].width > 0 && old(
                    imgs,
                )@[j].height > 0,
            forall|j: int|
                0 <= j < i ==> resized_to(#[trigger] imgs@[j], old(imgs)@[j], img_width, img_height),
        decreases n - i,
    {
        let r = resize(&imgs[i], img_width, img_height);
        imgs[i] = r;
        i = i + 1;
    }
}

} // verus!
