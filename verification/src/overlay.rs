//! Region overlay: a direct, non-blended copy of one raster into another.

use vstd::prelude::*;
use crate::pixel::PixelBuffer;
use crate::rect::{in_rect, clip_end};

verus! {

/// Copy `src` into `dst` with its top-left corner at (x, y).  The source
/// pixel replaces the destination pixel outright (no alpha blending); parts
/// of `src` that fall outside `dst` are dropped silently, and every
/// destination pixel outside the covered region is untouched.
pub fn overlay(dst: &mut PixelBuffer, src: &PixelBuffer, x: u32, y: u32)
    requires
        old(dst).wf(),
        src.wf(),
    ensures
        final(dst).wf(),
        final(dst).width == old(dst).width,
        final(dst).height == old(dst).height,
        forall|px: int, py: int|
            final(dst).in_bounds(px, py) && in_rect(
                px,
                py,
                x as int,
                y as int,
                src.width as int,
                src.height as int,
            ) ==> final(dst).px(px, py) == src.px(px - x, py - y),
        forall|px: int, py: int|
            final(dst).in_bounds(px, py) && !in_rect(
                px,
                py,
                x as int,
                y as int,
                src.width as int,
                src.height as int,
            ) ==> final(dst).px(px, py) == old(dst).px(px, py),
{
    let w = dst.width;
    let h = dst.height;
    let xe64 = x as u64 + src.width as u64;
    let ye64 = y as u64 + src.height as u64;
    let x_end: u32 = if xe64 < w as u64 {
        xe64 as u32
    } else {
        w
    };
    let y_end: u32 = if ye64 < h as u64 {
        ye64 as u32
    } else {
        h
    };
    let mut cy = y;
    while cy < y_end
        invariant
            dst.wf(),
            src.wf(),
            dst.width == w,
            dst.height == h,
            dst.width == old(dst).width,
            dst.height == old(dst).height,
            y <= cy,
            cy <= y_end || cy == y,
            x_end == clip_end(x as int, src.width as int, w as int),
            y_end == clip_end(y as int, src.height as int, h as int),
            forall|px: int, py: int|
                dst.in_bounds(px, py) && in_rect(
                    px,
                    py,
                    x as int,
                    y as int,
                    src.width as int,
                    src.height as int,
                ) && py < cy ==> dst.px(px, py) == src.px(px - x, py - y),
            forall|px: int, py: int|
                dst.in_bounds(px, py) && !(in_rect(
                    px,
                    py,
                    x as int,
                    y as int,
                    src.width as int,
                    src.height as int,
                ) && py < cy) ==> dst.px(px, py) == old(dst).px(px, py),
        decreases y_end as int - cy as int,
    {
        let mut cx = x;
        while cx < x_end
            invariant
                dst.wf(),
                src.wf(),
                dst.width == w,
                dst.height == h,
                dst.width == old(dst).width,
                dst.height == old(dst).height,
                y <= cy < y_end,
                x <= cx,
                cx <= x_end || cx == x,
                x_end == clip_end(x as int, src.width as int, w as int),
                y_end == clip_end(y as int, src.height as int, h as int),
                forall|px: int, py: int|
                    dst.in_bounds(px, py) && in_rect(
                        px,
                        py,
                        x as int,
                        y as int,
                        src.width as int,
                        src.height as int,
                    ) && py < cy ==> dst.px(px, py) == src.px(px - x, py - y),
                forall|px: int, py: int|
                    dst.in_bounds(px, py) && in_rect(
                        px,
                        py,
                        x as int,
                        y as int,
                        src.width as int,
                        src.height as int,
                    ) && py == cy && px < cx ==> dst.px(px, py) == src.px(px - x, py - y),
                forall|px: int, py: int|
                    dst.in_bounds(px, py) && !(in_rect(
                        px,
                        py,
                        x as int,
                        y as int,
                        src.width as int,
                        src.height as int,
                    ) && (py < cy || (py == cy && px < cx))) ==> dst.px(px, py) == old(dst).px(
                        px,
                        py,
                    ),
            decreases x_end as int - cx as int,
        {
            let p = src.get_pixel(cx - x, cy - y);
            dst.put_pixel(cx, cy, p);
            cx = cx + 1;
        }
        cy = cy + 1;
    }
}

} // verus!
