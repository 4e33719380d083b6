//! Solid rectangle fills.

use vstd::prelude::*;
use crate::pixel::{PixelBuffer, Rgb, opaque};

verus! {

/// Whether (px, py) lies in the axis-aligned rectangle anchored at (x, y)
/// with the given width and height.
pub open spec fn in_rect(px: int, py: int, x: int, y: int, rw: int, rh: int) -> bool {
    x <= px < x + rw && y <= py < y + rh
}

/// The end of the clipped range that starts at `start`, extends `extent`,
/// and may not pass `limit`.
pub open spec fn clip_end(start: int, extent: int, limit: int) -> int {
    if start + extent < limit {
        start + extent
    } else {
        limit
    }
}

/// Set every pixel of `[x, x + rect_width) x [y, y + rect_height)` that lies
/// inside the buffer to `color` with full opacity; pixels outside the buffer
/// are skipped silently, and every other pixel is untouched.
pub fn fill_rect(
    buf: &mut PixelBuffer,
    color: Rgb,
    rect_height: u32,
    rect_width: u32,
    x: u32,
    y: u32,
)
    requires
        old(buf).wf(),
    ensures
        final(buf).wf(),
        final(buf).width == old(buf).width,
        final(buf).height == old(buf).height,
        forall|px: int, py: int|
            final(buf).in_bounds(px, py) && in_rect(
                px,
                py,
                x as int,
                y as int,
                rect_width as int,
                rect_height as int,
            ) ==> final(buf).px(px, py) == opaque(color),
        forall|px: int, py: int|
            final(buf).in_bounds(px, py) && !in_rect(
                px,
                py,
                x as int,
                y as int,
                rect_width as int,
                rect_height as int,
            ) ==> final(buf).px(px, py) == old(buf).px(px, py),
{
    let w = buf.width;
    let h = buf.height;
    let xe64 = x as u64 + rect_width as u64;
    let ye64 = y as u64 + rect_height as u64;
    let x_end: u32 = if xe64 < w as u64 {
        xe64 as u32
    } else {
        w
    };
    let y_end: u32 = if ye64 < h as u64 {
        ye64 as u32
    } else {
        h
    };
    let mut cy = y;
    while cy < y_end
        invariant
            buf.wf(),
            buf.width == w,
            buf.height == h,
            buf.width == old(buf).width,
            buf.height == old(buf).height,
            y <= cy,
            cy <= y_end || cy == y,
            x_end == clip_end(x as int, rect_width as int, w as int),
            y_end == clip_end(y as int, rect_height as int, h as int),
            forall|px: int, py: int|
                buf.in_bounds(px, py) && in_rect(
                    px,
                    py,
                    x as int,
                    y as int,
                    rect_width as int,
                    rect_height as int,
                ) && py < cy ==> buf.px(px, py) == opaque(color),
            forall|px: int, py: int|
                buf.in_bounds(px, py) && !(in_rect(
                    px,
                    py,
                    x as int,
                    y as int,
                    rect_width as int,
                    rect_height as int,
                ) && py < cy) ==> buf.px(px, py) == old(buf).px(px, py),
        decreases y_end as int - cy as int,
    {
        let mut cx = x;
        while cx < x_end
            invariant
                buf.wf(),
                buf.width == w,
                buf.height == h,
                buf.width == old(buf).width,
                buf.height == old(buf).height,
                y <= cy < y_end,
                x <= cx,
                cx <= x_end || cx == x,
                x_end == clip_end(x as int, rect_width as int, w as int),
                y_end == clip_end(y as int, rect_height as int, h as int),
                forall|px: int, py: int|
                    buf.in_bounds(px, py) && in_rect(
                        px,
                        py,
                        x as int,
                        y as int,
                        rect_width as int,
                        rect_height as int,
                    ) && py < cy ==> buf.px(px, py) == opaque(color),
                forall|px: int, py: int|
                    buf.in_bounds(px, py) && in_rect(
                        px,
                        py,
                        x as int,
                        y as int,
                        rect_width as int,
                        rect_height as int,
                    ) && py == cy && px < cx ==> buf.px(px, py) == opaque(color),
                forall|px: int, py: int|
                    buf.in_bounds(px, py) && !(in_rect(
                        px,
                        py,
                        x as int,
                        y as int,
                        rect_width as int,
                        rect_height as int,
                    ) && (py < cy || (py == cy && px < cx))) ==> buf.px(px, py) == old(buf).px(
                        px,
                        py,
                    ),
            decreases x_end as int - cx as int,
        {
            buf.put_pixel(cx, cy, opaque_of(color));
            cx = cx + 1;
        }
        cy = cy + 1;
    }
}

/// The executable counterpart of `opaque`.
fn opaque_of(c: Rgb) -> (p: crate::pixel::Rgba)
    ensures
        p == opaque(c),
{
    crate::pixel::Rgba { r: c.r, g: c.g, b: c.b, a: 255 }
}

} // verus!
