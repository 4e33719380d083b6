//! The fixed collage templates.
//!
//! Each template is a pure function of its source buffers and a target size:
//! it resizes the sources with nearest-neighbor sampling, overlays them at
//! fixed offsets on a fresh transparent canvas, and — for the decorated
//! templates — paints solid rectangles and caption text on top.  Where a
//! target dimension does not divide evenly, integer division truncates and
//! the leftover columns or rows stay transparent.

use vstd::prelude::*;
use crate::pixel::{PixelBuffer, Rgb, Rgba, transparent, opaque, canvas_of,
    lemma_buffer_matches_canvas};
use crate::resize::{resize, nn_px};
use crate::overlay::overlay;
use crate::rect::{in_rect, fill_rect};
use crate::font::{FontStore, FontId, spec_resolve_font};
use crate::text::{draw_text, text_blit, font_parses, font_ok, COORD_MAX, TEXT_MAX};
use crate::words::{word_ranges_from, lemma_word_ranges, split_words};
use vstd::arithmetic::mul::lemma_mul_inequality;
use vstd::arithmetic::mul::lemma_mul_nonnegative;
use vstd::arithmetic::div_mod::{lemma_div_pos_is_pos, lemma_div_is_ordered,
    lemma_div_multiples_vanish};

verus! {

/// A source buffer a template accepts: well-formed and nonempty.
pub open spec fn valid_src(img: PixelBuffer) -> bool {
    img.wf() && img.width > 0 && img.height > 0
}

/// The pixel a two-panel collage holds at (x, y): the left half is the
/// first source resized to (w / 2, h), the right half the second, and any
/// leftover column stays transparent.
pub open spec fn two_grid_px(
    img1: PixelBuffer,
    img2: PixelBuffer,
    w: int,
    h: int,
    x: int,
    y: int,
) -> Rgba {
    let half = w / 2;
    if 0 <= x < half {
        nn_px(img1, half, h, x, y)
    } else if half <= x < 2 * half {
        nn_px(img2, half, h, x - half, y)
    } else {
        transparent()
    }
}

/// Two-panel collage: the target width is split in half and each source
/// fills one half at full height.
pub fn two_grid(
    photon_img: &PixelBuffer,
    photon_img2: &PixelBuffer,
    width: u32,
    height: u32,
) -> (out: PixelBuffer)
    requires
        valid_src(*photon_img),
        valid_src(*photon_img2),
        width >= 2,
        height >= 1,
        4 * (width as int) * (height as int) <= usize::MAX,
    ensures
        out.wf(),
        out.width == width,
        out.height == height,
        forall|x: int, y: int|
            out.in_bounds(x, y) ==> out.px(x, y) == two_grid_px(
                *photon_img,
                *photon_img2,
                width as int,
                height as int,
                x,
                y,
            ),
{
    let half = width / 2;
    proof {
        lemma_mul_inequality(4 * (half as int), 4 * (width as int), height as int);
    }
    let r1 = resize(photon_img, half, height);
    let r2 = resize(photon_img2, half, height);
    let mut canvas = PixelBuffer::new_canvas(width, height);
    overlay(&mut canvas, &r1, 0, 0);
    let ghost c1 = canvas;
    overlay(&mut canvas, &r2, half, 0);
    proof {
        assert forall|x: int, y: int| canvas.in_bounds(x, y) implies canvas.px(x, y)
            == two_grid_px(
            *photon_img,
            *photon_img2,
            width as int,
            height as int,
            x,
            y,
        ) by {
            let half_i = half as int;
            if x < half_i {
                assert(!in_rect(x, y, half_i, 0, half_i, height as int));
                assert(canvas.px(x, y) == c1.px(x, y));
                assert(in_rect(x, y, 0, 0, half_i, height as int));
                assert(c1.px(x, y) == r1.px(x, y));
            } else if x < 2 * half_i {
                assert(in_rect(x, y, half_i, 0, half_i, height as int));
                assert(canvas.px(x, y) == r2.px(x - half_i, y));
            } else {
                assert(!in_rect(x, y, half_i, 0, half_i, height as int));
                assert(canvas.px(x, y) == c1.px(x, y));
                assert(!in_rect(x, y, 0, 0, half_i, height as int));
            }
        }
    }
    canvas
}

/// The pixel a three-panel collage holds at (x, y): the width is split in
/// thirds, full height, and leftover columns stay transparent.
pub open spec fn triple_grid_px(
    img1: PixelBuffer,
    img2: PixelBuffer,
    img3: PixelBuffer,
    w: int,
    h: int,
    x: int,
    y: int,
) -> Rgba {
    let third = w / 3;
    if 0 <= x < third {
        nn_px(img1, third, h, x, y)
    } else if third <= x < 2 * third {
        nn_px(img2, third, h, x - third, y)
    } else if 2 * third <= x < 3 * third {
        nn_px(img3, third, h, x - 2 * third, y)
    } else {
        transparent()
    }
}

/// Three-panel collage: the target width is split in thirds and each source
/// fills one third at full height.
pub fn triple_grid(
    photon_img: &PixelBuffer,
    photon_img2: &PixelBuffer,
    photon_img3: &PixelBuffer,
    width: u32,
    height: u32,
) -> (out: PixelBuffer)
    requires
        valid_src(*photon_img),
        valid_src(*photon_img2),
        valid_src(*photon_img3),
        width >= 3,
        height >= 1,
        4 * (width as int) * (height as int) <= usize::MAX,
    ensures
        out.wf(),
        out.width == width,
        out.height == height,
        forall|x: int, y: int|
            out.in_bounds(x, y) ==> out.px(x, y) == triple_grid_px(
                *photon_img,
                *photon_img2,
                *photon_img3,
                width as int,
                height as int,
                x,
                y,
            ),
{
    let third = width / 3;
    proof {
        lemma_mul_inequality(4 * (third as int), 4 * (width as int), height as int);
    }
    let r1 = resize(photon_img, third, height);
    let r2 = resize(photon_img2, third, height);
    let r3 = resize(photon_img3, third, height);
    let mut canvas = PixelBuffer::new_canvas(width, height);
    overlay(&mut canvas, &r1, 0, 0);
    let ghost c1 = canvas;
    overlay(&mut canvas, &r2, third, 0);
    let ghost c2 = canvas;
    overlay(&mut canvas, &r3, 2 * third, 0);
    proof {
        assert forall|x: int, y: int| canvas.in_bounds(x, y) implies canvas.px(x, y)
            == triple_grid_px(
            *photon_img,
            *photon_img2,
            *photon_img3,
            width as int,
            height as int,
            x,
            y,
        ) by {
            let t = third as int;
            let h = height as int;
            if x < t {
                assert(!in_rect(x, y, 2 * t, 0, t, h));
                assert(!in_rect(x, y, t, 0, t, h));
                assert(in_rect(x, y, 0, 0, t, h));
                assert(canvas.px(x, y) == c2.px(x, y));
                assert(c2.px(x, y) == c1.px(x, y));
                assert(c1.px(x, y) == r1.px(x, y));
            } else if x < 2 * t {
                assert(!in_rect(x, y, 2 * t, 0, t, h));
                assert(in_rect(x, y, t, 0, t, h));
                assert(canvas.px(x, y) == c2.px(x, y));
                assert(c2.px(x, y) == r2.px(x - t, y));
            } else if x < 3 * t {
                assert(in_rect(x, y, 2 * t, 0, t, h));
                assert(canvas.px(x, y) == r3.px(x - 2 * t, y));
            } else {
                assert(!in_rect(x, y, 2 * t, 0, t, h));
                assert(!in_rect(x, y, t, 0, t, h));
                assert(!in_rect(x, y, 0, 0, t, h));
                assert(canvas.px(x, y) == c2.px(x, y));
                assert(c2.px(x, y) == c1.px(x, y));
            }
        }
    }
    canvas
}

/// The pixel a four-panel collage holds at (x, y): width and height are
/// split in half, one source per quadrant, leftovers transparent.
pub open spec fn four_grid_px(
    img1: PixelBuffer,
    img2: PixelBuffer,
    img3: PixelBuffer,
    img4: PixelBuffer,
    w: int,
    h: int,
    x: int,
    y: int,
) -> Rgba {
    let hw = w / 2;
    let hh = h / 2;
    if 0 <= x < hw && 0 <= y < hh {
        nn_px(img1, hw, hh, x, y)
    } else if hw <= x < 2 * hw && 0 <= y < hh {
        nn_px(img2, hw, hh, x - hw, y)
    } else if 0 <= x < hw && hh <= y < 2 * hh {
        nn_px(img3, hw, hh, x, y - hh)
    } else if hw <= x < 2 * hw && hh <= y < 2 * hh {
        nn_px(img4, hw, hh, x - hw, y - hh)
    } else {
        transparent()
    }
}

/// Four-panel collage: a 2 x 2 grid of the four sources, each resized to a
/// quarter of the target.
pub fn four_grid(
    photon_img: &PixelBuffer,
    photon_img2: &PixelBuffer,
    photon_img3: &PixelBuffer,
    photon_img4: &PixelBuffer,
    width: u32,
    height: u32,
) -> (out: PixelBuffer)
    requires
        valid_src(*photon_img),
        valid_src(*photon_img2),
        valid_src(*photon_img3),
        valid_src(*photon_img4),
        width >= 2,
        height >= 2,
        4 * (width as int) * (height as int) <= usize::MAX,
    ensures
        out.wf(),
        out.width == width,
        out.height == height,
        forall|x: int, y: int|
            out.in_bounds(x, y) ==> out.px(x, y) == four_grid_px(
                *photon_img,
                *photon_img2,
                *photon_img3,
                *photon_img4,
                width as int,
                height as int,
                x,
                y,
            ),
{
    let hw = width / 2;
    let hh = height / 2;
    proof {
        lemma_mul_inequality(4 * (hw as int), 4 * (width as int), hh as int);
        lemma_mul_inequality(hh as int, height as int, 4 * (width as int));
        assert(4 * (width as int) * (hh as int) == (hh as int) * (4 * (width as int)));
    }
    let r1 = resize(photon_img, hw, hh);
    let r2 = resize(photon_img2, hw, hh);
    let r3 = resize(photon_img3, hw, hh);
    let r4 = resize(photon_img4, hw, hh);
    let mut canvas = PixelBuffer::new_canvas(width, height);
    overlay(&mut canvas, &r1, 0, 0);
    let ghost c1 = canvas;
    overlay(&mut canvas, &r2, hw, 0);
    let ghost c2 = canvas;
    overlay(&mut canvas, &r3, 0, hh);
    let ghost c3 = canvas;
    overlay(&mut canvas, &r4, hw, hh);
    proof {
        assert forall|x: int, y: int| canvas.in_bounds(x, y) implies canvas.px(x, y)
            == four_grid_px(
            *photon_img,
            *photon_img2,
            *photon_img3,
            *photon_img4,
            width as int,
            height as int,
            x,
            y,
        ) by {
            let hw_i = hw as int;
            let hh_i = hh as int;
            if x < hw_i && y < hh_i {
                assert(!in_rect(x, y, hw_i, hh_i, hw_i, hh_i));
                assert(!in_rect(x, y, 0, hh_i, hw_i, hh_i));
                assert(!in_rect(x, y, hw_i, 0, hw_i, hh_i));
                assert(in_rect(x, y, 0, 0, hw_i, hh_i));
                assert(canvas.px(x, y) == c3.px(x, y));
                assert(c3.px(x, y) == c2.px(x, y));
                assert(c2.px(x, y) == c1.px(x, y));
                assert(c1.px(x, y) == r1.px(x, y));
            } else if hw_i <= x < 2 * hw_i && y < hh_i {
                assert(!in_rect(x, y, hw_i, hh_i, hw_i, hh_i));
                assert(!in_rect(x, y, 0, hh_i, hw_i, hh_i));
                assert(in_rect(x, y, hw_i, 0, hw_i, hh_i));
                assert(canvas.px(x, y) == c3.px(x, y));
                assert(c3.px(x, y) == c2.px(x, y));
                assert(c2.px(x, y) == r2.px(x - hw_i, y));
            } else if x < hw_i && hh_i <= y < 2 * hh_i {
                assert(!in_rect(x, y, hw_i, hh_i, hw_i, hh_i));
                assert(in_rect(x, y, 0, hh_i, hw_i, hh_i));
                assert(canvas.px(x, y) == c3.px(x, y));
                assert(c3.px(x, y) == r3.px(x, y - hh_i));
            } else if hw_i <= x < 2 * hw_i && hh_i <= y < 2 * hh_i {
                assert(in_rect(x, y, hw_i, hh_i, hw_i, hh_i));
                assert(canvas.px(x, y) == r4.px(x - hw_i, y - hh_i));
            } else {
                assert(!in_rect(x, y, hw_i, hh_i, hw_i, hh_i));
                assert(!in_rect(x, y, 0, hh_i, hw_i, hh_i));
                assert(!in_rect(x, y, hw_i, 0, hw_i, hh_i));
                assert(!in_rect(x, y, 0, 0, hw_i, hh_i));
                assert(canvas.px(x, y) == c3.px(x, y));
                assert(c3.px(x, y) == c2.px(x, y));
                assert(c2.px(x, y) == c1.px(x, y));
            }
        }
    }
    canvas
}

/// The white used for panels and the centre square.
pub open spec fn white() -> Rgb {
    Rgb { r: 255, g: 255, b: 255 }
}

/// The lilac of the four-panel text template's lower-left rectangle.
pub open spec fn lilac() -> Rgb {
    Rgb { r: 204, g: 195, b: 240 }
}

/// The yellow of the four-panel text template's lower-right rectangle.
pub open spec fn yellow() -> Rgb {
    Rgb { r: 255, g: 226, b: 98 }
}

/// The pixel under the caption of the four-panel text template: the two
/// sources fill the top row, a lilac and a yellow rectangle fill the bottom
/// row, leftovers stay transparent.
pub open spec fn four_grid_text_base_px(
    img1: PixelBuffer,
    img2: PixelBuffer,
    w: int,
    h: int,
    x: int,
    y: int,
) -> Rgba {
    let hw = w / 2;
    let hh = h / 2;
    if in_rect(x, y, 0, hh, hw, hh) {
        opaque(lilac())
    } else if in_rect(x, y, hw, hh, hw, hh) {
        opaque(yellow())
    } else if 0 <= x < hw && 0 <= y < hh {
        nn_px(img1, hw, hh, x, y)
    } else if hw <= x < 2 * hw && 0 <= y < hh {
        nn_px(img2, hw, hh, x - hw, y)
    } else {
        transparent()
    }
}

/// The byte sequence under the caption of the four-panel text template.
pub open spec fn four_grid_text_base(img1: PixelBuffer, img2: PixelBuffer, w: int, h: int) -> Seq<
    u8,
> {
    canvas_of(w, h, |x: int, y: int| four_grid_text_base_px(img1, img2, w, h, x, y))
}

/// A buffer whose pixels all match `four_grid_text_base_px` holds the bytes
/// of `four_grid_text_base`.
proof fn lemma_matches_fgt_base(buf: &PixelBuffer, img1: PixelBuffer, img2: PixelBuffer)
    requires
        buf.wf(),
        forall|x: int, y: int|
            buf.in_bounds(x, y) ==> buf.px(x, y) == four_grid_text_base_px(
                img1,
                img2,
                buf.width as int,
                buf.height as int,
                x,
                y,
            ),
    ensures
        buf.pixels@ == four_grid_text_base(img1, img2, buf.width as int, buf.height as int),
{
    let w = buf.width as int;
    let h = buf.height as int;
    let g = (|x: int, y: int| four_grid_text_base_px(img1, img2, w, h, x, y));
    lemma_buffer_matches_canvas(buf, g);
    assert(four_grid_text_base(img1, img2, w, h) =~= canvas_of(w, h, g));
}

/// Four-panel collage with caption: the two sources resized to quarters fill
/// the top row, a lilac and a yellow rectangle fill the bottom row, and the
/// fixed caption is drawn over the top-right panel in white "Roboto-Bold" at
/// point size 30.  Returns `None`, and builds nothing, exactly when the
/// stored bytes of the default font do not parse.
pub fn four_grid_text(
    photon_img: &PixelBuffer,
    photon_img2: &PixelBuffer,
    store: &FontStore,
    width: u32,
    height: u32,
) -> (r: Option<PixelBuffer>)
    requires
        valid_src(*photon_img),
        valid_src(*photon_img2),
        width >= 2,
        height >= 40,
        width <= COORD_MAX,
        height <= COORD_MAX,
        4 * (width as int) * (height as int) <= usize::MAX,
    ensures
        r is Some <==> font_parses(store.spec_get(FontId::RobotoBold)),
        r matches Some(out) ==> out.wf() && out.width == width && out.height == height
            && out.pixels@ == text_blit(
            four_grid_text_base(*photon_img, *photon_img2, width as int, height as int),
            width,
            height,
            store.spec_get(FontId::RobotoBold),
            "Daisies In the Underground"@,
            (width as int / 2 + 40) as u32,
            (height as int / 4 - 10) as u32,
            30,
            255,
            255,
            255,
        ),
{
    let hw = width / 2;
    let hh = height / 2;
    proof {
        lemma_mul_inequality(4 * (hw as int), 4 * (width as int), hh as int);
        lemma_mul_inequality(hh as int, height as int, 4 * (width as int));
        assert(4 * (width as int) * (hh as int) == (hh as int) * (4 * (width as int)));
        assert(4 * (hw as int) * (hh as int) <= 4 * (width as int) * (height as int));
    }
    let r1 = resize(photon_img, hw, hh);
    let r2 = resize(photon_img2, hw, hh);
    let mut canvas = PixelBuffer::new_canvas(width, height);
    overlay(&mut canvas, &r1, 0, 0);
    let ghost c1 = canvas;
    overlay(&mut canvas, &r2, hw, 0);
    let ghost c2 = canvas;
    fill_rect(&mut canvas, Rgb { r: 204, g: 195, b: 240 }, hh, hw, 0, hh);
    let ghost c3 = canvas;
    fill_rect(&mut canvas, Rgb { r: 255, g: 226, b: 98 }, hh, hw, hw, hh);
    proof {
        let hw_i = hw as int;
        let hh_i = hh as int;
        assert forall|x: int, y: int| canvas.in_bounds(x, y) implies canvas.px(x, y)
            == four_grid_text_base_px(
            *photon_img,
            *photon_img2,
            width as int,
            height as int,
            x,
            y,
        ) by {
            if in_rect(x, y, 0, hh_i, hw_i, hh_i) {
                assert(!in_rect(x, y, hw_i, hh_i, hw_i, hh_i));
                assert(canvas.px(x, y) == c3.px(x, y));
            } else if in_rect(x, y, hw_i, hh_i, hw_i, hh_i) {
                assert(canvas.px(x, y) == opaque(yellow()));
            } else {
                assert(canvas.px(x, y) == c3.px(x, y));
                assert(c3.px(x, y) == c2.px(x, y));
                if 0 <= x < hw_i && 0 <= y < hh_i {
                    assert(!in_rect(x, y, hw_i, 0, hw_i, hh_i));
                    assert(c2.px(x, y) == c1.px(x, y));
                    assert(in_rect(x, y, 0, 0, hw_i, hh_i));
                    assert(c1.px(x, y) == r1.px(x, y));
                } else if hw_i <= x < 2 * hw_i && 0 <= y < hh_i {
                    assert(in_rect(x, y, hw_i, 0, hw_i, hh_i));
                    assert(c2.px(x, y) == r2.px(x - hw_i, y));
                } else {
                    assert(!in_rect(x, y, hw_i, 0, hw_i, hh_i));
                    assert(!in_rect(x, y, 0, 0, hw_i, hh_i));
                    assert(c2.px(x, y) == c1.px(x, y));
                    assert(c1.px(x, y) == transparent());
                }
            }
        }
        lemma_matches_fgt_base(&canvas, *photon_img, *photon_img2);
        reveal_strlit("Daisies In the Underground");
        crate::font::lemma_resolve_default();
        vstd::arithmetic::div_mod::lemma_div_denominator(height as int, 2, 2);
    }
    let ok = draw_text(
        &mut canvas,
        store,
        "Daisies In the Underground",
        hw + 30,
        hh / 2,
        "Roboto-Bold",
        30,
    );
    if ok {
        Some(canvas)
    } else {
        None
    }
}

/// The pixel under the caption of the split template: the left half is a
/// solid white panel, the right half holds the two sources stacked,
/// leftovers stay transparent.
pub open spec fn split_text_base_px(
    img1: PixelBuffer,
    img2: PixelBuffer,
    w: int,
    h: int,
    x: int,
    y: int,
) -> Rgba {
    let hw = w / 2;
    let hh = h / 2;
    if in_rect(x, y, 0, 0, hw, 2 * hh) {
        opaque(white())
    } else if in_rect(x, y, hw, 0, hw, hh) {
        nn_px(img1, hw, hh, x - hw, y)
    } else if in_rect(x, y, hw, hh, hw, hh) {
        nn_px(img2, hw, hh, x - hw, y - hh)
    } else {
        transparent()
    }
}

/// The byte sequence under the caption of the split template.
pub open spec fn split_text_base(img1: PixelBuffer, img2: PixelBuffer, w: int, h: int) -> Seq<u8> {
    canvas_of(w, h, |x: int, y: int| split_text_base_px(img1, img2, w, h, x, y))
}

/// A buffer whose pixels all match `split_text_base_px` holds the bytes of
/// `split_text_base`.
proof fn lemma_matches_split_base(buf: &PixelBuffer, img1: PixelBuffer, img2: PixelBuffer)
    requires
        buf.wf(),
        forall|x: int, y: int|
            buf.in_bounds(x, y) ==> buf.px(x, y) == split_text_base_px(
                img1,
                img2,
                buf.width as int,
                buf.height as int,
                x,
                y,
            ),
    ensures
        buf.pixels@ == split_text_base(img1, img2, buf.width as int, buf.height as int),
{
    let w = buf.width as int;
    let h = buf.height as int;
    let g = (|x: int, y: int| split_text_base_px(img1, img2, w, h, x, y));
    lemma_buffer_matches_canvas(buf, g);
    assert(split_text_base(img1, img2, w, h) =~= canvas_of(w, h, g));
}

/// Split-pane collage with caption: the left half is a solid white panel
/// carrying the fixed caption, the right half holds the two sources stacked.
/// The caption names the font "BebasKai", which the table does not know, so
/// it falls back to the default font; it is drawn in white at point size 80.
/// Returns `None`, and builds nothing, exactly when the stored bytes of the
/// default font do not parse.
pub fn split_imgs_text(
    photon_img: &PixelBuffer,
    photon_img2: &PixelBuffer,
    store: &FontStore,
    width: u32,
    height: u32,
) -> (r: Option<PixelBuffer>)
    requires
        valid_src(*photon_img),
        valid_src(*photon_img2),
        width >= 2,
        height >= 40,
        height <= COORD_MAX,
        4 * (width as int) * (height as int) <= usize::MAX,
    ensures
        r is Some <==> font_parses(store.spec_get(FontId::RobotoBold)),
        r matches Some(out) ==> out.wf() && out.width == width && out.height == height
            && out.pixels@ == text_blit(
            split_text_base(*photon_img, *photon_img2, width as int, height as int),
            width,
            height,
            store.spec_get(FontId::RobotoBold),
            "Life Is An Adventure"@,
            55,
            (height as int / 4 - 10) as u32,
            80,
            255,
            255,
            255,
        ),
{
    let hw = width / 2;
    let hh = height / 2;
    proof {
        lemma_mul_inequality(4 * (hw as int), 4 * (width as int), hh as int);
        lemma_mul_inequality(hh as int, height as int, 4 * (width as int));
        assert(4 * (width as int) * (hh as int) == (hh as int) * (4 * (width as int)));
        assert(4 * (hw as int) * (hh as int) <= 4 * (width as int) * (height as int));
    }
    let r1 = resize(photon_img, hw, hh);
    let r2 = resize(photon_img2, hw, hh);
    let mut canvas = PixelBuffer::new_canvas(width, height);
    overlay(&mut canvas, &r1, hw, 0);
    let ghost c1 = canvas;
    overlay(&mut canvas, &r2, hw, hh);
    let ghost c2 = canvas;
    fill_rect(&mut canvas, Rgb { r: 255, g: 255, b: 255 }, 2 * hh, hw, 0, 0);
    proof {
        let hw_i = hw as int;
        let hh_i = hh as int;
        assert forall|x: int, y: int| canvas.in_bounds(x, y) implies canvas.px(x, y)
            == split_text_base_px(
            *photon_img,
            *photon_img2,
            width as int,
            height as int,
            x,
            y,
        ) by {
            if in_rect(x, y, 0, 0, hw_i, 2 * hh_i) {
                assert(canvas.px(x, y) == opaque(white()));
            } else {
                assert(canvas.px(x, y) == c2.px(x, y));
                if in_rect(x, y, hw_i, 0, hw_i, hh_i) {
                    assert(!in_rect(x, y, hw_i, hh_i, hw_i, hh_i));
                    assert(c2.px(x, y) == c1.px(x, y));
                    assert(c1.px(x, y) == r1.px(x - hw_i, y));
                } else if in_rect(x, y, hw_i, hh_i, hw_i, hh_i) {
                    assert(c2.px(x, y) == r2.px(x - hw_i, y - hh_i));
                } else {
                    assert(c2.px(x, y) == c1.px(x, y));
                    assert(!in_rect(x, y, hw_i, 0, hw_i, hh_i));
                    assert(c1.px(x, y) == transparent());
                }
            }
        }
        lemma_matches_split_base(&canvas, *photon_img, *photon_img2);
        reveal_strlit("Life Is An Adventure");
        crate::font::lemma_resolve_bebaskai();
        vstd::arithmetic::div_mod::lemma_div_denominator(height as int, 2, 2);
    }
    let ok = draw_text(&mut canvas, store, "Life Is An Adventure", 45, hh / 2, "BebasKai", 80);
    if ok {
        Some(canvas)
    } else {
        None
    }
}

/// `num / den` of `v`, rounded down.
pub open spec fn pct(v: int, num: int, den: int) -> int {
    v * num / den
}

/// A fraction of a nonnegative value is between zero and the value.
proof fn lemma_pct_le(v: int, num: int, den: int)
    requires
        0 <= v,
        0 <= num <= den,
        0 < den,
    ensures
        0 <= pct(v, num, den) <= v,
{
    lemma_mul_nonnegative(v, num);
    lemma_div_pos_is_pos(v * num, den);
    lemma_mul_inequality(num, den, v);
    assert(v * num == num * v);
    assert(v * den == den * v);
    lemma_div_is_ordered(v * num, v * den, den);
    lemma_div_multiples_vanish(v, den);
}

/// A fraction is monotone in its base value.
proof fn lemma_pct_mono(v: int, vmax: int, num: int, den: int)
    requires
        0 <= v <= vmax,
        0 <= num,
        0 < den,
    ensures
        pct(v, num, den) <= pct(vmax, num, den),
{
    lemma_mul_inequality(v, vmax, num);
    lemma_div_is_ordered(v * num, vmax * num, den);
}

/// Executable percentage: `v * num / den`.
fn pct_u32(v: u32, num: u64, den: u64) -> (r: u32)
    requires
        1 <= den <= 100,
        num <= den,
    ensures
        r == pct(v as int, num as int, den as int),
        r <= v,
{
    proof {
        crate::pixel::lemma_mul_fits_u64(v as int, num as int);
        lemma_pct_le(v as int, num as int, den as int);
    }
    ((v as u64) * num / den) as u32
}

/// The vertical position of the j-th caption line: the fixed starting
/// fraction of the height (4 / 20) plus 3 / 20 per line.
pub open spec fn word_y(h: int, j: int) -> int {
    h * (4 + 3 * j) / 20
}

/// Caption lines sit at least ten pixels down.
proof fn lemma_word_y_bounds(h: int, j: int)
    requires
        50 <= h,
        0 <= j,
    ensures
        10 <= word_y(h, j),
{
    lemma_mul_inequality(4, 4 + 3 * j, h);
    assert(h * 4 == 4 * h);
    assert(h * (4 + 3 * j) == (4 + 3 * j) * h);
    lemma_div_is_ordered(h * 4, h * (4 + 3 * j), 20);
    lemma_mul_inequality(50, h, 4);
    assert(50 * 4 == 200);
    lemma_div_is_ordered(200, h * 4, 20);
}

/// The pixels after the words of `s` named by the ranges `rs[j..]` have been
/// drawn in order, each at the fixed horizontal fraction 8 / 25 of the width
/// and at its line's vertical position, in white at point size 100 — that
/// is, blitted at the ten-right, ten-up offset the text routine uses.  A
/// line whose position passes the renderer's coordinate bound is not drawn
/// at all; any such line lies below every admissible canvas anyway.
pub open spec fn words_layer(
    p: Seq<u8>,
    w: u32,
    h: u32,
    font: Seq<u8>,
    s: Seq<char>,
    rs: Seq<(int, int)>,
    j: int,
) -> Seq<u8>
    decreases rs.len() - j,
{
    if j < 0 || j >= rs.len() {
        p
    } else if word_y(h as int, j) > COORD_MAX {
        words_layer(p, w, h, font, s, rs, j + 1)
    } else {
        words_layer(
            text_blit(
                p,
                w,
                h,
                font,
                s.subrange(rs[j].0, rs[j].1),
                (pct(w as int, 8, 25) + 10) as u32,
                (word_y(h as int, j) - 10) as u32,
                100,
                255,
                255,
                255,
            ),
            w,
            h,
            font,
            s,
            rs,
            j + 1,
        )
    }
}

/// The pixel under the caption of the centre-square template: the 2 x 2 grid
/// of the four sources, with a white rectangle spanning 30% to 60% of the
/// width and 15% to 95% of the height.
pub open spec fn center_square_base_px(
    img1: PixelBuffer,
    img2: PixelBuffer,
    img3: PixelBuffer,
    img4: PixelBuffer,
    w: int,
    h: int,
    x: int,
    y: int,
) -> Rgba {
    if in_rect(x, y, pct(w, 3, 10), pct(h, 3, 20), pct(w, 3, 10), pct(h, 4, 5)) {
        opaque(white())
    } else {
        four_grid_px(img1, img2, img3, img4, w, h, x, y)
    }
}

/// The byte sequence under the caption of the centre-square template.
pub open spec fn center_square_base(
    img1: PixelBuffer,
    img2: PixelBuffer,
    img3: PixelBuffer,
    img4: PixelBuffer,
    w: int,
    h: int,
) -> Seq<u8> {
    canvas_of(w, h, |x: int, y: int| center_square_base_px(img1, img2, img3, img4, w, h, x, y))
}

/// A buffer whose pixels all match `center_square_base_px` holds the bytes
/// of `center_square_base`.
proof fn lemma_matches_cs_base(
    buf: &PixelBuffer,
    img1: PixelBuffer,
    img2: PixelBuffer,
    img3: PixelBuffer,
    img4: PixelBuffer,
)
    requires
        buf.wf(),
        forall|x: int, y: int|
            buf.in_bounds(x, y) ==> buf.px(x, y) == center_square_base_px(
                img1,
                img2,
                img3,
                img4,
                buf.width as int,
                buf.height as int,
                x,
                y,
            ),
    ensures
        buf.pixels@ == center_square_base(
            img1,
            img2,
            img3,
            img4,
            buf.width as int,
            buf.height as int,
        ),
{
    let w = buf.width as int;
    let h = buf.height as int;
    let g = (|x: int, y: int| center_square_base_px(img1, img2, img3, img4, w, h, x, y));
    lemma_buffer_matches_canvas(buf, g);
    assert(center_square_base(img1, img2, img3, img4, w, h) =~= canvas_of(w, h, g));
}

/// Four-panel collage with a centred square of caption text: the 2 x 2 grid
/// of the four sources, a white rectangle spanning 30% to 60% of the width
/// and 15% to 95% of the height, and the caption's whitespace-separated
/// words stacked inside it, one line each, offset 0.15 of the height per
/// line.  The words name the font "BebasKai", which the table does not know,
/// so they fall back to the default font at point size 100.  A caption with
/// no words draws nothing and never touches the fonts.  Returns `None`, and
/// builds nothing, exactly when the caption has words and the stored bytes
/// of the default font do not parse.
pub fn four_grid_center_square(
    photon_img: &PixelBuffer,
    photon_img2: &PixelBuffer,
    photon_img3: &PixelBuffer,
    photon_img4: &PixelBuffer,
    store: &FontStore,
    text: &str,
    width: u32,
    height: u32,
) -> (r: Option<PixelBuffer>)
    requires
        valid_src(*photon_img),
        valid_src(*photon_img2),
        valid_src(*photon_img3),
        valid_src(*photon_img4),
        width >= 2,
        height >= 2,
        word_ranges_from(text@, 0).len() > 0 ==> height >= 50 && width <= COORD_MAX && height
            <= COORD_MAX,
        text@.len() <= TEXT_MAX,
        4 * (width as int) * (height as int) <= usize::MAX,
    ensures
        r is Some <==> (word_ranges_from(text@, 0).len() == 0 || font_parses(
            store.spec_get(FontId::RobotoBold),
        )),
        r matches Some(out) ==> out.wf() && out.width == width && out.height == height
            && out.pixels@ == words_layer(
            center_square_base(
                *photon_img,
                *photon_img2,
                *photon_img3,
                *photon_img4,
                width as int,
                height as int,
            ),
            width,
            height,
            store.spec_get(FontId::RobotoBold),
            text@,
            word_ranges_from(text@, 0),
            0,
        ),
{
    let mut canvas = four_grid(photon_img, photon_img2, photon_img3, photon_img4, width, height);
    let ghost c0 = canvas;
    let rx = pct_u32(width, 3, 10);
    let ry = pct_u32(height, 3, 20);
    let rw = pct_u32(width, 3, 10);
    let rh = pct_u32(height, 4, 5);
    fill_rect(&mut canvas, Rgb { r: 255, g: 255, b: 255 }, rh, rw, rx, ry);
    proof {
        assert forall|x: int, y: int| canvas.in_bounds(x, y) implies canvas.px(x, y)
            == center_square_base_px(
            *photon_img,
            *photon_img2,
            *photon_img3,
            *photon_img4,
            width as int,
            height as int,
            x,
            y,
        ) by {
            if in_rect(x, y, rx as int, ry as int, rw as int, rh as int) {
                assert(canvas.px(x, y) == opaque(white()));
            } else {
                assert(canvas.px(x, y) == c0.px(x, y));
            }
        }
        lemma_matches_cs_base(&canvas, *photon_img, *photon_img2, *photon_img3, *photon_img4);
        crate::font::lemma_resolve_bebaskai();
        lemma_word_ranges(text@, 0);
    }
    let ranges = split_words(text);
    let ghost rs0 = word_ranges_from(text@, 0);
    if ranges.is_empty() {
        proof {
            assert(rs0.len() == 0);
            assert(words_layer(
                canvas.pixels@,
                width,
                height,
                store.spec_get(FontId::RobotoBold),
                text@,
                rs0,
                0,
            ) == canvas.pixels@);
        }
        return Some(canvas);
    }
    let bytes = store.get(FontId::RobotoBold);
    if !font_ok(bytes) {
        return None;
    }
    let ghost base = canvas.pixels@;
    let ghost rs = word_ranges_from(text@, 0);
    let ghost fontseq = store.spec_get(FontId::RobotoBold);
    let n = ranges.len();
    let mut j: usize = 0;
    while j < n
        invariant
            canvas.wf(),
            canvas.width == width,
            canvas.height == height,
            n == ranges@.len(),
            n == rs.len(),
            0 <= j <= n,
            rs == word_ranges_from(text@, 0),
            forall|k: int|
                0 <= k < n ==> (#[trigger] ranges@[k]).0 == rs[k].0 && ranges@[k].1 == rs[k].1,
            forall|k: int| 0 <= k < n ==> 0 <= (#[trigger] rs[k]).0 < rs[k].1 <= text@.len(),
            n <= text@.len(),
            text@.len() <= TEXT_MAX,
            height >= 50,
            width <= COORD_MAX,
            height <= COORD_MAX,
            font_parses(fontseq),
            fontseq == store.spec_get(FontId::RobotoBold),
            spec_resolve_font("BebasKai"@) == FontId::RobotoBold,
            words_layer(base, width, height, fontseq, text@, rs, 0) == words_layer(
                canvas.pixels@,
                width,
                height,
                fontseq,
                text@,
                rs,
                j as int,
            ),
        decreases n - j,
    {
        proof {
            crate::pixel::lemma_mul_fits_u64(height as int, 4 + 3 * (j as int));
        }
        let v = (height as u64) * (4 + 3 * (j as u64)) / 20;
        if v <= COORD_MAX as u64 {
            let rng = ranges[j];
            let word = text.substring_char(rng.0, rng.1);
            let xw = pct_u32(width, 8, 25);
            let yj = v as u32;
            proof {
                lemma_word_y_bounds(height as int, j as int);
                lemma_pct_mono(width as int, COORD_MAX as int, 8, 25);
                assert(pct(COORD_MAX as int, 8, 25) + 10 <= COORD_MAX);
            }
            let ghost before = canvas.pixels@;
            let ok2 = draw_text(&mut canvas, store, word, xw, yj, "BebasKai", 100);
            proof {
                assert(ok2);
                assert(word@ == text@.subrange(rs[j as int].0, rs[j as int].1));
                assert(words_layer(before, width, height, fontseq, text@, rs, j as int)
                    == words_layer(canvas.pixels@, width, height, fontseq, text@, rs, j as int + 1));
            }
        } else {
            proof {
                assert(word_y(height as int, j as int) > COORD_MAX);
                assert(words_layer(canvas.pixels@, width, height, fontseq, text@, rs, j as int)
                    == words_layer(canvas.pixels@, width, height, fontseq, text@, rs, j as int + 1));
            }
        }
        j = j + 1;
    }
    Some(canvas)
}

} // verus!
