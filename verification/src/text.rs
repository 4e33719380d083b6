//! Text rendering: glyph rasterization, mask dilation, and the two public
//! drawing routines.
//!
//! Glyph rasterization is done by an outside font engine; its output is
//! named, not restated: `glyph_mask` and `text_blit` stand for what the
//! engine produces, a function of the font bytes, the text, the position and
//! the scale alone.  Mask dilation has a short exact description and is
//! stated in full.  Everything that reads the mask back — the border paint —
//! is verified.

use vstd::prelude::*;
use crate::pixel::{PixelBuffer, Rgba, rgba_comp, pixel_at, pix_idx, lemma_quad_bound,
    lemma_pix_idx_bounds, lemma_px_determines_pixels};
use crate::font::{FontStore, FontId, spec_resolve_font, resolve_font};

verus! {

/// Coordinates handed to the font engine stay below this bound (2^29), so
/// that the engine's internal 32-bit pixel positions cannot overflow.
pub const COORD_MAX: u32 = 0x2000_0000;

/// Upper bound on the number of characters drawn in one call.  Together
/// with `SIZE_MAX` and the metrics that `font_parses` validates it bounds
/// the engine's pen position: the engine scales font units by
/// size / (ascender - descender), the validated fonts keep that denominator
/// at or above 16, advances and kerning values are 16-bit, so one glyph
/// moves the pen by at most (65535 + 32768) * SIZE_MAX / 16 pixels and
/// TEXT_MAX glyphs reach at most 1.58e9; adding a start coordinate below
/// `COORD_MAX` and a glyph extent (at most 32768 * SIZE_MAX / 16) keeps
/// every 32-bit position the engine computes below 2^31, in any build
/// profile.
pub const TEXT_MAX: usize = 1000;

/// Upper bound on the point size handed to the font engine; see `TEXT_MAX`.
pub const SIZE_MAX: u16 = 256;

/// Whether the renderer accepts these bytes as a font: they parse, and the
/// tables the render path reads are present and sane (see `font_ok`).  The
/// answer is a function of the bytes alone.
pub uninterp spec fn font_parses(font: Seq<u8>) -> bool;

/// The single-channel coverage mask, `w * h` bytes, produced by rendering
/// `text` at (x, y) with the given font and point size onto a blank mask.
pub uninterp spec fn glyph_mask(
    w: u32,
    h: u32,
    font: Seq<u8>,
    text: Seq<char>,
    x: u32,
    y: u32,
    size: u16,
) -> Seq<u8>;

/// The RGBA bytes produced by drawing `text` at (x, y) in color (r, g, b)
/// over the given pixels.
pub uninterp spec fn text_blit(
    p: Seq<u8>,
    w: u32,
    h: u32,
    font: Seq<u8>,
    text: Seq<char>,
    x: u32,
    y: u32,
    size: u16,
    r: u8,
    g: u8,
    b: u8,
) -> Seq<u8>;

/// Whether (x, y) is a foreground (nonzero) pixel of a `w` by `h`
/// single-channel mask.
pub open spec fn is_fg(m: Seq<u8>, w: int, h: int, x: int, y: int) -> bool {
    0 <= x < w && 0 <= y < h && m[y * w + x] != 0
}

/// Whether some foreground pixel lies within chessboard distance `k` of
/// (x, y).
pub open spec fn near_fg(m: Seq<u8>, w: int, h: int, x: int, y: int, k: int) -> bool {
    exists|x2: int, y2: int|
        is_fg(m, w, h, x2, y2) && x - k <= x2 <= x + k && y - k <= y2 <= y + k
}

/// The value distances saturate at in the outside dilation routine.
pub open spec fn dist_cap(w: int, h: int) -> int {
    if w + h < 255 {
        w + h
    } else {
        255
    }
}

/// The mask after morphological dilation with radius `k` under the
/// chessboard norm: a pixel becomes 255 exactly when a foreground pixel lies
/// within distance `k`, and 0 otherwise.
pub open spec fn dilated(m: Seq<u8>, w: int, h: int, k: int) -> Seq<u8> {
    Seq::new(
        m.len(),
        |i: int|
            (if near_fg(m, w, h, i % w, i / w, k) {
                255u8
            } else {
                0u8
            }),
    )
}

/// What the outside dilation routine computes: `dilated`, except that its
/// distances saturate at `dist_cap`, so when the cap itself is at most `k`
/// every pixel comes out 255.
pub open spec fn dilated_capped(m: Seq<u8>, w: int, h: int, k: int) -> Seq<u8> {
    Seq::new(
        m.len(),
        |i: int|
            (if near_fg(m, w, h, i % w, i / w, k) || dist_cap(w, h) <= k {
                255u8
            } else {
                0u8
            }),
    )
}

/// Where the distance cap exceeds the radius, the outside routine computes
/// the true dilation.
proof fn lemma_dilated_uncapped(m: Seq<u8>, w: int, h: int, k: int)
    requires
        dist_cap(w, h) > k,
    ensures
        dilated_capped(m, w, h, k) == dilated(m, w, h, k),
{
    assert(dilated_capped(m, w, h, k) =~= dilated(m, w, h, k));
}

/// On a canvas whose dimensions sum to at most the radius, every pixel is
/// within the radius of every other, so the true dilation is uniform: all
/// 255 when any foreground pixel exists, all 0 otherwise.
proof fn lemma_dilated_tiny(m: Seq<u8>, w: int, h: int, k: int)
    requires
        0 <= w,
        0 <= h,
        w + h <= k,
        m.len() == w * h,
    ensures
        (exists|j: int| 0 <= j < m.len() && m[j] != 0) ==> dilated(m, w, h, k) == Seq::new(
            m.len(),
            |i: int| 255u8,
        ),
        !(exists|j: int| 0 <= j < m.len() && m[j] != 0) ==> dilated(m, w, h, k) == Seq::new(
            m.len(),
            |i: int| 0u8,
        ),
{
    lemma_quad_bound(w, h);
    if exists|j: int| 0 <= j < m.len() && m[j] != 0 {
        let j = choose|j: int| 0 <= j < m.len() && m[j] != 0;
        assert forall|i: int| 0 <= i < m.len() implies dilated(m, w, h, k)[i] == 255u8 by {
            lemma_mask_decode(w, h, j);
            lemma_mask_decode(w, h, i);
            vstd::arithmetic::div_mod::lemma_fundamental_div_mod(j, w);
            let x2 = j % w;
            let y2 = j / w;
            assert(is_fg(m, w, h, x2, y2));
            let x = i % w;
            let y = i / w;
            assert(x - k <= x2 <= x + k && y - k <= y2 <= y + k);
            assert(near_fg(m, w, h, x, y, k));
        }
        assert(dilated(m, w, h, k) =~= Seq::new(m.len(), |i: int| 255u8));
    } else {
        lemma_dilated_no_ink(m, w, h, k);
    }
}

/// A mask with no foreground pixel dilates to all zeros.
proof fn lemma_dilated_no_ink(m: Seq<u8>, w: int, h: int, k: int)
    requires
        m.len() == w * h,
        0 <= w,
        0 <= h,
        !(exists|j: int| 0 <= j < m.len() && m[j] != 0),
    ensures
        dilated(m, w, h, k) == Seq::new(m.len(), |i: int| 0u8),
{
    lemma_quad_bound(w, h);
    assert forall|i: int| 0 <= i < m.len() implies dilated(m, w, h, k)[i] == 0u8 by {
        if near_fg(m, w, h, i % w, i / w, k) {
            let (x2, y2) = choose|x2: int, y2: int|
                is_fg(m, w, h, x2, y2) && (i % w) - k <= x2 <= (i % w) + k && (i / w) - k <= y2
                    <= (i / w) + k;
            lemma_pix_idx_bounds(w, h, x2, y2);
            assert(0 <= y2 * w + x2 < m.len() && m[y2 * w + x2] != 0);
        }
    }
    assert(dilated(m, w, h, k) =~= Seq::new(m.len(), |i: int| 0u8));
}

/// A byte index of a `w` by `h` mask decodes to in-bounds coordinates.
proof fn lemma_mask_decode(w: int, h: int, i: int)
    requires
        0 < w,
        0 < h,
        0 <= i < w * h,
    ensures
        0 <= i % w < w,
        0 <= i / w < h,
{
    vstd::arithmetic::div_mod::lemma_mod_bound(i, w);
    vstd::arithmetic::div_mod::lemma_div_pos_is_pos(i, w);
    vstd::arithmetic::div_mod::lemma_multiply_divide_lt(i, w, h);
}

/// The fixed color of the dilated text border.
pub open spec fn border_color() -> Rgba {
    Rgba { r: 234, g: 23, b: 123, a: 255 }
}

/// The RGBA bytes of `p` with every pixel whose mask byte is nonzero
/// replaced by `border_color`.
pub open spec fn border_painted(p: Seq<u8>, mask: Seq<u8>) -> Seq<u8> {
    Seq::new(
        p.len(),
        |i: int|
            (if mask[i / 4] != 0 {
                rgba_comp(border_color(), i % 4)
            } else {
                p[i]
            }),
    )
}

/// Reading a pixel back from `border_painted` gives the border color over
/// foreground mask bytes and the untouched pixel elsewhere.
proof fn lemma_border_painted_px(p: Seq<u8>, mask: Seq<u8>, w: int, h: int)
    requires
        0 <= w,
        0 <= h,
        p.len() == 4 * w * h,
        mask.len() == w * h,
    ensures
        border_painted(p, mask).len() == p.len(),
        forall|x: int, y: int|
            0 <= x < w && 0 <= y < h ==> pixel_at(border_painted(p, mask), w, x, y) == (if mask[y
                * w + x] != 0 {
                border_color()
            } else {
                pixel_at(p, w, x, y)
            }),
{
    lemma_quad_bound(w, h);
    assert forall|x: int, y: int| 0 <= x < w && 0 <= y < h implies pixel_at(
        border_painted(p, mask),
        w,
        x,
        y,
    ) == (if mask[y * w + x] != 0 {
        border_color()
    } else {
        pixel_at(p, w, x, y)
    }) by {
        lemma_pix_idx_bounds(w, h, x, y);
        lemma_border_comp(p, mask, w, h, x, y, 0);
        lemma_border_comp(p, mask, w, h, x, y, 1);
        lemma_border_comp(p, mask, w, h, x, y, 2);
        lemma_border_comp(p, mask, w, h, x, y, 3);
    }
}

/// One byte of `border_painted` decodes to the matching component.
proof fn lemma_border_comp(p: Seq<u8>, mask: Seq<u8>, w: int, h: int, x: int, y: int, c: int)
    requires
        0 <= x < w,
        0 <= y < h,
        0 <= c < 4,
        p.len() == 4 * w * h,
        mask.len() == w * h,
    ensures
        border_painted(p, mask)[pix_idx(w, x, y) + c] == (if mask[y * w + x] != 0 {
            rgba_comp(border_color(), c)
        } else {
            p[pix_idx(w, x, y) + c]
        }),
{
    lemma_quad_bound(w, h);
    lemma_pix_idx_bounds(w, h, x, y);
    let base = pix_idx(w, x, y);
    vstd::arithmetic::div_mod::lemma_fundamental_div_mod_converse_div(base + c, 4, y * w + x, c);
    vstd::arithmetic::div_mod::lemma_fundamental_div_mod_converse_mod(base + c, 4, y * w + x, c);
}

/// Relies on ttf_parser::Face::from_slice — the same parse, at the same
/// version, that rusttype performs — plus the tables the render path reads:
/// the hhea ascender minus descender, the denominator of rusttype's pixel
/// scale, is at least 16 font units; every glyph has horizontal metrics
/// (rusttype's layout unwraps them); and every glyph the character map
/// resolves stays below the glyph count (rusttype's glyph lookup asserts
/// it).  All of it is a function of the bytes alone.
#[verifier::external_body]
pub(crate) fn font_ok(font_bytes: &Vec<u8>) -> (r: bool)
    ensures
        r == font_parses(font_bytes@),
{
    let face = match ttf_parser::Face::from_slice(font_bytes.as_slice(), 0) {
        Ok(f) => f,
        Err(_) => return false,
    };
    let n = face.number_of_glyphs();
    (face.ascender() as i32) - (face.descender() as i32) >= 16 && (0..n).all(|g| {
        let id = ttf_parser::GlyphId(g);
        face.glyph_hor_advance(id).is_some() && face.glyph_hor_side_bearing(id).is_some()
    }) && (0u32..=0x10FFFF).all(|c| match char::from_u32(c) {
        Some(ch) => face.glyph_index(ch).map_or(true, |id| id.0 < n),
        None => true,
    })
}

/// Relies on rusttype font parsing and imageproc::drawing::draw_text_mut:
/// the coverage mask rendered on a blank single-channel canvas is a function
/// of the canvas size, font bytes, text, position and scale alone, and has
/// one byte per canvas pixel.  The text, size and coordinate bounds keep the
/// engine's 32-bit pixel positions below 2^31 for every parseable font (see
/// `TEXT_MAX`).
#[verifier::external_body]
fn rasterize_mask(
    w: u32,
    h: u32,
    font_bytes: &Vec<u8>,
    text: &str,
    x: u32,
    y: u32,
    size: u16,
) -> (mask: Vec<u8>)
    requires
        font_parses(font_bytes@),
        (w as int) * (h as int) <= usize::MAX,
        x <= COORD_MAX,
        y <= COORD_MAX,
        text@.len() <= TEXT_MAX,
        size <= SIZE_MAX,
    ensures
        mask@ == glyph_mask(w, h, font_bytes@, text@, x, y, size),
        mask@.len() == (w as int) * (h as int),
        text@.len() == 0 ==> forall|i: int| 0 <= i < mask@.len() ==> mask@[i] == 0,
{
    let font = rusttype::Font::try_from_bytes(font_bytes.as_slice()).unwrap();
    let scale = rusttype::Scale { x: size.into(), y: size.into() };
    let mut canvas = image::GrayImage::new(w, h);
    imageproc::drawing::draw_text_mut(&mut canvas, image::Luma([255u8]), x, y, scale, &font, text);
    canvas.into_raw()
}

/// Relies on imageproc::morphology::dilate_mut under the L-infinity norm:
/// it computes each pixel's chessboard distance to the nearest nonzero
/// pixel, saturated at min(w + h, 255), then maps distances at most `k` to
/// 255 and the rest to 0, in place.  The routine adds the two dimensions in
/// 32 bits, so their sum must fit.
#[verifier::external_body]
fn dilate_linf(mask: &mut Vec<u8>, w: u32, h: u32, k: u8)
    requires
        old(mask)@.len() == (w as int) * (h as int),
        w as int + h as int <= u32::MAX,
    ensures
        final(mask)@ == dilated_capped(old(mask)@, w as int, h as int, k as int),
        final(mask)@.len() == old(mask)@.len(),
{
    let mut img = image::GrayImage::from_raw(w, h, std::mem::take(mask)).unwrap();
    imageproc::morphology::dilate_mut(&mut img, imageproc::distance_transform::Norm::LInf, k);
    *mask = img.into_raw();
}

/// Relies on rusttype font parsing and imageproc::drawing::draw_text_mut:
/// drawing text over an RGBA canvas blends glyphs in place, is a function of
/// the prior pixels, font bytes, text, position, scale and color alone, and
/// keeps the canvas dimensions.  The text, size and coordinate bounds keep
/// the engine's 32-bit pixel positions below 2^31 for every parseable font
/// (see `TEXT_MAX`).
#[verifier::external_body]
fn blit_text(
    img: &mut PixelBuffer,
    font_bytes: &Vec<u8>,
    text: &str,
    x: u32,
    y: u32,
    size: u16,
    r: u8,
    g: u8,
    b: u8,
)
    requires
        old(img).wf(),
        font_parses(font_bytes@),
        x <= COORD_MAX,
        y <= COORD_MAX,
        text@.len() <= TEXT_MAX,
        size <= SIZE_MAX,
    ensures
        final(img).width == old(img).width,
        final(img).height == old(img).height,
        final(img).wf(),
        final(img).pixels@ == text_blit(
            old(img).pixels@,
            old(img).width,
            old(img).height,
            font_bytes@,
            text@,
            x,
            y,
            size,
            r,
            g,
            b,
        ),
        text@.len() == 0 ==> final(img).pixels@ == old(img).pixels@,
{
    let font = rusttype::Font::try_from_bytes(font_bytes.as_slice()).unwrap();
    let scale = rusttype::Scale { x: size.into(), y: size.into() };
    let w = img.width;
    let h = img.height;
    let mut canvas = image::RgbaImage::from_raw(w, h, std::mem::take(&mut img.pixels)).unwrap();
    imageproc::drawing::draw_text_mut(&mut canvas, image::Rgba([r, g, b, 255u8]), x, y, scale, &font, text);
    img.pixels = canvas.into_raw();
}

/// A pristine mask paints nothing.
proof fn lemma_border_painted_blank(p: Seq<u8>, mask: Seq<u8>)
    requires
        p.len() == 4 * mask.len(),
        forall|i: int| 0 <= i < mask.len() ==> mask[i] == 0,
    ensures
        border_painted(p, mask) == p,
{
    assert forall|i: int| 0 <= i < p.len() implies border_painted(p, mask)[i] == p[i] by {
        vstd::arithmetic::div_mod::lemma_div_pos_is_pos(i, 4);
        vstd::arithmetic::div_mod::lemma_multiply_divide_lt(i, 4, mask.len() as int);
        assert(mask[i / 4] == 0);
    }
    assert(border_painted(p, mask) =~= p);
}

/// Whether any byte of the mask is nonzero.
fn any_nonzero(mask: &Vec<u8>) -> (r: bool)
    ensures
        r == exists|i: int| 0 <= i < mask@.len() && mask@[i] != 0,
{
    let n = mask.len();
    let mut i: usize = 0;
    while i < n
        invariant
            0 <= i <= n,
            n == mask@.len(),
            forall|j: int| 0 <= j < i ==> mask@[j] == 0,
        decreases n - i,
    {
        if mask[i] != 0 {
            proof {
                assert(mask@[i as int] != 0);
            }
            return true;
        }
        i = i + 1;
    }
    false
}

/// Overwrite every byte of the mask with `v`.
fn fill_mask(mask: &mut Vec<u8>, v: u8)
    ensures
        final(mask)@.len() == old(mask)@.len(),
        forall|i: int| 0 <= i < final(mask)@.len() ==> final(mask)@[i] == v,
{
    let n = mask.len();
    let mut i: usize = 0;
    while i < n
        invariant
            0 <= i <= n,
            mask@.len() == n,
            forall|j: int| 0 <= j < i ==> mask@[j] == v,
        decreases n - i,
    {
        mask[i] = v;
        i = i + 1;
    }
}

/// Paint every pixel whose mask byte is nonzero with `color`; leave the
/// rest untouched.
fn paint_where_mask(img: &mut PixelBuffer, mask: &Vec<u8>, color: Rgba)
    requires
        old(img).wf(),
        mask@.len() == (old(img).width as int) * (old(img).height as int),
    ensures
        final(img).wf(),
        final(img).width == old(img).width,
        final(img).height == old(img).height,
        forall|x: int, y: int|
            final(img).in_bounds(x, y) ==> final(img).px(x, y) == (if mask@[y * old(img).width + x]
                != 0 {
                color
            } else {
                old(img).px(x, y)
            }),
{
    let w = img.width;
    let h = img.height;
    let mut cy: u32 = 0;
    while cy < h
        invariant
            img.wf(),
            img.width == w,
            img.height == h,
            img.width == old(img).width,
            img.height == old(img).height,
            mask@.len() == (w as int) * (h as int),
            0 <= cy <= h,
            forall|x: int, y: int|
                img.in_bounds(x, y) && y < cy ==> img.px(x, y) == (if mask@[y * w + x] != 0 {
                    color
                } else {
                    old(img).px(x, y)
                }),
            forall|x: int, y: int|
                img.in_bounds(x, y) && y >= cy ==> img.px(x, y) == old(img).px(x, y),
        decreases h as int - cy as int,
    {
        let mut cx: u32 = 0;
        while cx < w
            invariant
                img.wf(),
                img.width == w,
                img.height == h,
                img.width == old(img).width,
                img.height == old(img).height,
                mask@.len() == (w as int) * (h as int),
                0 <= cy < h,
                0 <= cx <= w,
                forall|x: int, y: int|
                    img.in_bounds(x, y) && (y < cy || (y == cy && x < cx)) ==> img.px(x, y) == (
                    if mask@[y * w + x] != 0 {
                        color
                    } else {
                        old(img).px(x, y)
                    }),
                forall|x: int, y: int|
                    img.in_bounds(x, y) && !(y < cy || (y == cy && x < cx)) ==> img.px(x, y) == old(
                        img,
                    ).px(x, y),
            decreases w as int - cx as int,
        {
            let _mlen = mask.len();
            proof {
                lemma_pix_idx_bounds(w as int, h as int, cx as int, cy as int);
                lemma_quad_bound(w as int, h as int);
            }
            let midx = (cy as usize) * (w as usize) + (cx as usize);
            if mask[midx] != 0 {
                img.put_pixel(cx, cy, color);
            }
            cx = cx + 1;
        }
        cy = cy + 1;
    }
}

/// Draw `text` at (x + 10, y - 10) in white, resolving `font` through the
/// fixed font table (unknown names fall back to "Roboto-Bold").  Returns
/// false, leaving the buffer untouched, exactly when the stored bytes of the
/// resolved font do not parse — a fatal configuration error, not an input
/// error.
pub fn draw_text(
    img: &mut PixelBuffer,
    store: &FontStore,
    text: &str,
    x: u32,
    y: u32,
    font: &str,
    font_size: u16,
) -> (ok: bool)
    requires
        old(img).wf(),
        x + 10 <= COORD_MAX,
        10 <= y <= COORD_MAX,
        text@.len() <= TEXT_MAX,
        font_size <= SIZE_MAX,
    ensures
        final(img).wf(),
        final(img).width == old(img).width,
        final(img).height == old(img).height,
        ok == font_parses(store.spec_get(spec_resolve_font(font@))),
        ok ==> final(img).pixels@ == text_blit(
            old(img).pixels@,
            old(img).width,
            old(img).height,
            store.spec_get(spec_resolve_font(font@)),
            text@,
            (x + 10) as u32,
            (y - 10) as u32,
            font_size,
            255,
            255,
            255,
        ),
        !ok ==> final(img).pixels@ == old(img).pixels@,
        ok && text@.len() == 0 ==> final(img).pixels@ == old(img).pixels@,
{
    let id = resolve_font(font);
    let bytes = store.get(id);
    if !font_ok(bytes) {
        return false;
    }
    blit_text(img, bytes, text, x + 10, y - 10, font_size, 255, 255, 255);
    true
}

/// Draw `text` twice in the fixed "Roboto-Black" font at point size 90:
/// first as a thick border — the glyph mask dilated by 14 under the
/// chessboard norm, painted in the fixed border color — then as a fill at
/// (x + 10, y - 10) in the fixed foreground color.  Returns false, leaving
/// the buffer untouched, exactly when the stored font bytes do not parse.
pub fn draw_text_with_border(
    img: &mut PixelBuffer,
    store: &FontStore,
    text: &str,
    x: u32,
    y: u32,
) -> (ok: bool)
    requires
        old(img).wf(),
        old(img).width as int + old(img).height as int <= u32::MAX,
        x + 10 <= COORD_MAX,
        10 <= y <= COORD_MAX,
        text@.len() <= TEXT_MAX,
    ensures
        final(img).wf(),
        final(img).width == old(img).width,
        final(img).height == old(img).height,
        ok == font_parses(store.spec_get(FontId::RobotoBlack)),
        ok ==> final(img).pixels@ == text_blit(
            border_painted(
                old(img).pixels@,
                dilated(
                    glyph_mask(
                        old(img).width,
                        old(img).height,
                        store.spec_get(FontId::RobotoBlack),
                        text@,
                        x,
                        y,
                        90,
                    ),
                    old(img).width as int,
                    old(img).height as int,
                    14,
                ),
            ),
            old(img).width,
            old(img).height,
            store.spec_get(FontId::RobotoBlack),
            text@,
            (x + 10) as u32,
            (y - 10) as u32,
            90,
            193,
            255,
            255,
        ),
        !ok ==> final(img).pixels@ == old(img).pixels@,
        ok && text@.len() == 0 ==> final(img).pixels@ == old(img).pixels@,
{
    let bytes = store.get(FontId::RobotoBlack);
    if !font_ok(bytes) {
        return false;
    }
    let w = img.width;
    let h = img.height;
    let _len = img.pixels.len();
    proof {
        lemma_quad_bound(w as int, h as int);
    }
    let mut mask = rasterize_mask(w, h, bytes, text, x, y, 90);
    let ghost mask0 = mask@;
    let has_ink = any_nonzero(&mask);
    dilate_linf(&mut mask, w, h, 14);
    if w as u64 + h as u64 <= 14 {
        // The outside routine's distance cap saturated at or below the
        // radius and left every pixel white whatever the coverage; on so
        // small a canvas the true dilation is uniform, decided by whether
        // any coverage exists at all.
        fill_mask(
            &mut mask,
            if has_ink {
                255
            } else {
                0
            },
        );
        proof {
            lemma_dilated_tiny(mask0, w as int, h as int, 14);
            assert(mask@ =~= dilated(mask0, w as int, h as int, 14));
        }
    } else {
        proof {
            lemma_dilated_uncapped(mask0, w as int, h as int, 14);
        }
    }
    proof {
        assert(mask@ == dilated(mask0, w as int, h as int, 14));
        if text@.len() == 0 {
            assert(!(exists|j: int| 0 <= j < mask0.len() && mask0[j] != 0));
            lemma_dilated_no_ink(mask0, w as int, h as int, 14);
            lemma_border_painted_blank(img.pixels@, mask@);
        }
    }
    paint_where_mask(img, &mask, Rgba { r: 234, g: 23, b: 123, a: 255 });
    proof {
        lemma_border_painted_px(old(img).pixels@, mask@, w as int, h as int);
        assert forall|x2: int, y2: int| 0 <= x2 < w && 0 <= y2 < h implies pixel_at(
            img.pixels@,
            w as int,
            x2,
            y2,
        ) == pixel_at(border_painted(old(img).pixels@, mask@), w as int, x2, y2) by {
            assert(img.in_bounds(x2, y2));
        }
        lemma_px_determines_pixels(
            img.pixels@,
            border_painted(old(img).pixels@, mask@),
            w as int,
            h as int,
        );
    }
    blit_text(img, bytes, text, x + 10, y - 10, 90, 193, 255, 255);
    true
}

} // verus!
