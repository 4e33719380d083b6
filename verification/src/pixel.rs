//! The raw RGBA raster type and per-pixel access.
//!
//! A `PixelBuffer` is a width, a height, and a flat byte vector of length
//! `4 * width * height`, row-major, top-to-bottom, four bytes per pixel in
//! R, G, B, A order.

use vstd::prelude::*;

verus! {

/// An opaque color, used for rectangle fills and text.
#[derive(Clone, Copy, PartialEq, Eq, Structural, Debug)]
pub struct Rgb {
    pub r: u8,
    pub g: u8,
    pub b: u8,
}

/// One RGBA pixel value.
#[derive(Clone, Copy, PartialEq, Eq, Structural, Debug)]
pub struct Rgba {
    pub r: u8,
    pub g: u8,
    pub b: u8,
    pub a: u8,
}

/// The fully transparent pixel that fresh canvases are filled with.
pub open spec fn transparent() -> Rgba {
    Rgba { r: 0, g: 0, b: 0, a: 0 }
}

/// An opaque pixel carrying the given color with alpha 255.
pub open spec fn opaque(c: Rgb) -> Rgba {
    Rgba { r: c.r, g: c.g, b: c.b, a: 255 }
}

/// Byte offset of pixel (x, y) in a row-major RGBA byte sequence of width `w`.
pub open spec fn pix_idx(w: int, x: int, y: int) -> int {
    4 * (y * w + x)
}

/// The pixel at (x, y) of a row-major RGBA byte sequence of width `w`.
pub open spec fn pixel_at(p: Seq<u8>, w: int, x: int, y: int) -> Rgba {
    Rgba {
        r: p[pix_idx(w, x, y)],
        g: p[pix_idx(w, x, y) + 1],
        b: p[pix_idx(w, x, y) + 2],
        a: p[pix_idx(w, x, y) + 3],
    }
}

/// An in-memory RGBA raster.
pub struct PixelBuffer {
    pub width: u32,
    pub height: u32,
    pub pixels: Vec<u8>,
}

impl PixelBuffer {
    /// The representation invariant: the byte vector holds exactly
    /// `4 * width * height` bytes.
    pub open spec fn wf(&self) -> bool {
        self.pixels@.len() == 4 * (self.width as int) * (self.height as int)
    }

    /// The pixel at (x, y).
    pub open spec fn px(&self, x: int, y: int) -> Rgba {
        pixel_at(self.pixels@, self.width as int, x, y)
    }

    /// Whether (x, y) lies inside this buffer.
    pub open spec fn in_bounds(&self, x: int, y: int) -> bool {
        0 <= x < self.width && 0 <= y < self.height
    }

    /// Whether the stored byte length matches the stored dimensions; the
    /// decoding step of every compositing operation demands exactly this.
    pub fn is_well_formed(&self) -> (r: bool)
        ensures
            r == self.wf(),
    {
        proof {
            lemma_mul_fits_u64(self.width as int, self.height as int);
            lemma_quad_bound(self.width as int, self.height as int);
            vstd::arithmetic::div_mod::lemma_fundamental_div_mod(self.pixels@.len() as int, 4);
            vstd::arithmetic::div_mod::lemma_mod_bound(self.pixels@.len() as int, 4);
        }
        let wh = (self.width as u64) * (self.height as u64);
        let len = self.pixels.len();
        len % 4 == 0 && (len / 4) as u64 == wh
    }

    /// A blank, fully transparent canvas of the given dimensions.
    pub fn new_canvas(width: u32, height: u32) -> (out: PixelBuffer)
        requires
            4 * (width as int) * (height as int) <= usize::MAX,
        ensures
            out.wf(),
            out.width == width,
            out.height == height,
            forall|x: int, y: int| out.in_bounds(x, y) ==> out.px(x, y) == transparent(),
    {
        proof {
            lemma_quad_bound(width as int, height as int);
        }
        let wh = (width as usize) * (height as usize);
        let n = 4 * wh;
        let mut v: Vec<u8> = Vec::new();
        while v.len() < n
            invariant
                v@.len() <= n,
                forall|i: int| 0 <= i < v@.len() ==> v@[i] == 0u8,
            decreases n - v@.len(),
        {
            v.push(0u8);
        }
        let out = PixelBuffer { width, height, pixels: v };
        proof {
            assert forall|x: int, y: int| out.in_bounds(x, y) implies out.px(x, y)
                == transparent() by {
                lemma_pix_idx_bounds(width as int, height as int, x, y);
            }
        }
        out
    }

    /// Read the pixel at (x, y).
    pub fn get_pixel(&self, x: u32, y: u32) -> (p: Rgba)
        requires
            self.wf(),
            self.in_bounds(x as int, y as int),
        ensures
            p == self.px(x as int, y as int),
    {
        let _len = self.pixels.len();
        proof {
            lemma_pix_idx_bounds(self.width as int, self.height as int, x as int, y as int);
            lemma_quad_bound(self.width as int, self.height as int);
        }
        let base = 4 * ((y as usize) * (self.width as usize) + (x as usize));
        Rgba {
            r: self.pixels[base],
            g: self.pixels[base + 1],
            b: self.pixels[base + 2],
            a: self.pixels[base + 3],
        }
    }

    /// Overwrite the pixel at (x, y); every other pixel is untouched.
    pub fn put_pixel(&mut self, x: u32, y: u32, p: Rgba)
        requires
            old(self).wf(),
            old(self).in_bounds(x as int, y as int),
        ensures
            final(self).wf(),
            final(self).width == old(self).width,
            final(self).height == old(self).height,
            final(self).px(x as int, y as int) == p,
            forall|x2: int, y2: int|
                final(self).in_bounds(x2, y2) && !(x2 == x as int && y2 == y as int)
                    ==> final(self).px(x2, y2) == old(self).px(x2, y2),
    {
        let _len = self.pixels.len();
        proof {
            lemma_pix_idx_bounds(self.width as int, self.height as int, x as int, y as int);
            lemma_quad_bound(self.width as int, self.height as int);
        }
        let base = 4 * ((y as usize) * (self.width as usize) + (x as usize));
        self.pixels[base] = p.r;
        self.pixels[base + 1] = p.g;
        self.pixels[base + 2] = p.b;
        self.pixels[base + 3] = p.a;
        proof {
            assert forall|x2: int, y2: int|
                self.in_bounds(x2, y2) && !(x2 == x as int && y2 == y as int) implies self.px(
                x2,
                y2,
            ) == old(self).px(x2, y2) by {
                lemma_pix_idx_disjoint(self.width as int, x as int, y as int, x2, y2);
                lemma_pix_idx_bounds(self.width as int, self.height as int, x2, y2);
            }
        }
    }
}

/// `4 * (y * w + x) + 4` stays within the `4 * w * h` bytes of the raster.
#[verifier::nonlinear]
pub proof fn lemma_pix_idx_bounds(w: int, h: int, x: int, y: int)
    requires
        0 <= x < w,
        0 <= y < h,
    ensures
        0 <= pix_idx(w, x, y),
        pix_idx(w, x, y) + 4 <= 4 * w * h,
{
}

/// Distinct pixel coordinates occupy disjoint 4-byte blocks.
#[verifier::nonlinear]
pub proof fn lemma_pix_idx_disjoint(w: int, x1: int, y1: int, x2: int, y2: int)
    requires
        0 <= x1 < w,
        0 <= x2 < w,
        0 <= y1,
        0 <= y2,
        !(x1 == x2 && y1 == y2),
    ensures
        pix_idx(w, x1, y1) + 4 <= pix_idx(w, x2, y2) || pix_idx(w, x2, y2) + 4 <= pix_idx(
            w,
            x1,
            y1,
        ),
{
}

/// `w * h <= 4 * w * h` for nonnegative factors, and the degenerate cases.
#[verifier::nonlinear]
pub proof fn lemma_quad_bound(w: int, h: int)
    requires
        0 <= w,
        0 <= h,
    ensures
        0 <= w * h,
        w * h <= 4 * w * h,
        4 * w * h == 4 * (w * h),
        (w == 0 || h == 0) ==> 4 * w * h == 0,
{
}

/// The product of two values below 2^32 fits in 64 bits.
#[verifier::nonlinear]
pub proof fn lemma_mul_fits_u64(w: int, h: int)
    requires
        0 <= w < 0x1_0000_0000,
        0 <= h < 0x1_0000_0000,
    ensures
        0 <= w * h < 0x1_0000_0000_0000_0000,
{
}

/// Every byte offset of the raster belongs to exactly one pixel coordinate.
#[verifier::nonlinear]
pub proof fn lemma_pix_decode(w: int, h: int, i: int)
    requires
        0 < w,
        0 < h,
        0 <= i < 4 * w * h,
    ensures
        0 <= (i / 4) % w < w,
        0 <= (i / 4) / w < h,
        i == pix_idx(w, (i / 4) % w, (i / 4) / w) + (i % 4),
        0 <= i % 4 < 4,
{
}

/// The component of a pixel value at byte offset `k` within its 4-byte block.
pub open spec fn rgba_comp(c: Rgba, k: int) -> u8 {
    if k == 0 {
        c.r
    } else if k == 1 {
        c.g
    } else if k == 2 {
        c.b
    } else {
        c.a
    }
}

/// The byte sequence of a `w` by `h` RGBA raster whose pixel at (x, y) is
/// `f(x, y)`.
pub open spec fn canvas_of(w: int, h: int, f: spec_fn(int, int) -> Rgba) -> Seq<u8> {
    Seq::new((4 * w * h) as nat, |i: int| rgba_comp(f((i / 4) % w, (i / 4) / w), i % 4))
}

/// Reading a pixel back from `canvas_of` returns what the generator gave.
pub proof fn lemma_canvas_of_px(w: int, h: int, f: spec_fn(int, int) -> Rgba)
    requires
        0 <= w,
        0 <= h,
    ensures
        canvas_of(w, h, f).len() == 4 * w * h,
        forall|x: int, y: int|
            0 <= x < w && 0 <= y < h ==> pixel_at(canvas_of(w, h, f), w, x, y) == f(x, y),
{
    lemma_quad_bound(w, h);
    assert forall|x: int, y: int| 0 <= x < w && 0 <= y < h implies pixel_at(
        canvas_of(w, h, f),
        w,
        x,
        y,
    ) == f(x, y) by {
        lemma_pix_idx_bounds(w, h, x, y);
        lemma_canvas_comp(w, h, f, x, y, 0);
        lemma_canvas_comp(w, h, f, x, y, 1);
        lemma_canvas_comp(w, h, f, x, y, 2);
        lemma_canvas_comp(w, h, f, x, y, 3);
    }
}

/// One byte of `canvas_of` decodes to the matching component of the
/// generator's pixel.
proof fn lemma_canvas_comp(w: int, h: int, f: spec_fn(int, int) -> Rgba, x: int, y: int, c: int)
    requires
        0 <= x < w,
        0 <= y < h,
        0 <= c < 4,
    ensures
        canvas_of(w, h, f)[pix_idx(w, x, y) + c] == rgba_comp(f(x, y), c),
{
    lemma_quad_bound(w, h);
    lemma_pix_idx_bounds(w, h, x, y);
    let base = pix_idx(w, x, y);
    vstd::arithmetic::div_mod::lemma_fundamental_div_mod_converse_div(base + c, 4, y * w + x, c);
    vstd::arithmetic::div_mod::lemma_fundamental_div_mod_converse_mod(base + c, 4, y * w + x, c);
    vstd::arithmetic::div_mod::lemma_fundamental_div_mod_converse_div(y * w + x, w, y, x);
    vstd::arithmetic::div_mod::lemma_fundamental_div_mod_converse_mod(y * w + x, w, y, x);
}

/// A well-formed buffer whose every pixel matches a generator holds exactly
/// the bytes of the canvas that generator describes.
pub proof fn lemma_buffer_matches_canvas(buf: &PixelBuffer, f: spec_fn(int, int) -> Rgba)
    requires
        buf.wf(),
        forall|x: int, y: int| buf.in_bounds(x, y) ==> buf.px(x, y) == f(x, y),
    ensures
        buf.pixels@ == canvas_of(buf.width as int, buf.height as int, f),
{
    let w = buf.width as int;
    let h = buf.height as int;
    lemma_canvas_of_px(w, h, f);
    assert forall|x: int, y: int| 0 <= x < w && 0 <= y < h implies pixel_at(
        buf.pixels@,
        w,
        x,
        y,
    ) == pixel_at(canvas_of(w, h, f), w, x, y) by {
        assert(buf.in_bounds(x, y));
        assert(buf.px(x, y) == f(x, y));
    }
    lemma_px_determines_pixels(buf.pixels@, canvas_of(w, h, f), w, h);
}

/// Buffers of equal dimensions whose every pixel agrees hold equal bytes.
pub proof fn lemma_px_determines_pixels(a: Seq<u8>, b: Seq<u8>, w: int, h: int)
    requires
        0 <= w,
        0 <= h,
        a.len() == 4 * w * h,
        b.len() == 4 * w * h,
        forall|x: int, y: int|
            0 <= x < w && 0 <= y < h ==> pixel_at(a, w, x, y) == pixel_at(b, w, x, y),
    ensures
        a == b,
{
    lemma_quad_bound(w, h);
    assert forall|i: int| 0 <= i < a.len() implies a[i] == b[i] by {
        lemma_pix_decode(w, h, i);
        let x = (i / 4) % w;
        let y = (i / 4) / w;
        assert(pixel_at(a, w, x, y) == pixel_at(b, w, x, y));
        let r = i % 4;
        if r == 0 {
            assert(a[i] == pixel_at(a, w, x, y).r);
        } else if r == 1 {
            assert(a[i] == pixel_at(a, w, x, y).g);
        } else if r == 2 {
            assert(a[i] == pixel_at(a, w, x, y).b);
        } else {
            assert(a[i] == pixel_at(a, w, x, y).a);
        }
    }
    assert(a =~= b);
}

} // verus!
