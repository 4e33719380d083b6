use collage::pixel::PixelBuffer;
use collage::font::FontStore;
use collage::text::{draw_text, draw_text_with_border};
use collage::collage::four_grid_text;

/// A minimal TrueType font holding one glyph: 'A' mapped to a filled square
/// covering half the em.  Enough for the font engine to parse, lay out and
/// rasterize real coverage.
fn tiny_font() -> Vec<u8> {
    vec![
        0, 1, 0, 0, 0, 7, 0, 128, 0, 3, 255, 240, 99, 109, 97, 112,
        0, 0, 0, 0, 0, 0, 0, 124, 0, 0, 0, 44, 103, 108, 121, 102,
        0, 0, 0, 0, 0, 0, 0, 168, 0, 0, 0, 34, 104, 101, 97, 100,
        0, 0, 0, 0, 0, 0, 0, 204, 0, 0, 0, 54, 104, 104, 101, 97,
        0, 0, 0, 0, 0, 0, 1, 4, 0, 0, 0, 36, 104, 109, 116, 120,
        0, 0, 0, 0, 0, 0, 1, 40, 0, 0, 0, 8, 108, 111, 99, 97,
        0, 0, 0, 0, 0, 0, 1, 48, 0, 0, 0, 6, 109, 97, 120, 112,
        0, 0, 0, 0, 0, 0, 1, 56, 0, 0, 0, 6, 0, 0, 0, 1,
        0, 3, 0, 1, 0, 0, 0, 12, 0, 4, 0, 32, 0, 0, 0, 4,
        0, 4, 0, 1, 0, 0, 0, 65, 255, 255, 0, 0, 0, 65, 255, 255,
        255, 192, 0, 1, 0, 0, 0, 0, 0, 1, 0, 0, 0, 0, 1, 244,
        1, 244, 0, 3, 0, 0, 1, 1, 1, 1, 0, 0, 1, 244, 0, 0,
        254, 12, 0, 0, 0, 0, 1, 244, 254, 12, 0, 0, 0, 1, 0, 0,
        0, 0, 0, 0, 0, 0, 0, 0, 95, 15, 60, 245, 0, 0, 3, 232,
        0, 0, 0, 0, 0, 0, 0, 0, 0, 0, 0, 0, 0, 0, 0, 0,
        0, 0, 0, 0, 1, 244, 1, 244, 0, 0, 0, 8, 0, 2, 0, 0,
        0, 0, 0, 0, 0, 1, 0, 0, 3, 32, 255, 56, 0, 0, 1, 244,
        0, 0, 0, 0, 1, 244, 0, 1, 0, 0, 0, 0, 0, 0, 0, 0,
        0, 0, 0, 0, 0, 0, 0, 2, 1, 244, 0, 0, 1, 244, 0, 0,
        0, 0, 0, 0, 0, 17, 0, 0, 0, 0, 80, 0, 0, 2, 0, 0,
    ]
}

fn tiny_store() -> FontStore {
    FontStore {
        regular: tiny_font(),
        lato: tiny_font(),
        light: tiny_font(),
        bold: tiny_font(),
        black: tiny_font(),
        thin: tiny_font(),
    }
}

fn solid(w: u32, h: u32, r: u8, g: u8, b: u8, a: u8) -> PixelBuffer {
    let mut pixels = Vec::new();
    for _ in 0..(w * h) {
        pixels.push(r);
        pixels.push(g);
        pixels.push(b);
        pixels.push(a);
    }
    PixelBuffer { width: w, height: h, pixels }
}

fn px(buf: &PixelBuffer, x: u32, y: u32) -> (u8, u8, u8, u8) {
    let i = 4 * (y as usize * buf.width as usize + x as usize);
    (buf.pixels[i], buf.pixels[i + 1], buf.pixels[i + 2], buf.pixels[i + 3])
}

#[test]
fn draw_text_renders_real_glyphs() {
    let store = tiny_store();
    let mut buf = solid(60, 60, 9, 9, 9, 255);
    let before = buf.pixels.clone();
    let ok = draw_text(&mut buf, &store, "A", 5, 20, "Roboto-Bold", 20);
    assert!(ok);
    assert_eq!(buf.width, 60);
    assert_eq!(buf.height, 60);
    assert_ne!(buf.pixels, before, "drawing a glyph must change some pixel");
}

#[test]
fn draw_text_with_border_paints_border_and_fill() {
    let store = tiny_store();
    let mut buf = solid(200, 200, 9, 9, 9, 255);
    let ok = draw_text_with_border(&mut buf, &store, "A", 20, 40);
    assert!(ok);
    let mut saw_border = false;
    let mut saw_fill = false;
    for y in 0..200 {
        for x in 0..200 {
            let p = px(&buf, x, y);
            if p == (234, 23, 123, 255) {
                saw_border = true;
            }
            if p == (193, 255, 255, 255) {
                saw_fill = true;
            }
        }
    }
    assert!(saw_border, "the dilated mask must paint the border color");
    assert!(saw_fill, "the offset fill pass must paint the foreground color");
    assert_eq!(px(&buf, 199, 199), (9, 9, 9, 255), "far corner stays untouched");
}

#[test]
fn draw_text_unknown_font_matches_default_name() {
    let store = tiny_store();
    let mut with_unknown = solid(60, 60, 9, 9, 9, 255);
    let mut with_default = solid(60, 60, 9, 9, 9, 255);
    assert!(draw_text(&mut with_unknown, &store, "A", 5, 20, "NoSuchFont", 20));
    assert!(draw_text(&mut with_default, &store, "A", 5, 20, "Roboto-Bold", 20));
    assert_eq!(with_unknown.pixels, with_default.pixels);
}

#[test]
fn four_grid_text_with_real_font_builds() {
    let store = tiny_store();
    let a = solid(10, 10, 1, 0, 0, 255);
    let b = solid(10, 10, 0, 1, 0, 255);
    let out = four_grid_text(&a, &b, &store, 120, 80).expect("font parses");
    assert_eq!(out.width, 120);
    assert_eq!(out.height, 80);
    assert_eq!(px(&out, 5, 5), (1, 0, 0, 255));
    assert_eq!(px(&out, 5, 50), (204, 195, 240, 255));
    assert_eq!(px(&out, 65, 50), (255, 226, 98, 255));
}

#[test]
fn draw_text_empty_text_leaves_buffer() {
    let store = tiny_store();
    let mut buf = solid(30, 30, 4, 4, 4, 255);
    let before = buf.pixels.clone();
    assert!(draw_text(&mut buf, &store, "", 5, 20, "Roboto-Bold", 20));
    assert_eq!(buf.pixels, before);
}

#[test]
fn draw_text_with_border_empty_text_leaves_buffer() {
    let store = tiny_store();
    let mut buf = solid(30, 30, 4, 4, 4, 255);
    let before = buf.pixels.clone();
    assert!(draw_text_with_border(&mut buf, &store, "", 5, 20));
    assert_eq!(buf.pixels, before);
}

#[test]
fn draw_text_with_border_tiny_canvas_paints_only_near_coverage() {
    // On a 6 x 6 canvas the glyphs at point size 90 land far below the
    // buffer, so no coverage exists and a true dilation paints nothing;
    // the whole buffer stays as it was.
    let store = tiny_store();
    let mut buf = solid(6, 6, 4, 4, 4, 255);
    let before = buf.pixels.clone();
    assert!(draw_text_with_border(&mut buf, &store, "A", 0, 10));
    assert_eq!(buf.pixels, before);
}
