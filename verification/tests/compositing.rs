use collage::pixel::{PixelBuffer, Rgb, Rgba};
use collage::rect::fill_rect;
use collage::overlay::overlay;
use collage::resize::{resize, resize_imgs};
use collage::collage::{two_grid, triple_grid, four_grid};

fn solid(w: u32, h: u32, r: u8, g: u8, b: u8, a: u8) -> PixelBuffer {
    let mut pixels = Vec::new();
    for _ in 0..(w * h) {
        pixels.push(r);
        pixels.push(g);
        pixels.push(b);
        pixels.push(a);
    }
    PixelBuffer { width: w, height: h, pixels }
}

fn px(buf: &PixelBuffer, x: u32, y: u32) -> (u8, u8, u8, u8) {
    let i = 4 * (y as usize * buf.width as usize + x as usize);
    (buf.pixels[i], buf.pixels[i + 1], buf.pixels[i + 2], buf.pixels[i + 3])
}

#[test]
fn fill_rect_scenario() {
    let mut buf = solid(10, 10, 0, 0, 0, 0);
    fill_rect(&mut buf, Rgb { r: 1, g: 2, b: 3 }, 5, 5, 2, 2);
    for y in 0..10 {
        for x in 0..10 {
            let expected = if (2..7).contains(&x) && (2..7).contains(&y) {
                (1, 2, 3, 255)
            } else {
                (0, 0, 0, 0)
            };
            assert_eq!(px(&buf, x, y), expected);
        }
    }
}

#[test]
fn fill_rect_clips_outside_bounds() {
    let mut buf = solid(4, 4, 9, 9, 9, 9);
    fill_rect(&mut buf, Rgb { r: 7, g: 8, b: 9 }, 10, 10, 2, 3);
    for y in 0..4 {
        for x in 0..4 {
            let expected = if x >= 2 && y >= 3 { (7, 8, 9, 255) } else { (9, 9, 9, 9) };
            assert_eq!(px(&buf, x, y), expected);
        }
    }
}

#[test]
fn two_grid_red_blue() {
    let red = solid(100, 100, 255, 0, 0, 255);
    let blue = solid(100, 100, 0, 0, 255, 255);
    let out = two_grid(&red, &blue, 200, 100);
    assert_eq!(out.width, 200);
    assert_eq!(out.height, 100);
    for y in 0..100 {
        for x in 0..200 {
            let expected = if x < 100 { (255, 0, 0, 255) } else { (0, 0, 255, 255) };
            assert_eq!(px(&out, x, y), expected);
        }
    }
}

#[test]
fn two_grid_odd_width_leaves_transparent_column() {
    let red = solid(2, 2, 255, 0, 0, 255);
    let blue = solid(2, 2, 0, 0, 255, 255);
    let out = two_grid(&red, &blue, 5, 2);
    for y in 0..2 {
        assert_eq!(px(&out, 0, y), (255, 0, 0, 255));
        assert_eq!(px(&out, 1, y), (255, 0, 0, 255));
        assert_eq!(px(&out, 2, y), (0, 0, 255, 255));
        assert_eq!(px(&out, 3, y), (0, 0, 255, 255));
        assert_eq!(px(&out, 4, y), (0, 0, 0, 0));
    }
}

#[test]
fn four_grid_quadrants() {
    let a = solid(50, 50, 255, 0, 0, 255);
    let b = solid(50, 50, 0, 255, 0, 255);
    let c = solid(50, 50, 0, 0, 255, 255);
    let d = solid(50, 50, 255, 255, 0, 255);
    let out = four_grid(&a, &b, &c, &d, 100, 100);
    assert_eq!(out.width, 100);
    assert_eq!(out.height, 100);
    assert_eq!(px(&out, 10, 10), (255, 0, 0, 255));
    assert_eq!(px(&out, 60, 10), (0, 255, 0, 255));
    assert_eq!(px(&out, 10, 60), (0, 0, 255, 255));
    assert_eq!(px(&out, 60, 60), (255, 255, 0, 255));
    assert_eq!(px(&out, 49, 49), (255, 0, 0, 255));
    assert_eq!(px(&out, 50, 49), (0, 255, 0, 255));
    assert_eq!(px(&out, 49, 50), (0, 0, 255, 255));
    assert_eq!(px(&out, 50, 50), (255, 255, 0, 255));
}

#[test]
fn triple_grid_thirds() {
    let a = solid(10, 10, 1, 0, 0, 255);
    let b = solid(10, 10, 0, 1, 0, 255);
    let c = solid(10, 10, 0, 0, 1, 255);
    let out = triple_grid(&a, &b, &c, 9, 4);
    assert_eq!(out.width, 9);
    assert_eq!(out.height, 4);
    for y in 0..4 {
        for x in 0..3 {
            assert_eq!(px(&out, x, y), (1, 0, 0, 255));
            assert_eq!(px(&out, x + 3, y), (0, 1, 0, 255));
            assert_eq!(px(&out, x + 6, y), (0, 0, 1, 255));
        }
    }
}

#[test]
fn resize_same_dims_is_identity() {
    let mut src = solid(3, 2, 0, 0, 0, 0);
    src.pixels = vec![
        1, 2, 3, 4, 5, 6, 7, 8, 9, 10, 11, 12, 13, 14, 15, 16, 17, 18, 19, 20, 21, 22, 23, 24,
    ];
    let out = resize(&src, 3, 2);
    assert_eq!(out.width, 3);
    assert_eq!(out.height, 2);
    assert_eq!(out.pixels, src.pixels);
}

#[test]
fn resize_nearest_formula() {
    // A 2 x 1 source doubled in width: dx = 0, 1 sample source column 0 and
    // dx = 2, 3 sample source column 1 (dx * 2 / 4).
    let src = PixelBuffer { width: 2, height: 1, pixels: vec![10, 0, 0, 255, 20, 0, 0, 255] };
    let out = resize(&src, 4, 1);
    assert_eq!(out.pixels, vec![
        10, 0, 0, 255, 10, 0, 0, 255, 20, 0, 0, 255, 20, 0, 0, 255,
    ]);
}

#[test]
fn resize_shrink_formula() {
    // A 4 x 1 source halved: dx = 0 samples column 0, dx = 1 samples column 2.
    let src = PixelBuffer {
        width: 4,
        height: 1,
        pixels: vec![1, 0, 0, 255, 2, 0, 0, 255, 3, 0, 0, 255, 4, 0, 0, 255],
    };
    let out = resize(&src, 2, 1);
    assert_eq!(out.pixels, vec![1, 0, 0, 255, 3, 0, 0, 255]);
}

#[test]
fn resize_imgs_batch() {
    let mut imgs = vec![solid(4, 4, 1, 1, 1, 255), solid(8, 2, 2, 2, 2, 255)];
    resize_imgs(&mut imgs, 3, 3);
    assert_eq!(imgs.len(), 2);
    for img in &imgs {
        assert_eq!(img.width, 3);
        assert_eq!(img.height, 3);
        assert_eq!(img.pixels.len(), 36);
    }
    assert_eq!(px(&imgs[0], 1, 1), (1, 1, 1, 255));
    assert_eq!(px(&imgs[1], 2, 2), (2, 2, 2, 255));
}

#[test]
fn overlay_outside_region_unchanged() {
    let mut dst = solid(6, 6, 9, 9, 9, 9);
    let src = solid(2, 2, 1, 2, 3, 4);
    overlay(&mut dst, &src, 3, 3);
    for y in 0..6 {
        for x in 0..6 {
            let inside = (3..5).contains(&x) && (3..5).contains(&y);
            let expected = if inside { (1, 2, 3, 4) } else { (9, 9, 9, 9) };
            assert_eq!(px(&dst, x, y), expected);
        }
    }
}

#[test]
fn overlay_clips_at_edges() {
    let mut dst = solid(3, 3, 0, 0, 0, 0);
    let src = solid(5, 5, 8, 8, 8, 255);
    overlay(&mut dst, &src, 2, 2);
    assert_eq!(px(&dst, 2, 2), (8, 8, 8, 255));
    assert_eq!(px(&dst, 1, 2), (0, 0, 0, 0));
    assert_eq!(px(&dst, 2, 1), (0, 0, 0, 0));
}

#[test]
fn new_canvas_is_transparent() {
    let c = PixelBuffer::new_canvas(3, 2);
    assert_eq!(c.width, 3);
    assert_eq!(c.height, 2);
    assert_eq!(c.pixels, vec![0u8; 24]);
}

#[test]
fn get_and_put_pixel() {
    let mut c = PixelBuffer::new_canvas(4, 4);
    c.put_pixel(2, 1, Rgba { r: 5, g: 6, b: 7, a: 8 });
    let p = c.get_pixel(2, 1);
    assert_eq!((p.r, p.g, p.b, p.a), (5, 6, 7, 8));
    let q = c.get_pixel(1, 2);
    assert_eq!((q.r, q.g, q.b, q.a), (0, 0, 0, 0));
}

#[test]
fn well_formed_checks_length() {
    let good = PixelBuffer { width: 2, height: 2, pixels: vec![0; 16] };
    assert!(good.is_well_formed());
    let bad = PixelBuffer { width: 2, height: 2, pixels: vec![0; 15] };
    assert!(!bad.is_well_formed());
}

#[test]
fn overlay_overwrites_instead_of_blending() {
    // A fully transparent source pixel replaces the destination outright.
    let mut dst = solid(2, 2, 200, 100, 50, 255);
    let src = solid(1, 1, 0, 0, 0, 0);
    overlay(&mut dst, &src, 0, 0);
    assert_eq!(px(&dst, 0, 0), (0, 0, 0, 0));
    assert_eq!(px(&dst, 1, 0), (200, 100, 50, 255));
}
