use collage::pixel::PixelBuffer;
use collage::font::{FontStore, FontId, resolve_font, str_eq};
use collage::text::{draw_text, draw_text_with_border};
use collage::collage::{four_grid_text, split_imgs_text, four_grid_center_square};
use collage::words::split_words;

fn garbage_store() -> FontStore {
    FontStore {
        regular: vec![1, 2, 3],
        lato: vec![1, 2, 3],
        light: vec![1, 2, 3],
        bold: vec![1, 2, 3],
        black: vec![1, 2, 3],
        thin: vec![1, 2, 3],
    }
}

fn solid(w: u32, h: u32, r: u8, g: u8, b: u8, a: u8) -> PixelBuffer {
    let mut pixels = Vec::new();
    for _ in 0..(w * h) {
        pixels.push(r);
        pixels.push(g);
        pixels.push(b);
        pixels.push(a);
    }
    PixelBuffer { width: w, height: h, pixels }
}

#[test]
fn unknown_font_name_resolves_to_default() {
    assert_eq!(resolve_font("BebasKai"), resolve_font("Roboto-Bold"));
    assert_eq!(resolve_font("NoSuchFont"), FontId::RobotoBold);
    assert_eq!(resolve_font(""), FontId::RobotoBold);
}

#[test]
fn known_font_names_resolve_to_themselves() {
    assert_eq!(resolve_font("Roboto-Regular"), FontId::RobotoRegular);
    assert_eq!(resolve_font("Lato-Regular"), FontId::LatoRegular);
    assert_eq!(resolve_font("Roboto-Light"), FontId::RobotoLight);
    assert_eq!(resolve_font("Roboto-Bold"), FontId::RobotoBold);
    assert_eq!(resolve_font("Roboto-Black"), FontId::RobotoBlack);
    assert_eq!(resolve_font("Roboto-Thin"), FontId::RobotoThin);
}

#[test]
fn str_eq_compares_content() {
    assert!(str_eq("abc", "abc"));
    assert!(!str_eq("abc", "abd"));
    assert!(!str_eq("abc", "abcd"));
    assert!(str_eq("", ""));
}

#[test]
fn draw_text_unparsable_font_fails_and_leaves_buffer() {
    let store = garbage_store();
    let mut buf = solid(20, 20, 3, 3, 3, 255);
    let before = buf.pixels.clone();
    let ok = draw_text(&mut buf, &store, "hi", 0, 10, "Roboto-Bold", 12);
    assert!(!ok);
    assert_eq!(buf.pixels, before);
}

#[test]
fn draw_text_with_border_unparsable_font_fails_and_leaves_buffer() {
    let store = garbage_store();
    let mut buf = solid(20, 20, 3, 3, 3, 255);
    let before = buf.pixels.clone();
    let ok = draw_text_with_border(&mut buf, &store, "hi", 0, 10);
    assert!(!ok);
    assert_eq!(buf.pixels, before);
}

#[test]
fn four_grid_text_unparsable_font_gives_none() {
    let store = garbage_store();
    let a = solid(10, 10, 1, 0, 0, 255);
    let b = solid(10, 10, 0, 1, 0, 255);
    assert!(four_grid_text(&a, &b, &store, 100, 100).is_none());
}

#[test]
fn split_imgs_text_unparsable_font_gives_none() {
    let store = garbage_store();
    let a = solid(10, 10, 1, 0, 0, 255);
    let b = solid(10, 10, 0, 1, 0, 255);
    assert!(split_imgs_text(&a, &b, &store, 100, 100).is_none());
}

#[test]
fn four_grid_center_square_unparsable_font_gives_none() {
    let store = garbage_store();
    let a = solid(10, 10, 1, 0, 0, 255);
    let b = solid(10, 10, 0, 1, 0, 255);
    let c = solid(10, 10, 0, 0, 1, 255);
    let d = solid(10, 10, 1, 1, 0, 255);
    assert!(four_grid_center_square(&a, &b, &c, &d, &store, "Hello World", 100, 100).is_none());
}

#[test]
fn split_words_finds_word_ranges() {
    let ranges = split_words("ab cd  ef");
    assert_eq!(ranges, vec![(0, 2), (3, 5), (7, 9)]);
}

#[test]
fn split_words_handles_leading_and_trailing_space() {
    let ranges = split_words("  one\ttwo\n ");
    assert_eq!(ranges, vec![(2, 5), (6, 9)]);
}

#[test]
fn split_words_empty_and_blank() {
    assert_eq!(split_words(""), Vec::<(usize, usize)>::new());
    assert_eq!(split_words("   "), Vec::<(usize, usize)>::new());
}

fn px(buf: &PixelBuffer, x: u32, y: u32) -> (u8, u8, u8, u8) {
    let i = 4 * (y as usize * buf.width as usize + x as usize);
    (buf.pixels[i], buf.pixels[i + 1], buf.pixels[i + 2], buf.pixels[i + 3])
}

#[test]
fn center_square_empty_caption_needs_no_font() {
    // With no words to draw, the template builds the composite at any
    // height and never touches the fonts: only the centre rectangle
    // (30%-60% of width, 15%-95% of height) is painted white.
    let store = garbage_store();
    let a = solid(10, 10, 0, 0, 0, 0);
    let b = solid(10, 10, 0, 0, 0, 0);
    let c = solid(10, 10, 0, 0, 0, 0);
    let d = solid(10, 10, 0, 0, 0, 0);
    let out = four_grid_center_square(&a, &b, &c, &d, &store, "", 20, 20)
        .expect("no words, so no font is needed");
    assert_eq!(out.width, 20);
    assert_eq!(out.height, 20);
    for y in 0..20 {
        for x in 0..20 {
            let expected = if (6..12).contains(&x) && (3..19).contains(&y) {
                (255, 255, 255, 255)
            } else {
                (0, 0, 0, 0)
            };
            assert_eq!(px(&out, x, y), expected);
        }
    }
}

#[test]
fn center_square_blank_caption_needs_no_font() {
    let store = garbage_store();
    let a = solid(10, 10, 1, 0, 0, 255);
    let b = solid(10, 10, 0, 1, 0, 255);
    let c = solid(10, 10, 0, 0, 1, 255);
    let d = solid(10, 10, 1, 1, 0, 255);
    let out = four_grid_center_square(&a, &b, &c, &d, &store, " \t\n ", 40, 40)
        .expect("whitespace-only captions have no words");
    assert_eq!(px(&out, 1, 1), (1, 0, 0, 255));
    assert_eq!(px(&out, 20, 20), (255, 255, 255, 255));
}
