use agnostos::color::Color;
use agnostos::graphics::framebuffer::{Framebuffer, PixelFormat};
use agnostos::graphics::pixel::{PixelCoord, PixelSize, Stride};
use agnostos::graphics::text::{blend, draw_glyph, draw_text, FontSize, Glyph};
use noto_sans_mono_bitmap::{get_raster, FontWeight, RasterHeight};

static CHECKER: [u8; 6] = [255, 0, 128, 0, 255, 0];

fn pixel(bytes: &[u8], stride: usize, x: usize, y: usize) -> [u8; 3] {
    let offset = (y * stride + x) * 4;
    [bytes[offset], bytes[offset + 1], bytes[offset + 2]]
}

#[test]
fn blending_scales_each_channel_by_the_intensity() {
    assert_eq!(blend(255, 255), 255);
    assert_eq!(blend(200, 0), 0);
    assert_eq!(blend(200, 128), 100);
    assert_eq!(blend(1, 254), 0);
}

#[test]
fn glyphs_need_one_byte_per_pixel() {
    assert!(Glyph::new(&CHECKER, 3, 2).is_some());
    assert!(Glyph::new(&CHECKER, 2, 2).is_none());
    assert!(Glyph::new(&CHECKER, usize::MAX, 2).is_none());
}

#[test]
fn a_glyph_paints_its_foreground_blended_and_clipped() {
    let glyph = Glyph::new(&CHECKER, 3, 2).unwrap();
    let mut bytes = vec![7_u8; 4 * 2 * 4];
    let mut fb = Framebuffer::from_mut_slice(&mut bytes, PixelSize::new(4, 2), Stride::new(4), PixelFormat::Rgb).unwrap();
    draw_glyph(&mut fb, &glyph, 2, 0, Color::new(200, 100, 50));
    assert_eq!(pixel(&bytes, 4, 2, 0), [200, 100, 50]);
    assert_eq!(pixel(&bytes, 4, 3, 0), [7, 7, 7]);
    assert_eq!(pixel(&bytes, 4, 3, 1), [200, 100, 50]);
    assert_eq!(pixel(&bytes, 4, 2, 1), [7, 7, 7]);
    assert_eq!(bytes[2 * 4 + 3], 7);
}

#[test]
fn text_is_drawn_glyph_after_glyph_up_to_the_first_newline() {
    let a = get_raster('A', FontWeight::Regular, RasterHeight::Size16).unwrap();
    let (w, h) = (a.width(), a.height());
    let width = 3 * w;
    let mut bytes = vec![0_u8; width * h * 4];
    let mut fb = Framebuffer::from_mut_slice(&mut bytes, PixelSize::new(width, h), Stride::new(width), PixelFormat::Rgb).unwrap();
    draw_text(&mut fb, "AA\nA", PixelCoord::new(0, 0), Color::new(255, 255, 255), None);
    for y in 0..h {
        for x in 0..w {
            let expected = a.pixel(x, y).unwrap();
            assert_eq!(pixel(&bytes, width, x, y)[0], expected);
            assert_eq!(pixel(&bytes, width, x + w, y)[0], expected);
            assert_eq!(pixel(&bytes, width, x + 2 * w, y)[0], 0);
        }
    }
}

#[test]
fn larger_sizes_use_larger_glyphs() {
    let big = get_raster('x', FontWeight::Regular, RasterHeight::Size32).unwrap();
    let (w, h) = (big.width(), big.height());
    let mut bytes = vec![0_u8; w * h * 4];
    let mut fb = Framebuffer::from_mut_slice(&mut bytes, PixelSize::new(w, h), Stride::new(w), PixelFormat::Bgr).unwrap();
    draw_text(&mut fb, "x", PixelCoord::new(0, 0), Color::new(0, 0, 255), Some(FontSize::Size32));
    for y in 0..h {
        for x in 0..w {
            assert_eq!(pixel(&bytes, w, x, y)[0], big.pixel(x, y).unwrap());
        }
    }
}

#[test]
fn characters_the_font_lacks_are_drawn_as_a_question_mark() {
    let question = get_raster('?', FontWeight::Regular, RasterHeight::Size16).unwrap();
    let (w, h) = (question.width(), question.height());
    let mut bytes = vec![0_u8; w * h * 4];
    let mut fb = Framebuffer::from_mut_slice(&mut bytes, PixelSize::new(w, h), Stride::new(w), PixelFormat::Rgb).unwrap();
    draw_text(&mut fb, "\u{10FFFF}", PixelCoord::new(0, 0), Color::new(255, 255, 255), None);
    for y in 0..h {
        for x in 0..w {
            assert_eq!(pixel(&bytes, w, x, y)[1], question.pixel(x, y).unwrap());
        }
    }
}
