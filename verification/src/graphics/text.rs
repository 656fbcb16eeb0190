//! Text drawn with the Noto Sans Mono bitmap font.

use vstd::prelude::*;

use noto_sans_mono_bitmap::{get_raster, FontWeight, RasterHeight};

use super::framebuffer::{channel, drawable_format, lemma_pixel_coordinates, lemma_pixel_in_mapping, Framebuffer, PixelFormat};
use super::pixel::PixelCoord;
use crate::color::Color;

verus! {

/// The font's raster heights.
#[derive(Clone, Copy, Debug, PartialEq, Eq, Structural)]
pub enum FontSize {
    Size16,
    Size20,
    Size24,
    Size32,
}

/// The pixel height of the text lines a font size draws: the raster
/// height the size is named after.
pub open spec fn font_pixel_height(size: FontSize) -> nat {
    match size {
        FontSize::Size16 => 16,
        FontSize::Size20 => 20,
        FontSize::Size24 => 24,
        FontSize::Size32 => 32,
    }
}

/// The raster height text is drawn at when none is asked for, and the one
/// of the `?` drawn for a character the font lacks.
pub const DEFAULT_FONT_SIZE: FontSize = FontSize::Size16;

/// A rasterized character: one intensity byte (0 = background, 255 =
/// foreground) per pixel, row by row.
pub struct Glyph {
    pixels: &'static [u8],
    width: usize,
    height: usize,
}

/// A glyph's pixels, width and height.
pub type GlyphView = (Seq<u8>, usize, usize);

impl View for Glyph {
    type V = GlyphView;

    closed spec fn view(&self) -> GlyphView {
        (self.pixels@, self.width, self.height)
    }
}

impl Glyph {
    /// A glyph of `width` by `height` pixels, when `pixels` holds exactly
    /// one byte for each.
    pub fn new(pixels: &'static [u8], width: usize, height: usize) -> (glyph: Option<Glyph>)
        ensures
            glyph.is_some() == (pixels@.len() == width * height),
            glyph.is_some() ==> glyph.unwrap()@ == (pixels@, width, height),
    {
        match width.checked_mul(height) {
            Some(count) => if pixels.len() == count {
                Some(Glyph { pixels, width, height })
            } else {
                None
            },
            None => {
                let len = pixels.len();
                assert(pixels@.len() != width * height);
                None
            },
        }
    }

    pub fn width(&self) -> (width: usize)
        ensures
            width == self@.1,
    {
        self.width
    }

    pub fn height(&self) -> (height: usize)
        ensures
            height == self@.2,
    {
        self.height
    }

    /// The intensity of the pixel at column `col` of row `row`.
    pub fn intensity(&self, col: usize, row: usize) -> (intensity: u8)
        requires
            self@.0.len() == self@.1 * self@.2,
            col < self@.1,
            row < self@.2,
        ensures
            intensity == self@.0[row * self@.1 + col],
    {
        let len = self.pixels.len();
        assert(row * self.width + col < self.width * self.height) by (nonlinear_arith)
            requires
                col < self.width,
                row < self.height,
        ;
        self.pixels[row * self.width + col]
    }
}

/// What the font draws for `c` at `size` in the regular weight, if it has
/// the character.
pub uninterp spec fn font_glyph(c: char, size: FontSize) -> Option<GlyphView>;

/// Calls `noto_sans_mono_bitmap::get_raster` with the regular weight and
/// the raster height of `size`.  The glyphs are the font's data, named by
/// `font_glyph`; the crate documents that a glyph holds exactly
/// `width * height` pixel bytes, and its source gives every glyph the
/// height of the raster height it was asked for.
#[verifier::external_body]
fn raster(c: char, size: FontSize) -> (glyph: Option<Glyph>)
    ensures
        match glyph {
            Some(g) => font_glyph(c, size) == Some(g@) && g@.0.len() == g@.1 * g@.2 && g@.2 == font_pixel_height(size),
            None => font_glyph(c, size).is_none(),
        },
{
    let height = match size {
        FontSize::Size16 => RasterHeight::Size16,
        FontSize::Size20 => RasterHeight::Size20,
        FontSize::Size24 => RasterHeight::Size24,
        FontSize::Size32 => RasterHeight::Size32,
    };
    get_raster(c, FontWeight::Regular, height).map(|r| Glyph { pixels: r.pixels(), width: r.width(), height: r.height() })
}

/// `channel` scaled by `intensity / 255`, rounded down.
pub open spec fn spec_blend(channel: u8, intensity: u8) -> u8 {
    (channel as int * intensity as int / 255) as u8
}

/// A color channel scaled by a glyph pixel's intensity.
pub fn blend(channel: u8, intensity: u8) -> (blended: u8)
    ensures
        blended == spec_blend(channel, intensity),
{
    assert(channel as u16 * intensity as u16 / 255 <= 255) by (nonlinear_arith);
    ((channel as u16 * intensity as u16) / 255) as u8
}

/// The color a glyph pixel of `intensity` is drawn in.
pub open spec fn blended(color: Color, intensity: u8) -> Color {
    Color { r: spec_blend(color.r, intensity), g: spec_blend(color.g, intensity), b: spec_blend(color.b, intensity) }
}

/// The glyph pixel that pixel `i` of a framebuffer (`width` by `height`,
/// rows `stride` pixels apart) shows when the glyph's top-left pixel is at
/// (`x`, `y`): None where the glyph does not reach, the pixel is not
/// visible, or the glyph pixel is background.
pub open spec fn glyph_pixel(glyph: GlyphView, x: int, y: int, area: (int, int, int), i: int) -> Option<u8> {
    let (pixels, gw, gh) = glyph;
    let (width, height, stride) = area;
    let (row, col) = (i / (stride as int) - y, i % (stride as int) - x);
    if 0 <= i && i / stride < height && i % stride < width && 0 <= row < gh && 0 <= col < gw && pixels[row * gw + col] != 0 {
        Some(pixels[row * gw + col])
    } else {
        None
    }
}

/// The bytes after drawing `glyph` with its top-left pixel at (`x`, `y`).
pub open spec fn glyph_drawn(
    bytes: Seq<u8>,
    glyph: GlyphView,
    x: int,
    y: int,
    color: Color,
    area: (int, int, int),
    format: PixelFormat,
) -> Seq<u8> {
    Seq::new(
        bytes.len(),
        |p: int|
            match glyph_pixel(glyph, x, y, area, p / 4) {
                Some(intensity) => if p % 4 < 3 {
                    channel(blended(color, intensity), format, p % 4)
                } else {
                    bytes[p]
                },
                None => bytes[p],
            },
    )
}

/// The glyph's pixels before row `r`, and in row `r` before column `c`.
pub open spec fn glyph_prefix(glyph: GlyphView, x: int, y: int, area: (int, int, int), r: int, c: int) -> GlyphView {
    let (pixels, gw, gh) = glyph;
    let w = gw as int;
    (Seq::new(pixels.len(), |k: int| if k / w < r || (k / w == r && k % w < c) { pixels[k] } else { 0u8 }), gw, gh)
}

/// Draws `glyph` with its top-left pixel at (`x`, `y`), blending `color`
/// by each pixel's intensity; background pixels and pixels off the visible
/// area are left alone.
pub fn draw_glyph(fb: &mut Framebuffer, glyph: &Glyph, x: usize, y: usize, color: Color)
    requires
        old(fb).wf(),
        glyph@.0.len() == glyph@.1 * glyph@.2,
    ensures
        final(fb).wf(),
        final(fb).spec_width() == old(fb).spec_width(),
        final(fb).spec_height() == old(fb).spec_height(),
        final(fb).spec_stride() == old(fb).spec_stride(),
        final(fb).format() == old(fb).format(),
        final(fb).pixels() == glyph_drawn(
            old(fb).pixels(),
            glyph@,
            x as int,
            y as int,
            color,
            (old(fb).spec_width(), old(fb).spec_height(), old(fb).spec_stride()),
            old(fb).format(),
        ),
{
    proof {
        fb.lemma_geometry();
    }
    let width = fb.width();
    let height = fb.height();
    let stride = fb.stride();
    let gw = glyph.width();
    let gh = glyph.height();
    let ghost area = (width as int, height as int, stride as int);
    let ghost before = fb.pixels();
    let ghost format = fb.format();
    let ghost g = glyph@;
    proof {
        assert(glyph_drawn(before, glyph_prefix(g, x as int, y as int, area, 0, 0), x as int, y as int, color, area, format) =~= before) by {
            assert forall|p: int| 0 <= p < before.len() implies #[trigger] glyph_pixel(glyph_prefix(g, x as int, y as int, area, 0, 0), x as int, y as int, area, p / 4) is None by {
                let i = p / 4;
                let (row, col) = (i / (stride as int) - y, i % (stride as int) - x);
                if 0 <= row < gh && 0 <= col < gw {
                    assert(0 <= row * gw + col < gw * gh) by (nonlinear_arith)
                        requires
                            0 <= row < gh,
                            0 <= col < gw,
                    ;
                    assert((row * gw + col) / (gw as int) == row && (row * gw + col) % (gw as int) == col) by {
                        lemma_pixel_coordinates(row * gw + col, row, col, gw as int);
                    }
                }
            }
        }
    }
    let mut row: usize = 0;
    while row < gh
        invariant
            fb.wf(),
            fb.spec_width() == width,
            fb.spec_height() == height,
            fb.spec_stride() == stride,
            fb.format() == format,
            drawable_format(format),
            0 < width <= stride,
            stride * height * 4 <= fb.pixels().len(),
            stride * height * 4 <= usize::MAX,
            fb.pixels().len() == before.len(),
            area == (width as int, height as int, stride as int),
            g == glyph@,
            g.0.len() == gw * gh,
            gw == g.1,
            gh == g.2,
            row <= gh,
            fb.pixels() == glyph_drawn(before, glyph_prefix(g, x as int, y as int, area, row as int, 0), x as int, y as int, color, area, format),
        decreases gh - row,
    {
        let mut col: usize = 0;
        while col < gw
            invariant
                fb.wf(),
                fb.spec_width() == width,
                fb.spec_height() == height,
                fb.spec_stride() == stride,
                fb.format() == format,
                drawable_format(format),
                0 < width <= stride,
                stride * height * 4 <= fb.pixels().len(),
                stride * height * 4 <= usize::MAX,
                fb.pixels().len() == before.len(),
                area == (width as int, height as int, stride as int),
                g == glyph@,
                g.0.len() == gw * gh,
                gw == g.1,
                gh == g.2,
                row < gh,
                col <= gw,
                fb.pixels() == glyph_drawn(before, glyph_prefix(g, x as int, y as int, area, row as int, col as int), x as int, y as int, color, area, format),
            decreases gw - col,
        {
            let intensity = glyph.intensity(col, row);
            let ghost current = fb.pixels();
            let ghost k = row * gw + col;
            let ghost next = glyph_prefix(g, x as int, y as int, area, row as int, col + 1);
            let ghost prev = glyph_prefix(g, x as int, y as int, area, row as int, col as int);
            let mut target: Option<usize> = None;
            if intensity != 0 {
                match (x.checked_add(col), y.checked_add(row)) {
                    (Some(px), Some(py)) => {
                        if px < width && py < height {
                            proof {
                                lemma_pixel_in_mapping(px as int, py as int, width as int, height as int, stride as int);
                            }
                            let shade = Color::new(blend(color.r, intensity), blend(color.g, intensity), blend(color.b, intensity));
                            let index = py * stride + px;
                            fb.write_pixel(index, &shade);
                            target = Some(index);
                        }
                    },
                    _ => {},
                }
            }
            proof {
                assert(0 <= k < gw * gh) by (nonlinear_arith)
                    requires
                        k == row * gw + col,
                        row < gh,
                        col < gw,
                ;
                lemma_pixel_coordinates(k, row as int, col as int, gw as int);
                let drawn_next = glyph_drawn(before, next, x as int, y as int, color, area, format);
                assert forall|p: int| 0 <= p < before.len() implies #[trigger] fb.pixels()[p] == drawn_next[p] by {
                    let i = p / 4;
                    let (r, c) = (i / (stride as int) - y, i % (stride as int) - x);
                    if 0 <= r < gh && 0 <= c < gw {
                        assert(0 <= r * gw + c < gw * gh) by (nonlinear_arith)
                            requires
                                0 <= r < gh,
                                0 <= c < gw,
                        ;
                        lemma_pixel_coordinates(r * gw + c, r, c, gw as int);
                    }
                    if 0 <= i && r == row && c == col {
                        lemma_pixel_coordinates(i, i / (stride as int), i % (stride as int), stride as int);
                    }
                    match target {
                        Some(index) => {
                            if i == index {
                                lemma_pixel_coordinates(i, y + row, x + col, stride as int);
                            }
                        },
                        None => {},
                    }
                }
                assert(fb.pixels() =~= drawn_next);
            }
            col += 1;
        }
        proof {
            if gw == 0 {
                assert(g.0.len() == 0) by (nonlinear_arith)
                    requires
                        g.0.len() == gw * gh,
                        gw == 0,
                ;
            }
            let a = glyph_prefix(g, x as int, y as int, area, row as int, gw as int);
            let b = glyph_prefix(g, x as int, y as int, area, row + 1, 0);
            assert forall|k: int| 0 <= k < g.0.len() implies #[trigger] a.0[k] == b.0[k] by {
                lemma_pixel_coordinates(k, k / (gw as int), k % (gw as int), gw as int);
            }
            assert(a.0 =~= b.0);
            assert(a == b);
        }
        row += 1;
    }
    proof {
        if gw == 0 {
            assert(g.0.len() == 0) by (nonlinear_arith)
                requires
                    g.0.len() == gw * gh,
                    gw == 0,
            ;
        }
        let full = glyph_prefix(g, x as int, y as int, area, gh as int, 0);
        assert forall|k: int| 0 <= k < g.0.len() implies #[trigger] full.0[k] == g.0[k] by {
            assert(k / (gw as int) < gh) by (nonlinear_arith)
                requires
                    0 <= k < gw * gh,
                    gw > 0,
            ;
        }
        assert(full.0 =~= g.0);
        assert(full == g);
    }
}

/// The glyph drawn for `c`: the font's, or its `?` at the default size
/// when it lacks `c`.
pub open spec fn text_glyph(c: char, size: FontSize) -> Option<GlyphView> {
    match font_glyph(c, size) {
        Some(g) => Some(g),
        None => font_glyph('?', DEFAULT_FONT_SIZE),
    }
}

/// The bytes after drawing `chars` from (`x`, `y`) onwards: glyph after
/// glyph, each one its width to the right of the one before, up to the
/// first newline; a character with no glyph at all is skipped, and drawing
/// stops where the next position would not be a `usize`.
pub open spec fn text_drawn(
    bytes: Seq<u8>,
    chars: Seq<char>,
    x: int,
    y: int,
    color: Color,
    size: FontSize,
    area: (int, int, int),
    format: PixelFormat,
) -> Seq<u8>
    decreases chars.len(),
{
    if chars.len() == 0 || chars[0] == '\n' {
        bytes
    } else {
        match text_glyph(chars[0], size) {
            None => text_drawn(bytes, chars.drop_first(), x, y, color, size, area, format),
            Some(g) => {
                let drawn = glyph_drawn(bytes, g, x, y, color, area, format);
                if x + g.1 > usize::MAX {
                    drawn
                } else {
                    text_drawn(drawn, chars.drop_first(), x + g.1, y, color, size, area, format)
                }
            },
        }
    }
}

/// Draws the first line of `text` with its top-left corner at `origin`,
/// at `font_size` (the default size when none is given); a framebuffer that
/// cannot be drawn is left as it is.
pub fn draw_text(fb: &mut Framebuffer, text: &str, origin: PixelCoord, color: Color, font_size: Option<FontSize>)
    ensures
        final(fb).wf() == old(fb).wf(),
        final(fb).spec_width() == old(fb).spec_width(),
        final(fb).spec_height() == old(fb).spec_height(),
        final(fb).spec_stride() == old(fb).spec_stride(),
        final(fb).format() == old(fb).format(),
        !old(fb).wf() ==> final(fb).pixels() == old(fb).pixels(),
        old(fb).wf() ==> final(fb).pixels() == text_drawn(
            old(fb).pixels(),
            text@,
            origin.spec_x() as int,
            origin.spec_y() as int,
            color,
            match font_size {
                Some(size) => size,
                None => DEFAULT_FONT_SIZE,
            },
            (old(fb).spec_width(), old(fb).spec_height(), old(fb).spec_stride()),
            old(fb).format(),
        ),
{
    if !fb.is_drawable() {
        return ;
    }
    let size = match font_size {
        Some(size) => size,
        None => DEFAULT_FONT_SIZE,
    };
    let chars = super::super::commands::parser::chars_of(text);
    let y = origin.y();
    let mut cursor_x = origin.x();
    let ghost area = (fb.spec_width(), fb.spec_height(), fb.spec_stride());
    let ghost format = fb.format();
    let ghost before = fb.pixels();
    let mut i: usize = 0;
    assert(chars@.skip(0) =~= chars@);
    while i < chars.len()
        invariant
            fb.wf(),
            old(fb).wf(),
            fb.spec_width() == old(fb).spec_width(),
            fb.spec_height() == old(fb).spec_height(),
            fb.spec_stride() == old(fb).spec_stride(),
            fb.format() == old(fb).format(),
            area == (old(fb).spec_width(), old(fb).spec_height(), old(fb).spec_stride()),
            format == old(fb).format(),
            before == old(fb).pixels(),
            chars@ == text@,
            y == origin.spec_y(),
            size == (match font_size {
                Some(size) => size,
                None => DEFAULT_FONT_SIZE,
            }),
            i <= chars.len(),
            text_drawn(before, text@, origin.spec_x() as int, y as int, color, size, area, format) == text_drawn(
                fb.pixels(),
                chars@.skip(i as int),
                cursor_x as int,
                y as int,
                color,
                size,
                area,
                format,
            ),
        decreases chars.len() - i,
    {
        let ch = chars[i];
        let ghost rest = chars@.skip(i as int);
        assert(rest[0] == ch);
        assert(rest.drop_first() =~= chars@.skip(i + 1));
        if ch == '\n' {
            return ;
        }
        let glyph = match raster(ch, size) {
            Some(glyph) => glyph,
            None => match raster('?', DEFAULT_FONT_SIZE) {
                Some(glyph) => glyph,
                None => {
                    i += 1;
                    continue;
                },
            },
        };
        draw_glyph(fb, &glyph, cursor_x, y, color);
        cursor_x = match cursor_x.checked_add(glyph.width()) {
            Some(next) => next,
            None => return ,
        };
        i += 1;
    }
    assert(chars@.skip(i as int) =~= Seq::<char>::empty());
}

} // verus!
