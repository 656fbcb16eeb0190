//! A linear framebuffer of 32-bit pixels over a borrowed byte mapping.

use vstd::prelude::*;

use super::pixel::{PixelSize, Stride};
use crate::color::Color;

verus! {

/// A count of bytes in a framebuffer mapping.
#[derive(Clone, Copy, Debug, PartialEq, Eq, Structural)]
pub struct FramebufferBytes(usize);

impl View for FramebufferBytes {
    type V = usize;

    closed spec fn view(&self) -> usize {
        self.0
    }
}

impl FramebufferBytes {
    pub fn new(value: usize) -> (bytes: FramebufferBytes)
        ensures
            bytes@ == value,
    {
        FramebufferBytes(value)
    }

    pub fn get(self) -> (value: usize)
        ensures
            value == self@,
    {
        self.0
    }
}

/// How the color channels of a pixel are laid out.
#[derive(Clone, Copy, Debug, PartialEq, Eq, Structural)]
pub enum PixelFormat {
    Rgb,
    Bgr,
    Bitmask,
    BltOnly,
}

#[derive(Clone, Copy, Debug, PartialEq, Eq, Structural)]
pub enum FramebufferError {
    UnsupportedPixelFormat(PixelFormat),
    InvalidGeometry,
    FramebufferTooSmall { required: FramebufferBytes, actual: FramebufferBytes },
}

/// Bytes a framebuffer of this geometry needs: four per pixel of every
/// row, rows `stride` pixels apart.  None when a row is wider than the
/// stride or the size overflows.
pub open spec fn required_bytes(width: int, height: int, stride: int) -> Option<int> {
    if width > stride || stride * height * 4 > usize::MAX {
        None
    } else {
        Some(stride * height * 4)
    }
}

pub open spec fn drawable_format(format: PixelFormat) -> bool {
    format == PixelFormat::Rgb || format == PixelFormat::Bgr
}

/// The byte written for channel `k` (0, 1 or 2) of a pixel of `color`.
pub open spec fn channel(color: Color, format: PixelFormat, k: int) -> u8 {
    if format == PixelFormat::Rgb {
        if k == 0 { color.r } else if k == 1 { color.g } else { color.b }
    } else {
        if k == 0 { color.b } else if k == 1 { color.g } else { color.r }
    }
}

/// The bytes after writing `color` to pixel `index`, when the pixel lies in the mapping.
pub open spec fn paint_pixel(bytes: Seq<u8>, index: int, color: Color, format: PixelFormat) -> Seq<u8> {
    if 0 <= index && 4 * index + 4 <= bytes.len() {
        bytes.update(4 * index, channel(color, format, 0)).update(4 * index + 1, channel(color, format, 1)).update(
            4 * index + 2,
            channel(color, format, 2),
        )
    } else {
        bytes
    }
}

/// The bytes after writing `color` to every pixel whose index satisfies
/// `region`; the fourth byte of each pixel is left as it was.
pub open spec fn paint_region(bytes: Seq<u8>, region: spec_fn(int) -> bool, color: Color, format: PixelFormat) -> Seq<u8> {
    Seq::new(bytes.len(), |p: int| if p % 4 < 3 && region(p / 4) { channel(color, format, p % 4) } else { bytes[p] })
}

/// The color a pixel's bytes hold.
pub open spec fn pixel_color(bytes: Seq<u8>, index: int, format: PixelFormat) -> Color {
    if format == PixelFormat::Rgb {
        Color { r: bytes[4 * index], g: bytes[4 * index + 1], b: bytes[4 * index + 2] }
    } else {
        Color { r: bytes[4 * index + 2], g: bytes[4 * index + 1], b: bytes[4 * index] }
    }
}

/// A framebuffer over a byte mapping: `size` visible pixels per row and
/// rows, rows `stride` pixels apart, four bytes per pixel.
pub struct Framebuffer<'a> {
    bytes: &'a mut [u8],
    size: PixelSize,
    stride: Stride,
    pixel_format: PixelFormat,
    byte_len: FramebufferBytes,
}

impl<'a> Framebuffer<'a> {
    /// The framebuffer's geometry is consistent with its mapping.
    pub closed spec fn wf(&self) -> bool {
        &&& drawable_format(self.pixel_format)
        &&& self.byte_len@ == self.bytes@.len()
        &&& self.size.spec_width() > 0
        &&& self.size.spec_height() > 0
        &&& self.stride.spec_get() > 0
        &&& required_bytes(self.size.spec_width() as int, self.size.spec_height() as int, self.stride.spec_get() as int)
            matches Some(required) && required <= self.bytes@.len()
    }

    pub closed spec fn pixels(&self) -> Seq<u8> {
        self.bytes@
    }

    /// A mapping's length is a `usize`.
    pub proof fn lemma_mapping_fits(&self)
        ensures
            self.pixels().len() <= usize::MAX,
    {
        broadcast use vstd::slice::axiom_spec_len;

        assert(vstd::slice::spec_slice_len(self.bytes) == self.bytes@.len());
    }

    /// A drawable framebuffer's rows fit in its mapping, and its visible
    /// pixels fit in a row.
    pub proof fn lemma_geometry(&self)
        requires
            self.wf(),
        ensures
            0 < self.spec_width() <= self.spec_stride(),
            0 < self.spec_height(),
            self.spec_stride() * self.spec_height() * 4 <= self.pixels().len() <= usize::MAX,
            drawable_format(self.format()),
    {
        self.lemma_mapping_fits();
    }

    pub closed spec fn spec_width(&self) -> int {
        self.size.spec_width() as int
    }

    pub closed spec fn spec_height(&self) -> int {
        self.size.spec_height() as int
    }

    pub closed spec fn spec_stride(&self) -> int {
        self.stride.spec_get() as int
    }

    pub closed spec fn format(&self) -> PixelFormat {
        self.pixel_format
    }

    /// Bytes a framebuffer of this geometry needs.
    pub fn required_byte_len(size: PixelSize, stride: Stride) -> (required: Option<FramebufferBytes>)
        ensures
            match required_bytes(size.spec_width() as int, size.spec_height() as int, stride.spec_get() as int) {
                None => required.is_none(),
                Some(n) => required.is_some() && required.unwrap()@ == n,
            },
    {
        let width = size.width();
        let height = size.height();
        let stride = stride.get();
        if width > stride {
            return None;
        }
        let rows = match stride.checked_mul(height) {
            Some(rows) => rows,
            None => {
                assert(stride * height * 4 > usize::MAX) by (nonlinear_arith)
                    requires
                        stride * height > usize::MAX;
                return None;
            },
        };
        match rows.checked_mul(4) {
            Some(bytes) => Some(FramebufferBytes::new(bytes)),
            None => None,
        }
    }

    /// A framebuffer over `bytes`, when the format has RGB channels and the
    /// mapping holds every row.
    pub fn from_mut_slice(bytes: &'a mut [u8], size: PixelSize, stride: Stride, pixel_format: PixelFormat) -> (result: Result<
        Framebuffer<'a>,
        FramebufferError,
    >)
        ensures
            !drawable_format(pixel_format) ==> result == Err::<Framebuffer<'a>, FramebufferError>(
                FramebufferError::UnsupportedPixelFormat(pixel_format),
            ),
            drawable_format(pixel_format) ==> match required_bytes(
                size.spec_width() as int,
                size.spec_height() as int,
                stride.spec_get() as int,
            ) {
                None => result == Err::<Framebuffer<'a>, FramebufferError>(FramebufferError::InvalidGeometry),
                Some(required) => if old(bytes)@.len() < required {
                    result matches Err(FramebufferError::FramebufferTooSmall { required: r, actual: a }) && r@ == required
                        && a@ == old(bytes)@.len()
                } else {
                    result matches Ok(fb) && fb.wf() && fb.pixels() == old(bytes)@ && fb.format() == pixel_format
                        && fb.spec_width() == size.spec_width() && fb.spec_height() == size.spec_height()
                        && fb.spec_stride() == stride.spec_get()
                },
            },
            result is Err ==> final(bytes)@ == old(bytes)@,
    {
        match pixel_format {
            PixelFormat::Rgb | PixelFormat::Bgr => {},
            _ => return Err(FramebufferError::UnsupportedPixelFormat(pixel_format)),
        }
        let required = match Self::required_byte_len(size, stride) {
            Some(required) => required,
            None => return Err(FramebufferError::InvalidGeometry),
        };
        let byte_len = FramebufferBytes::new(bytes.len());
        if byte_len.get() < required.get() {
            return Err(FramebufferError::FramebufferTooSmall { required, actual: byte_len });
        }
        let _ = size.width();
        let _ = size.height();
        let _ = stride.get();
        let fb = Framebuffer { bytes, size, stride, pixel_format, byte_len };
        assert(fb.pixels() == old(bytes)@);
        assert(fb.wf());
        Ok(fb)
    }

    pub fn size(&self) -> (size: PixelSize)
        ensures
            size.spec_width() == self.spec_width() && size.spec_height() == self.spec_height(),
    {
        self.size
    }

    pub fn row_stride(&self) -> (stride: Stride)
        ensures
            stride.spec_get() == self.spec_stride(),
    {
        self.stride
    }

    pub fn width(&self) -> (width: usize)
        ensures
            width == self.spec_width(),
    {
        self.size.width()
    }

    pub fn height(&self) -> (height: usize)
        ensures
            height == self.spec_height(),
    {
        self.size.height()
    }

    pub fn stride(&self) -> (stride: usize)
        ensures
            stride == self.spec_stride(),
    {
        self.stride.get()
    }

    /// Whether drawing is possible: the format has RGB channels and the
    /// mapping holds every row.
    pub fn is_drawable(&self) -> (drawable: bool)
        ensures
            drawable == self.wf(),
    {
        let format_ok = match self.pixel_format {
            PixelFormat::Rgb | PixelFormat::Bgr => true,
            _ => false,
        };
        let _ = self.size.width();
        let _ = self.size.height();
        let _ = self.stride.get();
        format_ok && self.byte_len.get() == self.bytes.len() && match Self::required_byte_len(self.size, self.stride) {
            Some(required) => required.get() <= self.byte_len.get(),
            None => false,
        }
    }

    /// Writes `color` to pixel `pixel_index`; refuses (returning false) a
    /// pixel outside the mapping or a format without RGB channels.
    pub fn write_pixel(&mut self, pixel_index: usize, color: &Color) -> (written: bool)
        ensures
            written == (drawable_format(old(self).format()) && 4 * pixel_index + 4 <= old(self).pixels().len()),
            written ==> final(self).pixels() == paint_pixel(old(self).pixels(), pixel_index as int, *color, old(self).format()),
            !written ==> final(self).pixels() == old(self).pixels(),
            final(self).format() == old(self).format(),
            final(self).spec_width() == old(self).spec_width(),
            final(self).spec_height() == old(self).spec_height(),
            final(self).spec_stride() == old(self).spec_stride(),
            final(self).wf() == old(self).wf(),
    {
        let len = self.bytes.len();
        let rgb: [u8; 3] = match self.pixel_format {
            PixelFormat::Rgb => [color.r, color.g, color.b],
            PixelFormat::Bgr => [color.b, color.g, color.r],
            _ => return false,
        };
        let offset = match pixel_index.checked_mul(4) {
            Some(offset) => offset,
            None => return false,
        };
        let end = match offset.checked_add(4) {
            Some(end) => end,
            None => return false,
        };
        if end > self.bytes.len() {
            return false;
        }
        self.bytes[offset] = rgb[0];
        self.bytes[offset + 1] = rgb[1];
        self.bytes[offset + 2] = rgb[2];
        true
    }

    /// The color of the pixel at (`x`, `y`); black outside the visible area.
    pub fn read_pixel(&self, x: usize, y: usize) -> (color: Color)
        requires
            self.wf(),
        ensures
            x < self.spec_width() && y < self.spec_height() ==> color == pixel_color(
                self.pixels(),
                y * self.spec_stride() + x,
                self.format(),
            ),
            !(x < self.spec_width() && y < self.spec_height()) ==> color == (Color { r: 0, g: 0, b: 0 }),
    {
        if x >= self.width() || y >= self.height() {
            return Color::black();
        }
        let stride = self.stride();
        proof { lemma_pixel_in_mapping(x as int, y as int, self.spec_width(), self.spec_height(), stride as int); }
        let offset = (y * stride + x) * 4;
        let first = self.bytes[offset];
        let second = self.bytes[offset + 1];
        let third = self.bytes[offset + 2];
        match self.pixel_format {
            PixelFormat::Rgb => Color::new(first, second, third),
            _ => Color::new(third, second, first),
        }
    }
}

/// A visible pixel's bytes lie inside the rows the mapping holds.
pub proof fn lemma_pixel_in_mapping(x: int, y: int, width: int, height: int, stride: int)
    requires
        0 <= x < width <= stride,
        0 <= y < height,
    ensures
        (y * stride + x) * 4 + 4 <= stride * height * 4,
        y * stride + x < stride * height,
        0 <= y * stride + x,
{
    assert(y * stride + x < stride * height) by (nonlinear_arith)
        requires
            0 <= x < width <= stride,
            0 <= y < height;
    assert(0 <= y * stride) by (nonlinear_arith)
        requires
            0 <= y,
            0 <= x < stride;
}

/// The pixel indices of the rectangle of columns `[x0, x1)` and rows
/// `[y0, y1)`, rows `stride` pixels apart.
pub open spec fn rect_region(x0: int, y0: int, x1: int, y1: int, stride: int) -> spec_fn(int) -> bool {
    |i: int| 0 <= i && y0 <= i / stride < y1 && x0 <= i % stride < x1
}

/// The rectangle's rows before `row`, and the columns before `col` of `row`.
pub open spec fn rect_prefix(x0: int, x1: int, y0: int, row: int, col: int, stride: int) -> spec_fn(int) -> bool {
    |i: int| 0 <= i && ((y0 <= i / stride < row && x0 <= i % stride < x1) || (i / stride == row && x0 <= i % stride < col))
}

/// The pixel at column `col` of row `row` is the one at index `row * stride + col`.
pub proof fn lemma_pixel_coordinates(i: int, row: int, col: int, stride: int)
    requires
        0 <= i,
        0 <= row,
        0 <= col < stride,
    ensures
        (i / stride == row && i % stride == col) <==> i == row * stride + col,
{
    vstd::arithmetic::div_mod::lemma_fundamental_div_mod(i, stride);
    if i == row * stride + col {
        vstd::arithmetic::div_mod::lemma_fundamental_div_mod_converse(i, stride, row, col);
    }
    if i / stride == row && i % stride == col {
        assert(i == stride * row + col);
        assert(stride * row == row * stride) by (nonlinear_arith);
    }
}

/// Painting one more pixel of a region paints the region grown by that pixel.
pub proof fn lemma_paint_step(bytes: Seq<u8>, region: spec_fn(int) -> bool, index: int, color: Color, format: PixelFormat)
    requires
        0 <= index,
        4 * index + 4 <= bytes.len(),
    ensures
        paint_pixel(paint_region(bytes, region, color, format), index, color, format) =~= paint_region(
            bytes,
            |i: int| region(i) || i == index,
            color,
            format,
        ),
{
}

/// Painting one more pixel of a region paints any region that holds
/// exactly the old region and that pixel.
pub proof fn lemma_paint_grow(
    bytes: Seq<u8>,
    region: spec_fn(int) -> bool,
    grown: spec_fn(int) -> bool,
    index: int,
    color: Color,
    format: PixelFormat,
)
    requires
        0 <= index,
        4 * index + 4 <= bytes.len(),
        forall|i: int| 0 <= i ==> #[trigger] grown(i) == (region(i) || i == index),
    ensures
        paint_pixel(paint_region(bytes, region, color, format), index, color, format) == paint_region(
            bytes,
            grown,
            color,
            format,
        ),
{
    lemma_paint_step(bytes, region, index, color, format);
    lemma_paint_same_region(bytes, |i: int| region(i) || i == index, grown, color, format);
}

/// Painting the same bytes with regions that hold the same pixels gives the same bytes.
pub proof fn lemma_paint_same_region(bytes: Seq<u8>, a: spec_fn(int) -> bool, b: spec_fn(int) -> bool, color: Color, format: PixelFormat)
    requires
        forall|i: int| 0 <= i ==> #[trigger] a(i) == b(i),
    ensures
        paint_region(bytes, a, color, format) == paint_region(bytes, b, color, format),
{
    assert forall|p: int| 0 <= p < bytes.len() implies #[trigger] paint_region(bytes, a, color, format)[p] == paint_region(bytes, b, color, format)[p] by {
        assert(a(p / 4) == b(p / 4));
    }
    assert(paint_region(bytes, a, color, format) =~= paint_region(bytes, b, color, format));
}

impl<'a> Framebuffer<'a> {
    /// Paints the rectangle of columns `[x0, x1)` and rows `[y0, y1)`.
    pub fn fill_rect(&mut self, x0: usize, y0: usize, x1: usize, y1: usize, color: &Color)
        requires
            old(self).wf(),
            x0 <= x1 <= old(self).spec_width(),
            y0 <= y1 <= old(self).spec_height(),
        ensures
            final(self).wf(),
            final(self).format() == old(self).format(),
            final(self).spec_width() == old(self).spec_width(),
            final(self).spec_height() == old(self).spec_height(),
            final(self).spec_stride() == old(self).spec_stride(),
            final(self).pixels() == paint_region(
                old(self).pixels(),
                rect_region(x0 as int, y0 as int, x1 as int, y1 as int, old(self).spec_stride()),
                *color,
                old(self).format(),
            ),
    {
        let stride = self.stride();
        let width = self.width();
        let height = self.height();
        let ghost before = self.pixels();
        let ghost format = self.format();
        proof {
            lemma_paint_same_region(before, rect_prefix(x0 as int, x1 as int, y0 as int, y0 as int, x0 as int, stride as int), |i: int| false, *color, format);
            assert(paint_region(before, |i: int| false, *color, format) =~= before);
        }
        let mut row = y0;
        while row < y1
            invariant
                self.wf(),
                y0 <= row <= y1 <= height,
                x0 <= x1 <= width <= stride,
                stride == self.spec_stride(),
                width == self.spec_width(),
                height == self.spec_height(),
                format == self.format(),
                before.len() == self.pixels().len(),
                self.pixels() == paint_region(before, rect_prefix(x0 as int, x1 as int, y0 as int, row as int, x0 as int, stride as int), *color, format),
            decreases y1 - row,
        {
            let mut col = x0;
            while col < x1
                invariant
                    self.wf(),
                    y0 <= row < y1 <= height,
                    x0 <= col <= x1 <= width <= stride,
                    stride == self.spec_stride(),
                    width == self.spec_width(),
                    height == self.spec_height(),
                    format == self.format(),
                    before.len() == self.pixels().len(),
                    self.pixels() == paint_region(before, rect_prefix(x0 as int, x1 as int, y0 as int, row as int, col as int, stride as int), *color, format),
                decreases x1 - col,
            {
                proof { lemma_pixel_in_mapping(col as int, row as int, width as int, height as int, stride as int); }
                let index = row * stride + col;
                let ghost prefix = rect_prefix(x0 as int, x1 as int, y0 as int, row as int, col as int, stride as int);
                proof { lemma_paint_step(before, prefix, index as int, *color, format); }
                self.write_pixel(index, color);
                proof {
                    let grown = rect_prefix(x0 as int, x1 as int, y0 as int, row as int, col + 1, stride as int);
                    assert forall|i: int| 0 <= i implies (prefix(i) || i == index) == #[trigger] grown(i) by {
                        lemma_pixel_coordinates(i, row as int, col as int, stride as int);
                    }
                    lemma_paint_same_region(before, |i: int| prefix(i) || i == index, grown, *color, format);
                }
                col += 1;
            }
            proof {
                lemma_paint_same_region(
                    before,
                    rect_prefix(x0 as int, x1 as int, y0 as int, row as int, x1 as int, stride as int),
                    rect_prefix(x0 as int, x1 as int, y0 as int, row + 1, x0 as int, stride as int),
                    *color,
                    format,
                );
            }
            row += 1;
        }
        proof {
            lemma_paint_same_region(
                before,
                rect_prefix(x0 as int, x1 as int, y0 as int, y1 as int, x0 as int, stride as int),
                rect_region(x0 as int, y0 as int, x1 as int, y1 as int, stride as int),
                *color,
                format,
            );
        }
    }
}

/// The bytes after scrolling the visible rows up by `rows`: every row moves
/// `rows` rows up and the rows freed at the bottom are zeroed; scrolling by
/// the height or more zeroes every row.  Bytes past the last row stay.
pub open spec fn scrolled(bytes: Seq<u8>, rows: int, height: int, stride: int) -> Seq<u8> {
    let total = height * stride * 4;
    let shift = rows * stride * 4;
    if rows >= height {
        Seq::new(bytes.len(), |p: int| if p < total { 0u8 } else { bytes[p] })
    } else {
        Seq::new(bytes.len(), |p: int| if p < total - shift { bytes[p + shift] } else if p < total { 0u8 } else { bytes[p] })
    }
}

impl<'a> Framebuffer<'a> {
    /// Scrolls the visible rows up by `rows`; a framebuffer that cannot be
    /// drawn is left as it is.
    pub fn scroll_rows(&mut self, rows: usize)
        ensures
            final(self).format() == old(self).format(),
            final(self).spec_width() == old(self).spec_width(),
            final(self).spec_height() == old(self).spec_height(),
            final(self).spec_stride() == old(self).spec_stride(),
            final(self).wf() == old(self).wf(),
            !old(self).wf() ==> final(self).pixels() == old(self).pixels(),
            old(self).wf() ==> final(self).pixels() == scrolled(
                old(self).pixels(),
                rows as int,
                old(self).spec_height(),
                old(self).spec_stride(),
            ),
    {
        if !self.is_drawable() || rows == 0 {
            proof {
                if self.wf() {
                    assert(self.pixels() =~= scrolled(self.pixels(), 0, self.spec_height(), self.spec_stride()));
                }
            }
            return;
        }
        let height = self.height();
        let stride = self.stride();
        let len = self.bytes.len();
        assert(stride * height * 4 <= len);
        assert(stride * 4 <= usize::MAX && height * (stride * 4) <= usize::MAX && height * (stride * 4) == height * stride * 4) by (nonlinear_arith)
            requires
                height >= 1,
                stride * height * 4 <= len,
                len <= usize::MAX;
        let row_bytes = stride * 4;
        let total = height * row_bytes;
        assert(total == height * stride * 4);
        assert(height * stride * 4 == stride * height * 4) by (nonlinear_arith);
        let ghost before = self.pixels();
        let visible_rows = if rows >= height { height } else { rows };
        assert(visible_rows * row_bytes <= total) by (nonlinear_arith)
            requires
                visible_rows <= height,
                total == height * row_bytes,
                row_bytes >= 0;
        let shift = visible_rows * row_bytes;
        let moved = total - shift;
        let mut i: usize = 0;
        while i < moved
            invariant
                self.wf(),
                before.len() == self.pixels().len(),
                total <= before.len(),
                moved + shift == total,
                i <= moved,
                forall|j: int| 0 <= j < i ==> #[trigger] self.pixels()[j] == before[j + shift],
                forall|j: int| i <= j < before.len() ==> #[trigger] self.pixels()[j] == before[j],
                self.format() == old(self).format(),
                self.spec_width() == old(self).spec_width(),
                self.spec_height() == old(self).spec_height(),
                self.spec_stride() == old(self).spec_stride(),
            decreases moved - i,
        {
            let value = self.bytes[i + shift];
            self.bytes[i] = value;
            i += 1;
        }
        let mut k: usize = moved;
        while k < total
            invariant
                self.wf(),
                before.len() == self.pixels().len(),
                total <= before.len(),
                moved + shift == total,
                moved <= k <= total,
                forall|j: int| 0 <= j < moved ==> #[trigger] self.pixels()[j] == before[j + shift],
                forall|j: int| moved <= j < k ==> #[trigger] self.pixels()[j] == 0u8,
                forall|j: int| k <= j < before.len() ==> #[trigger] self.pixels()[j] == before[j],
                self.format() == old(self).format(),
                self.spec_width() == old(self).spec_width(),
                self.spec_height() == old(self).spec_height(),
                self.spec_stride() == old(self).spec_stride(),
            decreases total - k,
        {
            self.bytes[k] = 0;
            k += 1;
        }
        proof {
            if rows >= height {
                assert(shift == total);
            } else {
                assert(shift == rows * stride * 4) by (nonlinear_arith)
                    requires
                        shift == rows * row_bytes,
                        row_bytes == stride * 4;
            }
        }
        assert(self.pixels() =~= scrolled(before, rows as int, height as int, stride as int));
    }
}

} // verus!
