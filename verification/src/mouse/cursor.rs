//! The mouse cursor: a small white square that remembers the pixels it
//! covers so that erasing it restores them.

use vstd::prelude::*;

use crate::color::Color;
use crate::graphics::drawing::draw_rec;
use crate::graphics::framebuffer::{
    channel, drawable_format, lemma_pixel_coordinates, lemma_pixel_in_mapping, paint_pixel, paint_region,
    pixel_color, rect_region, Framebuffer, PixelFormat,
};
use crate::graphics::pixel::{PixelCoord, PixelSize};

verus! {

/// Side of the cursor square, in pixels.
pub const CURSOR_SIDE: usize = 5;

/// Pixels under the cursor.
pub const CURSOR_PIXELS: usize = 25;

/// The pixel index of cell `k` (row-major) of a cursor at (`x`, `y`).
pub open spec fn cell_index(x: int, y: int, stride: int, k: int) -> int {
    (y + k / 5) * stride + x + k % 5
}

/// The bytes after writing back the first `k` saved cells, in order.
pub open spec fn restore_cells(
    bytes: Seq<u8>,
    x: int,
    y: int,
    stride: int,
    saved: Seq<Color>,
    format: PixelFormat,
    k: int,
) -> Seq<u8>
    decreases k,
{
    if k <= 0 {
        bytes
    } else {
        paint_pixel(
            restore_cells(bytes, x, y, stride, saved, format, k - 1),
            cell_index(x, y, stride, k - 1),
            saved[k - 1],
            format,
        )
    }
}

/// Where the cursor is drawn, and the pixels beneath it.
pub struct MouseCursor {
    position: Option<(usize, usize)>,
    saved_under: [Color; CURSOR_PIXELS],
}

impl MouseCursor {
    /// A cursor that is not drawn, with every saved cell black.
    pub fn new() -> (cursor: MouseCursor)
        ensures
            cursor.position().is_none(),
            cursor.saved() == Seq::new(CURSOR_PIXELS as nat, |k: int| Color { r: 0, g: 0, b: 0 }),
    {
        let cursor = MouseCursor { position: None, saved_under: [Color::black(); CURSOR_PIXELS] };
        assert(cursor.saved() =~= Seq::new(CURSOR_PIXELS as nat, |k: int| Color { r: 0, g: 0, b: 0 }));
        cursor
    }

    /// The top-left pixel of the drawn cursor, if it is drawn.
    pub closed spec fn position(&self) -> Option<(usize, usize)> {
        self.position
    }

    /// The colors beneath the drawn cursor, row by row.
    pub closed spec fn saved(&self) -> Seq<Color> {
        self.saved_under@
    }

    pub fn current_position(&self) -> (position: Option<(usize, usize)>)
        ensures
            position == self.position(),
    {
        self.position
    }
}

/// Draws the cursor at `origin`, first saving the pixels it covers; a
/// cursor that would not fit the visible area is not drawn.
pub fn draw_mouse_cursor(cursor: &mut MouseCursor, fb: &mut Framebuffer, origin: PixelCoord)
    ensures
        final(fb).wf() == old(fb).wf(),
        final(fb).spec_width() == old(fb).spec_width(),
        final(fb).spec_height() == old(fb).spec_height(),
        final(fb).spec_stride() == old(fb).spec_stride(),
        final(fb).format() == old(fb).format(),
        ({
            let (x, y) = (origin.spec_x() as int, origin.spec_y() as int);
            if old(fb).wf() && x + 5 <= old(fb).spec_width() && y + 5 <= old(fb).spec_height() {
                &&& final(cursor).position() == Some((origin.spec_x(), origin.spec_y()))
                &&& final(cursor).saved().len() == CURSOR_PIXELS
                &&& forall|k: int|
                    0 <= k < CURSOR_PIXELS ==> #[trigger] final(cursor).saved()[k] == pixel_color(
                        old(fb).pixels(),
                        cell_index(x, y, old(fb).spec_stride(), k),
                        old(fb).format(),
                    )
                &&& final(fb).pixels() == paint_region(
                    old(fb).pixels(),
                    rect_region(x, y, x + 5, y + 5, old(fb).spec_stride()),
                    Color { r: 255, g: 255, b: 255 },
                    old(fb).format(),
                )
            } else {
                &&& final(fb).pixels() == old(fb).pixels()
                &&& *final(cursor) == *old(cursor)
            }
        }),
{
    let x = origin.x();
    let y = origin.y();
    let width = fb.width();
    let height = fb.height();
    let right = match x.checked_add(CURSOR_SIDE) {
        Some(right) => right,
        None => return ,
    };
    let bottom = match y.checked_add(CURSOR_SIDE) {
        Some(bottom) => bottom,
        None => return ,
    };
    if !fb.is_drawable() || right > width || bottom > height {
        return ;
    }
    let ghost stride = fb.spec_stride();
    let mut saved = cursor.saved_under;
    let mut row: usize = 0;
    while row < CURSOR_SIDE
        invariant
            fb.wf(),
            right == x + 5 <= fb.spec_width(),
            bottom == y + 5 <= fb.spec_height(),
            stride == fb.spec_stride(),
            row <= CURSOR_SIDE,
            forall|k: int|
                0 <= k < row * 5 ==> #[trigger] saved@[k] == pixel_color(
                    fb.pixels(),
                    cell_index(x as int, y as int, stride, k),
                    fb.format(),
                ),
        decreases CURSOR_SIDE - row,
    {
        let mut col: usize = 0;
        while col < CURSOR_SIDE
            invariant
                fb.wf(),
                right == x + 5 <= fb.spec_width(),
                bottom == y + 5 <= fb.spec_height(),
                stride == fb.spec_stride(),
                row < CURSOR_SIDE,
                col <= CURSOR_SIDE,
                forall|k: int|
                    0 <= k < row * 5 + col ==> #[trigger] saved@[k] == pixel_color(
                        fb.pixels(),
                        cell_index(x as int, y as int, stride, k),
                        fb.format(),
                    ),
            decreases CURSOR_SIDE - col,
        {
            let color = fb.read_pixel(x + col, y + row);
            let k = row * CURSOR_SIDE + col;
            assert(k / 5 == row && k % 5 == col);
            saved[k] = color;
            col += 1;
        }
        row += 1;
    }
    *cursor = MouseCursor { position: Some((x, y)), saved_under: saved };
    draw_rec(fb, PixelCoord::new(x, y), PixelSize::new(CURSOR_SIDE, CURSOR_SIDE), Color::white());
}

/// The pixel index of cell (`row`, `col`) of a cursor at (`x`, `y`), when
/// it fits in a `usize`.
fn checked_cell_index(x: usize, y: usize, stride: usize, row: usize, col: usize) -> (index: Option<usize>)
    requires
        row < 5,
        col < 5,
    ensures
        ({
            let cell = (y + row) * stride + x + col;
            match index {
                Some(i) => i == cell,
                None => cell > usize::MAX,
            }
        }),
{
    if stride == 0 {
        let left = x.checked_add(col)?;
        return Some(left);
    }
    let top = match y.checked_add(row) {
        Some(top) => top,
        None => {
            assert((y + row) * stride + x + col > usize::MAX) by (nonlinear_arith)
                requires
                    y + row > usize::MAX,
                    stride >= 1,
            ;
            return None;
        },
    };
    let start = match top.checked_mul(stride) {
        Some(start) => start,
        None => {
            assert((y + row) * stride + x + col > usize::MAX) by (nonlinear_arith)
                requires
                    top * stride > usize::MAX,
                    top == y + row,
            ;
            return None;
        },
    };
    let left = match start.checked_add(x) {
        Some(left) => left,
        None => return None,
    };
    left.checked_add(col)
}

/// Erases the cursor, if it is drawn, by writing the saved pixels back.
pub fn erase_mouse_cursor(cursor: &mut MouseCursor, fb: &mut Framebuffer)
    ensures
        final(cursor).position().is_none(),
        final(cursor).saved() == old(cursor).saved(),
        final(fb).wf() == old(fb).wf(),
        final(fb).spec_width() == old(fb).spec_width(),
        final(fb).spec_height() == old(fb).spec_height(),
        final(fb).spec_stride() == old(fb).spec_stride(),
        final(fb).format() == old(fb).format(),
        match old(cursor).position() {
            Some((x, y)) if drawable_format(old(fb).format()) => final(fb).pixels() == restore_cells(
                old(fb).pixels(),
                x as int,
                y as int,
                old(fb).spec_stride(),
                old(cursor).saved(),
                old(fb).format(),
                CURSOR_PIXELS as int,
            ),
            _ => final(fb).pixels() == old(fb).pixels(),
        },
{
    let position = cursor.position;
    let saved = cursor.saved_under;
    *cursor = MouseCursor { position: None, saved_under: saved };
    if let Some((x, y)) = position {
        let stride = fb.stride();
        let ghost before = fb.pixels();
        let ghost format = fb.format();
        let mut row: usize = 0;
        while row < CURSOR_SIDE
            invariant
                row <= CURSOR_SIDE,
                stride == fb.spec_stride(),
                format == fb.format(),
                fb.wf() == old(fb).wf(),
                fb.spec_width() == old(fb).spec_width(),
                fb.spec_height() == old(fb).spec_height(),
                fb.spec_stride() == old(fb).spec_stride(),
                fb.format() == old(fb).format(),
                before == old(fb).pixels(),
                drawable_format(format) ==> fb.pixels() == restore_cells(
                    before,
                    x as int,
                    y as int,
                    stride as int,
                    saved@,
                    format,
                    row * 5,
                ),
                !drawable_format(format) ==> fb.pixels() == before,
            decreases CURSOR_SIDE - row,
        {
            let mut col: usize = 0;
            while col < CURSOR_SIDE
                invariant
                    row < CURSOR_SIDE,
                    col <= CURSOR_SIDE,
                    stride == fb.spec_stride(),
                    format == fb.format(),
                    fb.wf() == old(fb).wf(),
                    fb.spec_width() == old(fb).spec_width(),
                    fb.spec_height() == old(fb).spec_height(),
                    fb.spec_stride() == old(fb).spec_stride(),
                    fb.format() == old(fb).format(),
                    before == old(fb).pixels(),
                    drawable_format(format) ==> fb.pixels() == restore_cells(
                        before,
                        x as int,
                        y as int,
                        stride as int,
                        saved@,
                        format,
                        row * 5 + col,
                    ),
                    !drawable_format(format) ==> fb.pixels() == before,
                decreases CURSOR_SIDE - col,
            {
                let k = row * CURSOR_SIDE + col;
                assert(k / 5 == row && k % 5 == col);
                let ghost cell = cell_index(x as int, y as int, stride as int, k as int);
                let ghost current = fb.pixels();
                proof {
                    fb.lemma_mapping_fits();
                }
                assert(cell == (y + row) * stride + x + col);
                let color = saved[k];
                match checked_cell_index(x, y, stride, row, col) {
                    Some(index) => {
                        fb.write_pixel(index, &color);
                    },
                    None => {
                        assert(4 * cell + 4 > current.len());
                    },
                }
                assert(drawable_format(format) ==> fb.pixels() == paint_pixel(current, cell, saved@[k as int], format));
                col += 1;
            }
            row += 1;
        }
    }
}

/// Which pixels the first `k` cells of a cursor at (`x`, `y`) cover.
pub open spec fn covered(x: int, y: int, stride: int, k: int, i: int) -> bool {
    exists|j: int| 0 <= j < k && i == #[trigger] cell_index(x, y, stride, j)
}

/// Writing back the first `k` saved cells over any bytes gives back the
/// saved bytes on those cells and leaves the rest alone.
proof fn lemma_restore_prefix(
    before: Seq<u8>,
    covered_bytes: Seq<u8>,
    x: int,
    y: int,
    width: int,
    height: int,
    stride: int,
    saved: Seq<Color>,
    format: PixelFormat,
    k: int,
)
    requires
        drawable_format(format),
        0 <= x,
        0 <= y,
        x + 5 <= width <= stride,
        y + 5 <= height,
        stride * height * 4 <= before.len(),
        covered_bytes.len() == before.len(),
        0 <= k <= 25,
        saved.len() == 25,
        forall|j: int| 0 <= j < 25 ==> #[trigger] saved[j] == pixel_color(before, cell_index(x, y, stride, j), format),
    ensures
        restore_cells(covered_bytes, x, y, stride, saved, format, k) =~= Seq::new(
            before.len(),
            |p: int|
                if p % 4 < 3 && covered(x, y, stride, k, p / 4) {
                    before[p]
                } else {
                    covered_bytes[p]
                },
        ),
    decreases k,
{
    if k > 0 {
        lemma_restore_prefix(before, covered_bytes, x, y, width, height, stride, saved, format, k - 1);
        let c = cell_index(x, y, stride, k - 1);
        let previous = restore_cells(covered_bytes, x, y, stride, saved, format, k - 1);
        lemma_pixel_in_mapping(x + (k - 1) % 5, y + (k - 1) / 5, width, height, stride);
        assert(c == (y + (k - 1) / 5) * stride + x + (k - 1) % 5);
        let next = restore_cells(covered_bytes, x, y, stride, saved, format, k);
        assert(next == paint_pixel(previous, c, saved[k - 1], format));
        assert forall|p: int| 0 <= p < before.len() implies #[trigger] next[p] == (if p % 4 < 3 && covered(
            x,
            y,
            stride,
            k,
            p / 4,
        ) {
            before[p]
        } else {
            covered_bytes[p]
        }) by {
            if p / 4 == c && p % 4 < 3 {
                assert(p == 4 * c + p % 4);
                assert(covered(x, y, stride, k, p / 4));
                assert(next[p] == channel(saved[k - 1], format, p % 4));
            } else {
                assert(next[p] == previous[p]);
                if covered(x, y, stride, k, p / 4) {
                    let j = choose|j: int| 0 <= j < k && p / 4 == #[trigger] cell_index(x, y, stride, j);
                    if p % 4 < 3 {
                        assert(j != k - 1);
                        assert(covered(x, y, stride, k - 1, p / 4));
                    }
                }
                if covered(x, y, stride, k - 1, p / 4) {
                    let j = choose|j: int| 0 <= j < k - 1 && p / 4 == #[trigger] cell_index(x, y, stride, j);
                    assert(covered(x, y, stride, k, p / 4));
                }
            }
        }
    }
}

/// The cells of a cursor at (`x`, `y`) are exactly the pixels of its square.
proof fn lemma_cells_are_the_square(x: int, y: int, stride: int, i: int)
    requires
        0 <= x,
        0 <= y,
        x + 5 <= stride,
    ensures
        covered(x, y, stride, 25, i) <==> rect_region(x, y, x + 5, y + 5, stride)(i),
{
    if covered(x, y, stride, 25, i) {
        let j = choose|j: int| 0 <= j < 25 && i == #[trigger] cell_index(x, y, stride, j);
        lemma_pixel_coordinates(i, y + j / 5, x + j % 5, stride);
    }
    if rect_region(x, y, x + 5, y + 5, stride)(i) {
        let row = i / stride - y;
        let col = i % stride - x;
        let j = row * 5 + col;
        assert(j / 5 == row && j % 5 == col);
        lemma_pixel_coordinates(i, i / stride, i % stride, stride);
        assert(i == cell_index(x, y, stride, j));
    }
}

/// Erasing the cursor right after drawing it gives back exactly the pixels
/// the framebuffer held before it was drawn: for a cursor drawn at (`x`,
/// `y`) over `before`, with `saved` the colors it recorded, writing those
/// colors back over the painted square restores `before`.
pub proof fn erasing_restores_what_drawing_covered(
    before: Seq<u8>,
    x: int,
    y: int,
    width: int,
    height: int,
    stride: int,
    format: PixelFormat,
    cursor_color: Color,
    saved: Seq<Color>,
)
    requires
        drawable_format(format),
        0 <= x,
        0 <= y,
        x + 5 <= width <= stride,
        y + 5 <= height,
        stride * height * 4 <= before.len(),
        saved.len() == 25,
        forall|j: int| 0 <= j < 25 ==> #[trigger] saved[j] == pixel_color(before, cell_index(x, y, stride, j), format),
    ensures
        restore_cells(
            paint_region(before, rect_region(x, y, x + 5, y + 5, stride), cursor_color, format),
            x,
            y,
            stride,
            saved,
            format,
            25,
        ) == before,
{
    let painted = paint_region(before, rect_region(x, y, x + 5, y + 5, stride), cursor_color, format);
    lemma_restore_prefix(before, painted, x, y, width, height, stride, saved, format, 25);
    let restored = restore_cells(painted, x, y, stride, saved, format, 25);
    assert forall|p: int| 0 <= p < before.len() implies #[trigger] restored[p] == before[p] by {
        lemma_cells_are_the_square(x, y, stride, p / 4);
    }
    assert(restored =~= before);
}

} // verus!
