//! Primitive drawing on a framebuffer.

use vstd::prelude::*;

use super::framebuffer::{
    drawable_format, lemma_paint_grow, lemma_paint_same_region, lemma_pixel_coordinates, lemma_pixel_in_mapping, paint_region, rect_region, scrolled, Framebuffer,
};
use super::pixel::{PixelCoord, PixelRadius, PixelRows, PixelSize};
use crate::color::Color;

verus! {

/// Paints every visible pixel with `color`; a framebuffer that cannot be
/// drawn is left as it is.
pub fn clear_background(fb: &mut Framebuffer, color: &Color)
    ensures
        final(fb).wf() == old(fb).wf(),
        final(fb).spec_width() == old(fb).spec_width(),
        final(fb).spec_height() == old(fb).spec_height(),
        final(fb).spec_stride() == old(fb).spec_stride(),
        final(fb).format() == old(fb).format(),
        !old(fb).wf() ==> final(fb).pixels() == old(fb).pixels(),
        old(fb).wf() ==> final(fb).pixels() == paint_region(
            old(fb).pixels(),
            rect_region(0, 0, old(fb).spec_width(), old(fb).spec_height(), old(fb).spec_stride()),
            *color,
            old(fb).format(),
        ),
{
    if !fb.is_drawable() {
        return;
    }
    let width = fb.width();
    let height = fb.height();
    fb.fill_rect(0, 0, width, height, color);
}

/// Paints the rectangle of `size` at `origin` when it lies entirely inside
/// the visible area; otherwise nothing is drawn.
pub fn draw_rec(fb: &mut Framebuffer, origin: PixelCoord, size: PixelSize, color: Color)
    ensures
        final(fb).wf() == old(fb).wf(),
        final(fb).spec_width() == old(fb).spec_width(),
        final(fb).spec_height() == old(fb).spec_height(),
        final(fb).spec_stride() == old(fb).spec_stride(),
        final(fb).format() == old(fb).format(),
        ({
            let (x, y) = (origin.spec_x() as int, origin.spec_y() as int);
            let (w, h) = (size.spec_width() as int, size.spec_height() as int);
            if old(fb).wf() && x + w <= old(fb).spec_width() && y + h <= old(fb).spec_height() {
                final(fb).pixels() == paint_region(
                    old(fb).pixels(),
                    rect_region(x, y, x + w, y + h, old(fb).spec_stride()),
                    color,
                    old(fb).format(),
                )
            } else {
                final(fb).pixels() == old(fb).pixels()
            }
        }),
{
    if !fb.is_drawable() {
        return;
    }
    let width = fb.width();
    let height = fb.height();
    let x = origin.x();
    let y = origin.y();
    let x2 = match x.checked_add(size.width()) {
        Some(x2) => x2,
        None => return,
    };
    let y2 = match y.checked_add(size.height()) {
        Some(y2) => y2,
        None => return,
    };
    if x2 > width || y2 > height {
        return;
    }
    fb.fill_rect(x, y, x2, y2, &color);
}

/// Scrolls the visible rows up by `rows`, zeroing the rows freed at the bottom.
pub fn scroll_up(fb: &mut Framebuffer, rows: PixelRows)
    ensures
        final(fb).wf() == old(fb).wf(),
        final(fb).spec_width() == old(fb).spec_width(),
        final(fb).spec_height() == old(fb).spec_height(),
        final(fb).spec_stride() == old(fb).spec_stride(),
        final(fb).format() == old(fb).format(),
        !old(fb).wf() ==> final(fb).pixels() == old(fb).pixels(),
        old(fb).wf() ==> final(fb).pixels() == scrolled(
            old(fb).pixels(),
            rows.spec_get() as int,
            old(fb).spec_height(),
            old(fb).spec_stride(),
        ),
{
    fb.scroll_rows(rows.get());
}

} // verus!

verus! {

/// Whether `v` is an `i64`.
pub open spec fn fits_i64(v: int) -> bool {
    i64::MIN <= v <= i64::MAX
}

/// The distances a line from (`x0`, `y0`) to (`x1`, `y1`) covers, and the
/// directions it moves in.
pub open spec fn line_deltas(line: (int, int, int, int)) -> (int, int, int, int) {
    let (x0, y0, x1, y1) = line;
    (
        if x0 < x1 { x1 - x0 } else { x0 - x1 },
        if y0 < y1 { y1 - y0 } else { y0 - y1 },
        if x0 < x1 { 1 } else { -1 },
        if y0 < y1 { 1 } else { -1 },
    )
}

/// One step of the line walk from point (`x`, `y`) with error term `e`:
/// a column step when twice the error exceeds minus the row distance, then
/// a row step when it is below the column distance.  None when a value
/// would leave the range of `i64`.
pub open spec fn line_step(s: (int, int, int), deltas: (int, int, int, int)) -> Option<(int, int, int)> {
    let (x, y, e) = s;
    let (dx, dy, sx, sy) = deltas;
    let doubled = 2 * e;
    if !fits_i64(doubled) {
        None
    } else {
        let (x1, e1) = if doubled > -dy { (x + sx, e - dy) } else { (x, e) };
        if !fits_i64(x1) || !fits_i64(e1) {
            None
        } else {
            let (y1, e2) = if doubled < dx { (y + sy, e1 + dx) } else { (y, e1) };
            if !fits_i64(y1) || !fits_i64(e2) {
                None
            } else {
                Some((x1, y1, e2))
            }
        }
    }
}

/// The point and error term after `k` steps of the walk along `line`; None
/// once the walk has ended, at the line's end or at an overflow.
pub open spec fn line_walk(line: (int, int, int, int), k: nat) -> Option<(int, int, int)>
    decreases k,
{
    let (x0, y0, x1, y1) = line;
    let (dx, dy, sx, sy) = line_deltas(line);
    if k == 0 {
        Some((x0, y0, dx - dy))
    } else {
        match line_walk(line, (k - 1) as nat) {
            Some(s) => if s.0 == x1 && s.1 == y1 {
                None
            } else {
                line_step(s, line_deltas(line))
            },
            None => None,
        }
    }
}

/// The point and error term after step `k` of a walk that has not ended.
pub open spec fn walk_point(line: (int, int, int, int), k: int) -> (int, int, int) {
    line_walk(line, k as nat)->0
}

/// Whether step `k` of the walk lands on the visible pixel `i` of a
/// `width` by `height` area with rows `stride` pixels apart.
pub open spec fn walk_pixel(line: (int, int, int, int), area: (int, int, int), k: int, i: int) -> bool {
    let (width, height, stride) = area;
    &&& 0 <= k
    &&& line_walk(line, k as nat) is Some
    &&& 0 <= walk_point(line, k).0 < width
    &&& 0 <= walk_point(line, k).1 < height
    &&& i == walk_point(line, k).1 * stride + walk_point(line, k).0
}

/// The visible pixels of the first `n` steps of the walk.
pub open spec fn walked_before(line: (int, int, int, int), area: (int, int, int), n: int) -> spec_fn(int) -> bool {
    |i: int| exists|j: int| 0 <= j < n && #[trigger] walk_pixel(line, area, j, i)
}

/// The visible pixels of the whole walk.
pub open spec fn line_region(line: (int, int, int, int), area: (int, int, int)) -> spec_fn(int) -> bool {
    |i: int| exists|j: int| 0 <= j && #[trigger] walk_pixel(line, area, j, i)
}

/// Once the walk has ended it stays ended.
proof fn lemma_walk_ended(line: (int, int, int, int), k: nat, j: nat)
    requires
        line_walk(line, k) is None,
        k <= j,
    ensures
        line_walk(line, j) is None,
    decreases j - k,
{
    if k < j {
        lemma_walk_ended(line, k, (j - 1) as nat);
    }
}

/// After `a` column steps and `b` row steps the error term is
/// `dx - dy - a * dy + b * dx`; short of the end, a step is always taken,
/// and neither count passes its distance.
proof fn lemma_walk_progress(dx: int, dy: int, a: int, b: int)
    by (nonlinear_arith)
    requires
        0 <= a <= dx,
        0 <= b <= dy,
        !(a == dx && b == dy),
    ensures
        2 * (dx - dy - a * dy + b * dx) > -dy ==> a < dx,
        2 * (dx - dy - a * dy + b * dx) < dx ==> b < dy,
        2 * (dx - dy - a * dy + b * dx) > -dy || 2 * (dx - dy - a * dy + b * dx) < dx,
{
}

/// The painted walk grown by step `k` is the walk of the first `k + 1` steps.
proof fn lemma_walk_grows(line: (int, int, int, int), area: (int, int, int), k: int, index: int, visible: bool)
    requires
        0 <= k,
        line_walk(line, k as nat) is Some,
        visible == (0 <= walk_point(line, k).0 < area.0 && 0 <= walk_point(line, k).1 < area.1),
        index == walk_point(line, k).1 * area.2 + walk_point(line, k).0,
    ensures
        forall|i: int|
            #![trigger walked_before(line, area, k + 1)(i)]
            walked_before(line, area, k + 1)(i) == (walked_before(line, area, k)(i) || (visible && i == index)),
{
    assert forall|i: int| #[trigger]
        walked_before(line, area, k + 1)(i) == (walked_before(line, area, k)(i) || (visible && i == index)) by {
        if walked_before(line, area, k + 1)(i) {
            let j = choose|j: int| 0 <= j < k + 1 && #[trigger] walk_pixel(line, area, j, i);
            if j < k {
                assert(walked_before(line, area, k)(i));
            }
        }
        if walked_before(line, area, k)(i) {
            let j = choose|j: int| 0 <= j < k && #[trigger] walk_pixel(line, area, j, i);
            assert(walked_before(line, area, k + 1)(i));
        }
        if visible && i == index {
            assert(walk_pixel(line, area, k, i));
            assert(walked_before(line, area, k + 1)(i));
        }
    }
}

/// When the walk ends after step `k`, its first `k + 1` steps are all of it.
proof fn lemma_walk_complete(line: (int, int, int, int), area: (int, int, int), k: int)
    requires
        0 <= k,
        line_walk(line, (k + 1) as nat) is None,
    ensures
        forall|i: int| #[trigger] line_region(line, area)(i) == walked_before(line, area, k + 1)(i),
{
    assert forall|i: int| #[trigger] line_region(line, area)(i) == walked_before(line, area, k + 1)(i) by {
        if line_region(line, area)(i) {
            let j = choose|j: int| 0 <= j && #[trigger] walk_pixel(line, area, j, i);
            if j > k {
                lemma_walk_ended(line, (k + 1) as nat, j as nat);
            }
            assert(walked_before(line, area, k + 1)(i));
        }
        if walked_before(line, area, k + 1)(i) {
            let j = choose|j: int| 0 <= j < k + 1 && #[trigger] walk_pixel(line, area, j, i);
            assert(line_region(line, area)(i));
        }
    }
}

/// The pixels of row `y` from column `x0` to column `x1` (either order)
/// that are visible.
pub open spec fn row_span(x0: int, x1: int, y: int, area: (int, int, int)) -> spec_fn(int) -> bool {
    |i: int|
        {
            let (width, height, stride) = area;
            let col = i % stride;
            &&& 0 <= i
            &&& i / stride == y
            &&& y < height
            &&& col < width
            &&& (if x0 <= x1 { x0 <= col <= x1 } else { x1 <= col <= x0 })
        }
}

/// Step `k` of a horizontal walk is `k` pixels along the row, up to the end.
proof fn lemma_horizontal_walk(x0: int, x1: int, y: int, k: nat)
    requires
        0 <= x0 < 0x4000_0000_0000_0000,
        0 <= x1 < 0x4000_0000_0000_0000,
        0 <= y < 0x4000_0000_0000_0000,
        k <= line_deltas((x0, y, x1, y)).0,
    ensures
        line_walk((x0, y, x1, y), k) == Some(
            ((if x0 < x1 { x0 + k } else { x0 - k }), y, line_deltas((x0, y, x1, y)).0),
        ),
    decreases k,
{
    if k > 0 {
        lemma_horizontal_walk(x0, x1, y, (k - 1) as nat);
    }
}

/// A horizontal line paints exactly the visible pixels of its row between
/// its two ends, both included (for coordinates below 2^62, where no step
/// of the walk can overflow).
pub proof fn horizontal_lines_cover_their_span(x0: int, x1: int, y: int, area: (int, int, int))
    requires
        0 <= x0 < 0x4000_0000_0000_0000,
        0 <= x1 < 0x4000_0000_0000_0000,
        0 <= y < 0x4000_0000_0000_0000,
        0 < area.0 <= area.2,
    ensures
        forall|i: int| #[trigger] line_region((x0, y, x1, y), area)(i) == row_span(x0, x1, y, area)(i),
{
    let line = (x0, y, x1, y);
    let dx = line_deltas(line).0;
    let stride = area.2;
    lemma_horizontal_walk(x0, x1, y, dx as nat);
    assert(line_walk(line, (dx + 1) as nat) is None);
    assert forall|i: int| #[trigger] line_region(line, area)(i) == row_span(x0, x1, y, area)(i) by {
        if line_region(line, area)(i) {
            let j = choose|j: int| 0 <= j && #[trigger] walk_pixel(line, area, j, i);
            if j > dx {
                lemma_walk_ended(line, (dx + 1) as nat, j as nat);
            }
            lemma_horizontal_walk(x0, x1, y, j as nat);
            let c = if x0 < x1 { x0 + j } else { x0 - j };
            lemma_pixel_coordinates(i, y, c, stride);
        }
        if row_span(x0, x1, y, area)(i) {
            let c = i % stride;
            let j = if x0 < x1 { c - x0 } else { x0 - c };
            lemma_horizontal_walk(x0, x1, y, j as nat);
            lemma_pixel_coordinates(i, y, c, stride);
            assert(walk_pixel(line, area, j, i));
        }
    }
}

/// Draws a line from `start` to `end` with Bresenham's walk, painting the
/// visible points; coordinates beyond `i64` draw nothing, and the walk
/// stops early where a step would overflow `i64`.
pub fn draw_line(fb: &mut Framebuffer, start: PixelCoord, end: PixelCoord, color: Color)
    ensures
        final(fb).wf() == old(fb).wf(),
        final(fb).spec_width() == old(fb).spec_width(),
        final(fb).spec_height() == old(fb).spec_height(),
        final(fb).spec_stride() == old(fb).spec_stride(),
        final(fb).format() == old(fb).format(),
        ({
            let line = (start.spec_x() as int, start.spec_y() as int, end.spec_x() as int, end.spec_y() as int);
            if old(fb).wf() && line.0 <= i64::MAX && line.1 <= i64::MAX && line.2 <= i64::MAX && line.3 <= i64::MAX {
                final(fb).pixels() == paint_region(
                    old(fb).pixels(),
                    line_region(line, (old(fb).spec_width(), old(fb).spec_height(), old(fb).spec_stride())),
                    color,
                    old(fb).format(),
                )
            } else {
                final(fb).pixels() == old(fb).pixels()
            }
        }),
{
    if !fb.is_drawable() {
        return ;
    }
    proof {
        fb.lemma_geometry();
    }
    let width = fb.width();
    let height = fb.height();
    let stride = fb.stride();
    let limit: u64 = 0x7fff_ffff_ffff_ffff;
    if start.x() as u64 > limit || start.y() as u64 > limit || end.x() as u64 > limit || end.y() as u64 > limit {
        return ;
    }
    let x0 = start.x() as i64;
    let y0 = start.y() as i64;
    let x1 = end.x() as i64;
    let y1 = end.y() as i64;
    assert(width <= i64::MAX && height <= i64::MAX) by (nonlinear_arith)
        requires
            0 < width <= stride,
            0 < height,
            stride * height * 4 <= usize::MAX,
            usize::MAX <= u64::MAX,
    ;
    let w = width as i64;
    let h = height as i64;
    let ghost line = (x0 as int, y0 as int, x1 as int, y1 as int);
    let ghost area = (width as int, height as int, stride as int);
    let ghost before = fb.pixels();
    let ghost format = fb.format();
    let dx: i64 = if x0 < x1 { x1 - x0 } else { x0 - x1 };
    let dy: i64 = if y0 < y1 { y1 - y0 } else { y0 - y1 };
    let step_x: i64 = if x0 < x1 { 1 } else { -1 };
    let step_y: i64 = if y0 < y1 { 1 } else { -1 };
    let mut x = x0;
    let mut y = y0;
    let mut error: i64 = dx - dy;
    let ghost mut k: int = 0;
    let ghost mut a: int = 0;
    let ghost mut b: int = 0;
    proof {
        lemma_paint_same_region(before, walked_before(line, area, 0), |i: int| false, color, format);
        assert(paint_region(before, |i: int| false, color, format) =~= before);
    }
    loop
        invariant
            fb.wf(),
            fb.spec_width() == width,
            fb.spec_height() == height,
            fb.spec_stride() == stride,
            fb.format() == format,
            old(fb).wf(),
            old(fb).spec_width() == width,
            old(fb).spec_height() == height,
            old(fb).spec_stride() == stride,
            old(fb).format() == format,
            old(fb).pixels() == before,
            drawable_format(format),
            0 < width <= stride,
            stride * height * 4 <= fb.pixels().len(),
            stride * height * 4 <= usize::MAX,
            fb.pixels().len() == before.len(),
            w == width,
            h == height,
            line == (x0 as int, y0 as int, x1 as int, y1 as int),
            line == (start.spec_x() as int, start.spec_y() as int, end.spec_x() as int, end.spec_y() as int),
            area == (width as int, height as int, stride as int),
            0 <= x0 && 0 <= y0 && 0 <= x1 && 0 <= y1,
            line_deltas(line) == (dx as int, dy as int, step_x as int, step_y as int),
            0 <= k,
            line_walk(line, k as nat) == Some((x as int, y as int, error as int)),
            fb.pixels() == paint_region(before, walked_before(line, area, k), color, format),
            0 <= a <= dx,
            0 <= b <= dy,
            x == (if x0 < x1 { x0 + a } else { x0 - a }),
            y == (if y0 < y1 { y0 + b } else { y0 - b }),
            error == dx - dy - a * dy + b * dx,
        decreases (dx - a) + (dy - b),
    {
        let visible = x >= 0 && y >= 0 && x < w && y < h;
        let ghost current = fb.pixels();
        let ghost index = y * stride + x;
        if visible {
            let row = y as usize;
            let column = x as usize;
            proof {
                lemma_pixel_in_mapping(column as int, row as int, width as int, height as int, stride as int);
            }
            let pixel = row * stride + column;
            fb.write_pixel(pixel, &color);
            proof {
                lemma_walk_grows(line, area, k, index, visible);
                lemma_paint_grow(before, walked_before(line, area, k), walked_before(line, area, k + 1), pixel as int, color, format);
            }
        }
        proof {
            lemma_walk_grows(line, area, k, index, visible);
            if !visible {
                lemma_paint_same_region(before, walked_before(line, area, k), walked_before(line, area, k + 1), color, format);
            }
            assert(fb.pixels() == paint_region(before, walked_before(line, area, k + 1), color, format));
        }
        if x == x1 && y == y1 {
            proof {
                assert(line_walk(line, (k + 1) as nat) is None);
                lemma_walk_complete(line, area, k);
                lemma_paint_same_region(before, line_region(line, area), walked_before(line, area, k + 1), color, format);
            }
            return ;
        }
        proof {
            if x0 < x1 {
                assert(x == x1 <==> a == dx);
            } else {
                assert(x == x1 <==> a == dx);
            }
            lemma_walk_progress(dx as int, dy as int, a, b);
        }
        let doubled = match error.checked_mul(2) {
            Some(doubled) => doubled,
            None => {
                proof {
                    lemma_walk_complete(line, area, k);
                    lemma_paint_same_region(before, line_region(line, area), walked_before(line, area, k + 1), color, format);
                }
                return ;
            },
        };
        let ghost old_error = error;
        if doubled > -dy {
            let next_error = match error.checked_sub(dy) {
                Some(e) => e,
                None => {
                    proof {
                        lemma_walk_complete(line, area, k);
                        lemma_paint_same_region(before, line_region(line, area), walked_before(line, area, k + 1), color, format);
                    }
                    return ;
                },
            };
            let next_x = match x.checked_add(step_x) {
                Some(v) => v,
                None => {
                    proof {
                        lemma_walk_complete(line, area, k);
                        lemma_paint_same_region(before, line_region(line, area), walked_before(line, area, k + 1), color, format);
                    }
                    return ;
                },
            };
            error = next_error;
            x = next_x;
            proof {
                assert(dx - dy - (a + 1) * dy + b * dx == old_error - dy) by (nonlinear_arith)
                    requires
                        old_error == dx - dy - a * dy + b * dx,
                ;
                a = a + 1;
            }
        }
        if doubled < dx {
            let next_error = match error.checked_add(dx) {
                Some(e) => e,
                None => {
                    proof {
                        lemma_walk_complete(line, area, k);
                        lemma_paint_same_region(before, line_region(line, area), walked_before(line, area, k + 1), color, format);
                    }
                    return ;
                },
            };
            let next_y = match y.checked_add(step_y) {
                Some(v) => v,
                None => {
                    proof {
                        lemma_walk_complete(line, area, k);
                        lemma_paint_same_region(before, line_region(line, area), walked_before(line, area, k + 1), color, format);
                    }
                    return ;
                },
            };
            let ghost mid_error = error;
            error = next_error;
            y = next_y;
            proof {
                assert(dx - dy - a * dy + (b + 1) * dx == mid_error + dx) by (nonlinear_arith)
                    requires
                        mid_error == dx - dy - a * dy + b * dx,
                ;
                b = b + 1;
            }
        }
        proof {
            k = k + 1;
        }
    }
}

} // verus!

verus! {

/// The visible pixels of a `width` by `height` area, rows `stride` pixels
/// apart, that lie within `radius` of (`cx`, `cy`).
pub open spec fn disc_region(cx: int, cy: int, radius: int, area: (int, int, int)) -> spec_fn(int) -> bool {
    |i: int|
        {
            let (width, height, stride) = area;
            let (row, col) = (i / stride, i % stride);
            &&& 0 <= i
            &&& row < height
            &&& col < width
            &&& (col - cx) * (col - cx) + (row - cy) * (row - cy) <= radius * radius
        }
}

/// The disc's pixels in rows above `cy + dy`, and in row `cy + dy` left of
/// column `cx + dx`.
pub open spec fn disc_prefix(cx: int, cy: int, radius: int, area: (int, int, int), dy: int, dx: int) -> spec_fn(int) -> bool {
    |i: int|
        {
            let (row, col) = (i / area.2, i % area.2);
            disc_region(cx, cy, radius, area)(i) && (row - cy < dy || (row - cy == dy && col - cx < dx))
        }
}

/// A point within `radius` of the center is within `radius` of it on each axis.
proof fn lemma_square_bound(a: int, b: int, radius: int)
    by (nonlinear_arith)
    requires
        0 <= radius,
        a * a + b * b <= radius * radius,
    ensures
        -radius <= a <= radius,
        -radius <= b <= radius,
{
    assert(b * b >= 0);
    assert(a * a >= 0);
}

/// Fills the disc of `radius` around `center`, clipped to the visible
/// area.  A center or radius whose square does not fit an `isize` draws
/// nothing.
pub fn draw_circle(fb: &mut Framebuffer, radius: PixelRadius, center: PixelCoord, color: Color)
    ensures
        final(fb).wf() == old(fb).wf(),
        final(fb).spec_width() == old(fb).spec_width(),
        final(fb).spec_height() == old(fb).spec_height(),
        final(fb).spec_stride() == old(fb).spec_stride(),
        final(fb).format() == old(fb).format(),
        ({
            let (cx, cy, r) = (center.spec_x() as int, center.spec_y() as int, radius.spec_get() as int);
            if old(fb).wf() && cx <= isize::MAX && cy <= isize::MAX && r * r <= isize::MAX {
                final(fb).pixels() == paint_region(
                    old(fb).pixels(),
                    disc_region(cx, cy, r, (old(fb).spec_width(), old(fb).spec_height(), old(fb).spec_stride())),
                    color,
                    old(fb).format(),
                )
            } else {
                final(fb).pixels() == old(fb).pixels()
            }
        }),
{
    if !fb.is_drawable() {
        return ;
    }
    proof {
        fb.lemma_geometry();
    }
    let width = fb.width();
    let height = fb.height();
    let stride = fb.stride();
    let max = isize::MAX as usize;
    if radius.get() > max || center.x() > max || center.y() > max || width > max || height > max {
        proof {
            if radius.spec_get() > max {
                assert(radius.spec_get() * radius.spec_get() > isize::MAX) by (nonlinear_arith)
                    requires
                        radius.spec_get() > isize::MAX,
                        isize::MAX > 0,
                ;
            }
            if !(radius.spec_get() > max || center.spec_x() > max || center.spec_y() > max) {
                assert(width <= max && height <= max) by (nonlinear_arith)
                    requires
                        0 < width <= stride,
                        0 < height,
                        stride * height * 4 <= usize::MAX,
                        max == isize::MAX,
                        isize::MAX == usize::MAX / 2,
                ;
            }
        }
        return ;
    }
    let r = radius.get() as isize;
    let cx = center.x() as isize;
    let cy = center.y() as isize;
    let w = width as isize;
    let h = height as isize;
    let r2 = match r.checked_mul(r) {
        Some(r2) => r2,
        None => return ,
    };
    let ghost area = (width as int, height as int, stride as int);
    let ghost before = fb.pixels();
    let ghost format = fb.format();
    assert(r < isize::MAX) by (nonlinear_arith)
        requires
            r * r <= isize::MAX,
            0 <= r,
            isize::MAX > 4,
    ;
    proof {
        assert forall|i: int| 0 <= i implies #[trigger] disc_prefix(cx as int, cy as int, r as int, area, -r, -r)(i) == false by {
            if disc_region(cx as int, cy as int, r as int, area)(i) {
                lemma_square_bound(i % area.2 - cx, i / area.2 - cy, r as int);
            }
        }
        lemma_paint_same_region(before, disc_prefix(cx as int, cy as int, r as int, area, -r, -r), |i: int| false, color, format);
        assert(paint_region(before, |i: int| false, color, format) =~= before);
    }
    let mut dy: isize = -r;
    while dy <= r
        invariant
            fb.wf(),
            old(fb).wf(),
            old(fb).spec_width() == width,
            old(fb).spec_height() == height,
            old(fb).spec_stride() == stride,
            old(fb).format() == format,
            old(fb).pixels() == before,
            drawable_format(format),
            fb.spec_width() == width,
            fb.spec_height() == height,
            fb.spec_stride() == stride,
            fb.format() == format,
            0 < width <= stride,
            stride * height * 4 <= fb.pixels().len(),
            stride * height * 4 <= usize::MAX,
            fb.pixels().len() == before.len(),
            w == width,
            h == height,
            area == (width as int, height as int, stride as int),
            cx == center.spec_x(),
            cy == center.spec_y(),
            r == radius.spec_get(),
            0 <= r < isize::MAX,
            r2 == r * r,
            -r <= dy <= r + 1,
            fb.pixels() == paint_region(before, disc_prefix(cx as int, cy as int, r as int, area, dy as int, -r), color, format),
        decreases r + 1 - dy,
    {
        let mut dx: isize = -r;
        while dx <= r
            invariant
                fb.wf(),
                drawable_format(format),
                fb.spec_width() == width,
                fb.spec_height() == height,
                fb.spec_stride() == stride,
                fb.format() == format,
                0 < width <= stride,
                stride * height * 4 <= fb.pixels().len(),
                stride * height * 4 <= usize::MAX,
                fb.pixels().len() == before.len(),
                w == width,
                h == height,
                area == (width as int, height as int, stride as int),
                0 <= cx,
                0 <= cy,
                0 <= r < isize::MAX,
                r2 == r * r,
                -r <= dy <= r,
                -r <= dx <= r + 1,
                fb.pixels() == paint_region(before, disc_prefix(cx as int, cy as int, r as int, area, dy as int, dx as int), color, format),
            decreases r + 1 - dx,
        {
            let ghost target = (cy + dy) * stride + cx + dx;
            let ghost grown = disc_prefix(cx as int, cy as int, r as int, area, dy as int, dx + 1);
            let ghost region = disc_prefix(cx as int, cy as int, r as int, area, dy as int, dx as int);
            let distance = match dx.checked_mul(dx) {
                Some(xx) => match dy.checked_mul(dy) {
                    Some(yy) => yy.checked_add(xx),
                    None => None,
                },
                None => None,
            };
            let mut painted = false;
            match (distance, cx.checked_add(dx), cy.checked_add(dy)) {
                (Some(d), Some(x), Some(y)) => {
                    if d <= r2 && x >= 0 && y >= 0 && x < w && y < h {
                        let row = y as usize;
                        let column = x as usize;
                        proof {
                            lemma_pixel_in_mapping(column as int, row as int, width as int, height as int, stride as int);
                        }
                        let pixel = row * stride + column;
                        fb.write_pixel(pixel, &color);
                        painted = true;
                    }
                },
                _ => {},
            }
            proof {
                assert forall|i: int| 0 <= i implies #[trigger] grown(i) == (region(i) || (painted && i == target)) by {
                    let (row, col) = (i / area.2, i % area.2);
                    if painted && i == target {
                        lemma_pixel_coordinates(i, cy + dy, cx + dx, stride as int);
                    }
                    if disc_region(cx as int, cy as int, r as int, area)(i) && row - cy == dy && col - cx == dx {
                        lemma_pixel_coordinates(i, row, col, stride as int);
                        assert(dx * dx >= 0 && dy * dy >= 0) by (nonlinear_arith);
                        lemma_square_bound(dx as int, dy as int, r as int);
                        assert(dx * dx <= r * r && dy * dy <= r * r) by (nonlinear_arith)
                            requires
                                -r <= dx <= r,
                                -r <= dy <= r,
                        ;
                    }
                }
                if painted {
                    lemma_paint_grow(before, region, grown, target, color, format);
                } else {
                    lemma_paint_same_region(before, region, grown, color, format);
                }
            }
            dx += 1;
        }
        proof {
            let region = disc_prefix(cx as int, cy as int, r as int, area, dy as int, dx as int);
            let next = disc_prefix(cx as int, cy as int, r as int, area, dy + 1, -r);
            assert forall|i: int| 0 <= i implies #[trigger] next(i) == region(i) by {
                if disc_region(cx as int, cy as int, r as int, area)(i) {
                    lemma_square_bound(i % area.2 - cx, i / area.2 - cy, r as int);
                }
            }
            lemma_paint_same_region(before, region, next, color, format);
        }
        dy += 1;
    }
    proof {
        let region = disc_prefix(cx as int, cy as int, r as int, area, dy as int, -r);
        let disc = disc_region(cx as int, cy as int, r as int, area);
        assert forall|i: int| 0 <= i implies #[trigger] disc(i) == region(i) by {
            if disc(i) {
                lemma_square_bound(i % area.2 - cx, i / area.2 - cy, r as int);
            }
        }
        lemma_paint_same_region(before, region, disc, color, format);
    }
}

} // verus!
