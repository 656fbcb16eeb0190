use agnostos::color::Color;
use agnostos::graphics::drawing::{clear_background, draw_circle, draw_line, draw_rec, scroll_up};
use agnostos::graphics::framebuffer::{Framebuffer, FramebufferError, PixelFormat};
use agnostos::graphics::pixel::{PixelCoord, PixelRadius, PixelRows, PixelSize, Stride};
use agnostos::mouse::cursor::{draw_mouse_cursor, erase_mouse_cursor, MouseCursor};

fn framebuffer(bytes: &mut [u8], width: usize, height: usize) -> Framebuffer<'_> {
    Framebuffer::from_mut_slice(bytes, PixelSize::new(width, height), Stride::new(width), PixelFormat::Rgb).unwrap()
}

fn pixel(bytes: &[u8], stride: usize, x: usize, y: usize) -> [u8; 3] {
    let offset = (y * stride + x) * 4;
    [bytes[offset], bytes[offset + 1], bytes[offset + 2]]
}

#[test]
fn draw_line_colors_every_pixel_on_a_horizontal_line() {
    let mut pixels = vec![0u8; 5 * 3 * 4];
    let mut fb = Framebuffer::from_mut_slice(&mut pixels, PixelSize::new(5, 3), Stride::new(5), PixelFormat::Rgb).unwrap();
    draw_line(&mut fb, PixelCoord::new(1, 1), PixelCoord::new(3, 1), Color::new(255, 0, 0));
    let stride = fb.stride();
    for x in 1..=3 {
        let offset = (stride + x) * 4;
        assert_eq!(&pixels[offset..offset + 3], &[255, 0, 0]);
    }
}

#[test]
fn too_small_framebuffer_is_rejected() {
    let mut pixels = vec![0x55u8; 3];
    let fb = Framebuffer::from_mut_slice(&mut pixels, PixelSize::new(1, 1), Stride::new(1), PixelFormat::Rgb);
    assert!(matches!(fb, Err(FramebufferError::FramebufferTooSmall { .. })));
    assert_eq!(&pixels, &[0x55, 0x55, 0x55]);
}

#[test]
fn bitmask_framebuffer_is_not_drawable() {
    let mut pixels = vec![0u8; 4];
    let fb = Framebuffer::from_mut_slice(&mut pixels, PixelSize::new(1, 1), Stride::new(1), PixelFormat::Bitmask);
    assert!(matches!(fb, Err(FramebufferError::UnsupportedPixelFormat(PixelFormat::Bitmask))));
}

#[test]
fn clears_screen_then_draws_rectangle() {
    let mut bytes = vec![0u8; 4 * 4 * 4];
    let mut fb = framebuffer(&mut bytes, 4, 4);

    clear_background(&mut fb, &Color::new(0, 0, 0));
    draw_rec(&mut fb, PixelCoord::new(1, 1), PixelSize::new(2, 2), Color::new(255, 0, 0));

    let red_pixel = (fb.stride() + 1) * 4;
    assert_eq!(&bytes[red_pixel..red_pixel + 3], &[255, 0, 0]);
    assert_eq!(&bytes[0..3], &[0, 0, 0]);
}

#[test]
fn scrolling_moves_pixels_up_and_clears_bottom_row() {
    let mut bytes = vec![0u8; 2 * 3 * 4];
    let mut fb = framebuffer(&mut bytes, 2, 3);

    draw_rec(&mut fb, PixelCoord::new(0, 0), PixelSize::new(2, 1), Color::new(255, 0, 0));
    draw_rec(&mut fb, PixelCoord::new(0, 1), PixelSize::new(2, 1), Color::new(0, 255, 0));
    draw_rec(&mut fb, PixelCoord::new(0, 2), PixelSize::new(2, 1), Color::new(0, 0, 255));

    scroll_up(&mut fb, PixelRows::new(1));

    let stride = fb.stride();
    assert_eq!(&bytes[0..3], &[0, 255, 0]);
    let bottom_row = 2 * stride * 4;
    assert_eq!(&bytes[bottom_row..bottom_row + 3], &[0, 0, 0]);
}

#[test]
fn scrolling_past_the_framebuffer_clears_it() {
    let mut bytes = vec![0xAA; 2 * 3 * 4];
    let mut fb = framebuffer(&mut bytes, 2, 3);

    scroll_up(&mut fb, PixelRows::new(4));

    assert!(bytes.iter().all(|&byte| byte == 0));
}

#[test]
fn erasing_cursor_restores_the_pixels_it_covered() {
    let mut bytes = vec![0_u8; 7 * 7 * 4];
    for (index, byte) in bytes.iter_mut().enumerate() {
        *byte = index as u8;
    }
    let before = bytes.clone();
    let mut fb = Framebuffer::from_mut_slice(&mut bytes, PixelSize::new(7, 7), Stride::new(7), PixelFormat::Rgb).unwrap();
    let mut cursor = MouseCursor::new();

    erase_mouse_cursor(&mut cursor, &mut fb);
    draw_mouse_cursor(&mut cursor, &mut fb, PixelCoord::new(1, 1));
    erase_mouse_cursor(&mut cursor, &mut fb);

    assert_eq!(bytes, before);
}

#[test]
fn the_cursor_is_a_white_square_and_is_not_drawn_where_it_does_not_fit() {
    let mut bytes = vec![0_u8; 7 * 7 * 4];
    let mut fb = framebuffer(&mut bytes, 7, 7);
    let mut cursor = MouseCursor::new();
    draw_mouse_cursor(&mut cursor, &mut fb, PixelCoord::new(3, 3));
    assert_eq!(cursor.current_position(), None);
    draw_mouse_cursor(&mut cursor, &mut fb, PixelCoord::new(2, 1));
    assert_eq!(cursor.current_position(), Some((2, 1)));
    assert_eq!(pixel(&bytes, 7, 2, 1), [255, 255, 255]);
    assert_eq!(pixel(&bytes, 7, 6, 5), [255, 255, 255]);
    assert_eq!(pixel(&bytes, 7, 1, 1), [0, 0, 0]);
    assert_eq!(pixel(&bytes, 7, 2, 6), [0, 0, 0]);
}

#[test]
fn framebuffer_geometry_and_pixel_access() {
    let mut bytes = vec![0_u8; 4 * 3 * 4];
    let mut fb = Framebuffer::from_mut_slice(&mut bytes, PixelSize::new(3, 3), Stride::new(4), PixelFormat::Bgr).unwrap();
    assert_eq!((fb.width(), fb.height(), fb.stride()), (3, 3, 4));
    assert!(fb.is_drawable());
    assert!(fb.write_pixel(5, &Color::new(1, 2, 3)));
    assert!(!fb.write_pixel(12, &Color::new(1, 2, 3)));
    assert_eq!(fb.read_pixel(1, 1), Color::new(1, 2, 3));
    assert_eq!(fb.read_pixel(3, 0), Color::new(0, 0, 0));
    assert_eq!(&bytes[20..24], &[3, 2, 1, 0]);
}

#[test]
fn geometry_that_overflows_or_exceeds_the_stride_is_invalid() {
    let mut bytes = vec![0_u8; 64];
    assert!(matches!(
        Framebuffer::from_mut_slice(&mut bytes, PixelSize::new(5, 1), Stride::new(4), PixelFormat::Rgb),
        Err(FramebufferError::InvalidGeometry)
    ));
    assert!(matches!(
        Framebuffer::from_mut_slice(&mut bytes, PixelSize::new(1, usize::MAX), Stride::new(2), PixelFormat::Rgb),
        Err(FramebufferError::InvalidGeometry)
    ));
    match Framebuffer::from_mut_slice(&mut bytes, PixelSize::new(4, 5), Stride::new(4), PixelFormat::Rgb) {
        Err(FramebufferError::FramebufferTooSmall { required, actual }) => {
            assert_eq!(required.get(), 80);
            assert_eq!(actual.get(), 64);
        },
        _ => panic!("expected a size error"),
    }
    assert!(PixelSize::try_new(0, 1).is_none());
    assert!(Stride::try_new(0).is_none());
}

#[test]
fn lines_run_diagonally_and_backwards_and_clip_to_the_screen() {
    let mut bytes = vec![0_u8; 4 * 4 * 4];
    let mut fb = framebuffer(&mut bytes, 4, 4);
    draw_line(&mut fb, PixelCoord::new(3, 3), PixelCoord::new(0, 0), Color::new(9, 9, 9));
    draw_line(&mut fb, PixelCoord::new(2, 0), PixelCoord::new(9, 0), Color::new(7, 7, 7));
    for i in 0..4 {
        assert_eq!(pixel(&bytes, 4, i, i), [9, 9, 9]);
    }
    assert_eq!(pixel(&bytes, 4, 1, 0), [0, 0, 0]);
    assert_eq!(pixel(&bytes, 4, 2, 0), [7, 7, 7]);
    assert_eq!(pixel(&bytes, 4, 3, 0), [7, 7, 7]);
    assert_eq!(pixel(&bytes, 4, 0, 1), [0, 0, 0]);
}

#[test]
fn a_steep_line_steps_one_row_at_a_time() {
    let mut bytes = vec![0_u8; 3 * 5 * 4];
    let mut fb = framebuffer(&mut bytes, 3, 5);
    draw_line(&mut fb, PixelCoord::new(0, 0), PixelCoord::new(1, 4), Color::new(5, 5, 5));
    let painted: Vec<(usize, usize)> = (0..5)
        .flat_map(|y| (0..3).map(move |x| (x, y)))
        .filter(|&(x, y)| pixel(&bytes, 3, x, y) == [5, 5, 5])
        .collect();
    assert_eq!(painted, [(0, 0), (0, 1), (0, 2), (1, 3), (1, 4)]);
}

#[test]
fn circles_fill_their_disc_and_clip_to_the_screen() {
    let mut bytes = vec![0_u8; 5 * 5 * 4];
    let mut fb = framebuffer(&mut bytes, 5, 5);
    draw_circle(&mut fb, PixelRadius::new(1), PixelCoord::new(2, 2), Color::new(1, 1, 1));
    draw_circle(&mut fb, PixelRadius::new(1), PixelCoord::new(0, 0), Color::new(2, 2, 2));
    assert_eq!(pixel(&bytes, 5, 2, 2), [1, 1, 1]);
    assert_eq!(pixel(&bytes, 5, 2, 1), [1, 1, 1]);
    assert_eq!(pixel(&bytes, 5, 3, 2), [1, 1, 1]);
    assert_eq!(pixel(&bytes, 5, 1, 1), [0, 0, 0]);
    assert_eq!(pixel(&bytes, 5, 3, 3), [0, 0, 0]);
    assert_eq!(pixel(&bytes, 5, 0, 0), [2, 2, 2]);
    assert_eq!(pixel(&bytes, 5, 1, 0), [2, 2, 2]);
    assert_eq!(pixel(&bytes, 5, 0, 1), [2, 2, 2]);
}

#[test]
fn rectangles_that_do_not_fit_are_not_drawn() {
    let mut bytes = vec![0_u8; 3 * 3 * 4];
    let mut fb = framebuffer(&mut bytes, 3, 3);
    draw_rec(&mut fb, PixelCoord::new(2, 2), PixelSize::new(2, 1), Color::new(4, 4, 4));
    draw_rec(&mut fb, PixelCoord::new(usize::MAX, 0), PixelSize::new(2, 1), Color::new(4, 4, 4));
    assert!(bytes.iter().all(|&b| b == 0));
}
