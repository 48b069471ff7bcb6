use solar_raster::framebuffer::{Color, Framebuffer, Write};
use solar_raster::ieee::INFINITY;

const RED: Color = Color { r: 255, g: 0, b: 0, a: 255 };
const GREEN: Color = Color { r: 0, g: 255, b: 0, a: 255 };
const BLUE: Color = Color { r: 0, g: 0, b: 255, a: 255 };
const BLACK: Color = Color { r: 0, g: 0, b: 0, a: 255 };
const WHITE: Color = Color { r: 255, g: 255, b: 255, a: 255 };
const NIGHT: Color = Color { r: 5, g: 5, b: 15, a: 255 };

#[test]
fn color_new_keeps_the_channels() {
    let c = Color::new(1, 2, 3, 4);
    assert_eq!((c.r, c.g, c.b, c.a), (1, 2, 3, 4));
}

#[test]
fn new_frame_is_black_and_far() {
    let frame = Framebuffer::new(4, 3);
    assert_eq!(frame.width(), 4);
    assert_eq!(frame.height(), 3);
    assert_eq!(frame.pixels().len(), 12);
    for y in 0..3 {
        for x in 0..4 {
            assert_eq!(frame.get_color(x, y), Some(BLACK));
            assert_eq!(frame.get_depth(x, y), Some(INFINITY));
        }
    }
}

#[test]
fn empty_frames_hold_nothing() {
    let mut frame = Framebuffer::new(0, 7);
    assert_eq!(frame.pixels().len(), 0);
    assert_eq!(frame.get_color(0, 0), None);
    assert!(!frame.point(0, 0, 1.0f32.to_bits(), RED));
    frame.clear();
    let frame = Framebuffer::new(7, 0);
    assert_eq!(frame.get_depth(0, 0), None);
}

#[test]
fn depth_compositing_nearest_wins() {
    let mut frame = Framebuffer::new(20, 20);
    frame.clear();
    assert!(frame.point(10, 10, 5.0f32.to_bits(), RED));
    assert_eq!(frame.get_color(10, 10), Some(RED));
    assert!(frame.point(10, 10, 3.0f32.to_bits(), BLUE));
    assert_eq!(frame.get_color(10, 10), Some(BLUE));
    assert!(!frame.point(10, 10, 10.0f32.to_bits(), GREEN));
    assert_eq!(frame.get_color(10, 10), Some(BLUE));
    assert_eq!(frame.get_depth(10, 10), Some(3.0f32.to_bits()));
}

#[test]
fn depth_compositing_leaves_other_pixels_alone() {
    let mut frame = Framebuffer::new(20, 20);
    frame.point(10, 10, 5.0f32.to_bits(), RED);
    for y in 0..20 {
        for x in 0..20 {
            if (x, y) != (10, 10) {
                assert_eq!(frame.get_color(x, y), Some(BLACK));
                assert_eq!(frame.get_depth(x, y), Some(INFINITY));
            }
        }
    }
}

#[test]
fn depth_compositing_in_any_order_keeps_the_nearest() {
    let writes = [(5.0f32, RED), (3.0, BLUE), (10.0, GREEN)];
    let orders = [[0, 1, 2], [0, 2, 1], [1, 0, 2], [1, 2, 0], [2, 0, 1], [2, 1, 0]];
    for order in orders {
        let mut frame = Framebuffer::new(20, 20);
        for k in order {
            frame.point(10, 10, writes[k].0.to_bits(), writes[k].1);
        }
        assert_eq!(frame.get_color(10, 10), Some(BLUE));
        assert_eq!(frame.get_depth(10, 10), Some(3.0f32.to_bits()));
    }
}

#[test]
fn ties_keep_the_first_writer() {
    let mut frame = Framebuffer::new(2, 2);
    assert!(frame.point(1, 1, 2.0f32.to_bits(), RED));
    assert!(!frame.point(1, 1, 2.0f32.to_bits(), BLUE));
    assert_eq!(frame.get_color(1, 1), Some(RED));
    assert!(frame.point(0, 0, 0.0f32.to_bits(), GREEN));
    assert!(!frame.point(0, 0, (-0.0f32).to_bits(), BLUE));
    assert_eq!(frame.get_color(0, 0), Some(GREEN));
}

#[test]
fn negative_depths_are_nearer_than_positive_ones() {
    let mut frame = Framebuffer::new(2, 2);
    assert!(frame.point(0, 1, 1.0f32.to_bits(), RED));
    assert!(frame.point(0, 1, (-1.0f32).to_bits(), BLUE));
    assert!(!frame.point(0, 1, (-0.5f32).to_bits(), GREEN));
    assert!(frame.point(0, 1, (-2.0f32).to_bits(), GREEN));
    assert_eq!(frame.get_color(0, 1), Some(GREEN));
}

#[test]
fn infinitely_far_fragments_are_dropped() {
    let mut frame = Framebuffer::new(2, 2);
    assert!(!frame.point(0, 0, f32::INFINITY.to_bits(), RED));
    assert_eq!(frame.get_color(0, 0), Some(BLACK));
}

#[test]
fn fragments_without_a_depth_are_dropped() {
    let mut frame = Framebuffer::new(2, 2);
    assert!(!frame.point(0, 0, f32::NAN.to_bits(), RED));
    assert_eq!(frame.get_color(0, 0), Some(BLACK));
    assert_eq!(frame.get_depth(0, 0), Some(INFINITY));
}

#[test]
fn fragments_outside_the_frame_are_dropped() {
    let mut frame = Framebuffer::new(3, 2);
    assert!(!frame.point(3, 0, 1.0f32.to_bits(), RED));
    assert!(!frame.point(0, 2, 1.0f32.to_bits(), RED));
    assert!(!frame.point(u32::MAX, u32::MAX, 1.0f32.to_bits(), RED));
    for c in frame.pixels() {
        assert_eq!(*c, BLACK);
    }
    assert_eq!(frame.get_color(3, 0), None);
    assert_eq!(frame.get_depth(0, 2), None);
}

#[test]
fn pixels_run_row_by_row() {
    let mut frame = Framebuffer::new(3, 2);
    frame.point(2, 0, 1.0f32.to_bits(), RED);
    frame.point(0, 1, 1.0f32.to_bits(), BLUE);
    let pixels = frame.pixels();
    assert_eq!(pixels[2], RED);
    assert_eq!(pixels[3], BLUE);
    assert_eq!(pixels[0], BLACK);
    assert_eq!(pixels[5], BLACK);
}

#[test]
fn clear_lays_down_the_background() {
    let mut frame = Framebuffer::new(4, 4);
    frame.point(1, 2, 3.0f32.to_bits(), RED);
    frame.set_background_color(NIGHT);
    assert_eq!(frame.get_color(1, 2), Some(RED));
    assert_eq!(frame.get_color(0, 0), Some(BLACK));
    frame.clear();
    for y in 0..4 {
        for x in 0..4 {
            assert_eq!(frame.get_color(x, y), Some(NIGHT));
            assert_eq!(frame.get_depth(x, y), Some(INFINITY));
        }
    }
    assert!(frame.point(1, 2, 9.0f32.to_bits(), GREEN));
    assert_eq!(frame.get_color(1, 2), Some(GREEN));
}

#[test]
fn set_pixel_draws_in_the_current_color() {
    let mut frame = Framebuffer::new(4, 4);
    frame.set_pixel(1, 1);
    assert_eq!(frame.get_color(1, 1), Some(WHITE));
    frame.set_current_color(Color::new(200, 200, 255, 255));
    frame.set_pixel(2, 1);
    frame.set_pixel(9, 9);
    assert_eq!(frame.get_color(2, 1), Some(Color { r: 200, g: 200, b: 255, a: 255 }));
    assert_eq!(frame.get_color(1, 1), Some(WHITE));
    assert_eq!(frame.get_depth(2, 1), Some(INFINITY));
}

#[test]
fn paint_ignores_depth_and_keeps_it() {
    let mut frame = Framebuffer::new(4, 4);
    frame.point(1, 1, 1.0f32.to_bits(), RED);
    frame.paint(1, 1, BLUE);
    assert_eq!(frame.get_color(1, 1), Some(BLUE));
    assert_eq!(frame.get_depth(1, 1), Some(1.0f32.to_bits()));
    frame.paint(4, 1, BLUE);
    frame.paint(1, 4, BLUE);
    assert_eq!(frame.pixels().iter().filter(|c| **c == BLUE).count(), 1);
}

#[test]
fn later_fragments_cover_a_star() {
    let mut frame = Framebuffer::new(4, 4);
    frame.draw_star(1, 1, false, WHITE);
    assert!(frame.point(1, 1, 200.0f32.to_bits(), RED));
    assert_eq!(frame.get_color(1, 1), Some(RED));
}

#[test]
fn small_star_is_one_pixel() {
    let mut frame = Framebuffer::new(4, 4);
    frame.draw_star(1, 2, false, WHITE);
    for y in 0..4 {
        for x in 0..4 {
            let want = if (x, y) == (1, 2) { WHITE } else { BLACK };
            assert_eq!(frame.get_color(x, y), Some(want));
        }
    }
}

#[test]
fn large_star_reaches_right_and_down() {
    let mut frame = Framebuffer::new(4, 4);
    frame.draw_star(1, 2, true, WHITE);
    for y in 0..4 {
        for x in 0..4 {
            let lit = (x, y) == (1, 2) || (x, y) == (2, 2) || (x, y) == (1, 3);
            let want = if lit { WHITE } else { BLACK };
            assert_eq!(frame.get_color(x, y), Some(want));
        }
    }
}

#[test]
fn large_star_is_cut_at_the_border() {
    let mut frame = Framebuffer::new(4, 4);
    frame.draw_star(3, 3, true, WHITE);
    assert_eq!(frame.pixels().iter().filter(|c| **c == WHITE).count(), 1);
    assert_eq!(frame.get_color(3, 3), Some(WHITE));
    let mut frame = Framebuffer::new(4, 4);
    frame.draw_star(3, 0, true, WHITE);
    assert_eq!(frame.get_color(3, 0), Some(WHITE));
    assert_eq!(frame.get_color(3, 1), Some(WHITE));
    assert_eq!(frame.get_color(0, 1), Some(BLACK));
    assert_eq!(frame.pixels().iter().filter(|c| **c == WHITE).count(), 2);
    let mut frame = Framebuffer::new(4, 4);
    frame.draw_star(u32::MAX, u32::MAX, true, WHITE);
    assert_eq!(frame.pixels().iter().filter(|c| **c == WHITE).count(), 0);
}

#[test]
fn write_all_composites_in_order() {
    let writes = vec![
        Write { x: 10, y: 10, depth: 5.0f32.to_bits(), color: RED },
        Write { x: 10, y: 10, depth: 3.0f32.to_bits(), color: BLUE },
        Write { x: 10, y: 10, depth: 10.0f32.to_bits(), color: GREEN },
        Write { x: 2, y: 3, depth: 1.0f32.to_bits(), color: GREEN },
        Write { x: 2, y: 3, depth: 1.0f32.to_bits(), color: RED },
        Write { x: 99, y: 3, depth: 1.0f32.to_bits(), color: RED },
    ];
    let mut all = Framebuffer::new(20, 20);
    all.write_all(&writes);
    let mut each = Framebuffer::new(20, 20);
    for w in &writes {
        each.point(w.x, w.y, w.depth, w.color);
    }
    assert_eq!(all.pixels(), each.pixels());
    assert_eq!(all.get_color(10, 10), Some(BLUE));
    assert_eq!(all.get_color(2, 3), Some(GREEN));
    assert_eq!(all.get_depth(2, 3), Some(1.0f32.to_bits()));
    all.write_all(&Vec::new());
    assert_eq!(all.pixels(), each.pixels());
}
