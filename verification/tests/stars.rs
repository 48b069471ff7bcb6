use rand::rngs::StdRng;
use rand::{Rng, SeedableRng};
use solar_raster::framebuffer::{Color, Framebuffer};
use solar_raster::stars::star_position;

#[test]
fn star_positions_lie_in_the_frame() {
    let mut rng = StdRng::seed_from_u64(42);
    for _ in 0..600 {
        let (x, y) = star_position(&mut rng, 13, 9);
        assert!(x < 13);
        assert!(y < 9);
    }
}

#[test]
fn star_positions_in_a_single_pixel_frame() {
    let mut rng = StdRng::seed_from_u64(7);
    for _ in 0..20 {
        assert_eq!(star_position(&mut rng, 1, 1), (0, 0));
    }
}

#[test]
fn star_positions_draw_column_then_row() {
    let mut ours = StdRng::seed_from_u64(42);
    let mut theirs = StdRng::seed_from_u64(42);
    for _ in 0..100 {
        let (x, y) = star_position(&mut ours, 1300, 900);
        let want_x: i32 = theirs.gen_range(0..1300);
        let want_y: i32 = theirs.gen_range(0..900);
        assert_eq!((x as i32, y as i32), (want_x, want_y));
    }
}

#[test]
fn star_positions_vary() {
    let mut rng = StdRng::seed_from_u64(42);
    let first = star_position(&mut rng, 1300, 900);
    let mut varied = false;
    for _ in 0..50 {
        if star_position(&mut rng, 1300, 900) != first {
            varied = true;
        }
    }
    assert!(varied);
}

#[test]
fn same_seed_same_sky() {
    let mut frames = Vec::new();
    for _ in 0..2 {
        let mut frame = Framebuffer::new(64, 48);
        let mut rng = StdRng::seed_from_u64(42);
        for _ in 0..600 {
            let (x, y) = star_position(&mut rng, 64, 48);
            let brightness: f64 = rng.gen_range(0.5..1.0);
            let large = rng.gen_bool(0.1);
            let level = (255.0 * brightness) as u8;
            frame.draw_star(x, y, large, Color::new(level, level, level, 255));
        }
        frames.push(frame.pixels().clone());
    }
    assert_eq!(frames[0], frames[1]);
    assert!(frames[0].iter().any(|c| c.r >= 127));
}
