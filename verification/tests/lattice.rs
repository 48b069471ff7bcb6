use solar_raster::cellular::{CellularNoise, FeaturePoint};
use solar_raster::lattice::{scramble, to_word};
use solar_raster::simplex::Simplex;

#[test]
fn to_word_keeps_the_bits() {
    assert_eq!(to_word(0), 0);
    assert_eq!(to_word(1), 1);
    assert_eq!(to_word(-1), 0xFFFF_FFFF);
    assert_eq!(to_word(i32::MIN), 0x8000_0000);
    assert_eq!(to_word(i32::MAX), 0x7FFF_FFFF);
}

#[test]
fn scramble_known_words() {
    assert_eq!(scramble(0, 0), 0);
    assert_eq!(scramble(1, 0), 2182377942);
    assert_eq!(scramble(0, 1), 1274139792);
    assert_eq!(scramble(1, 1), 908288578);
    assert_eq!(scramble(-1, -1), 1047317934);
    assert_eq!(scramble(5, -7), 839447846);
    assert_eq!(scramble(i32::MAX, i32::MIN), 2321422717);
    assert_eq!(scramble(123456, 654321), 49941810);
}

#[test]
fn scramble_tells_the_coordinates_apart() {
    assert_ne!(scramble(1, 0), scramble(0, 1));
    assert_ne!(scramble(3, 4), 3);
    assert_ne!(scramble(3, 4), 4);
}

#[test]
fn simplex_hash_known_bytes() {
    assert_eq!(Simplex::hash(0, 0), 0);
    assert_eq!(Simplex::hash(1, 0), 214);
    assert_eq!(Simplex::hash(0, 1), 144);
    assert_eq!(Simplex::hash(1, 1), 66);
    assert_eq!(Simplex::hash(-1, -1), 174);
    assert_eq!(Simplex::hash(5, -7), 38);
    assert_eq!(Simplex::hash(i32::MAX, i32::MIN), 125);
    assert_eq!(Simplex::hash(123456, 654321), 50);
}

#[test]
fn simplex_hash_is_the_low_byte_of_the_word() {
    for x in -20..20 {
        for y in -20..20 {
            assert_eq!(Simplex::hash(x, y) as u32, scramble(x, y) & 0xFF);
        }
    }
}

#[test]
fn simplex_hash_repeats() {
    let _field = Simplex::new();
    for x in -50..50 {
        for y in -50..50 {
            assert_eq!(Simplex::hash(x, y), Simplex::hash(x, y));
        }
    }
}

#[test]
fn gradient_signs_follow_the_two_low_bits() {
    assert_eq!(Simplex::gradient(0), (1, 1));
    assert_eq!(Simplex::gradient(1), (-1, 1));
    assert_eq!(Simplex::gradient(2), (1, -1));
    assert_eq!(Simplex::gradient(3), (-1, -1));
    assert_eq!(Simplex::gradient(4), (1, 1));
    assert_eq!(Simplex::gradient(214), (1, -1));
    assert_eq!(Simplex::gradient(255), (-1, -1));
    for h in 0..=255u8 {
        assert_eq!(Simplex::gradient(h), Simplex::gradient(h & 3));
    }
}

#[test]
fn gradient_matches_the_four_sums() {
    let (x, y) = (0.25f32, -0.75f32);
    for h in 0..=255u8 {
        let (sx, sy) = Simplex::gradient(h);
        let got = sx as f32 * x + sy as f32 * y;
        let want = match h & 3 {
            0 => x + y,
            1 => -x + y,
            2 => x - y,
            _ => -x - y,
        };
        assert_eq!(got, want);
    }
}

#[test]
fn corner_hashes_pick_the_middle_corner() {
    let (i, j) = (7, -3);
    assert_eq!(
        Simplex::corner_hashes(i, j, true),
        (Simplex::hash(i, j), Simplex::hash(i + 1, j), Simplex::hash(i + 1, j + 1))
    );
    assert_eq!(
        Simplex::corner_hashes(i, j, false),
        (Simplex::hash(i, j), Simplex::hash(i, j + 1), Simplex::hash(i + 1, j + 1))
    );
    assert_eq!(Simplex::corner_hashes(0, 0, true), (0, 214, 66));
    assert_eq!(Simplex::corner_hashes(0, 0, false), (0, 144, 66));
}

#[test]
fn hash2d_known_fractions() {
    assert_eq!(CellularNoise::hash2d(0, 0), (0, 0));
    assert_eq!(CellularNoise::hash2d(1, 0), (29142, 22602));
    assert_eq!(CellularNoise::hash2d(0, 1), (54416, 13936));
    assert_eq!(CellularNoise::hash2d(1, 1), (25154, 40990));
    assert_eq!(CellularNoise::hash2d(-1, -1), (52654, 31986));
    assert_eq!(CellularNoise::hash2d(5, -7), (62758, 58362));
    assert_eq!(CellularNoise::hash2d(i32::MAX, i32::MIN), (6525, 27891));
    assert_eq!(CellularNoise::hash2d(123456, 654321), (3378, 21038));
}

#[test]
fn hash2d_repeats() {
    let _field = CellularNoise::new();
    for x in -30..30 {
        for y in -30..30 {
            assert_eq!(CellularNoise::hash2d(x, y), CellularNoise::hash2d(x, y));
        }
    }
}

#[test]
fn feature_points_cover_the_nine_cells_row_by_row() {
    let points = CellularNoise::feature_points(10, -4);
    assert_eq!(points.len(), 9);
    let mut k = 0;
    for dy in -1..=1 {
        for dx in -1..=1 {
            let (fx, fy) = CellularNoise::hash2d(10 + dx, -4 + dy);
            assert_eq!(
                points[k],
                FeaturePoint { cell_x: 10 + dx, cell_y: -4 + dy, frac_x: fx, frac_y: fy }
            );
            k += 1;
        }
    }
}

#[test]
fn feature_points_around_the_origin() {
    let points = CellularNoise::feature_points(0, 0);
    assert_eq!(points[0], FeaturePoint { cell_x: -1, cell_y: -1, frac_x: 52654, frac_y: 31986 });
    assert_eq!(points[4], FeaturePoint { cell_x: 0, cell_y: 0, frac_x: 0, frac_y: 0 });
    assert_eq!(points[5], FeaturePoint { cell_x: 1, cell_y: 0, frac_x: 29142, frac_y: 22602 });
    assert_eq!(points[7], FeaturePoint { cell_x: 0, cell_y: 1, frac_x: 54416, frac_y: 13936 });
    assert_eq!(points[8], FeaturePoint { cell_x: 1, cell_y: 1, frac_x: 25154, frac_y: 40990 });
}

#[test]
fn feature_points_at_the_edge_of_the_lattice() {
    let points = CellularNoise::feature_points(i32::MAX - 1, i32::MIN + 1);
    assert_eq!(points[0].cell_x, i32::MAX - 2);
    assert_eq!(points[0].cell_y, i32::MIN);
    assert_eq!(points[8].cell_x, i32::MAX);
    assert_eq!(points[8].cell_y, i32::MIN + 2);
}
