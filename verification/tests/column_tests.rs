use raycaster::column::{column_is_drawable, fill_column, CEIL_SHADE, FLOOR_SHADE};
use raycaster::level::SolidTile;
use raycaster::texture::{Texture, TEX_BYTES, TEX_WIDTH};

fn pattern_texture(seed: u8) -> Vec<u8> {
    (0..TEX_BYTES).map(|i| ((i % 251) as u8).wrapping_add(seed)).collect()
}

fn textures() -> Vec<Texture> {
    vec![
        Texture::from_rgb_bytes(&pattern_texture(0)),
        Texture::from_rgb_bytes(&pattern_texture(1)),
        Texture::from_rgb_bytes(&pattern_texture(2)),
    ]
}

#[test]
fn coloured_slice_is_centred() {
    let tex = textures();
    let mut col = vec![7u8; 30];
    assert!(column_is_drawable(30, 10, 4, SolidTile::Color(1, 2, 3), tex.len(), 0));
    fill_column(&mut col, 10, 4, SolidTile::Color(1, 2, 3), &tex, 0);
    assert_eq!(&col[0..9], &[CEIL_SHADE; 9]);
    assert_eq!(&col[9..21], &[1, 2, 3, 1, 2, 3, 1, 2, 3, 1, 2, 3]);
    assert_eq!(&col[21..30], &[FLOOR_SHADE; 9]);
}

#[test]
fn odd_gap_gives_floor_one_more_pixel() {
    let tex = textures();
    let mut col = vec![7u8; 30];
    fill_column(&mut col, 10, 3, SolidTile::Color(9, 9, 9), &tex, 0);
    assert_eq!(&col[0..9], &[50; 9]);
    assert_eq!(&col[9..18], &[9; 9]);
    assert_eq!(&col[18..30], &[100; 12]);
}

#[test]
fn tall_slice_fills_whole_column() {
    let tex = textures();
    let mut col = vec![7u8; 30];
    fill_column(&mut col, 10, 12, SolidTile::Color(4, 5, 6), &tex, 0);
    for p in 0..10 {
        assert_eq!(&col[3 * p..3 * p + 3], &[4, 5, 6]);
    }
}

#[test]
fn partial_pixels_keep_old_bytes() {
    let tex = textures();
    let mut col = vec![7u8; 31];
    fill_column(&mut col, 10, 4, SolidTile::Color(1, 2, 3), &tex, 0);
    assert_eq!(&col[21..30], &[100; 9]);
    assert_eq!(col[30], 7);
    // A column too short for even the ceiling is refused.
    assert!(!column_is_drawable(2, 10, 4, SolidTile::Color(1, 2, 3), 3, 0));
}

#[test]
fn textured_slice_reads_texture_line() {
    let tex = textures();
    let src = pattern_texture(1);
    let mut col = vec![0u8; 12];
    let tex_x = 2;
    assert!(column_is_drawable(12, 4, 4, SolidTile::Textured(1), tex.len(), tex_x));
    fill_column(&mut col, 4, 4, SolidTile::Textured(1), &tex, tex_x);
    let rows = [127usize, 95, 63, 31];
    for (y, row) in rows.iter().enumerate() {
        for c in 0..3 {
            assert_eq!(col[3 * y + c], src[tex_x * 3 * TEX_WIDTH + row * 3 + c]);
        }
    }
}

#[test]
fn slice_taller_than_screen_is_cropped() {
    let tex = textures();
    let src = pattern_texture(0);
    let mut col = vec![0u8; 12];
    fill_column(&mut col, 4, 8, SolidTile::Textured(0), &tex, 5);
    let rows = [95usize, 79, 63, 47];
    for (y, row) in rows.iter().enumerate() {
        for c in 0..3 {
            assert_eq!(col[3 * y + c], src[5 * 3 * TEX_WIDTH + row * 3 + c]);
        }
    }
}

#[test]
fn drawability_checks() {
    // Negative slice heights are refused.
    assert!(!column_is_drawable(30, 10, -1, SolidTile::Color(0, 0, 0), 3, 0));
    // Unknown texture or texture line.
    assert!(!column_is_drawable(30, 10, 4, SolidTile::Textured(3), 3, 0));
    assert!(!column_is_drawable(30, 10, 4, SolidTile::Textured(0), 3, TEX_WIDTH));
    // A slice so tall that scaling rows would overflow.
    assert!(!column_is_drawable(3000, 1000, i32::MAX, SolidTile::Textured(0), 3, 0));
    // The same slice in a flat colour is fine.
    assert!(column_is_drawable(3000, 1000, i32::MAX, SolidTile::Color(0, 0, 0), 3, 0));
}
