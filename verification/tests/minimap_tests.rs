use raycaster::level::{standard_level, Level, LevelTile, SolidTile, LEVEL_HEIGHT, LEVEL_WIDTH};
use raycaster::minimap::{level_textures_in_range, minimap_rects, MapRect};
use raycaster::texture::{Texture, TEX_BYTES};

fn flat(r: u8, g: u8, b: u8) -> Vec<u8> {
    let mut v = Vec::with_capacity(TEX_BYTES);
    for _ in 0..TEX_BYTES / 3 {
        v.extend_from_slice(&[r, g, b]);
    }
    v
}

#[test]
fn minimap_of_standard_level() {
    let level = standard_level();
    let tex = vec![
        Texture::from_rgb_bytes(&flat(1, 1, 1)),
        Texture::from_rgb_bytes(&flat(2, 2, 2)),
        Texture::from_rgb_bytes(&flat(3, 3, 3)),
    ];
    assert!(level_textures_in_range(&level, tex.len()));
    let rects = minimap_rects(&level, &tex);
    assert_eq!(rects[0], MapRect { x: 0, y: 0, w: 128, h: 256, r: 50, g: 50, b: 50 });
    // Cell (0, 0) is red brick, drawn in its texture's first colour.
    assert_eq!(rects[1], MapRect { x: 0, y: 0, w: 8, h: 8, r: 2, g: 2, b: 2 });
    // Cell (0, 7) is a red wall.
    assert_eq!(rects[8], MapRect { x: 0, y: 56, w: 8, h: 8, r: 255, g: 0, b: 0 });
    // Second column: red brick at (1, 0), eagle at (1, 1).
    assert_eq!(rects[33], MapRect { x: 8, y: 0, w: 8, h: 8, r: 2, g: 2, b: 2 });
    assert_eq!(rects[34], MapRect { x: 8, y: 8, w: 8, h: 8, r: 3, g: 3, b: 3 });
    // One square per wall cell.
    let walls = (0..LEVEL_WIDTH as i32)
        .flat_map(|x| (0..LEVEL_HEIGHT as i32).map(move |y| (x, y)))
        .filter(|&(x, y)| {
            matches!(
                raycaster::level::get_tile(&level, raycaster::level::Coord { x, y }),
                LevelTile::SolidTile(_)
            )
        })
        .count();
    assert_eq!(rects.len(), 1 + walls);
}

#[test]
fn minimap_of_empty_level_is_background_only() {
    let level = Level::from_tiles(vec![LevelTile::Empty; LEVEL_WIDTH * LEVEL_HEIGHT]).unwrap();
    let tex = vec![
        Texture::from_rgb_bytes(&flat(1, 1, 1)),
        Texture::from_rgb_bytes(&flat(2, 2, 2)),
        Texture::from_rgb_bytes(&flat(3, 3, 3)),
    ];
    let rects = minimap_rects(&level, &tex);
    assert_eq!(rects.len(), 1);
}

#[test]
fn texture_index_range_check() {
    let mut tiles = vec![LevelTile::Empty; LEVEL_WIDTH * LEVEL_HEIGHT];
    tiles[100] = LevelTile::SolidTile(SolidTile::Textured(5));
    let level = Level::from_tiles(tiles).unwrap();
    assert!(!level_textures_in_range(&level, 3));
    assert!(level_textures_in_range(&level, 6));
    assert!(level_textures_in_range(&standard_level(), 3));
    assert!(!level_textures_in_range(&standard_level(), 2));
}
