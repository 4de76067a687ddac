use raycaster::level::{get_tile, standard_level, Coord, Level, LevelTile, SolidTile, LEVEL_HEIGHT, LEVEL_WIDTH};

fn solid(t: LevelTile) -> bool {
    matches!(t, LevelTile::SolidTile(_))
}

#[test]
fn get_tile_outside_level_is_empty() {
    let level = standard_level();
    assert_eq!(get_tile(&level, Coord { x: -1, y: 0 }), LevelTile::Empty);
    assert_eq!(get_tile(&level, Coord { x: 0, y: -1 }), LevelTile::Empty);
    assert_eq!(get_tile(&level, Coord { x: 16, y: 5 }), LevelTile::Empty);
    assert_eq!(get_tile(&level, Coord { x: 5, y: 32 }), LevelTile::Empty);
    assert_eq!(get_tile(&level, Coord { x: i32::MIN, y: i32::MAX }), LevelTile::Empty);
}

#[test]
fn get_tile_reads_standard_level() {
    let level = standard_level();
    // Corner: red brick texture.
    assert_eq!(get_tile(&level, Coord { x: 0, y: 0 }), LevelTile::SolidTile(SolidTile::Textured(1)));
    // Eagle texture next to the west wall.
    assert_eq!(get_tile(&level, Coord { x: 1, y: 1 }), LevelTile::SolidTile(SolidTile::Textured(2)));
    // The camera's starting cell is a green wall; the cell beside it is open.
    assert_eq!(get_tile(&level, Coord { x: 6, y: 6 }), LevelTile::SolidTile(SolidTile::Color(0, 255, 0)));
    assert_eq!(get_tile(&level, Coord { x: 6, y: 5 }), LevelTile::Empty);
    // A blue pillar.
    assert_eq!(get_tile(&level, Coord { x: 3, y: 12 }), LevelTile::SolidTile(SolidTile::Color(0, 0, 255)));
    // A green wall.
    assert_eq!(get_tile(&level, Coord { x: 4, y: 6 }), LevelTile::SolidTile(SolidTile::Color(0, 255, 0)));
    // Bluestone block.
    assert_eq!(get_tile(&level, Coord { x: 7, y: 1 }), LevelTile::SolidTile(SolidTile::Textured(0)));
    // Red wall on the east border.
    assert_eq!(get_tile(&level, Coord { x: 15, y: 31 }), LevelTile::SolidTile(SolidTile::Color(255, 0, 0)));
}

#[test]
fn standard_level_border_is_solid() {
    let level = standard_level();
    for x in 0..LEVEL_WIDTH as i32 {
        for y in 0..LEVEL_HEIGHT as i32 {
            let border = x == 0 || y == 0 || x == LEVEL_WIDTH as i32 - 1 || y == LEVEL_HEIGHT as i32 - 1;
            if border {
                assert!(solid(get_tile(&level, Coord { x, y })), "border cell {} {} is open", x, y);
            }
        }
    }
}

#[test]
fn from_tiles_checks_cell_count() {
    assert!(Level::from_tiles(vec![LevelTile::Empty; 10]).is_none());
    assert!(Level::from_tiles(vec![LevelTile::Empty; LEVEL_WIDTH * LEVEL_HEIGHT + 1]).is_none());
    let mut tiles = vec![LevelTile::Empty; LEVEL_WIDTH * LEVEL_HEIGHT];
    tiles[2 * LEVEL_HEIGHT + 3] = LevelTile::SolidTile(SolidTile::Color(1, 2, 3));
    let level = Level::from_tiles(tiles).unwrap();
    assert_eq!(level.cell_count(), 512);
    assert_eq!(get_tile(&level, Coord { x: 2, y: 3 }), LevelTile::SolidTile(SolidTile::Color(1, 2, 3)));
    assert_eq!(get_tile(&level, Coord { x: 3, y: 2 }), LevelTile::Empty);
}
