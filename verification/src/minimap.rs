use vstd::prelude::*;

use crate::level::{in_level, tile_at, Level, LevelTile, SolidTile, LEVEL_HEIGHT, LEVEL_WIDTH};
use crate::texture::Texture;

verus! {

/// Side of one level cell on the map overlay, in pixels.
pub const MAP_CELL: usize = 8;

/// Grey level of the map overlay's background.
pub const MAP_BACKGROUND_SHADE: u8 = 50;

/// A filled rectangle of the map overlay.
#[derive(Clone, Copy, Debug, PartialEq, Eq, Structural)]
pub struct MapRect {
    pub x: i32,
    pub y: i32,
    pub w: u32,
    pub h: u32,
    pub r: u8,
    pub g: u8,
    pub b: u8,
}

/// Whether every textured tile of a level names one of `texture_count`
/// textures.
pub open spec fn textures_cover(tiles: Seq<LevelTile>, texture_count: int) -> bool {
    forall|i: int|
        0 <= i < tiles.len() ==> (#[trigger] tiles[i] matches LevelTile::SolidTile(
            SolidTile::Textured(t),
        ) ==> t < texture_count)
}

/// Whether every textured tile of `level` names one of `texture_count`
/// textures.
pub fn level_textures_in_range(level: &Level, texture_count: usize) -> (b: bool)
    ensures
        b == textures_cover(level@, texture_count as int),
{
    let n = level.cell_count();
    let mut x: usize = 0;
    while x < LEVEL_WIDTH
        invariant
            x <= LEVEL_WIDTH,
            n == level@.len(),
            n == LEVEL_WIDTH * LEVEL_HEIGHT,
            forall|i: int|
                0 <= i < x * LEVEL_HEIGHT ==> (#[trigger] level@[i] matches LevelTile::SolidTile(
                    SolidTile::Textured(t),
                ) ==> t < texture_count),
        decreases LEVEL_WIDTH - x,
    {
        let mut y: usize = 0;
        while y < LEVEL_HEIGHT
            invariant
                x < LEVEL_WIDTH,
                y <= LEVEL_HEIGHT,
                n == level@.len(),
                n == LEVEL_WIDTH * LEVEL_HEIGHT,
                forall|i: int|
                    0 <= i < x * LEVEL_HEIGHT + y ==> (#[trigger] level@[i] matches LevelTile::SolidTile(
                        SolidTile::Textured(t),
                    ) ==> t < texture_count),
            decreases LEVEL_HEIGHT - y,
        {
            let tile = crate::level::get_tile(
                level,
                crate::level::Coord { x: x as i32, y: y as i32 },
            );
            assert(tile == level@[(x * LEVEL_HEIGHT + y) as int]);
            if let LevelTile::SolidTile(SolidTile::Textured(t)) = tile {
                if t >= texture_count {
                    return false;
                }
            }
            y = y + 1;
        }
        x = x + 1;
    }
    true
}

/// The background of the map overlay, covering the whole level.
pub open spec fn map_background() -> MapRect {
    MapRect {
        x: 0,
        y: 0,
        w: (LEVEL_WIDTH * MAP_CELL) as u32,
        h: (LEVEL_HEIGHT * MAP_CELL) as u32,
        r: MAP_BACKGROUND_SHADE,
        g: MAP_BACKGROUND_SHADE,
        b: MAP_BACKGROUND_SHADE,
    }
}

/// The square drawn for cell number `i` (column by column) of a level: a
/// coloured tile in its colour, a textured tile in the colour of its
/// texture's first pixel, nothing for an empty cell.
pub open spec fn cell_rect(i: int, tile: LevelTile, textures: Seq<Texture>) -> Seq<MapRect> {
    let x = i / (LEVEL_HEIGHT as int);
    let y = i % (LEVEL_HEIGHT as int);
    let rect = |r: u8, g: u8, b: u8|
        MapRect {
            x: (x * MAP_CELL) as i32,
            y: (y * MAP_CELL) as i32,
            w: MAP_CELL as u32,
            h: MAP_CELL as u32,
            r,
            g,
            b,
        };
    match tile {
        LevelTile::SolidTile(SolidTile::Color(r, g, b)) => seq![rect(r, g, b)],
        LevelTile::SolidTile(SolidTile::Textured(t)) => {
            let tex = textures[t as int]@;
            seq![rect(tex[0], tex[1], tex[2])]
        },
        LevelTile::Empty => Seq::empty(),
    }
}

/// The squares drawn for the first `n` cells of a level, in order.
pub open spec fn cell_rects(tiles: Seq<LevelTile>, textures: Seq<Texture>, n: int) -> Seq<MapRect>
    decreases n,
{
    if n <= 0 {
        Seq::empty()
    } else {
        cell_rects(tiles, textures, n - 1) + cell_rect(n - 1, tiles[n - 1], textures)
    }
}

/// The map square a wall cell numbered `i` (column by column) is drawn as,
/// in the colour `(r, g, b)`, is among `rects`.
pub open spec fn has_square(rects: Seq<MapRect>, i: int, r: u8, g: u8, b: u8) -> bool {
    rects.contains(
        MapRect {
            x: ((i / (LEVEL_HEIGHT as int)) * 8) as i32,
            y: ((i % (LEVEL_HEIGHT as int)) * 8) as i32,
            w: 8,
            h: 8,
            r,
            g,
            b,
        },
    )
}

proof fn lemma_cell_rects_colours(tiles: Seq<LevelTile>, textures: Seq<Texture>, n: int)
    requires
        0 <= n <= tiles.len(),
        textures_cover(tiles, textures.len() as int),
    ensures
        forall|i: int|
            0 <= i < n ==> (#[trigger] tiles[i] matches LevelTile::SolidTile(SolidTile::Color(r, g, b))
                ==> has_square(cell_rects(tiles, textures, n), i, r, g, b)),
        forall|i: int|
            0 <= i < n ==> (#[trigger] tiles[i] matches LevelTile::SolidTile(SolidTile::Textured(t))
                ==> has_square(
                cell_rects(tiles, textures, n),
                i,
                textures[t as int]@[0],
                textures[t as int]@[1],
                textures[t as int]@[2],
            )),
    decreases n,
{
    if n > 0 {
        lemma_cell_rects_colours(tiles, textures, n - 1);
        let prev = cell_rects(tiles, textures, n - 1);
        let all = cell_rects(tiles, textures, n);
        assert(all == prev + cell_rect(n - 1, tiles[n - 1], textures));
        assert forall|i: int| 0 <= i < n implies (#[trigger] tiles[i] matches LevelTile::SolidTile(
            SolidTile::Color(r, g, b),
        ) ==> has_square(all, i, r, g, b)) by {
            if let LevelTile::SolidTile(SolidTile::Color(r, g, b)) = tiles[i] {
                let sq = MapRect {
                    x: ((i / (LEVEL_HEIGHT as int)) * 8) as i32,
                    y: ((i % (LEVEL_HEIGHT as int)) * 8) as i32,
                    w: 8,
                    h: 8,
                    r,
                    g,
                    b,
                };
                if i < n - 1 {
                    assert(prev.contains(sq));
                    let j = choose|j: int| 0 <= j < prev.len() && prev[j] == sq;
                    assert(all[j] == sq);
                } else {
                    assert(all[prev.len() as int] == sq);
                }
            }
        }
        assert forall|i: int| 0 <= i < n implies (#[trigger] tiles[i] matches LevelTile::SolidTile(
            SolidTile::Textured(t),
        ) ==> has_square(
            all,
            i,
            textures[t as int]@[0],
            textures[t as int]@[1],
            textures[t as int]@[2],
        )) by {
            if let LevelTile::SolidTile(SolidTile::Textured(t)) = tiles[i] {
                let tex = textures[t as int]@;
                let sq = MapRect {
                    x: ((i / (LEVEL_HEIGHT as int)) * 8) as i32,
                    y: ((i % (LEVEL_HEIGHT as int)) * 8) as i32,
                    w: 8,
                    h: 8,
                    r: tex[0],
                    g: tex[1],
                    b: tex[2],
                };
                if i < n - 1 {
                    assert(prev.contains(sq));
                    let j = choose|j: int| 0 <= j < prev.len() && prev[j] == sq;
                    assert(all[j] == sq);
                } else {
                    assert(all[prev.len() as int] == sq);
                }
            }
        }
    }
}

/// Every wall cell `(x, y)` of a level is on the map overlay as the square
/// of side 8 at `(8 x, 8 y)`, in the tile's own colour `(r, g, b)` for a
/// coloured tile, and in the colour of its texture's first pixel for a
/// textured tile.
pub proof fn lemma_minimap_wall_colours(tiles: Seq<LevelTile>, textures: Seq<Texture>)
    requires
        tiles.len() == LEVEL_WIDTH * LEVEL_HEIGHT,
        textures_cover(tiles, textures.len() as int),
    ensures
        forall|x: int, y: int|
            in_level(x, y) ==> (#[trigger] tile_at(tiles, x, y) matches LevelTile::SolidTile(
                SolidTile::Color(r, g, b),
            ) ==> (seq![map_background()] + cell_rects(
                tiles,
                textures,
                (LEVEL_WIDTH * LEVEL_HEIGHT) as int,
            )).contains(
                MapRect { x: (x * 8) as i32, y: (y * 8) as i32, w: 8, h: 8, r, g, b },
            )),
        forall|x: int, y: int|
            in_level(x, y) ==> (#[trigger] tile_at(tiles, x, y) matches LevelTile::SolidTile(
                SolidTile::Textured(t),
            ) ==> (seq![map_background()] + cell_rects(
                tiles,
                textures,
                (LEVEL_WIDTH * LEVEL_HEIGHT) as int,
            )).contains(
                MapRect {
                    x: (x * 8) as i32,
                    y: (y * 8) as i32,
                    w: 8,
                    h: 8,
                    r: textures[t as int]@[0],
                    g: textures[t as int]@[1],
                    b: textures[t as int]@[2],
                },
            )),
{
    let n = (LEVEL_WIDTH * LEVEL_HEIGHT) as int;
    lemma_cell_rects_colours(tiles, textures, n);
    let cells = cell_rects(tiles, textures, n);
    let all = seq![map_background()] + cells;
    assert forall|x: int, y: int| in_level(x, y) implies (#[trigger] tile_at(tiles, x, y) matches LevelTile::SolidTile(
        SolidTile::Color(r, g, b),
    ) ==> all.contains(MapRect { x: (x * 8) as i32, y: (y * 8) as i32, w: 8, h: 8, r, g, b })) by {
        let i = x * (LEVEL_HEIGHT as int) + y;
        assert(i / (LEVEL_HEIGHT as int) == x);
        assert(i % (LEVEL_HEIGHT as int) == y);
        if let LevelTile::SolidTile(SolidTile::Color(r, g, b)) = tiles[i] {
            let sq = MapRect { x: (x * 8) as i32, y: (y * 8) as i32, w: 8, h: 8, r, g, b };
            assert(cells.contains(sq));
            let j = choose|j: int| 0 <= j < cells.len() && cells[j] == sq;
            assert(all[j + 1] == sq);
        }
    }
    assert forall|x: int, y: int| in_level(x, y) implies (#[trigger] tile_at(tiles, x, y) matches LevelTile::SolidTile(
        SolidTile::Textured(t),
    ) ==> all.contains(
        MapRect {
            x: (x * 8) as i32,
            y: (y * 8) as i32,
            w: 8,
            h: 8,
            r: textures[t as int]@[0],
            g: textures[t as int]@[1],
            b: textures[t as int]@[2],
        },
    )) by {
        let i = x * (LEVEL_HEIGHT as int) + y;
        assert(i / (LEVEL_HEIGHT as int) == x);
        assert(i % (LEVEL_HEIGHT as int) == y);
        if let LevelTile::SolidTile(SolidTile::Textured(t)) = tiles[i] {
            let tex = textures[t as int]@;
            let sq = MapRect {
                x: (x * 8) as i32,
                y: (y * 8) as i32,
                w: 8,
                h: 8,
                r: tex[0],
                g: tex[1],
                b: tex[2],
            };
            assert(cells.contains(sq));
            let j = choose|j: int| 0 <= j < cells.len() && cells[j] == sq;
            assert(all[j + 1] == sq);
        }
    }
}

/// The rectangles of the map overlay, in drawing order: the background,
/// then one square per wall cell, column by column.
pub fn minimap_rects(level: &Level, textures: &Vec<Texture>) -> (rects: Vec<MapRect>)
    requires
        textures_cover(level@, textures.len() as int),
    ensures
        rects@ == seq![map_background()] + cell_rects(
            level@,
            textures@,
            (LEVEL_WIDTH * LEVEL_HEIGHT) as int,
        ),
        forall|x: int, y: int|
            in_level(x, y) ==> (#[trigger] tile_at(level@, x, y) matches LevelTile::SolidTile(
                SolidTile::Color(r, g, b),
            ) ==> rects@.contains(
                MapRect { x: (x * 8) as i32, y: (y * 8) as i32, w: 8, h: 8, r, g, b },
            )),
        forall|x: int, y: int|
            in_level(x, y) ==> (#[trigger] tile_at(level@, x, y) matches LevelTile::SolidTile(
                SolidTile::Textured(t),
            ) ==> rects@.contains(
                MapRect {
                    x: (x * 8) as i32,
                    y: (y * 8) as i32,
                    w: 8,
                    h: 8,
                    r: textures@[t as int]@[0],
                    g: textures@[t as int]@[1],
                    b: textures@[t as int]@[2],
                },
            )),
{
    let cells = level.cell_count();
    assert(cells == level@.len());
    let mut rects: Vec<MapRect> = Vec::new();
    rects.push(
        MapRect {
            x: 0,
            y: 0,
            w: (LEVEL_WIDTH * MAP_CELL) as u32,
            h: (LEVEL_HEIGHT * MAP_CELL) as u32,
            r: MAP_BACKGROUND_SHADE,
            g: MAP_BACKGROUND_SHADE,
            b: MAP_BACKGROUND_SHADE,
        },
    );
    let mut x: usize = 0;
    while x < LEVEL_WIDTH
        invariant
            x <= LEVEL_WIDTH,
            level@.len() == LEVEL_WIDTH * LEVEL_HEIGHT,
            textures_cover(level@, textures.len() as int),
            rects@ == seq![map_background()] + cell_rects(
                level@,
                textures@,
                (x * LEVEL_HEIGHT) as int,
            ),
        decreases LEVEL_WIDTH - x,
    {
        let mut y: usize = 0;
        while y < LEVEL_HEIGHT
            invariant
                x < LEVEL_WIDTH,
                y <= LEVEL_HEIGHT,
                level@.len() == LEVEL_WIDTH * LEVEL_HEIGHT,
                textures_cover(level@, textures.len() as int),
                rects@ == seq![map_background()] + cell_rects(
                    level@,
                    textures@,
                    (x * LEVEL_HEIGHT + y) as int,
                ),
            decreases LEVEL_HEIGHT - y,
        {
            let ghost i = (x * LEVEL_HEIGHT + y) as int;
            let ghost before = rects@;
            let tile = crate::level::get_tile(
                level,
                crate::level::Coord { x: x as i32, y: y as i32 },
            );
            assert(tile == level@[i]);
            assert(i / (LEVEL_HEIGHT as int) == x);
            assert(i % (LEVEL_HEIGHT as int) == y);
            match tile {
                LevelTile::SolidTile(SolidTile::Color(r, g, b)) => {
                    rects.push(
                        MapRect {
                            x: (x * MAP_CELL) as i32,
                            y: (y * MAP_CELL) as i32,
                            w: MAP_CELL as u32,
                            h: MAP_CELL as u32,
                            r,
                            g,
                            b,
                        },
                    );
                },
                LevelTile::SolidTile(SolidTile::Textured(t)) => {
                    let tex = &textures[t];
                    let r = tex.byte(0);
                    let g = tex.byte(1);
                    let b = tex.byte(2);
                    rects.push(
                        MapRect {
                            x: (x * MAP_CELL) as i32,
                            y: (y * MAP_CELL) as i32,
                            w: MAP_CELL as u32,
                            h: MAP_CELL as u32,
                            r,
                            g,
                            b,
                        },
                    );
                },
                LevelTile::Empty => {},
            }
            assert(rects@ == seq![map_background()] + cell_rects(level@, textures@, i + 1));
            y = y + 1;
        }
        x = x + 1;
    }
    proof {
        lemma_minimap_wall_colours(level@, textures@);
    }
    rects
}

} // verus!
