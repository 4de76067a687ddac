use vstd::prelude::*;

verus! {

/// Number of grid cells along the x axis of a level.
pub const LEVEL_WIDTH: usize = 16;

/// Number of grid cells along the y axis of a level.
pub const LEVEL_HEIGHT: usize = 32;

/// A wall cell: either a flat colour or one of the loaded textures.
#[derive(Clone, Copy, Debug, PartialEq, Eq, Structural)]
pub enum SolidTile {
    /// Flat red, green and blue components.
    Color(u8, u8, u8),
    /// Index into the list of textures.
    Textured(usize),
}

/// One cell of the level grid.
#[derive(Clone, Copy, Debug, PartialEq, Eq, Structural)]
pub enum LevelTile {
    SolidTile(SolidTile),
    Empty,
}

/// A grid coordinate.
#[derive(Clone, Copy, Debug, PartialEq, Eq, Structural)]
pub struct Coord {
    pub x: i32,
    pub y: i32,
}

/// A level of `LEVEL_WIDTH` by `LEVEL_HEIGHT` cells, stored column by column:
/// the cell `(x, y)` is at position `x * LEVEL_HEIGHT + y`.
pub struct Level {
    tiles: Vec<LevelTile>,
}

/// Whether `(x, y)` names a cell of a level.
pub open spec fn in_level(x: int, y: int) -> bool {
    0 <= x < LEVEL_WIDTH && 0 <= y < LEVEL_HEIGHT
}

/// The tile at `(x, y)` of a level whose cells are `tiles`; outside the grid
/// every cell reads as empty.
pub open spec fn tile_at(tiles: Seq<LevelTile>, x: int, y: int) -> LevelTile {
    if in_level(x, y) {
        tiles[x * LEVEL_HEIGHT + y]
    } else {
        LevelTile::Empty
    }
}

/// Whether a tile is a wall.
pub open spec fn is_solid(t: LevelTile) -> bool {
    t is SolidTile
}

impl View for Level {
    type V = Seq<LevelTile>;

    closed spec fn view(&self) -> Seq<LevelTile> {
        self.tiles@
    }
}

impl Level {
    #[verifier::type_invariant]
    spec fn inv(self) -> bool {
        self.tiles.len() == LEVEL_WIDTH * LEVEL_HEIGHT
    }

    /// The number of cells of the level, `LEVEL_WIDTH * LEVEL_HEIGHT`.
    pub fn cell_count(&self) -> (n: usize)
        ensures
            n == self@.len(),
            n == LEVEL_WIDTH * LEVEL_HEIGHT,
    {
        proof {
            use_type_invariant(self);
        }
        self.tiles.len()
    }

    /// Builds a level from its cells, column by column; `None` when the
    /// number of cells is not `LEVEL_WIDTH * LEVEL_HEIGHT`.
    pub fn from_tiles(tiles: Vec<LevelTile>) -> (res: Option<Level>)
        ensures
            tiles.len() == LEVEL_WIDTH * LEVEL_HEIGHT <==> res is Some,
            res matches Some(level) ==> level@ == tiles@,
    {
        if tiles.len() == LEVEL_WIDTH * LEVEL_HEIGHT {
            Some(Level { tiles })
        } else {
            None
        }
    }
}

/// The tile at `coord`, or `Empty` where `coord` lies outside the level.
pub fn get_tile(level: &Level, coord: Coord) -> (t: LevelTile)
    ensures
        t == tile_at(level@, coord.x as int, coord.y as int),
{
    proof {
        use_type_invariant(level);
    }
    if coord.x >= 0 && coord.x < (LEVEL_WIDTH as i32) && coord.y >= 0 && coord.y < (LEVEL_HEIGHT as i32) {
        let i: usize = (coord.x as usize) * LEVEL_HEIGHT + (coord.y as usize);
        level.tiles[i]
    } else {
        LevelTile::Empty
    }
}

/// The tile that a map code stands for: 0 empty, 1 red, 2 green, 3 blue,
/// 4 bluestone texture, 5 red brick texture, 6 eagle texture.
pub open spec fn code_tile(code: u8) -> LevelTile {
    if code == 1 {
        LevelTile::SolidTile(SolidTile::Color(255, 0, 0))
    } else if code == 2 {
        LevelTile::SolidTile(SolidTile::Color(0, 255, 0))
    } else if code == 3 {
        LevelTile::SolidTile(SolidTile::Color(0, 0, 255))
    } else if code == 4 {
        LevelTile::SolidTile(SolidTile::Textured(0))
    } else if code == 5 {
        LevelTile::SolidTile(SolidTile::Textured(1))
    } else if code == 6 {
        LevelTile::SolidTile(SolidTile::Textured(2))
    } else {
        LevelTile::Empty
    }
}

fn tile_of_code(code: u8) -> (t: LevelTile)
    ensures
        t == code_tile(code),
{
    if code == 1 {
        LevelTile::SolidTile(SolidTile::Color(255, 0, 0))
    } else if code == 2 {
        LevelTile::SolidTile(SolidTile::Color(0, 255, 0))
    } else if code == 3 {
        LevelTile::SolidTile(SolidTile::Color(0, 0, 255))
    } else if code == 4 {
        LevelTile::SolidTile(SolidTile::Textured(0))
    } else if code == 5 {
        LevelTile::SolidTile(SolidTile::Textured(1))
    } else if code == 6 {
        LevelTile::SolidTile(SolidTile::Textured(2))
    } else {
        LevelTile::Empty
    }
}

/// The map of the standard level, one code per cell, column by column.
pub open spec fn standard_codes() -> Seq<u8> {
    seq![
        5, 5, 5, 5, 5, 5, 5, 1, 1, 1, 1, 1, 1, 1, 1, 1, 1, 1, 1, 1, 1, 1, 1, 1, 1, 1, 1, 1, 1, 1, 1, 1,
        5, 6, 0, 0, 0, 0, 0, 0, 0, 0, 0, 0, 0, 0, 0, 0, 0, 0, 0, 0, 0, 0, 0, 0, 0, 0, 0, 0, 0, 0, 0, 1,
        5, 0, 0, 0, 0, 0, 0, 0, 0, 0, 0, 0, 0, 0, 0, 0, 0, 0, 0, 0, 0, 0, 0, 0, 0, 0, 0, 0, 0, 0, 0, 1,
        5, 0, 0, 0, 0, 0, 0, 0, 0, 0, 0, 0, 3, 0, 0, 0, 0, 0, 1, 0, 0, 0, 0, 0, 3, 0, 0, 0, 0, 0, 0, 1,
        5, 0, 0, 0, 0, 0, 2, 0, 0, 0, 0, 0, 3, 0, 0, 0, 0, 0, 1, 0, 0, 0, 0, 0, 3, 0, 0, 0, 0, 0, 0, 1,
        5, 0, 0, 0, 0, 0, 2, 0, 0, 0, 0, 0, 3, 0, 0, 0, 0, 0, 1, 0, 0, 0, 0, 0, 3, 0, 0, 0, 0, 0, 0, 1,
        5, 6, 0, 0, 0, 0, 2, 0, 0, 0, 0, 0, 3, 0, 0, 0, 0, 0, 1, 0, 0, 0, 0, 0, 3, 0, 0, 0, 0, 0, 0, 1,
        5, 4, 4, 4, 4, 4, 2, 2, 0, 0, 0, 3, 3, 3, 3, 3, 1, 1, 1, 1, 1, 1, 1, 1, 3, 3, 3, 3, 3, 0, 0, 1,
        5, 4, 4, 4, 4, 4, 2, 2, 0, 0, 0, 3, 3, 3, 3, 3, 1, 1, 1, 1, 1, 1, 1, 1, 3, 3, 3, 3, 3, 0, 0, 1,
        5, 6, 0, 0, 0, 0, 0, 0, 0, 0, 0, 0, 3, 0, 0, 0, 0, 0, 0, 0, 0, 0, 0, 0, 0, 0, 0, 0, 0, 0, 0, 1,
        5, 0, 0, 0, 0, 0, 0, 0, 0, 0, 0, 0, 3, 0, 0, 0, 0, 0, 0, 0, 0, 0, 0, 0, 0, 0, 0, 0, 0, 0, 0, 1,
        5, 0, 0, 0, 0, 0, 2, 0, 0, 0, 0, 0, 3, 0, 0, 0, 0, 0, 2, 0, 0, 0, 0, 0, 2, 0, 0, 0, 0, 0, 0, 1,
        5, 0, 0, 0, 0, 0, 2, 0, 0, 0, 0, 0, 3, 0, 0, 0, 0, 0, 2, 0, 0, 0, 0, 0, 2, 0, 0, 0, 0, 0, 0, 1,
        5, 0, 0, 0, 0, 0, 2, 0, 0, 0, 0, 0, 0, 0, 0, 0, 0, 0, 2, 0, 0, 0, 0, 0, 2, 0, 0, 0, 0, 0, 0, 1,
        5, 6, 0, 0, 0, 0, 2, 0, 0, 0, 0, 0, 0, 0, 0, 0, 0, 0, 2, 0, 0, 0, 0, 0, 2, 0, 0, 0, 0, 0, 0, 1,
        5, 5, 5, 5, 5, 5, 1, 1, 1, 1, 1, 1, 1, 1, 1, 1, 1, 1, 1, 1, 1, 1, 1, 1, 1, 1, 1, 1, 1, 1, 1, 1,
    ]
}

/// The cells of the standard level.
pub open spec fn standard_tiles() -> Seq<LevelTile> {
    standard_codes().map_values(|c: u8| code_tile(c))
}

fn standard_code_table() -> (v: Vec<u8>)
    ensures
        v@ == standard_codes(),
{
    vec![
        5, 5, 5, 5, 5, 5, 5, 1, 1, 1, 1, 1, 1, 1, 1, 1, 1, 1, 1, 1, 1, 1, 1, 1, 1, 1, 1, 1, 1, 1, 1, 1,
        5, 6, 0, 0, 0, 0, 0, 0, 0, 0, 0, 0, 0, 0, 0, 0, 0, 0, 0, 0, 0, 0, 0, 0, 0, 0, 0, 0, 0, 0, 0, 1,
        5, 0, 0, 0, 0, 0, 0, 0, 0, 0, 0, 0, 0, 0, 0, 0, 0, 0, 0, 0, 0, 0, 0, 0, 0, 0, 0, 0, 0, 0, 0, 1,
        5, 0, 0, 0, 0, 0, 0, 0, 0, 0, 0, 0, 3, 0, 0, 0, 0, 0, 1, 0, 0, 0, 0, 0, 3, 0, 0, 0, 0, 0, 0, 1,
        5, 0, 0, 0, 0, 0, 2, 0, 0, 0, 0, 0, 3, 0, 0, 0, 0, 0, 1, 0, 0, 0, 0, 0, 3, 0, 0, 0, 0, 0, 0, 1,
        5, 0, 0, 0, 0, 0, 2, 0, 0, 0, 0, 0, 3, 0, 0, 0, 0, 0, 1, 0, 0, 0, 0, 0, 3, 0, 0, 0, 0, 0, 0, 1,
        5, 6, 0, 0, 0, 0, 2, 0, 0, 0, 0, 0, 3, 0, 0, 0, 0, 0, 1, 0, 0, 0, 0, 0, 3, 0, 0, 0, 0, 0, 0, 1,
        5, 4, 4, 4, 4, 4, 2, 2, 0, 0, 0, 3, 3, 3, 3, 3, 1, 1, 1, 1, 1, 1, 1, 1, 3, 3, 3, 3, 3, 0, 0, 1,
        5, 4, 4, 4, 4, 4, 2, 2, 0, 0, 0, 3, 3, 3, 3, 3, 1, 1, 1, 1, 1, 1, 1, 1, 3, 3, 3, 3, 3, 0, 0, 1,
        5, 6, 0, 0, 0, 0, 0, 0, 0, 0, 0, 0, 3, 0, 0, 0, 0, 0, 0, 0, 0, 0, 0, 0, 0, 0, 0, 0, 0, 0, 0, 1,
        5, 0, 0, 0, 0, 0, 0, 0, 0, 0, 0, 0, 3, 0, 0, 0, 0, 0, 0, 0, 0, 0, 0, 0, 0, 0, 0, 0, 0, 0, 0, 1,
        5, 0, 0, 0, 0, 0, 2, 0, 0, 0, 0, 0, 3, 0, 0, 0, 0, 0, 2, 0, 0, 0, 0, 0, 2, 0, 0, 0, 0, 0, 0, 1,
        5, 0, 0, 0, 0, 0, 2, 0, 0, 0, 0, 0, 3, 0, 0, 0, 0, 0, 2, 0, 0, 0, 0, 0, 2, 0, 0, 0, 0, 0, 0, 1,
        5, 0, 0, 0, 0, 0, 2, 0, 0, 0, 0, 0, 0, 0, 0, 0, 0, 0, 2, 0, 0, 0, 0, 0, 2, 0, 0, 0, 0, 0, 0, 1,
        5, 6, 0, 0, 0, 0, 2, 0, 0, 0, 0, 0, 0, 0, 0, 0, 0, 0, 2, 0, 0, 0, 0, 0, 2, 0, 0, 0, 0, 0, 0, 1,
        5, 5, 5, 5, 5, 5, 1, 1, 1, 1, 1, 1, 1, 1, 1, 1, 1, 1, 1, 1, 1, 1, 1, 1, 1, 1, 1, 1, 1, 1, 1, 1,
    ]
}

/// The standard level drawn by its walls, cell by cell. Along the border:
/// red brick on the west column (x = 0) up to y = 6 and red beyond, red
/// brick on the east column (x = 15) up to y = 5 and red beyond, red brick
/// along y = 0 and red along y = 31. Eagles at y = 1 for x = 1, 6, 9, 14.
/// A thick wall on x = 7 and 8: bluestone for y = 1..=5, green for y = 6
/// and 7, blue for y = 11..=15, red for y = 16..=23, blue for y =
/// 24..=28. Blue at y = 12 for x = 3..=6 and 9..=12; red at y = 18 and blue
/// at y = 24 for x = 3..=6; green at y = 6 for x = 4..=6 and 11..=14; green
/// at y = 18 and y = 24 for x = 11..=14. Every other cell is empty.
pub open spec fn standard_layout(x: int, y: int) -> LevelTile {
    let red = LevelTile::SolidTile(SolidTile::Color(255, 0, 0));
    let green = LevelTile::SolidTile(SolidTile::Color(0, 255, 0));
    let blue = LevelTile::SolidTile(SolidTile::Color(0, 0, 255));
    let bluestone = LevelTile::SolidTile(SolidTile::Textured(0));
    let redbrick = LevelTile::SolidTile(SolidTile::Textured(1));
    let eagle = LevelTile::SolidTile(SolidTile::Textured(2));
    if x == 0 {
        if y < 7 {
            redbrick
        } else {
            red
        }
    } else if x == 15 {
        if y < 6 {
            redbrick
        } else {
            red
        }
    } else if y == 0 {
        redbrick
    } else if y == 31 {
        red
    } else if y == 1 && (x == 1 || x == 6 || x == 9 || x == 14) {
        eagle
    } else if x == 7 || x == 8 {
        if 1 <= y <= 5 {
            bluestone
        } else if y == 6 || y == 7 {
            green
        } else if 11 <= y <= 15 || 24 <= y <= 28 {
            blue
        } else if 16 <= y <= 23 {
            red
        } else {
            LevelTile::Empty
        }
    } else if y == 12 && (3 <= x <= 6 || 9 <= x <= 12) {
        blue
    } else if 3 <= x <= 6 && y == 18 {
        red
    } else if 3 <= x <= 6 && y == 24 {
        blue
    } else if y == 6 && (4 <= x <= 6 || 11 <= x <= 14) {
        green
    } else if 11 <= x <= 14 && (y == 18 || y == 24) {
        green
    } else {
        LevelTile::Empty
    }
}

/// Whether the `n` cells from `(x, y)` along y of the level coded by
/// `codes` are those of `standard_layout`.
pub open spec fn row_matches_layout(codes: Seq<u8>, x: int, y: int, n: nat) -> bool
    decreases n,
{
    if n == 0 {
        true
    } else {
        code_tile(codes[x * LEVEL_HEIGHT + y]) == standard_layout(x, y) && row_matches_layout(
            codes,
            x,
            y + 1,
            (n - 1) as nat,
        )
    }
}

/// Whether the `m` whole columns from `x` on of the level coded by `codes`
/// are those of `standard_layout`.
pub open spec fn rows_match_layout(codes: Seq<u8>, x: int, m: nat) -> bool
    decreases m,
{
    if m == 0 {
        true
    } else {
        row_matches_layout(codes, x, 0, LEVEL_HEIGHT as nat) && rows_match_layout(
            codes,
            x + 1,
            (m - 1) as nat,
        )
    }
}

proof fn lemma_row_matches_layout(codes: Seq<u8>, x: int, y: int, n: nat)
    requires
        row_matches_layout(codes, x, y, n),
    ensures
        forall|k: int|
            y <= k < y + n ==> code_tile(#[trigger] codes[x * LEVEL_HEIGHT + k]) == standard_layout(x, k),
    decreases n,
{
    if n > 0 {
        lemma_row_matches_layout(codes, x, y + 1, (n - 1) as nat);
    }
}

proof fn lemma_rows_match_layout(codes: Seq<u8>, x: int, m: nat)
    requires
        rows_match_layout(codes, x, m),
    ensures
        forall|k: int| x <= k < x + m ==> #[trigger] row_matches_layout(codes, k, 0, LEVEL_HEIGHT as nat),
    decreases m,
{
    if m > 0 {
        lemma_rows_match_layout(codes, x + 1, (m - 1) as nat);
    }
}

/// Every cell of the standard level is the one `standard_layout` draws.
pub proof fn lemma_standard_level_layout()
    ensures
        forall|x: int, y: int|
            in_level(x, y) ==> #[trigger] tile_at(standard_tiles(), x, y) == standard_layout(x, y),
{
    let codes = standard_codes();
    assert(codes.len() == LEVEL_WIDTH * LEVEL_HEIGHT);
    assert(row_matches_layout(codes, 0, 0, LEVEL_HEIGHT as nat)) by {
        reveal_with_fuel(row_matches_layout, 33);
    }
    assert(row_matches_layout(codes, 1, 0, LEVEL_HEIGHT as nat)) by {
        reveal_with_fuel(row_matches_layout, 33);
    }
    assert(row_matches_layout(codes, 2, 0, LEVEL_HEIGHT as nat)) by {
        reveal_with_fuel(row_matches_layout, 33);
    }
    assert(row_matches_layout(codes, 3, 0, LEVEL_HEIGHT as nat)) by {
        reveal_with_fuel(row_matches_layout, 33);
    }
    assert(row_matches_layout(codes, 4, 0, LEVEL_HEIGHT as nat)) by {
        reveal_with_fuel(row_matches_layout, 33);
    }
    assert(row_matches_layout(codes, 5, 0, LEVEL_HEIGHT as nat)) by {
        reveal_with_fuel(row_matches_layout, 33);
    }
    assert(row_matches_layout(codes, 6, 0, LEVEL_HEIGHT as nat)) by {
        reveal_with_fuel(row_matches_layout, 33);
    }
    assert(row_matches_layout(codes, 7, 0, LEVEL_HEIGHT as nat)) by {
        reveal_with_fuel(row_matches_layout, 33);
    }
    assert(row_matches_layout(codes, 8, 0, LEVEL_HEIGHT as nat)) by {
        reveal_with_fuel(row_matches_layout, 33);
    }
    assert(row_matches_layout(codes, 9, 0, LEVEL_HEIGHT as nat)) by {
        reveal_with_fuel(row_matches_layout, 33);
    }
    assert(row_matches_layout(codes, 10, 0, LEVEL_HEIGHT as nat)) by {
        reveal_with_fuel(row_matches_layout, 33);
    }
    assert(row_matches_layout(codes, 11, 0, LEVEL_HEIGHT as nat)) by {
        reveal_with_fuel(row_matches_layout, 33);
    }
    assert(row_matches_layout(codes, 12, 0, LEVEL_HEIGHT as nat)) by {
        reveal_with_fuel(row_matches_layout, 33);
    }
    assert(row_matches_layout(codes, 13, 0, LEVEL_HEIGHT as nat)) by {
        reveal_with_fuel(row_matches_layout, 33);
    }
    assert(row_matches_layout(codes, 14, 0, LEVEL_HEIGHT as nat)) by {
        reveal_with_fuel(row_matches_layout, 33);
    }
    assert(row_matches_layout(codes, 15, 0, LEVEL_HEIGHT as nat)) by {
        reveal_with_fuel(row_matches_layout, 33);
    }
    assert(rows_match_layout(codes, 0, LEVEL_WIDTH as nat)) by {
        reveal_with_fuel(rows_match_layout, 17);
    }
    lemma_rows_match_layout(codes, 0, LEVEL_WIDTH as nat);
    assert forall|x: int, y: int| in_level(x, y) implies #[trigger] tile_at(standard_tiles(), x, y)
        == standard_layout(x, y) by {
        assert(row_matches_layout(codes, x, 0, LEVEL_HEIGHT as nat));
        lemma_row_matches_layout(codes, x, 0, LEVEL_HEIGHT as nat);
        assert(code_tile(codes[x * LEVEL_HEIGHT + y]) == standard_layout(x, y));
    }
}

/// The level that the game is played in.
pub fn standard_level() -> (level: Level)
    ensures
        level@ == standard_tiles(),
        forall|x: int, y: int|
            in_level(x, y) ==> #[trigger] tile_at(level@, x, y) == standard_layout(x, y),
{
    proof {
        lemma_standard_level_layout();
    }
    let codes = standard_code_table();
    let mut tiles: Vec<LevelTile> = Vec::new();
    let n = codes.len();
    for i in 0..n
        invariant
            n == codes.len(),
            codes@ == standard_codes(),
            tiles@ == codes@.take(i as int).map_values(|c: u8| code_tile(c)),
    {
        let t = tile_of_code(codes[i]);
        tiles.push(t);
        assert(codes@.take(i + 1) == codes@.take(i as int).push(codes@[i as int]));
    }
    assert(codes@.take(n as int) == codes@);
    Level { tiles }
}

} // verus!
