use vstd::prelude::*;

use crate::level::{
    code_tile, get_tile, in_level, standard_codes, standard_tiles, is_solid, tile_at, Coord, Level, LevelTile, SolidTile, LEVEL_HEIGHT,
    LEVEL_WIDTH,
};

verus! {

/// How many grid steps a ray may take before it is given up.
pub const RAY_STEP_BUDGET: usize = LEVEL_HEIGHT + LEVEL_WIDTH;

/// The axis along which a ray crosses into its next cell.
#[derive(Clone, Copy, Debug, PartialEq, Eq, Structural)]
pub enum Axis {
    /// The ray crossed a vertical grid line (moved along x).
    X,
    /// The ray crossed a horizontal grid line (moved along y).
    Y,
}

/// `+1` for a ray going towards growing coordinates, `-1` otherwise.
pub open spec fn step_of(positive: bool) -> int {
    if positive {
        1
    } else {
        -1
    }
}

/// The cell reached from `start` after crossing, in order, the grid lines
/// along `axes`, stepping by `sx` on x and `sy` on y.
pub open spec fn walk_position(start: (int, int), sx: int, sy: int, axes: Seq<Axis>) -> (int, int)
    decreases axes.len(),
{
    if axes.len() == 0 {
        start
    } else {
        let p = walk_position(start, sx, sy, axes.drop_last());
        match axes.last() {
            Axis::X => (p.0 + sx, p.1),
            Axis::Y => (p.0, p.1 + sy),
        }
    }
}

/// The ghost state of a ray walk: where it started, in which direction it
/// goes, and the grid lines it has crossed so far.
pub struct WalkState {
    pub start: (int, int),
    pub x_positive: bool,
    pub y_positive: bool,
    pub axes: Seq<Axis>,
}

impl WalkState {
    /// The cell the walk stands in.
    pub open spec fn position(self) -> (int, int) {
        walk_position(self.start, step_of(self.x_positive), step_of(self.y_positive), self.axes)
    }

    /// How many more steps the walk may take.
    pub open spec fn steps_left(self) -> int {
        RAY_STEP_BUDGET - self.axes.len()
    }

    /// The cell the walk reaches by one more step along `axis`.
    pub open spec fn next_position(self, axis: Axis) -> (int, int) {
        let p = self.position();
        match axis {
            Axis::X => (p.0 + step_of(self.x_positive), p.1),
            Axis::Y => (p.0, p.1 + step_of(self.y_positive)),
        }
    }
}

/// The walk of one ray through the grid, one cell at a time, as the
/// digital differential analyser does it: which axis is crossed next is
/// decided by the caller, this type keeps the cell and the step budget.
pub struct RayWalk {
    start: Coord,
    x_positive: bool,
    y_positive: bool,
    coord: Coord,
    steps_left: usize,
    axes: Ghost<Seq<Axis>>,
}

impl View for RayWalk {
    type V = WalkState;

    closed spec fn view(&self) -> WalkState {
        WalkState {
            start: (self.start.x as int, self.start.y as int),
            x_positive: self.x_positive,
            y_positive: self.y_positive,
            axes: self.axes@,
        }
    }
}

/// The wall, if any, that a tile is.
pub open spec fn wall_of(t: LevelTile) -> Option<SolidTile> {
    match t {
        LevelTile::SolidTile(s) => Some(s),
        LevelTile::Empty => None,
    }
}

impl RayWalk {
    #[verifier::type_invariant]
    spec fn inv(self) -> bool {
        &&& self.axes@.len() <= RAY_STEP_BUDGET
        &&& self.steps_left == RAY_STEP_BUDGET - self.axes@.len()
        &&& (self.coord.x as int, self.coord.y as int) == self@.position()
    }

    /// Starts a ray in cell `start`, heading towards growing x when
    /// `x_positive` and towards growing y when `y_positive`.
    pub fn new(start: Coord, x_positive: bool, y_positive: bool) -> (w: RayWalk)
        ensures
            w@.start == (start.x as int, start.y as int),
            w@.x_positive == x_positive,
            w@.y_positive == y_positive,
            w@.axes == Seq::<Axis>::empty(),
    {
        RayWalk {
            start,
            x_positive,
            y_positive,
            coord: start,
            steps_left: RAY_STEP_BUDGET,
            axes: Ghost(Seq::empty()),
        }
    }

    /// How many more steps the walk may take.
    pub fn steps_left(&self) -> (n: usize)
        ensures
            n == self@.steps_left(),
    {
        proof {
            use_type_invariant(self);
        }
        self.steps_left
    }

    /// The cell the walk stands in.
    pub fn coord(&self) -> (c: Coord)
        ensures
            (c.x as int, c.y as int) == self@.position(),
    {
        proof {
            use_type_invariant(self);
        }
        self.coord
    }

    /// Crosses one grid line along `axis` and looks at the cell reached:
    /// returns the wall there, or `None` where the cell is empty.
    pub fn advance(&mut self, level: &Level, axis: Axis) -> (hit: Option<SolidTile>)
        requires
            old(self)@.steps_left() > 0,
            i32::MIN <= old(self)@.next_position(axis).0 <= i32::MAX,
            i32::MIN <= old(self)@.next_position(axis).1 <= i32::MAX,
        ensures
            final(self)@ == (WalkState { axes: old(self)@.axes.push(axis), ..old(self)@ }),
            final(self)@.position() == old(self)@.next_position(axis),
            hit == wall_of(
                tile_at(level@, final(self)@.position().0, final(self)@.position().1),
            ),
    {
        proof {
            use_type_invariant(&*self);
        }
        let ghost old_axes = self.axes@;
        let mut c = self.coord;
        match axis {
            Axis::X => {
                if self.x_positive {
                    c.x = c.x + 1;
                } else {
                    c.x = c.x - 1;
                }
            },
            Axis::Y => {
                if self.y_positive {
                    c.y = c.y + 1;
                } else {
                    c.y = c.y - 1;
                }
            },
        }
        proof {
            assert(old_axes.push(axis).drop_last() == old_axes);
        }
        *self = RayWalk {
            start: self.start,
            x_positive: self.x_positive,
            y_positive: self.y_positive,
            coord: c,
            steps_left: self.steps_left - 1,
            axes: Ghost(old_axes.push(axis)),
        };
        match get_tile(level, self.coord) {
            LevelTile::SolidTile(s) => Some(s),
            LevelTile::Empty => None,
        }
    }
}

/// Whether every border cell of a level is a wall.
pub open spec fn enclosed(tiles: Seq<LevelTile>) -> bool {
    forall|x: int, y: int|
        #![trigger tile_at(tiles, x, y)]
        in_level(x, y) && (x == 0 || x == LEVEL_WIDTH - 1 || y == 0 || y == LEVEL_HEIGHT - 1)
            ==> is_solid(tile_at(tiles, x, y))
}

/// Whether a cell lies inside a level and off its border.
pub open spec fn interior(p: (int, int)) -> bool {
    1 <= p.0 < LEVEL_WIDTH - 1 && 1 <= p.1 < LEVEL_HEIGHT - 1
}

/// How many of `axes` are `a`.
pub open spec fn count_axis(axes: Seq<Axis>, a: Axis) -> int
    decreases axes.len(),
{
    if axes.len() == 0 {
        0
    } else {
        count_axis(axes.drop_last(), a) + if axes.last() == a {
            1int
        } else {
            0int
        }
    }
}

proof fn lemma_walk_position_counts(start: (int, int), sx: int, sy: int, axes: Seq<Axis>)
    ensures
        walk_position(start, sx, sy, axes) == (
            start.0 + sx * count_axis(axes, Axis::X),
            start.1 + sy * count_axis(axes, Axis::Y),
        ),
        count_axis(axes, Axis::X) + count_axis(axes, Axis::Y) == axes.len(),
        count_axis(axes, Axis::X) >= 0,
        count_axis(axes, Axis::Y) >= 0,
    decreases axes.len(),
{
    if axes.len() > 0 {
        lemma_walk_position_counts(start, sx, sy, axes.drop_last());
        let cx = count_axis(axes.drop_last(), Axis::X);
        let cy = count_axis(axes.drop_last(), Axis::Y);
        assert(sx * (cx + 1) == sx * cx + sx) by (nonlinear_arith);
        assert(sy * (cy + 1) == sy * cy + sy) by (nonlinear_arith);
    }
}

/// While no cell it has entered is a wall, a walk that starts off the
/// border of an enclosed level stays off the border.
proof fn lemma_unblocked_walk_stays_interior(
    tiles: Seq<LevelTile>,
    start: (int, int),
    sx: int,
    sy: int,
    axes: Seq<Axis>,
)
    requires
        enclosed(tiles),
        interior(start),
        sx == 1 || sx == -1,
        sy == 1 || sy == -1,
        forall|k: int|
            1 <= k <= axes.len() ==> !is_solid(
                #[trigger] tile_at(
                    tiles,
                    walk_position(start, sx, sy, axes.take(k)).0,
                    walk_position(start, sx, sy, axes.take(k)).1,
                ),
            ),
    ensures
        interior(walk_position(start, sx, sy, axes)),
    decreases axes.len(),
{
    if axes.len() > 0 {
        let prev = axes.drop_last();
        assert forall|k: int| 1 <= k <= prev.len() implies !is_solid(
            #[trigger] tile_at(
                tiles,
                walk_position(start, sx, sy, prev.take(k)).0,
                walk_position(start, sx, sy, prev.take(k)).1,
            ),
        ) by {
            assert(prev.take(k) == axes.take(k));
        }
        lemma_unblocked_walk_stays_interior(tiles, start, sx, sy, prev);
        assert(axes.take(axes.len() as int) == axes);
        let p = walk_position(start, sx, sy, axes);
        assert(!is_solid(tile_at(tiles, p.0, p.1)));
        assert(in_level(p.0, p.1));
    }
}

/// In a level whose border is all walls, a ray that starts in a cell off
/// the border meets a wall within `RAY_STEP_BUDGET` steps, whatever axes
/// it crosses in whatever order and whichever way it heads.
pub proof fn lemma_enclosed_ray_hits_wall(
    tiles: Seq<LevelTile>,
    start: (int, int),
    x_positive: bool,
    y_positive: bool,
    axes: Seq<Axis>,
)
    requires
        enclosed(tiles),
        interior(start),
        axes.len() == RAY_STEP_BUDGET,
    ensures
        exists|k: int|
            1 <= k <= axes.len() && is_solid(
                #[trigger] tile_at(
                    tiles,
                    walk_position(start, step_of(x_positive), step_of(y_positive), axes.take(k)).0,
                    walk_position(start, step_of(x_positive), step_of(y_positive), axes.take(k)).1,
                ),
            ),
{
    let sx = step_of(x_positive);
    let sy = step_of(y_positive);
    if !exists|k: int|
        1 <= k <= axes.len() && is_solid(
            #[trigger] tile_at(
                tiles,
                walk_position(start, sx, sy, axes.take(k)).0,
                walk_position(start, sx, sy, axes.take(k)).1,
            ),
        ) {
        lemma_unblocked_walk_stays_interior(tiles, start, sx, sy, axes);
        lemma_walk_position_counts(start, sx, sy, axes);
        let cx = count_axis(axes, Axis::X);
        let cy = count_axis(axes, Axis::Y);
        assert(cx <= LEVEL_WIDTH - 3);
        assert(cy <= LEVEL_HEIGHT - 3);
    }
}

/// Whether the walk from `start` along `axes` enters a wall at its `k`-th
/// step.
pub open spec fn hits_at(
    tiles: Seq<LevelTile>,
    start: (int, int),
    sx: int,
    sy: int,
    axes: Seq<Axis>,
    k: int,
) -> bool {
    is_solid(
        tile_at(
            tiles,
            walk_position(start, sx, sy, axes.take(k)).0,
            walk_position(start, sx, sy, axes.take(k)).1,
        ),
    )
}

/// How many steps a walk along `axes` takes when it has already taken `k`
/// of them without meeting a wall: up to and including the first step
/// into a wall, or all of them.
pub open spec fn walk_stop(
    tiles: Seq<LevelTile>,
    start: (int, int),
    sx: int,
    sy: int,
    axes: Seq<Axis>,
    k: int,
) -> int
    decreases axes.len() - k,
{
    if k >= axes.len() {
        axes.len() as int
    } else if hits_at(tiles, start, sx, sy, axes, k + 1) {
        k + 1
    } else {
        walk_stop(tiles, start, sx, sy, axes, k + 1)
    }
}

/// What casting a ray from `start` along `axes` gives: the axis crossed
/// into the first wall and that wall, or `None` when no step enters a wall;
/// and the cell where the walk ended.
pub open spec fn ray_cast_result(
    tiles: Seq<LevelTile>,
    start: (int, int),
    x_positive: bool,
    y_positive: bool,
    axes: Seq<Axis>,
) -> (Option<(Axis, SolidTile)>, (int, int)) {
    let sx = step_of(x_positive);
    let sy = step_of(y_positive);
    let stop = walk_stop(tiles, start, sx, sy, axes, 0);
    let p = walk_position(start, sx, sy, axes.take(stop));
    let hit = if stop >= 1 && hits_at(tiles, start, sx, sy, axes, stop) {
        Some((axes[stop - 1], wall_of(tile_at(tiles, p.0, p.1)).unwrap()))
    } else {
        None
    };
    (hit, p)
}

/// How `walk_stop` ends a walk that has taken `k` steps without a wall: at
/// the first later step into a wall, or after all the axes when none of
/// the later steps enters a wall.
proof fn lemma_walk_stop(
    tiles: Seq<LevelTile>,
    start: (int, int),
    sx: int,
    sy: int,
    axes: Seq<Axis>,
    k: int,
)
    requires
        0 <= k <= axes.len(),
    ensures
        k <= walk_stop(tiles, start, sx, sy, axes, k) <= axes.len(),
        forall|j: int|
            k < j < walk_stop(tiles, start, sx, sy, axes, k) ==> !#[trigger] hits_at(
                tiles,
                start,
                sx,
                sy,
                axes,
                j,
            ),
        (walk_stop(tiles, start, sx, sy, axes, k) > k && hits_at(
            tiles,
            start,
            sx,
            sy,
            axes,
            walk_stop(tiles, start, sx, sy, axes, k),
        )) || (walk_stop(tiles, start, sx, sy, axes, k) == axes.len() && forall|j: int|
            k < j <= axes.len() ==> !#[trigger] hits_at(tiles, start, sx, sy, axes, j)),
    decreases axes.len() - k,
{
    if k < axes.len() && !hits_at(tiles, start, sx, sy, axes, k + 1) {
        lemma_walk_stop(tiles, start, sx, sy, axes, k + 1);
    }
}

/// The cell a walk from `start` along `axes` stands in after its first `k`
/// steps.
pub open spec fn cell_after(
    start: (int, int),
    x_positive: bool,
    y_positive: bool,
    axes: Seq<Axis>,
    k: int,
) -> (int, int) {
    walk_position(start, step_of(x_positive), step_of(y_positive), axes.take(k))
}

/// Whether `(hit, cell)` is what a ray from `start` along `axes` should
/// report. A hit `(a, w)`: `cell` is the cell after some step `k` of the
/// walk, it holds the wall `w`, no cell entered before it is a wall, and it
/// lies one cell along axis `a` (in the ray's direction) from the cell
/// before it, so `a` is the axis crossed into the wall. No hit: no cell the
/// walk enters is a wall, and `cell` is where all the axes lead.
pub open spec fn reports_first_wall(
    tiles: Seq<LevelTile>,
    start: (int, int),
    x_positive: bool,
    y_positive: bool,
    axes: Seq<Axis>,
    hit: Option<(Axis, SolidTile)>,
    cell: (int, int),
) -> bool {
    let r = (hit, cell);
    match r.0 {
        Some((a, w)) => exists|k: int|
            1 <= k <= axes.len() && r.1 == #[trigger] cell_after(
                start,
                x_positive,
                y_positive,
                axes,
                k,
            ) && tile_at(tiles, r.1.0, r.1.1) == LevelTile::SolidTile(w) && (forall|j: int|
                1 <= j < k ==> !is_solid(
                    #[trigger] tile_at(
                        tiles,
                        cell_after(start, x_positive, y_positive, axes, j).0,
                        cell_after(start, x_positive, y_positive, axes, j).1,
                    ),
                )) && (a == Axis::X ==> r.1 == (
                cell_after(start, x_positive, y_positive, axes, k - 1).0 + step_of(
                    x_positive,
                ),
                cell_after(start, x_positive, y_positive, axes, k - 1).1,
            )) && (a == Axis::Y ==> r.1 == (
                cell_after(start, x_positive, y_positive, axes, k - 1).0,
                cell_after(start, x_positive, y_positive, axes, k - 1).1 + step_of(
                    y_positive,
                ),
            )),
        None => r.1 == cell_after(start, x_positive, y_positive, axes, axes.len() as int)
            && forall|j: int|
            1 <= j <= axes.len() ==> !is_solid(
                #[trigger] tile_at(
                    tiles,
                    cell_after(start, x_positive, y_positive, axes, j).0,
                    cell_after(start, x_positive, y_positive, axes, j).1,
                ),
            ),
    }
}

/// Casting a ray reports the first wall the walk enters, the axis it was
/// entered along and its cell; or no wall, and the cell all the axes lead
/// to.
pub proof fn lemma_cast_ray_first_wall(
    tiles: Seq<LevelTile>,
    start: (int, int),
    x_positive: bool,
    y_positive: bool,
    axes: Seq<Axis>,
)
    ensures
        ({
            let r = ray_cast_result(tiles, start, x_positive, y_positive, axes);
            reports_first_wall(tiles, start, x_positive, y_positive, axes, r.0, r.1)
        }),
{
    let sx = step_of(x_positive);
    let sy = step_of(y_positive);
    lemma_walk_stop(tiles, start, sx, sy, axes, 0);
    let stop = walk_stop(tiles, start, sx, sy, axes, 0);
    let r = ray_cast_result(tiles, start, x_positive, y_positive, axes);
    if stop >= 1 && hits_at(tiles, start, sx, sy, axes, stop) {
        let k = stop;
        let t = axes.take(k);
        assert(t.drop_last() == axes.take(k - 1));
        assert(t.last() == axes[k - 1]);
        assert forall|j: int| 1 <= j < k implies !is_solid(
            #[trigger] tile_at(
                tiles,
                cell_after(start, x_positive, y_positive, axes, j).0,
                cell_after(start, x_positive, y_positive, axes, j).1,
            ),
        ) by {
            assert(!hits_at(tiles, start, sx, sy, axes, j));
        }
        assert(cell_after(start, x_positive, y_positive, axes, k) == r.1);
    } else {
        assert forall|j: int| 1 <= j <= axes.len() implies !is_solid(
            #[trigger] tile_at(
                tiles,
                cell_after(start, x_positive, y_positive, axes, j).0,
                cell_after(start, x_positive, y_positive, axes, j).1,
            ),
        ) by {
            assert(!hits_at(tiles, start, sx, sy, axes, j));
        }
    }
}

/// Whether `v` fits in an `i32`.
pub open spec fn fits_i32(v: int) -> bool {
    i32::MIN <= v <= i32::MAX
}

/// Whether every cell a walk from `start` along `axes` passes through has
/// coordinates that fit in an `i32`. A walk moves one way on each axis, so
/// this holds exactly when its last cell fits.
pub open spec fn walk_fits(start: (int, int), sx: int, sy: int, axes: Seq<Axis>) -> bool {
    &&& fits_i32(start.0 + sx * count_axis(axes, Axis::X))
    &&& fits_i32(start.1 + sy * count_axis(axes, Axis::Y))
}

proof fn lemma_count_prefix(axes: Seq<Axis>, k: int, a: Axis)
    requires
        0 <= k <= axes.len(),
    ensures
        0 <= count_axis(axes.take(k), a) <= count_axis(axes, a),
    decreases axes.len(),
{
    lemma_walk_position_counts((0, 0), 1, 1, axes.take(k));
    if k < axes.len() {
        assert(axes.drop_last().take(k) == axes.take(k));
        lemma_count_prefix(axes.drop_last(), k, a);
    } else {
        assert(axes.take(k) == axes);
    }
}

proof fn lemma_prefix_fits(start: (int, int), sx: int, sy: int, axes: Seq<Axis>, k: int)
    requires
        fits_i32(start.0),
        fits_i32(start.1),
        sx == 1 || sx == -1,
        sy == 1 || sy == -1,
        walk_fits(start, sx, sy, axes),
        0 <= k <= axes.len(),
    ensures
        fits_i32(walk_position(start, sx, sy, axes.take(k)).0),
        fits_i32(walk_position(start, sx, sy, axes.take(k)).1),
{
    lemma_walk_position_counts(start, sx, sy, axes.take(k));
    lemma_walk_position_counts(start, sx, sy, axes);
    lemma_count_prefix(axes, k, Axis::X);
    lemma_count_prefix(axes, k, Axis::Y);
}

/// Whether a ray from `start` heading as `x_positive` and `y_positive` say
/// can walk along `axes` without a cell coordinate leaving the `i32` range.
pub fn ray_fits(start: Coord, x_positive: bool, y_positive: bool, axes: &Vec<Axis>) -> (b: bool)
    ensures
        b == walk_fits(
            (start.x as int, start.y as int),
            step_of(x_positive),
            step_of(y_positive),
            axes@,
        ),
{
    let mut cx: usize = 0;
    let mut cy: usize = 0;
    let mut i: usize = 0;
    while i < axes.len()
        invariant
            i <= axes.len(),
            cx == count_axis(axes@.take(i as int), Axis::X),
            cy == count_axis(axes@.take(i as int), Axis::Y),
            cx + cy == i,
        decreases axes.len() - i,
    {
        proof {
            assert(axes@.take(i + 1).drop_last() == axes@.take(i as int));
            lemma_walk_position_counts((0, 0), 1, 1, axes@.take(i as int));
        }
        match axes[i] {
            Axis::X => {
                cx = cx + 1;
            },
            Axis::Y => {
                cy = cy + 1;
            },
        }
        i = i + 1;
    }
    assert(axes@.take(axes.len() as int) == axes@);
    let x: i128 = if x_positive {
        start.x as i128 + cx as i128
    } else {
        start.x as i128 - cx as i128
    };
    let y: i128 = if y_positive {
        start.y as i128 + cy as i128
    } else {
        start.y as i128 - cy as i128
    };
    i32::MIN as i128 <= x && x <= i32::MAX as i128 && i32::MIN as i128 <= y && y
        <= i32::MAX as i128
}

/// Casts a ray from cell `start`, heading towards growing x when
/// `x_positive` and towards growing y when `y_positive`, across the grid
/// lines along `axes` in turn, as the digital differential analyser orders
/// them. Returns the axis crossed into the first wall and that wall, or
/// `None` where no step enters a wall, together with the cell where the
/// walk stopped. In a level walled in on all sides, a ray from any cell
/// off the border given the full step budget always meets a wall.
pub fn cast_ray(
    level: &Level,
    start: Coord,
    x_positive: bool,
    y_positive: bool,
    axes: &Vec<Axis>,
) -> (r: (Option<(Axis, SolidTile)>, Coord))
    requires
        axes.len() <= RAY_STEP_BUDGET,
        walk_fits((start.x as int, start.y as int), step_of(x_positive), step_of(y_positive), axes@),
    ensures
        (r.0, (r.1.x as int, r.1.y as int)) == ray_cast_result(
            level@,
            (start.x as int, start.y as int),
            x_positive,
            y_positive,
            axes@,
        ),
        enclosed(level@) && interior((start.x as int, start.y as int)) && axes.len()
            == RAY_STEP_BUDGET ==> r.0 is Some,
        reports_first_wall(
            level@,
            (start.x as int, start.y as int),
            x_positive,
            y_positive,
            axes@,
            r.0,
            (r.1.x as int, r.1.y as int),
        ),
{
    proof {
        lemma_cast_ray_first_wall(
            level@,
            (start.x as int, start.y as int),
            x_positive,
            y_positive,
            axes@,
        );
    }
    let ghost s = (start.x as int, start.y as int);
    let ghost sx = step_of(x_positive);
    let ghost sy = step_of(y_positive);
    let mut walk = RayWalk::new(start, x_positive, y_positive);
    let mut i: usize = 0;
    proof {
        assert(axes@.take(0) == Seq::<Axis>::empty());
    }
    while i < axes.len()
        invariant
            i <= axes.len() <= RAY_STEP_BUDGET,
            walk@.start == s,
            walk@.x_positive == x_positive,
            walk@.y_positive == y_positive,
            walk@.axes == axes@.take(i as int),
            walk_fits(s, sx, sy, axes@),
            s == (start.x as int, start.y as int),
            sx == step_of(x_positive),
            sy == step_of(y_positive),
            forall|k: int| 1 <= k <= i ==> !#[trigger] hits_at(level@, s, sx, sy, axes@, k),
            walk_stop(level@, s, sx, sy, axes@, 0) == walk_stop(level@, s, sx, sy, axes@, i as int),
        decreases axes.len() - i,
    {
        let axis = axes[i];
        proof {
            assert(axes@.take(i + 1).drop_last() == axes@.take(i as int));
            assert(axes@.take(i + 1).last() == axis);
            lemma_prefix_fits(s, sx, sy, axes@, i + 1);
            assert(walk@.next_position(axis) == walk_position(s, sx, sy, axes@.take(i + 1)));
        }
        let hit = walk.advance(level, axis);
        proof {
            assert(walk@.axes == axes@.take(i + 1));
        }
        if let Some(t) = hit {
            assert(hits_at(level@, s, sx, sy, axes@, i + 1));
            assert(walk_stop(level@, s, sx, sy, axes@, i as int) == i + 1);
            let c = walk.coord();
            assert((Some((axis, t)), (c.x as int, c.y as int)) == ray_cast_result(
                level@,
                s,
                x_positive,
                y_positive,
                axes@,
            ));
            proof {
                lemma_cast_ray_first_wall(level@, s, x_positive, y_positive, axes@);
            }
            return (Some((axis, t)), c);
        }
        i = i + 1;
    }
    proof {
        assert(walk_stop(level@, s, sx, sy, axes@, i as int) == axes.len());
        assert(axes@.take(axes.len() as int) == axes@);
        if enclosed(level@) && interior(s) && axes.len() == RAY_STEP_BUDGET {
            lemma_enclosed_ray_hits_wall(level@, s, x_positive, y_positive, axes@);
            let k = choose|k: int|
                1 <= k <= axes@.len() && is_solid(
                    #[trigger] tile_at(
                        level@,
                        walk_position(s, sx, sy, axes@.take(k)).0,
                        walk_position(s, sx, sy, axes@.take(k)).1,
                    ),
                );
            assert(hits_at(level@, s, sx, sy, axes@, k));
            assert(false);
        }
    }
    let c = walk.coord();
    (None, c)
}

/// Whether the `n` codes `codes[first]`, `codes[first + stride]`, ... all
/// stand for walls.
pub open spec fn codes_are_walls(codes: Seq<u8>, first: int, stride: int, n: nat) -> bool
    decreases n,
{
    if n == 0 {
        true
    } else {
        is_solid(code_tile(codes[first])) && codes_are_walls(codes, first + stride, stride, (n - 1) as nat)
    }
}

proof fn lemma_codes_are_walls(codes: Seq<u8>, first: int, stride: int, n: nat)
    requires
        codes_are_walls(codes, first, stride, n),
    ensures
        forall|k: int| 0 <= k < n ==> is_solid(code_tile(#[trigger] codes[first + stride * k])),
    decreases n,
{
    if n > 0 {
        lemma_codes_are_walls(codes, first + stride, stride, (n - 1) as nat);
        assert forall|k: int| 0 <= k < n implies is_solid(
            code_tile(#[trigger] codes[first + stride * k]),
        ) by {
            if k > 0 {
                assert(first + stride * k == (first + stride) + stride * (k - 1)) by (nonlinear_arith);
            } else {
                assert(stride * k == 0) by (nonlinear_arith)
                    requires
                        k == 0,
                ;
            }
        }
    }
}

/// The standard level is walled in: every one of its border cells is a wall.
pub proof fn lemma_standard_level_enclosed()
    ensures
        enclosed(standard_tiles()),
{
    let tiles = standard_tiles();
    let codes = standard_codes();
    let w = LEVEL_WIDTH as int;
    let h = LEVEL_HEIGHT as int;
    assert(codes.len() == w * h);
    // The west and east columns, and the north and south rows.
    assert(codes_are_walls(codes, 0, 1, LEVEL_HEIGHT as nat)) by {
        reveal_with_fuel(codes_are_walls, 33);
    }
    assert(codes_are_walls(codes, (w - 1) * h, 1, LEVEL_HEIGHT as nat)) by {
        reveal_with_fuel(codes_are_walls, 33);
    }
    assert(codes_are_walls(codes, 0, h, LEVEL_WIDTH as nat)) by {
        reveal_with_fuel(codes_are_walls, 17);
    }
    assert(codes_are_walls(codes, h - 1, h, LEVEL_WIDTH as nat)) by {
        reveal_with_fuel(codes_are_walls, 17);
    }
    lemma_codes_are_walls(codes, 0, 1, LEVEL_HEIGHT as nat);
    lemma_codes_are_walls(codes, (w - 1) * h, 1, LEVEL_HEIGHT as nat);
    lemma_codes_are_walls(codes, 0, h, LEVEL_WIDTH as nat);
    lemma_codes_are_walls(codes, h - 1, h, LEVEL_WIDTH as nat);
    assert forall|x: int, y: int|
        in_level(x, y) && (x == 0 || x == w - 1 || y == 0 || y == h - 1) implies is_solid(
        #[trigger] tile_at(tiles, x, y),
    ) by {
        assert(tile_at(tiles, x, y) == code_tile(codes[x * h + y]));
        if x == 0 {
            assert(codes[0 + 1 * y] == codes[x * h + y]);
        } else if x == w - 1 {
            assert(codes[(w - 1) * h + 1 * y] == codes[x * h + y]);
        } else if y == 0 {
            assert(codes[0 + h * x] == codes[x * h + y]);
        } else {
            assert(codes[(h - 1) + h * x] == codes[x * h + y]);
        }
    }
}

} // verus!
