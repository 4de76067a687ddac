use raycaster::level::{standard_level, Coord, Level, LevelTile, SolidTile, LEVEL_HEIGHT, LEVEL_WIDTH};
use raycaster::raycast::{cast_ray, ray_fits, Axis, RayWalk, RAY_STEP_BUDGET};

#[test]
fn walk_hits_green_wall() {
    let level = standard_level();
    let mut walk = RayWalk::new(Coord { x: 6, y: 6 }, true, true);
    assert_eq!(walk.steps_left(), RAY_STEP_BUDGET);
    // (7, 6) is a green wall.
    let hit = walk.advance(&level, Axis::X);
    assert_eq!(hit, Some(SolidTile::Color(0, 255, 0)));
    assert_eq!(walk.coord(), Coord { x: 7, y: 6 });
    assert_eq!(walk.steps_left(), RAY_STEP_BUDGET - 1);
}

#[test]
fn walk_moves_against_step_direction() {
    let level = standard_level();
    let mut walk = RayWalk::new(Coord { x: 6, y: 6 }, false, false);
    assert_eq!(walk.advance(&level, Axis::Y), None);
    assert_eq!(walk.coord(), Coord { x: 6, y: 5 });
    assert_eq!(walk.advance(&level, Axis::X), None);
    assert_eq!(walk.coord(), Coord { x: 5, y: 5 });
}

#[test]
fn budget_is_width_plus_height() {
    assert_eq!(RAY_STEP_BUDGET, LEVEL_WIDTH + LEVEL_HEIGHT);
}

#[test]
fn walk_outside_level_never_hits() {
    let level = standard_level();
    let mut walk = RayWalk::new(Coord { x: 100, y: 100 }, true, false);
    let mut n = 0;
    while walk.steps_left() > 0 {
        let axis = if n % 2 == 0 { Axis::X } else { Axis::Y };
        assert_eq!(walk.advance(&level, axis), None);
        n += 1;
    }
    assert_eq!(n, RAY_STEP_BUDGET);
    assert_eq!(walk.coord(), Coord { x: 124, y: 76 });
}

#[test]
fn enclosed_level_rays_always_hit() {
    // Every interior start, every direction, a few axis patterns.
    let level = standard_level();
    let patterns: [fn(usize) -> Axis; 3] = [
        |_| Axis::X,
        |_| Axis::Y,
        |i| if i % 3 == 0 { Axis::Y } else { Axis::X },
    ];
    for x in 1..(LEVEL_WIDTH as i32 - 1) {
        for y in 1..(LEVEL_HEIGHT as i32 - 1) {
            for dir in 0..4 {
                for pattern in patterns.iter() {
                    let mut walk = RayWalk::new(Coord { x, y }, dir & 1 == 0, dir & 2 == 0);
                    let mut hit = None;
                    let mut i = 0;
                    while walk.steps_left() > 0 {
                        if let Some(t) = walk.advance(&level, pattern(i)) {
                            hit = Some(t);
                            break;
                        }
                        i += 1;
                    }
                    assert!(hit.is_some());
                }
            }
        }
    }
}

#[test]
fn open_level_ray_exhausts_budget() {
    let level = Level::from_tiles(vec![LevelTile::Empty; LEVEL_WIDTH * LEVEL_HEIGHT]).unwrap();
    let mut walk = RayWalk::new(Coord { x: 5, y: 5 }, true, true);
    while walk.steps_left() > 0 {
        assert_eq!(walk.advance(&level, Axis::Y), None);
    }
    assert_eq!(walk.coord(), Coord { x: 5, y: 5 + RAY_STEP_BUDGET as i32 });
}

fn dda_axes(pattern: impl Fn(usize) -> Axis) -> Vec<Axis> {
    (0..RAY_STEP_BUDGET).map(pattern).collect()
}

#[test]
fn cast_ray_stops_at_first_wall() {
    let level = standard_level();
    let axes = dda_axes(|_| Axis::Y);
    // From (6, 5) heading to lower y: (6, 4) ... (6, 2) are open, (6, 1) is the eagle.
    assert!(ray_fits(Coord { x: 6, y: 5 }, true, false, &axes));
    let (hit, c) = cast_ray(&level, Coord { x: 6, y: 5 }, true, false, &axes);
    assert_eq!(hit, Some((Axis::Y, SolidTile::Textured(2))));
    assert_eq!(c, Coord { x: 6, y: 1 });
    // Heading to higher x from (6, 5): (7, 5) is bluestone.
    let axes = dda_axes(|_| Axis::X);
    let (hit, c) = cast_ray(&level, Coord { x: 6, y: 5 }, true, true, &axes);
    assert_eq!(hit, Some((Axis::X, SolidTile::Textured(0))));
    assert_eq!(c, Coord { x: 7, y: 5 });
}

#[test]
fn cast_ray_without_wall_walks_all_axes() {
    let level = Level::from_tiles(vec![LevelTile::Empty; LEVEL_WIDTH * LEVEL_HEIGHT]).unwrap();
    let axes = dda_axes(|i| if i % 4 == 0 { Axis::X } else { Axis::Y });
    let (hit, c) = cast_ray(&level, Coord { x: 3, y: 3 }, false, true, &axes);
    assert_eq!(hit, None);
    assert_eq!(c, Coord { x: 3 - 12, y: 3 + 36 });
    // Fewer axes than the budget walk just those.
    let (hit, c) = cast_ray(&level, Coord { x: 3, y: 3 }, true, true, &vec![Axis::X, Axis::X]);
    assert_eq!(hit, None);
    assert_eq!(c, Coord { x: 5, y: 3 });
}

#[test]
fn ray_fits_checks_i32_range() {
    let axes = dda_axes(|_| Axis::X);
    assert!(ray_fits(Coord { x: i32::MAX - 48, y: 0 }, true, true, &axes));
    assert!(!ray_fits(Coord { x: i32::MAX - 47, y: 0 }, true, true, &axes));
    assert!(ray_fits(Coord { x: i32::MAX, y: 0 }, false, true, &axes));
    assert!(!ray_fits(Coord { x: i32::MIN + 47, y: 0 }, false, true, &axes));
    assert!(ray_fits(Coord { x: 0, y: i32::MIN }, true, false, &axes));
}

#[test]
fn cast_ray_hits_from_every_inner_cell() {
    let level = standard_level();
    for x in 1..(LEVEL_WIDTH as i32 - 1) {
        for y in 1..(LEVEL_HEIGHT as i32 - 1) {
            for dir in 0..4 {
                let axes = dda_axes(|i| if (i + x as usize) % 3 == 0 { Axis::X } else { Axis::Y });
                let (hit, _) = cast_ray(&level, Coord { x, y }, dir & 1 == 0, dir & 2 == 0, &axes);
                assert!(hit.is_some());
            }
        }
    }
}
