use collision2d::collider::Wall;
use collision2d::geometry::{Rect, Vec2i};
use collision2d::level::{Level, LevelError};
use collision2d::geometry::GeometryError;
use collision2d::tiles::{Tilemap, TilemapError, TILE_SIZE};

fn grid() -> Tilemap {
    let cells = vec![
        1, 1, 1, 1, //
        1, 0, 0, 2, //
        1, 0, 3, 1, //
    ];
    match Tilemap::new(Vec2i(0, 0), (4, 3), vec![false, true, true, false], cells) {
        Ok(map) => map,
        Err(e) => panic!("sound grid refused: {:?}", e),
    }
}

fn tile(x: i32, y: i32) -> Rect {
    Rect { x, y, w: 16, h: 16 }
}

#[test]
fn tile_size_is_sixteen() {
    assert_eq!(TILE_SIZE, 16);
}

#[test]
fn grid_of_the_wrong_size_is_refused() {
    let made = Tilemap::new(Vec2i(0, 0), (4, 3), vec![false, true], vec![0; 11]);
    assert_eq!(made.err(), Some(TilemapError::WrongSize));
    let made = Tilemap::new(Vec2i(0, 0), (usize::MAX, 2), vec![false, true], vec![0; 4]);
    assert_eq!(made.err(), Some(TilemapError::WrongSize));
    let made = Tilemap::new(Vec2i(0, 0), (0, 0), vec![], vec![0]);
    assert_eq!(made.err(), Some(TilemapError::WrongSize));
}

#[test]
fn grid_with_an_unknown_tile_is_refused_at_the_first_one() {
    let made = Tilemap::new(Vec2i(0, 0), (2, 2), vec![false, true], vec![0, 1, 2, 9]);
    assert_eq!(made.err(), Some(TilemapError::UnknownTile { cell: 2 }));
    let made = Tilemap::new(Vec2i(0, 0), (1, 1), vec![], vec![0]);
    assert_eq!(made.err(), Some(TilemapError::UnknownTile { cell: 0 }));
}

#[test]
fn wrong_size_is_reported_before_an_unknown_tile() {
    let made = Tilemap::new(Vec2i(0, 0), (2, 2), vec![false], vec![7, 7, 7]);
    assert_eq!(made.err(), Some(TilemapError::WrongSize));
}

#[test]
fn empty_grid_is_sound() {
    let map = Tilemap::new(Vec2i(5, 5), (0, 0), vec![], vec![]);
    assert!(map.is_ok());
    if let Ok(map) = map {
        assert_eq!(map.size(), (0, 0));
        assert_eq!(map.walls(), vec![]);
        assert_eq!(map.tile_and_bounds_at(Vec2i(5, 5)), (true, tile(5, 5)));
    }
}

#[test]
fn size_is_columns_then_rows() {
    assert_eq!(grid().size(), (4, 3));
}

#[test]
fn tile_inside_the_grid_is_solid_by_its_kind() {
    let map = grid();
    assert_eq!(map.tile_and_bounds_at(Vec2i(0, 0)), (true, tile(0, 0)));
    assert_eq!(map.tile_and_bounds_at(Vec2i(17, 16)), (false, tile(16, 16)));
    assert_eq!(map.tile_and_bounds_at(Vec2i(31, 31)), (false, tile(16, 16)));
    assert_eq!(map.tile_and_bounds_at(Vec2i(32, 31)), (false, tile(32, 16)));
    assert_eq!(map.tile_and_bounds_at(Vec2i(63, 16)), (true, tile(48, 16)));
    assert_eq!(map.tile_and_bounds_at(Vec2i(40, 47)), (false, tile(32, 32)));
    assert_eq!(map.tile_and_bounds_at(Vec2i(63, 47)), (true, tile(48, 32)));
}

#[test]
fn positions_outside_the_grid_are_solid_by_default() {
    let map = grid();
    assert_eq!(map.tile_and_bounds_at(Vec2i(64, 0)), (true, tile(64, 0)));
    assert_eq!(map.tile_and_bounds_at(Vec2i(0, 48)), (true, tile(0, 48)));
    assert_eq!(map.tile_and_bounds_at(Vec2i(20, 1000)), (true, tile(16, 992)));
}

#[test]
fn positions_before_the_origin_round_down() {
    let map = grid();
    assert_eq!(map.tile_and_bounds_at(Vec2i(-1, 20)), (true, tile(-16, 16)));
    assert_eq!(map.tile_and_bounds_at(Vec2i(-16, 20)), (true, tile(-16, 16)));
    assert_eq!(map.tile_and_bounds_at(Vec2i(-17, -1)), (true, tile(-32, -16)));
}

#[test]
fn outside_policy_can_be_overridden() {
    let mut map = grid();
    map.set_outside_solid(false);
    assert_eq!(map.tile_and_bounds_at(Vec2i(-1, 20)), (false, tile(-16, 16)));
    assert_eq!(map.tile_and_bounds_at(Vec2i(64, 0)), (false, tile(64, 0)));
    assert_eq!(map.tile_and_bounds_at(Vec2i(0, 0)), (true, tile(0, 0)));
    map.set_outside_solid(true);
    assert_eq!(map.tile_and_bounds_at(Vec2i(-1, 20)), (true, tile(-16, 16)));
}

#[test]
fn grid_origin_shifts_the_cells() {
    let map = Tilemap::new(Vec2i(100, -40), (2, 1), vec![false, true], vec![0, 1]);
    assert!(map.is_ok());
    if let Ok(map) = map {
        assert_eq!(map.tile_and_bounds_at(Vec2i(100, -40)), (false, tile(100, -40)));
        assert_eq!(map.tile_and_bounds_at(Vec2i(116, -25)), (true, tile(116, -40)));
        assert_eq!(map.tile_and_bounds_at(Vec2i(99, -40)), (true, tile(84, -40)));
        assert_eq!(map.tile_and_bounds_at(Vec2i(100, -24)), (true, tile(100, -24)));
        assert_eq!(map.walls(), vec![Wall { rect: tile(116, -40) }]);
    }
}

#[test]
fn far_cells_stop_at_the_end_of_the_range() {
    let map = grid();
    let (solid, bounds) = map.tile_and_bounds_at(Vec2i(i32::MIN + 5, i32::MAX));
    assert!(solid);
    assert_eq!(bounds, tile(i32::MIN, i32::MAX - 15));
}

#[test]
fn walls_are_the_solid_cells_row_by_row() {
    let walls: Vec<Rect> = grid().walls().iter().map(|w| w.rect).collect();
    assert_eq!(
        walls,
        vec![
            tile(0, 0),
            tile(16, 0),
            tile(32, 0),
            tile(48, 0),
            tile(0, 16),
            tile(48, 16),
            tile(0, 32),
            tile(48, 32),
        ]
    );
}

#[test]
fn level_from_tiles_has_the_solid_cells_as_walls() {
    let map = grid();
    let level = Level::from_tiles(&map, tile(200, 200), Vec2i(20, 20));
    assert_eq!(level.obstacles(), &map.walls());
    assert_eq!(level.exit(), tile(200, 200));
    assert_eq!(level.spawn(), Vec2i(20, 20));
}

#[test]
fn level_from_sound_extents() {
    let made = Level::from_extents(
        &vec![(0, 0, 269, 100), (0, 0, 150, 187), (5, 5, 0, 0)],
        (184, 100, 68, 175),
        Vec2i(170, 170),
    );
    assert!(made.is_ok());
    if let Ok(level) = made {
        assert_eq!(
            level.obstacles(),
            &vec![
                Wall { rect: Rect { x: 0, y: 0, w: 269, h: 100 } },
                Wall { rect: Rect { x: 0, y: 0, w: 150, h: 187 } },
                Wall { rect: Rect { x: 5, y: 5, w: 0, h: 0 } },
            ]
        );
        assert_eq!(level.exit(), Rect { x: 184, y: 100, w: 68, h: 175 });
        assert_eq!(level.spawn(), Vec2i(170, 170));
    }
}

#[test]
fn level_with_a_negative_extent_is_refused() {
    let made = Level::from_extents(
        &vec![(0, 0, 10, 10), (0, 0, 10, -1), (0, 0, -5, 10)],
        (0, 0, -1, 1),
        Vec2i(0, 0),
    );
    assert_eq!(
        made.err(),
        Some(LevelError::Obstacle { index: 1, reason: GeometryError::NegativeExtent })
    );
}

#[test]
fn level_with_an_oversized_extent_is_refused() {
    let made = Level::from_extents(&vec![(0, 0, 65_536, 10)], (0, 0, 1, 1), Vec2i(0, 0));
    assert_eq!(
        made.err(),
        Some(LevelError::Obstacle { index: 0, reason: GeometryError::ExtentTooLarge })
    );
}

#[test]
fn level_with_a_bad_exit_is_refused() {
    let made = Level::from_extents(&vec![(0, 0, 10, 10)], (0, 0, 1, -1), Vec2i(0, 0));
    assert_eq!(made.err(), Some(LevelError::Exit { reason: GeometryError::NegativeExtent }));
    let made = Level::from_extents(&vec![], (0, 0, 70_000, 1), Vec2i(0, 0));
    assert_eq!(made.err(), Some(LevelError::Exit { reason: GeometryError::ExtentTooLarge }));
}

#[test]
fn level_new_keeps_what_it_is_given() {
    let walls = vec![Wall { rect: tile(0, 0) }, Wall { rect: tile(16, 0) }];
    let level = Level::new(walls.clone(), tile(64, 64), Vec2i(3, 4));
    assert_eq!(level.obstacles(), &walls);
    assert_eq!(level.exit(), tile(64, 64));
    assert_eq!(level.spawn(), Vec2i(3, 4));
}
