use tileworld::catalog::{TileCatalog, TileId, AIR, DIRT};
use tileworld::layer::SIZE;
use tileworld::physics::{
    count_solid_cells, impulse, read_intent, resolve_collisions, Collisions, JumpState, Probe,
    WalkState, JUMP_SPEED, WALK_SPEED,
};
use tileworld::world::World;

fn floor_world(floor_rows: usize) -> World {
    let cells: Vec<(TileId, TileId)> = (0..SIZE)
        .map(|i| (AIR, if i / 64 < floor_rows { DIRT } else { AIR }))
        .collect();
    let mut w = World::new();
    w.load_chunk(0, 0, &cells).unwrap();
    w
}

#[test]
fn resting_on_floor_lands() {
    let cat = TileCatalog::standard();
    let w = floor_world(10);
    let p = Probe { mob_x: 5, mob_y: 10, new_x: 5, new_y: 9, size_x: 1, size_y: 3 };
    let c = resolve_collisions(&w, &cat, p);
    assert_eq!(c, Collisions { vertical_hits: 2, horizontal: false });
}

#[test]
fn falling_in_open_air_meets_nothing() {
    let cat = TileCatalog::standard();
    let w = floor_world(10);
    let p = Probe { mob_x: 5, mob_y: 20, new_x: 5, new_y: 19, size_x: 1, size_y: 3 };
    assert_eq!(resolve_collisions(&w, &cat, p), Collisions { vertical_hits: 0, horizontal: false });
}

#[test]
fn walking_into_wall_is_stopped() {
    let cat = TileCatalog::standard();
    let mut cells = vec![(AIR, AIR); SIZE];
    cells[8 + 11 * 64] = (AIR, DIRT);
    let mut w = World::new();
    w.load_chunk(0, 0, &cells).unwrap();
    let p = Probe { mob_x: 6, mob_y: 10, new_x: 7, new_y: 10, size_x: 1, size_y: 3 };
    let c = resolve_collisions(&w, &cat, p);
    assert!(c.horizontal);
    assert_eq!(c.vertical_hits, 0);
}

#[test]
fn count_covers_whole_box() {
    let cat = TileCatalog::standard();
    let w = floor_world(64);
    assert_eq!(count_solid_cells(&w, &cat, 0, 0, 1, 3), 8);
    assert_eq!(count_solid_cells(&w, &cat, 62, 62, 1, 1), 4);
    assert_eq!(count_solid_cells(&w, &cat, 63, 63, 1, 1), 1);
    assert_eq!(count_solid_cells(&w, &cat, i64::MAX, 0, 2, 0), 0);
}

#[test]
fn impulse_only_when_grounded() {
    assert_eq!(impulse(true, JumpState::Requested, WalkState::Right), (WALK_SPEED, JUMP_SPEED));
    assert_eq!(impulse(true, JumpState::Idle, WalkState::Left), (-5, 0));
    assert_eq!(impulse(true, JumpState::Requested, WalkState::Idle), (0, 30));
    assert_eq!(impulse(false, JumpState::Requested, WalkState::Right), (0, 0));
}

#[test]
fn intent_from_keys() {
    assert_eq!(read_intent(true, false, false), (JumpState::Requested, WalkState::Idle));
    assert_eq!(read_intent(false, true, false), (JumpState::Idle, WalkState::Left));
    assert_eq!(read_intent(false, true, true), (JumpState::Idle, WalkState::Right));
    assert_eq!(WalkState::Left.direction(), -1);
}
