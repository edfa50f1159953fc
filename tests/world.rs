use tileworld::catalog::{TileCatalog, TileId, AIR, DIRT, GRASS, STONE};
use tileworld::layer::SIZE;
use tileworld::world::{LoadError, World};

fn filled(back: TileId, fore: TileId) -> Vec<(TileId, TileId)> {
    vec![(back, fore); SIZE]
}

#[test]
fn tile_at_and_kind_at_in_loaded_chunk() {
    let mut w = World::new();
    assert_eq!(w.load_chunk(0, 0, &filled(AIR, DIRT)), Ok(()));
    let (back, fore) = w.tile_at(3, 4).unwrap();
    assert_eq!(w.kind_of(back), Some(AIR));
    assert_eq!(w.kind_of(fore), Some(DIRT));
    assert_eq!(w.kind_at(3, 4), Some(DIRT));
    assert_eq!(w.tile_count(), 2 * SIZE);
    assert_eq!(w.chunk_count(), 1);
}

#[test]
fn unloaded_chunk_gives_none() {
    let mut w = World::new();
    w.load_chunk(0, 0, &filled(AIR, DIRT)).unwrap();
    assert_eq!(w.tile_at(64, 0), None);
    assert_eq!(w.tile_at(-1, 0), None);
    assert_eq!(w.kind_at(0, -1), None);
    assert_eq!(w.find_tile(1_000_000), None);
}

#[test]
fn negative_chunks_use_floored_coordinates() {
    let mut w = World::new();
    let mut cells = filled(AIR, AIR);
    cells[63 + 63 * 64] = (AIR, STONE);
    w.load_chunk(-1, -1, &cells).unwrap();
    assert_eq!(w.kind_at(-1, -1), Some(STONE));
    assert_eq!(w.kind_at(-64, -64), Some(AIR));
    let (_, fore) = w.tile_at(-1, -1).unwrap();
    assert_eq!(w.find_tile(fore), Some((-1, -1)));
}

#[test]
fn find_tile_reports_absolute_position() {
    let mut w = World::new();
    w.load_chunk(0, 0, &filled(AIR, DIRT)).unwrap();
    w.load_chunk(2, 1, &filled(AIR, GRASS)).unwrap();
    let (back, fore) = w.tile_at(130, 70).unwrap();
    assert_eq!(w.find_tile(fore), Some((130, 70)));
    assert_eq!(w.find_tile(back), Some((130, 70)));
    assert_eq!(w.find_chunk(2, 1).unwrap().find(fore), Some((2, 6)));
    assert!(w.find_chunk(1, 1).is_none());
}

#[test]
fn load_errors() {
    let mut w = World::new();
    assert_eq!(w.load_chunk(i64::MAX, 0, &filled(AIR, DIRT)), Err(LoadError::OutOfRange));
    assert_eq!(w.load_chunk(0, 0, &vec![(AIR, DIRT); 10]), Err(LoadError::WrongSize));
    let mut bad = filled(AIR, DIRT);
    bad[100] = (AIR, 9);
    assert_eq!(w.load_chunk(0, 0, &bad), Err(LoadError::UnknownTile));
    assert_eq!(w.chunk_count(), 0);
    assert_eq!(w.tile_count(), 0);
    w.load_chunk(0, 0, &filled(AIR, DIRT)).unwrap();
    assert_eq!(w.load_chunk(0, 0, &filled(AIR, GRASS)), Err(LoadError::AlreadyLoaded));
    assert_eq!(w.kind_at(0, 0), Some(DIRT));
}

#[test]
fn set_kind_changes_one_record() {
    let mut w = World::new();
    w.load_chunk(0, 0, &filled(AIR, DIRT)).unwrap();
    let (_, fore) = w.tile_at(1, 1).unwrap();
    assert!(w.set_kind(fore, GRASS));
    assert_eq!(w.kind_at(1, 1), Some(GRASS));
    assert_eq!(w.kind_at(2, 1), Some(DIRT));
    assert!(!w.set_kind(1_000_000, GRASS));
}

#[test]
fn standard_catalog_flags() {
    let cat = TileCatalog::standard();
    assert!(!cat.by_id(AIR).solid);
    assert!(!cat.by_id(AIR).smooths);
    assert!(cat.by_id(DIRT).solid && cat.by_id(DIRT).smooths);
    let t = cat.make_tile(STONE);
    assert_eq!(t.id, STONE);
    assert!(cat.by_tile(&t).solid);
}
