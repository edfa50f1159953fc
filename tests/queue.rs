use tileworld::catalog::{TileCatalog, TileId, AIR, DIRT, GRASS, STONE};
use tileworld::layer::SIZE;
use tileworld::queue::TileChangeQueue;
use tileworld::world::World;

fn world_of(fore: TileId) -> World {
    let mut w = World::new();
    w.load_chunk(0, 0, &vec![(AIR, fore); SIZE]).unwrap();
    w
}

#[test]
fn last_write_wins() {
    let mut w = world_of(STONE);
    let mut q = TileChangeQueue::new();
    q.push(DIRT, 5, 5);
    q.push(AIR, 5, 5);
    q.drain_and_apply(&mut w);
    assert_eq!(w.kind_at(5, 5), Some(AIR));
    assert_eq!(q.len(), 0);
}

#[test]
fn edit_outside_loaded_chunks_is_dropped() {
    let mut w = world_of(STONE);
    let mut q = TileChangeQueue::new();
    q.push(DIRT, 500, 500);
    q.push(DIRT, -1, 0);
    q.drain_and_apply(&mut w);
    assert_eq!(q.len(), 0);
    assert_eq!(w.kind_at(0, 0), Some(STONE));
    assert_eq!(w.kind_at(63, 63), Some(STONE));
}

#[test]
fn edits_apply_in_order_to_their_cells() {
    let mut w = world_of(AIR);
    let mut q = TileChangeQueue::new();
    q.push(DIRT, 1, 1);
    q.push(GRASS, 2, 1);
    q.drain_and_apply(&mut w);
    assert_eq!(w.kind_at(1, 1), Some(DIRT));
    assert_eq!(w.kind_at(2, 1), Some(GRASS));
    assert_eq!(w.kind_at(3, 1), Some(AIR));
}

#[test]
fn process_runs_only_when_due() {
    let cat = TileCatalog::standard();
    let mut w = world_of(AIR);
    let mut q = TileChangeQueue::new();
    assert!(q.run_if_tiles_should_update());
    let first = q.process(&mut w, &cat).unwrap();
    assert_eq!(first.len(), 2 * SIZE);
    assert!(!q.run_if_tiles_should_update());
    assert!(q.process(&mut w, &cat).is_none());
    q.push(DIRT, 4, 4);
    assert!(q.run_if_tiles_should_update());
    let visuals = q.process(&mut w, &cat).unwrap();
    assert_eq!(w.kind_at(4, 4), Some(DIRT));
    let (_, fore) = w.tile_at(4, 4).unwrap();
    assert_eq!(visuals[fore as usize].unwrap().frame, 0);
    assert_eq!(q.len(), 0);
    q.request_update();
    assert!(q.run_if_tiles_should_update());
}

#[test]
fn queue_chunk_pushes_every_cell_column_by_column() {
    let mut w = World::new();
    w.load_chunk(3, 2, &vec![(AIR, AIR); SIZE]).unwrap();
    let mut cells = vec![(AIR, DIRT); SIZE];
    cells[1 + 2 * 64] = (AIR, GRASS);
    let mut q = TileChangeQueue::new();
    q.queue_chunk(&cells, 3, 2);
    assert_eq!(q.len(), SIZE);
    q.drain_and_apply(&mut w);
    assert_eq!(w.kind_at(3 * 64 + 1, 2 * 64 + 2), Some(GRASS));
    assert_eq!(w.kind_at(3 * 64, 2 * 64), Some(DIRT));
    assert_eq!(w.kind_at(3 * 64 + 63, 2 * 64 + 63), Some(DIRT));
}
