use tileworld::catalog::{AIR, DIRT, GRASS};
use tileworld::layer::SIZE;
use tileworld::terrain::{init_chunks, layered_cells, uniform_cells};

#[test]
fn starting_world_layout() {
    let w = init_chunks();
    assert_eq!(w.chunk_count(), 10);
    assert_eq!(w.tile_count(), 10 * 2 * SIZE);
    assert_eq!(w.kind_at(64, 64), Some(DIRT));
    assert_eq!(w.kind_at(3 * 64 + 63, 127), Some(DIRT));
    assert_eq!(w.kind_at(64 + 5, 128 + 9), Some(DIRT));
    assert_eq!(w.kind_at(64 + 5, 128 + 10), Some(GRASS));
    assert_eq!(w.kind_at(64 + 5, 128 + 11), Some(AIR));
    assert_eq!(w.kind_at(5, 128 + 10), Some(GRASS));
    assert_eq!(w.kind_at(128 + 5, 128 + 9), Some(GRASS));
    assert_eq!(w.kind_at(192 + 5, 128 + 11), Some(GRASS));
    assert_eq!(w.kind_at(192 + 5, 128 + 10), Some(DIRT));
    assert_eq!(w.kind_at(100, 200), Some(AIR));
    assert_eq!(w.kind_at(0, 0), None);
    assert_eq!(w.kind_at(5, 64), None);
    let (back, _) = w.tile_at(64, 64).unwrap();
    assert_eq!(w.kind_of(back), Some(AIR));
}

#[test]
fn terrain_cells() {
    let cells = layered_cells(10);
    assert_eq!(cells.len(), SIZE);
    assert_eq!(cells[9 * 64 + 3], (AIR, DIRT));
    assert_eq!(cells[10 * 64 + 3], (AIR, GRASS));
    assert_eq!(cells[11 * 64], (AIR, AIR));
    assert!(uniform_cells(GRASS).iter().all(|c| *c == (AIR, GRASS)));
}
