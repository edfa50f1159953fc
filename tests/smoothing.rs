use tileworld::catalog::{TileCatalog, TileId, AIR, DIRT, GRASS};
use tileworld::layer::SIZE;
use tileworld::smoothing::{retile, smoothing_mask, smooths_at_cell, tile_visual, TileVisual};
use tileworld::world::World;

fn scenario_cells() -> Vec<(TileId, TileId)> {
    (0..SIZE)
        .map(|i| {
            let y = i / 64;
            let fore = if y < 10 {
                DIRT
            } else if y == 10 {
                GRASS
            } else {
                AIR
            };
            (AIR, fore)
        })
        .collect()
}

#[test]
fn grass_row_scenario() {
    let cat = TileCatalog::standard();
    let mut w = World::new();
    w.load_chunk(0, 0, &scenario_cells()).unwrap();
    let (_, grass) = w.tile_at(5, 10).unwrap();
    assert_eq!(w.kind_of(grass), Some(GRASS));
    assert_eq!(w.find_tile(grass), Some((5, 10)));
    assert_eq!(w.kind_at(5, 11), Some(AIR));
    assert!(!smooths_at_cell(&w, &cat, 5, 11));
    let mask = smoothing_mask(&w, &cat, 5, 10);
    assert_eq!(mask & 1, 0);
    assert_eq!(mask, 2 | 4 | 8);
    assert_eq!(tile_visual(&w, &cat, grass), Some(TileVisual { x: 5, y: 10, frame: 14 }));
}

#[test]
fn all_neighbours_smooth_gives_fifteen() {
    let cat = TileCatalog::standard();
    let mut w = World::new();
    w.load_chunk(0, 0, &vec![(AIR, DIRT); SIZE]).unwrap();
    assert_eq!(smoothing_mask(&w, &cat, 10, 10), 15);
    let (_, fore) = w.tile_at(10, 10).unwrap();
    assert_eq!(tile_visual(&w, &cat, fore).unwrap().frame, 15);
}

#[test]
fn no_smoothing_neighbour_gives_zero() {
    let cat = TileCatalog::standard();
    let mut w = World::new();
    let mut cells = vec![(AIR, AIR); SIZE];
    cells[10 + 10 * 64] = (AIR, DIRT);
    w.load_chunk(0, 0, &cells).unwrap();
    assert_eq!(smoothing_mask(&w, &cat, 10, 10), 0);
    let (_, fore) = w.tile_at(10, 10).unwrap();
    assert_eq!(tile_visual(&w, &cat, fore), Some(TileVisual { x: 10, y: 10, frame: 0 }));
}

#[test]
fn unloaded_neighbour_contributes_nothing() {
    let cat = TileCatalog::standard();
    let mut w = World::new();
    w.load_chunk(0, 0, &vec![(AIR, DIRT); SIZE]).unwrap();
    assert_eq!(smoothing_mask(&w, &cat, 0, 0), 1 | 4);
    assert_eq!(smoothing_mask(&w, &cat, 63, 63), 2 | 8);
    assert_eq!(smoothing_mask(&w, &cat, i64::MAX, i64::MIN), 0);
}

#[test]
fn neighbours_across_chunk_boundary() {
    let cat = TileCatalog::standard();
    let mut w = World::new();
    w.load_chunk(0, 0, &vec![(AIR, DIRT); SIZE]).unwrap();
    w.load_chunk(-1, 0, &vec![(AIR, DIRT); SIZE]).unwrap();
    assert_eq!(smoothing_mask(&w, &cat, 0, 5), 15);
    assert_eq!(smoothing_mask(&w, &cat, -1, 5), 15);
}

#[test]
fn non_smoothing_tile_shows_frame_zero() {
    let cat = TileCatalog::standard();
    let mut w = World::new();
    let mut cells = vec![(AIR, DIRT); SIZE];
    cells[20 + 20 * 64] = (AIR, AIR);
    w.load_chunk(0, 0, &cells).unwrap();
    let (back, fore) = w.tile_at(20, 20).unwrap();
    assert_eq!(tile_visual(&w, &cat, fore), Some(TileVisual { x: 20, y: 20, frame: 0 }));
    assert_eq!(tile_visual(&w, &cat, back), Some(TileVisual { x: 20, y: 20, frame: 0 }));
}

#[test]
fn retile_covers_every_record() {
    let cat = TileCatalog::standard();
    let mut w = World::new();
    w.load_chunk(1, 0, &vec![(AIR, DIRT); SIZE]).unwrap();
    let visuals = retile(&w, &cat);
    assert_eq!(visuals.len(), 2 * SIZE);
    assert_eq!(visuals[1], Some(TileVisual { x: 64, y: 0, frame: 1 | 4 }));
    assert_eq!(visuals[0], Some(TileVisual { x: 64, y: 0, frame: 0 }));
    assert_eq!(tile_visual(&w, &cat, 1_000_000), None);
}
