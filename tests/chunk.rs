use tileworld::chunk::{Chunk, HEIGHT, WIDTH};
use tileworld::layer::{Layer, TileHandle, SIZE};

fn distinct_cells(base: u64) -> Vec<(TileHandle, TileHandle)> {
    (0..SIZE as u64).map(|i| (base + 2 * i, base + 2 * i + 1)).collect()
}

#[test]
fn at_reads_row_major_cells() {
    let c = Chunk::new(distinct_cells(0), 1, 2);
    assert_eq!(c.at(0, 0), Some((0, 1)));
    assert_eq!(c.at(1, 0), Some((2, 3)));
    assert_eq!(c.at(0, 1), Some((128, 129)));
    assert_eq!(c.at(63, 63), Some((8190, 8191)));
    assert_eq!((c.x_pos(), c.y_pos()), (1, 2));
}

#[test]
fn at_out_of_bounds_is_none() {
    let c = Chunk::new(distinct_cells(0), 0, 0);
    assert_eq!(c.at(WIDTH, 0), None);
    assert_eq!(c.at(0, HEIGHT), None);
    assert_eq!(c.at(usize::MAX, 3), None);
}

#[test]
fn find_round_trips_every_cell() {
    let c = Chunk::new(distinct_cells(10), 0, 0);
    for y in 0..HEIGHT {
        for x in 0..WIDTH {
            let (back, fore) = c.at(x, y).unwrap();
            assert_eq!(c.find(fore), Some((x, y)));
            assert_eq!(c.find(back), Some((x, y)));
        }
    }
}

#[test]
fn find_absent_handle_is_none() {
    let c = Chunk::new(distinct_cells(0), 0, 0);
    assert_eq!(c.find(9), Some((4, 0)));
    assert_eq!(c.find(100_000), None);
}

#[test]
fn replace_at_returns_prior_and_patches_index() {
    let mut c = Chunk::new(distinct_cells(0), 0, 0);
    let prior = c.at(5, 7).unwrap().1;
    assert_eq!(c.replace_at(5, 7, 50_000), Some(prior));
    assert_eq!(c.at(5, 7).unwrap().1, 50_000);
    assert_eq!(c.find(50_000), Some((5, 7)));
    assert_eq!(c.find(prior), None);
    assert_ne!(c.find(prior), Some((5, 7)));
}

#[test]
fn replace_at_out_of_bounds_changes_nothing() {
    let mut c = Chunk::new(distinct_cells(0), 0, 0);
    assert_eq!(c.replace_at(64, 0, 50_000), None);
    assert_eq!(c.find(50_000), None);
    assert_eq!(c.at(0, 0), Some((0, 1)));
}

#[test]
fn replace_twice_returns_each_prior_once() {
    let mut c = Chunk::new(distinct_cells(0), 0, 0);
    let first = c.at(2, 2).unwrap().1;
    assert_eq!(c.replace_at(2, 2, 60_000), Some(first));
    assert_eq!(c.replace_at(2, 2, 60_001), Some(60_000));
    assert_eq!(c.find(60_000), None);
    assert_eq!(c.find(60_001), Some((2, 2)));
}

#[test]
fn duplicate_handles_resolve_to_one_of_their_slots() {
    let mut cells = distinct_cells(0);
    cells[3].1 = 7;
    cells[70].1 = 7;
    let c = Chunk::new(cells, 0, 0);
    let found = c.find(7).unwrap();
    assert!(found == (3, 0) || found == (6, 1));
}

#[test]
fn replacing_one_duplicate_keeps_the_other_findable() {
    let mut cells = distinct_cells(0);
    cells[3].1 = 7;
    cells[70].1 = 7;
    let mut c = Chunk::new(cells, 0, 0);
    c.replace_at(6, 1, 90_000);
    assert_eq!(c.find(7), Some((3, 0)));
    c.replace_at(3, 0, 90_001);
    assert_eq!(c.find(7), None);
}

#[test]
fn layer_find_and_replace() {
    let mut l = Layer::new((0..SIZE as u64).collect());
    assert_eq!(l.find(17), Some(17));
    assert_eq!(l.replace(17, 5000), 17);
    assert_eq!(l.get(17), 5000);
    assert_eq!(l.find(17), None);
    assert_eq!(l.find(5000), Some(17));
}
