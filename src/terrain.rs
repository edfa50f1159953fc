//! The world the game starts with: ten chunks around the origin, solid dirt
//! below, a surface row of grass, and open air above.
use crate::catalog::{TileId, AIR, BLOCKS, DIRT, GRASS};
use crate::chunk::slot_of;
use crate::coords::{chunk_of, lemma_join_then_split, lemma_split_then_join, local_of};
use crate::layer::SIZE;
use crate::world::{load_error, World};
use vstd::prelude::*;

verus! {

/// Number of chunks in the starting world.
pub const START_CHUNKS: usize = 10;

/// Chunk coordinate of the `k`-th chunk of the starting world.
pub open spec fn layout_coords(k: int) -> (int, int) {
    if k == 0 {
        (1, 1)
    } else if k == 1 {
        (2, 1)
    } else if k == 2 {
        (3, 1)
    } else if k == 3 {
        (1, 2)
    } else if k == 4 {
        (0, 2)
    } else if k == 5 {
        (2, 2)
    } else if k == 6 {
        (3, 2)
    } else if k == 7 {
        (1, 3)
    } else if k == 8 {
        (2, 3)
    } else {
        (3, 3)
    }
}

/// Which chunk of the starting world sits at `(cx, cy)`, or -1.
pub open spec fn layout_index(cx: int, cy: int) -> int {
    if cy == 1 && 1 <= cx <= 3 {
        cx - 1
    } else if cy == 2 && cx == 1 {
        3
    } else if cy == 2 && cx == 0 {
        4
    } else if cy == 2 && 2 <= cx <= 3 {
        cx + 3
    } else if cy == 3 && 1 <= cx <= 3 {
        cx + 6
    } else {
        -1
    }
}

/// Foreground kind of a tile in local row `row` of layered terrain whose
/// grass is on row `grass_row`.
pub open spec fn layered_kind(row: int, grass_row: int) -> TileId {
    if row < grass_row {
        DIRT
    } else if row == grass_row {
        GRASS
    } else {
        AIR
    }
}

/// Foreground kind of local row `row` in the `k`-th chunk of the starting
/// world: the bottom row of chunks is dirt, the middle row layered with its
/// grass on rows 10, 10, 9 and 11, the top row air.
pub open spec fn row_kind(k: int, row: int) -> TileId {
    if k < 3 {
        DIRT
    } else if k == 3 || k == 4 {
        layered_kind(row, 10)
    } else if k == 5 {
        layered_kind(row, 9)
    } else if k == 6 {
        layered_kind(row, 11)
    } else {
        AIR
    }
}

/// Foreground kind at absolute `(x, y)` in the starting world.
pub open spec fn initial_foreground(x: int, y: int) -> Option<TileId> {
    let k = layout_index(chunk_of(x), chunk_of(y));
    if k >= 0 {
        Some(row_kind(k, local_of(y)))
    } else {
        None
    }
}

/// Background kind at absolute `(x, y)` in the starting world: air wherever
/// a chunk is loaded.
pub open spec fn initial_background(x: int, y: int) -> Option<TileId> {
    if layout_index(chunk_of(x), chunk_of(y)) >= 0 {
        Some(AIR)
    } else {
        None
    }
}

fn layout_coords_exec(k: usize) -> (r: (i64, i64))
    requires
        k < START_CHUNKS,
    ensures
        r.0 == layout_coords(k as int).0,
        r.1 == layout_coords(k as int).1,
        layout_index(r.0 as int, r.1 as int) == k,
{
    if k == 0 {
        (1, 1)
    } else if k == 1 {
        (2, 1)
    } else if k == 2 {
        (3, 1)
    } else if k == 3 {
        (1, 2)
    } else if k == 4 {
        (0, 2)
    } else if k == 5 {
        (2, 2)
    } else if k == 6 {
        (3, 2)
    } else if k == 7 {
        (1, 3)
    } else if k == 8 {
        (2, 3)
    } else {
        (3, 3)
    }
}

/// Cells of layered terrain: background air; foreground dirt below row
/// `grass_row`, grass on it, air above.
pub fn layered_cells(grass_row: usize) -> (r: Vec<(TileId, TileId)>)
    ensures
        r@.len() == SIZE,
        forall|i: int| 0 <= i < SIZE ==> #[trigger] r@[i] == (AIR, layered_kind(i / 64, grass_row as int)),
{
    let mut out: Vec<(TileId, TileId)> = Vec::new();
    let mut i: usize = 0;
    while i < SIZE
        invariant
            i <= SIZE,
            out@.len() == i,
            forall|j: int| 0 <= j < i ==> #[trigger] out@[j] == (AIR, layered_kind(j / 64, grass_row as int)),
        decreases SIZE - i,
    {
        let row = i / 64;
        let fore = if row < grass_row {
            DIRT
        } else if row == grass_row {
            GRASS
        } else {
            AIR
        };
        out.push((AIR, fore));
        i = i + 1;
    }
    out
}

/// Cells with a background of air and a foreground of `fore` throughout.
pub fn uniform_cells(fore: TileId) -> (r: Vec<(TileId, TileId)>)
    ensures
        r@.len() == SIZE,
        forall|i: int| 0 <= i < SIZE ==> #[trigger] r@[i] == (AIR, fore),
{
    let mut out: Vec<(TileId, TileId)> = Vec::new();
    let mut i: usize = 0;
    while i < SIZE
        invariant
            i <= SIZE,
            out@.len() == i,
            forall|j: int| 0 <= j < i ==> #[trigger] out@[j] == (AIR, fore),
        decreases SIZE - i,
    {
        out.push((AIR, fore));
        i = i + 1;
    }
    out
}

fn layout_cells(k: usize) -> (r: Vec<(TileId, TileId)>)
    requires
        k < START_CHUNKS,
    ensures
        r@.len() == SIZE,
        forall|i: int| 0 <= i < SIZE ==> #[trigger] r@[i] == (AIR, row_kind(k as int, i / 64)),
{
    if k < 3 {
        uniform_cells(DIRT)
    } else if k == 3 || k == 4 {
        layered_cells(10)
    } else if k == 5 {
        layered_cells(9)
    } else if k == 6 {
        layered_cells(11)
    } else {
        uniform_cells(AIR)
    }
}

/// The starting world.
pub fn init_chunks() -> (r: World)
    ensures
        r.wf(),
        forall|x: int, y: int|
            #![trigger r.spec_tile_at(x, y)]
            r.foreground_kind_at(x, y) == initial_foreground(x, y) && r.background_kind_at(x, y)
                == initial_background(x, y),
{
    let mut w = World::new();
    let mut k: usize = 0;
    while k < START_CHUNKS
        invariant
            w.wf(),
            k <= START_CHUNKS,
            w.kinds().len() == 8192 * k,
            forall|x: int, y: int|
                #![trigger w.spec_tile_at(x, y)]
                ({
                    let i = layout_index(chunk_of(x), chunk_of(y));
                    if 0 <= i < k {
                        &&& w.foreground_kind_at(x, y) == Some(row_kind(i, local_of(y)))
                        &&& w.background_kind_at(x, y) == Some(AIR)
                        &&& w.is_loaded(chunk_of(x), chunk_of(y))
                    } else {
                        &&& w.foreground_kind_at(x, y).is_none()
                        &&& w.background_kind_at(x, y).is_none()
                        &&& !w.is_loaded(chunk_of(x), chunk_of(y))
                    }
                }),
        decreases START_CHUNKS - k,
    {
        let (cx, cy) = layout_coords_exec(k);
        let cells = layout_cells(k);
        let ghost before = w;
        proof {
            lemma_join_then_split(cx as int, 0);
            lemma_join_then_split(cy as int, 0);
            // the chunk's corner cell is not loaded yet
            assert(before.spec_tile_at(cx * 64 + 0, cy * 64 + 0) is None);
            assert(!before.is_loaded(cx as int, cy as int));
            assert forall|i: int| 0 <= i < cells@.len() implies !(#[trigger] cells@[i].0 >= BLOCKS || cells@[i].1
                >= BLOCKS) by {}
            assert(crate::coords::chunk_coord_in_range(cx as int));
            assert(crate::coords::chunk_coord_in_range(cy as int));
            assert(cells@.len() == SIZE);
            assert(usize::MAX >= 0xffff_ffff);
            assert(k < 10);
            assert(w.kinds().len() <= 81920) by (nonlinear_arith)
                requires
                    w.kinds().len() == 8192 * k,
                    k < 10,
                    SIZE == 4096,
            ;
            assert(w.kinds().len() + 2 * SIZE <= usize::MAX);
            assert(crate::world::load_error(w, cx as int, cy as int, cells@).is_none());
        }
        let res = w.load_chunk(cx, cy, &cells);
        match res {
            Ok(()) => {},
            Err(_) => {
                proof {
                    assert(false);
                }
            },
        }
        proof {
            assert forall|x: int, y: int|
                #![trigger w.spec_tile_at(x, y)]
                ({
                    let i = layout_index(chunk_of(x), chunk_of(y));
                    if 0 <= i < k + 1 {
                        &&& w.foreground_kind_at(x, y) == Some(row_kind(i, local_of(y)))
                        &&& w.background_kind_at(x, y) == Some(AIR)
                        &&& w.is_loaded(chunk_of(x), chunk_of(y))
                    } else {
                        &&& w.foreground_kind_at(x, y).is_none()
                        &&& w.background_kind_at(x, y).is_none()
                        &&& !w.is_loaded(chunk_of(x), chunk_of(y))
                    }
                }) by {
                if chunk_of(x) == cx && chunk_of(y) == cy {
                    lemma_split_then_join(x);
                    lemma_split_then_join(y);
                    let s = slot_of(local_of(x), local_of(y));
                    vstd::arithmetic::div_mod::lemma_fundamental_div_mod_converse(s, 64, local_of(y), local_of(x));
                    assert(cells@[s] == (AIR, row_kind(k as int, local_of(y))));
                }
            }
        }
        k = k + 1;
    }
    proof {
        assert forall|x: int, y: int|
            #![trigger w.spec_tile_at(x, y)]
            w.foreground_kind_at(x, y) == initial_foreground(x, y) && w.background_kind_at(x, y)
                == initial_background(x, y) by {
            let i = layout_index(chunk_of(x), chunk_of(y));
            assert(i < 10);
        }
    }
    w
}

} // verus!
